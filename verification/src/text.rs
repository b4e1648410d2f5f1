//! Character-sequence helpers: decimal formatting, trimming, splitting and
//! joining, with their meaning stated over `Seq<char>`.
use vstd::prelude::*;

verus! {

/// The ASCII digit for `d` (`0 <= d < 10`).
pub open spec fn digit_char(d: int) -> char {
    if d == 0 { '0' }
    else if d == 1 { '1' }
    else if d == 2 { '2' }
    else if d == 3 { '3' }
    else if d == 4 { '4' }
    else if d == 5 { '5' }
    else if d == 6 { '6' }
    else if d == 7 { '7' }
    else if d == 8 { '8' }
    else { '9' }
}

/// The shortest decimal rendering of `n`, as `u64::to_string` writes it.
pub open spec fn decimal(n: nat) -> Seq<char>
    decreases n,
{
    if n < 10 {
        seq![digit_char(n as int)]
    } else {
        decimal(n / 10).push(digit_char((n % 10) as int))
    }
}

/// The decimal rendering of a signed integer, with a leading `-` when negative.
pub open spec fn signed_decimal(n: int) -> Seq<char> {
    if n < 0 {
        seq!['-'] + decimal((-n) as nat)
    } else {
        decimal(n as nat)
    }
}

fn digit_str(d: u64) -> (r: &'static str)
    requires
        d < 10,
    ensures
        r@ == seq![digit_char(d as int)],
{
    proof {
        reveal_strlit("0");
        reveal_strlit("1");
        reveal_strlit("2");
        reveal_strlit("3");
        reveal_strlit("4");
        reveal_strlit("5");
        reveal_strlit("6");
        reveal_strlit("7");
        reveal_strlit("8");
        reveal_strlit("9");
    }
    if d == 0 { "0" }
    else if d == 1 { "1" }
    else if d == 2 { "2" }
    else if d == 3 { "3" }
    else if d == 4 { "4" }
    else if d == 5 { "5" }
    else if d == 6 { "6" }
    else if d == 7 { "7" }
    else if d == 8 { "8" }
    else { "9" }
}

/// Render `n` in decimal.
pub fn u64_to_decimal(n: u64) -> (s: String)
    ensures
        s@ == decimal(n as nat),
{
    let mut s = String::new();
    let mut m: u64 = n;
    loop
        invariant
            decimal(n as nat) == decimal(m as nat) + s@,
        decreases m,
    {
        let d = m % 10;
        let ds = digit_str(d);
        let t = String::from_str(ds);
        s = t.concat(s.as_str());
        let next = m / 10;
        if m < 10 {
            assert(decimal(m as nat) == seq![digit_char(d as int)]);
            assert(decimal(n as nat) == s@);
            return s;
        }
        m = next;
    }
}

/// Render a signed `n` in decimal.
pub fn i64_to_decimal(n: i64) -> (s: String)
    ensures
        s@ == signed_decimal(n as int),
{
    if n < 0 {
        let m: u64 = (0i128 - (n as i128)) as u64;
        let digits = u64_to_decimal(m);
        let t = String::from_str("-");
        proof {
            reveal_strlit("-");
        }
        t.concat(digits.as_str())
    } else {
        u64_to_decimal(n as u64)
    }
}


/// Render a 128-bit `n` in decimal.
pub fn u128_to_decimal(n: u128) -> (s: String)
    ensures
        s@ == decimal(n as nat),
{
    let mut s = String::new();
    let mut m: u128 = n;
    loop
        invariant
            decimal(n as nat) == decimal(m as nat) + s@,
        decreases m,
    {
        let d = (m % 10) as u64;
        let ds = digit_str(d);
        let t = String::from_str(ds);
        s = t.concat(s.as_str());
        let next = m / 10;
        if m < 10 {
            assert(decimal(m as nat) == seq![digit_char(d as int)]);
            assert(decimal(n as nat) == s@);
            return s;
        }
        m = next;
    }
}

/// Render a signed 128-bit `n` in decimal.
pub fn i128_to_decimal(n: i128) -> (s: String)
    ensures
        s@ == signed_decimal(n as int),
{
    if n < 0 {
        let m: u128 = ((0i128 - (n + 1)) as u128) + 1;
        let digits = u128_to_decimal(m);
        let t = String::from_str("-");
        proof {
            reveal_strlit("-");
        }
        t.concat(digits.as_str())
    } else {
        u128_to_decimal(n as u128)
    }
}

/// `String` holding the characters of `a`.
pub fn owned(a: &str) -> (r: String)
    ensures
        r@ == a@,
{
    String::from_str(a)
}

/// `a` followed by `b`.
pub fn cat(a: &str, b: &str) -> (r: String)
    ensures
        r@ == a@ + b@,
{
    String::from_str(a).concat(b)
}

/// `a`, `b` and `c` one after the other.
pub fn cat3(a: &str, b: &str, c: &str) -> (r: String)
    ensures
        r@ == a@ + b@ + c@,
{
    String::from_str(a).concat(b).concat(c)
}

/// Equality of two character sequences.
pub fn str_eq(a: &str, b: &str) -> (r: bool)
    ensures
        r == (a@ == b@),
{
    let x = String::from_str(a);
    let y = String::from_str(b);
    x == y
}

/// Unicode `White_Space`, the property that `char::is_whitespace` tests.
pub open spec fn is_ws(c: char) -> bool {
    let u = c as u32;
    (0x9 <= u && u <= 0xd) || u == 0x20 || u == 0x85 || u == 0xa0 || u == 0x1680
        || (0x2000 <= u && u <= 0x200a) || u == 0x2028 || u == 0x2029 || u == 0x202f
        || u == 0x205f || u == 0x3000
}

/// Whether `c` is Unicode white space.
pub fn char_is_ws(c: char) -> (r: bool)
    ensures
        r == is_ws(c),
{
    let u = c as u32;
    (0x9 <= u && u <= 0xd) || u == 0x20 || u == 0x85 || u == 0xa0 || u == 0x1680
        || (0x2000 <= u && u <= 0x200a) || u == 0x2028 || u == 0x2029 || u == 0x202f
        || u == 0x205f || u == 0x3000
}

/// `s` without its leading white space.
pub open spec fn trim_start(s: Seq<char>) -> Seq<char>
    decreases s.len(),
{
    if s.len() > 0 && is_ws(s[0]) {
        trim_start(s.drop_first())
    } else {
        s
    }
}

/// `s` without its trailing white space.
pub open spec fn trim_end(s: Seq<char>) -> Seq<char>
    decreases s.len(),
{
    if s.len() > 0 && is_ws(s.last()) {
        trim_end(s.drop_last())
    } else {
        s
    }
}

/// `s` without leading or trailing white space, as `str::trim` returns it.
pub open spec fn trim(s: Seq<char>) -> Seq<char> {
    trim_end(trim_start(s))
}

/// `true` when `s` is empty or white space only.
pub open spec fn is_blank(s: Seq<char>) -> bool {
    trim(s).len() == 0
}

/// `s` with leading and trailing white space removed.
pub fn trim_str(s: &str) -> (r: String)
    ensures
        r@ == trim(s@),
{
    let n = s.unicode_len();
    let mut i: usize = 0;
    assert(s@.subrange(0, n as int) =~= s@);
    while i < n && char_is_ws(s.get_char(i))
        invariant
            n == s@.len(),
            i <= n,
            trim_start(s@) == trim_start(s@.subrange(i as int, n as int)),
        decreases n - i,
    {
        assert(s@.subrange(i as int, n as int).drop_first() =~= s@.subrange(i + 1, n as int));
        i = i + 1;
    }
    assert(trim_start(s@) == s@.subrange(i as int, n as int));
    let mut j: usize = n;
    while j > i && char_is_ws(s.get_char(j - 1))
        invariant
            n == s@.len(),
            i <= j <= n,
            trim_end(s@.subrange(i as int, n as int)) == trim_end(s@.subrange(i as int, j as int)),
        decreases j,
    {
        assert(s@.subrange(i as int, j as int).drop_last() =~= s@.subrange(i as int, j - 1));
        j = j - 1;
    }
    let r = s.substring_char(i, j);
    String::from_str(r)
}

/// Whether `s` is empty or white space only.
pub fn str_is_blank(s: &str) -> (r: bool)
    ensures
        r == is_blank(s@),
{
    let t = trim_str(s);
    t.as_str().unicode_len() == 0
}

/// Whether `c` occurs in `s`.
pub fn str_contains_char(s: &str, c: char) -> (r: bool)
    ensures
        r == s@.contains(c),
{
    let n = s.unicode_len();
    let mut i: usize = 0;
    while i < n
        invariant
            n == s@.len(),
            i <= n,
            forall|k: int| 0 <= k < i ==> s@[k] != c,
        decreases n - i,
    {
        if s.get_char(i) == c {
            return true;
        }
        i = i + 1;
    }
    false
}

/// `i` is the first position of `c` in `s`.
pub open spec fn is_first_index(s: Seq<char>, c: char, i: int) -> bool {
    0 <= i < s.len() && s[i] == c && forall|j: int| 0 <= j < i ==> s[j] != c
}

/// The parts of `s` before and after the first `c`, as `str::split_once`
/// returns them; `None` when `c` does not occur.
pub open spec fn split_once(s: Seq<char>, c: char) -> Option<(Seq<char>, Seq<char>)> {
    if exists|i: int| is_first_index(s, c, i) {
        let i = choose|i: int| is_first_index(s, c, i);
        Some((s.take(i), s.skip(i + 1)))
    } else {
        None
    }
}

/// The first position of `c` in `s`, if any.
pub fn find_char(s: &str, c: char) -> (r: Option<usize>)
    ensures
        match r {
            Some(i) => is_first_index(s@, c, i as int),
            None => !s@.contains(c),
        },
{
    let n = s.unicode_len();
    let mut i: usize = 0;
    while i < n
        invariant
            n == s@.len(),
            i <= n,
            forall|k: int| 0 <= k < i ==> s@[k] != c,
        decreases n - i,
    {
        if s.get_char(i) == c {
            return Some(i);
        }
        i = i + 1;
    }
    None
}

/// The parts of `s` around the first `c`.
pub fn split_once_str(s: &str, c: char) -> (r: Option<(String, String)>)
    ensures
        match r {
            Some((a, b)) => split_once(s@, c) == Some((a@, b@)),
            None => split_once(s@, c) is None,
        },
{
    match find_char(s, c) {
        Some(i) => {
            proof {
                assert(is_first_index(s@, c, i as int));
                let k = choose|k: int| is_first_index(s@, c, k);
                assert(k == i) by {
                    if k < i {
                        assert(s@[k] != c);
                    } else if k > i {
                        assert(s@[i as int] != c);
                    }
                }
            }
            let n = s.unicode_len();
            let a = String::from_str(s.substring_char(0, i));
            let b = String::from_str(s.substring_char(i + 1, n));
            assert(a@ =~= s@.take(i as int));
            assert(b@ =~= s@.skip(i + 1));
            Some((a, b))
        },
        None => {
            proof {
                if exists|k: int| is_first_index(s@, c, k) {
                    let k = choose|k: int| is_first_index(s@, c, k);
                    assert(s@.contains(c)) by {
                        assert(s@[k] == c);
                    }
                }
            }
            None
        },
    }
}

/// `s` with the prefix `p` removed, when `s` starts with `p`.
pub fn strip_prefix_str(s: &str, p: &str) -> (r: Option<String>)
    ensures
        match r {
            Some(t) => p@.is_prefix_of(s@) && t@ == s@.skip(p@.len() as int),
            None => !p@.is_prefix_of(s@),
        },
{
    let n = s.unicode_len();
    let m = p.unicode_len();
    if m > n {
        return None;
    }
    let mut i: usize = 0;
    while i < m
        invariant
            n == s@.len(),
            m == p@.len(),
            m <= n,
            i <= m,
            forall|k: int| 0 <= k < i ==> s@[k] == p@[k],
        decreases m - i,
    {
        if s.get_char(i) != p.get_char(i) {
            return None;
        }
        i = i + 1;
    }
    let t = String::from_str(s.substring_char(m, n));
    assert(t@ =~= s@.skip(m as int));
    Some(t)
}

/// The items of `list` separated by `sep`, as `slice::join` builds it.
pub open spec fn join(list: Seq<Seq<char>>, sep: Seq<char>) -> Seq<char>
    decreases list.len(),
{
    if list.len() == 0 {
        Seq::empty()
    } else if list.len() == 1 {
        list[0]
    } else {
        join(list.drop_last(), sep) + sep + list.last()
    }
}

/// The character views of a vector of strings.
pub open spec fn views(v: Seq<String>) -> Seq<Seq<char>> {
    v.map_values(|s: String| s@)
}

/// The strings of `list` joined with `sep` between them.
pub fn join_strings(list: &Vec<String>, sep: &str) -> (r: String)
    ensures
        r@ == join(views(list@), sep@),
{
    let mut r = String::new();
    let n = list.len();
    let mut i: usize = 0;
    while i < n
        invariant
            n == list@.len(),
            i <= n,
            r@ == join(views(list@.take(i as int)), sep@),
        decreases n - i,
    {
        assert(views(list@.take(i + 1)).drop_last() =~= views(list@.take(i as int)));
        if i == 0 {
            r = String::from_str(list[i].as_str());
        } else {
            r = r.concat(sep);
            r = r.concat(list[i].as_str());
        }
        i = i + 1;
    }
    assert(list@.take(n as int) =~= list@);
    r
}

/// The pieces of `s` between occurrences of `c`, as `str::split` yields them.
pub open spec fn split_on(s: Seq<char>, c: char) -> Seq<Seq<char>>
    decreases s.len(),
{
    if s.len() == 0 {
        seq![Seq::<char>::empty()]
    } else {
        let prev = split_on(s.drop_last(), c);
        if s.last() == c {
            prev.push(Seq::empty())
        } else {
            prev.update(prev.len() - 1, prev.last().push(s.last()))
        }
    }
}

proof fn lemma_split_on_nonempty(s: Seq<char>, c: char)
    ensures
        split_on(s, c).len() >= 1,
    decreases s.len(),
{
    if s.len() > 0 {
        lemma_split_on_nonempty(s.drop_last(), c);
    }
}

/// The trimmed, non-empty items of a comma-separated list.
pub open spec fn list_items(s: Seq<char>) -> Seq<Seq<char>> {
    split_on(s, ',').map_values(|p: Seq<char>| trim(p)).filter(|p: Seq<char>| p.len() > 0)
}

/// Split `s` on `,`, trim each piece and drop the empty ones.
pub fn parse_list(s: &str) -> (r: Vec<String>)
    ensures
        views(r@) == list_items(s@),
{
    let n = s.unicode_len();
    let mut pieces: Vec<String> = Vec::new();
    let mut start: usize = 0;
    let mut i: usize = 0;
    assert(views(pieces@) =~= Seq::<Seq<char>>::empty());
    assert(s@.subrange(0, 0) =~= Seq::<char>::empty());
    assert(s@.take(0).len() == 0);
    assert(split_on(s@.take(0), ',') == seq![Seq::<char>::empty()]);
    assert(views(pieces@) + seq![s@.subrange(0, 0)] =~= split_on(s@.take(0), ','));
    while i < n
        invariant
            n == s@.len(),
            start <= i <= n,
            views(pieces@) + seq![s@.subrange(start as int, i as int)] == split_on(s@.take(i as int), ','),
        decreases n - i,
    {
        proof {
            lemma_split_on_nonempty(s@.take(i as int), ',');
            assert(s@.take(i + 1).drop_last() =~= s@.take(i as int));
        }
        assert(s@.take(i + 1).last() == s@[i as int]);
        let ghost old_pieces = views(pieces@);
        if s.get_char(i) == ',' {
            let piece = String::from_str(s.substring_char(start, i));
            pieces.push(piece);
            assert(views(pieces@) =~= old_pieces.push(s@.subrange(start as int, i as int)));
            assert(split_on(s@.take(i + 1), ',') == split_on(s@.take(i as int), ',').push(Seq::empty()));
            assert(s@.subrange(i + 1, i + 1) =~= Seq::<char>::empty());
            start = i + 1;
            assert(views(pieces@) + seq![s@.subrange(start as int, i + 1)] =~= split_on(s@.take(i + 1), ','));
        } else {
            assert(s@.subrange(start as int, i + 1) =~= s@.subrange(start as int, i as int).push(s@[i as int]));
            assert(views(pieces@) + seq![s@.subrange(start as int, i + 1)] =~= split_on(s@.take(i + 1), ','));
        }
        i = i + 1;
    }
    let last = String::from_str(s.substring_char(start, n));
    pieces.push(last);
    assert(s@.take(n as int) =~= s@);
    assert(views(pieces@) =~= split_on(s@, ','));
    let ghost all = views(pieces@);
    let mut out: Vec<String> = Vec::new();
    let m = pieces.len();
    let mut k: usize = 0;
    while k < m
        invariant
            m == pieces@.len(),
            k <= m,
            all == views(pieces@),
            views(out@) == all.take(k as int).map_values(|p: Seq<char>| trim(p)).filter(|p: Seq<char>| p.len() > 0),
        decreases m - k,
    {
        let t = trim_str(pieces[k].as_str());
        proof {
            reveal(Seq::filter);
            let f = |p: Seq<char>| trim(p);
            assert(all.take(k + 1).map_values(f).drop_last() =~= all.take(k as int).map_values(f));
            assert(all.take(k + 1).map_values(f).last() == trim(all[k as int]));
        }
        if t.as_str().unicode_len() > 0 {
            out.push(t);
            assert(views(out@) =~= views(out@).drop_last().push(t@));
        } else {
            assert(views(out@) =~= views(out@));
        }
        k = k + 1;
    }
    assert(all.take(m as int) =~= all);
    out
}

/// Whether `c` is an ASCII decimal digit.
pub open spec fn is_digit(c: char) -> bool {
    '0' <= c && c <= '9'
}

/// The value of a run of ASCII digits.
pub open spec fn digits_value(d: Seq<char>) -> nat
    decreases d.len(),
{
    if d.len() == 0 {
        0
    } else {
        digits_value(d.drop_last()) * 10 + ((d.last() as int) - ('0' as int)) as nat
    }
}

/// The digits part of an unsigned number: `s` without one leading `+`.
pub open spec fn unsigned_digits(s: Seq<char>) -> Seq<char> {
    if s.len() > 0 && s[0] == '+' {
        s.drop_first()
    } else {
        s
    }
}

/// Every character of `d` is an ASCII digit.
pub open spec fn all_digits(d: Seq<char>) -> bool {
    forall|i: int| 0 <= i < d.len() ==> is_digit(d[i])
}

/// What `str::parse::<u64>` returns for `s`: an optional `+`, then one or
/// more ASCII digits whose value fits in a `u64`.
pub open spec fn parse_u64_spec(s: Seq<char>) -> Option<u64> {
    let d = unsigned_digits(s);
    if d.len() > 0 && all_digits(d) && digits_value(d) <= u64::MAX {
        Some(digits_value(d) as u64)
    } else {
        None
    }
}

proof fn lemma_digits_value_monotone(d: Seq<char>, k: int)
    requires
        0 <= k <= d.len(),
        forall|i: int| 0 <= i < d.len() ==> is_digit(d[i]),
    ensures
        digits_value(d.take(k)) <= digits_value(d),
    decreases d.len() - k,
{
    if k < d.len() {
        lemma_digits_value_monotone(d, k + 1);
        assert(d.take(k + 1).drop_last() =~= d.take(k));
    } else {
        assert(d.take(k) =~= d);
    }
}

/// Parse a decimal `u64` the way `str::parse::<u64>` does.
pub fn parse_u64(s: &str) -> (r: Option<u64>)
    ensures
        r == parse_u64_spec(s@),
{
    let n = s.unicode_len();
    let start: usize = if n > 0 && s.get_char(0) == '+' { 1 } else { 0 };
    let ghost d = unsigned_digits(s@);
    assert(d =~= s@.subrange(start as int, n as int));
    if start >= n {
        return None;
    }
    let mut acc: u64 = 0;
    let mut i: usize = start;
    while i < n
        invariant
            n == s@.len(),
            start <= i <= n,
            d == s@.subrange(start as int, n as int),
            d == unsigned_digits(s@),
            forall|k: int| 0 <= k < i - start ==> is_digit(d[k]),
            acc as nat == digits_value(d.take(i - start)),
        decreases n - i,
    {
        let c = s.get_char(i);
        assert(d[i - start] == c);
        if c < '0' || c > '9' {
            assert(!is_digit(d[i - start]));
            assert(!all_digits(d));
            return None;
        }
        let dig: u64 = (c as u32 - '0' as u32) as u64;
        assert(d.take(i + 1 - start).drop_last() =~= d.take(i - start));
        assert(d.take(i + 1 - start).last() == c);
        assert(digits_value(d.take(i + 1 - start)) == acc * 10 + dig);
        if acc > (u64::MAX - dig) / 10 {
            proof {
                if all_digits(d) {
                    lemma_digits_value_monotone(d, i + 1 - start);
                }
            }
            return None;
        }
        acc = acc * 10 + dig;
        i = i + 1;
    }
    assert(d.take(n - start) =~= d);
    Some(acc)
}

/// A copy of a vector of strings with the same texts.
pub fn copy_strings(v: &Vec<String>) -> (r: Vec<String>)
    ensures
        views(r@) == views(v@),
{
    let mut out: Vec<String> = Vec::new();
    let n = v.len();
    let mut i: usize = 0;
    while i < n
        invariant
            n == v@.len(),
            i <= n,
            out@.len() == i,
            forall|k: int| 0 <= k < i ==> (#[trigger] out@[k])@ == v@[k]@,
        decreases n - i,
    {
        out.push(v[i].clone());
        i = i + 1;
    }
    assert(views(out@) =~= views(v@));
    out
}


/// A list item as a comma-separated list gives it back: non-empty,
/// trimmed, and free of commas.
pub open spec fn clean_item(x: Seq<char>) -> bool {
    x.len() > 0 && trim(x) == x && !x.contains(',')
}

proof fn lemma_trim_start_len(s: Seq<char>)
    ensures
        trim_start(s).len() <= s.len(),
        trim_start(s).len() == s.len() ==> trim_start(s) == s,
    decreases s.len(),
{
    if s.len() > 0 && is_ws(s[0]) {
        lemma_trim_start_len(s.drop_first());
    }
}

proof fn lemma_trim_end_len(s: Seq<char>)
    ensures
        trim_end(s).len() <= s.len(),
        trim_end(s).len() == s.len() ==> trim_end(s) == s,
    decreases s.len(),
{
    if s.len() > 0 && is_ws(s.last()) {
        lemma_trim_end_len(s.drop_last());
    }
}

/// A trimmed, non-empty text starts and ends with a character that is not
/// white space.
proof fn lemma_trimmed_ends(x: Seq<char>)
    requires
        x.len() > 0,
        trim(x) == x,
    ensures
        !is_ws(x[0]),
        !is_ws(x.last()),
        trim_start(x) == x,
{
    lemma_trim_start_len(x);
    lemma_trim_end_len(trim_start(x));
    assert(trim_start(x) == x);
    if is_ws(x[0]) {
        lemma_trim_start_len(x.drop_first());
    }
    if is_ws(x.last()) {
        lemma_trim_end_len(x.drop_last());
    }
}

/// A space before a trimmed, non-empty text is trimmed away.
proof fn lemma_trim_space_prefix(x: Seq<char>)
    requires
        x.len() > 0,
        trim(x) == x,
    ensures
        trim(seq![' '] + x) == x,
{
    lemma_trimmed_ends(x);
    let y = seq![' '] + x;
    assert(y.drop_first() =~= x);
    assert(is_ws(y[0]));
    assert(trim_start(y) == trim_start(x));
}

/// A text without `c` is a single piece.
proof fn lemma_split_without(x: Seq<char>, c: char)
    requires
        !x.contains(c),
    ensures
        split_on(x, c) == seq![x],
    decreases x.len(),
{
    if x.len() == 0 {
        assert(x =~= Seq::<char>::empty());
    } else {
        let d = x.drop_last();
        assert(!d.contains(c)) by {
            if d.contains(c) {
                let i = choose|i: int| 0 <= i < d.len() && d[i] == c;
                assert(x[i] == c);
            }
        }
        lemma_split_without(d, c);
        assert(x.last() != c) by {
            if x.last() == c {
                assert(x[x.len() - 1] == c);
            }
        }
        assert(d.push(x.last()) =~= x);
        assert(seq![d].update(0, d.push(x.last())) =~= seq![x]);
    }
}

/// Splitting at a separator splits the two sides independently.
proof fn lemma_split_concat(a: Seq<char>, t: Seq<char>, c: char)
    ensures
        split_on(a.push(c) + t, c) == split_on(a, c) + split_on(t, c),
    decreases t.len(),
{
    if t.len() == 0 {
        assert(a.push(c) + t =~= a.push(c));
        assert(t =~= Seq::<char>::empty());
        assert(a.push(c).drop_last() =~= a);
        assert(split_on(a, c) + seq![Seq::<char>::empty()] =~= split_on(a, c).push(Seq::<char>::empty()));
    } else {
        let t2 = t.drop_last();
        lemma_split_concat(a, t2, c);
        let s = a.push(c) + t;
        assert(s.drop_last() =~= a.push(c) + t2);
        assert(s.last() == t.last());
        lemma_split_on_nonempty(t2, c);
        let p = split_on(a, c) + split_on(t2, c);
        let q = split_on(t2, c);
        if t.last() == c {
            assert(p.push(Seq::<char>::empty()) =~= split_on(a, c) + q.push(Seq::<char>::empty()));
        } else {
            assert(p.last() == q.last());
            assert(p.update(p.len() - 1, p.last().push(t.last())) =~= split_on(a, c) + q.update(
                q.len() - 1,
                q.last().push(t.last()),
            ));
        }
    }
}

proof fn lemma_trimmed_pieces_join(items: Seq<Seq<char>>)
    requires
        items.len() > 0,
        forall|k: int| 0 <= k < items.len() ==> clean_item(#[trigger] items[k]),
    ensures
        split_on(join(items, seq![',', ' ']), ',').map_values(|p: Seq<char>| trim(p)) == items,
    decreases items.len(),
{
    let f = |p: Seq<char>| trim(p);
    if items.len() == 1 {
        assert(clean_item(items[0]));
        lemma_split_without(items[0], ',');
        assert(split_on(join(items, seq![',', ' ']), ',').map_values(f) =~= seq![trim(items[0])]);
        assert(seq![items[0]] =~= items);
    } else {
        let d = items.drop_last();
        assert forall|k: int| 0 <= k < d.len() implies clean_item(#[trigger] d[k]) by {
            assert(d[k] == items[k]);
        }
        lemma_trimmed_pieces_join(d);
        let x = items.last();
        assert(clean_item(items[items.len() - 1]));
        let j = join(d, seq![',', ' ']);
        let y = seq![' '] + x;
        assert(join(items, seq![',', ' ']) =~= j.push(',') + y);
        lemma_split_concat(j, y, ',');
        assert(!y.contains(',')) by {
            if y.contains(',') {
                let i = choose|i: int| 0 <= i < y.len() && y[i] == ',';
                assert(i > 0);
                assert(x[i - 1] == ',');
            }
        }
        lemma_split_without(y, ',');
        lemma_trim_space_prefix(x);
        assert((split_on(j, ',') + seq![y]).map_values(f) =~= split_on(j, ',').map_values(f).push(trim(y)));
        assert(d.push(x) =~= items);
    }
}

proof fn lemma_filter_keeps_nonempty(items: Seq<Seq<char>>)
    requires
        forall|k: int| 0 <= k < items.len() ==> (#[trigger] items[k]).len() > 0,
    ensures
        items.filter(|p: Seq<char>| p.len() > 0) == items,
    decreases items.len(),
{
    reveal(Seq::filter);
    if items.len() > 0 {
        let d = items.drop_last();
        assert forall|k: int| 0 <= k < d.len() implies (#[trigger] d[k]).len() > 0 by {
            assert(d[k] == items[k]);
        }
        lemma_filter_keeps_nonempty(d);
        assert(items[items.len() - 1].len() > 0);
        assert(d.push(items.last()) =~= items);
    }
}

/// Joining clean items with `, ` and reading the text back as a
/// comma-separated list gives the items back.
pub proof fn lemma_list_items_join(items: Seq<Seq<char>>)
    requires
        forall|k: int| 0 <= k < items.len() ==> clean_item(#[trigger] items[k]),
    ensures
        list_items(join(items, seq![',', ' '])) == items,
{
    reveal(Seq::filter);
    if items.len() == 0 {
        let e = Seq::<char>::empty();
        assert(join(items, seq![',', ' ']) == e);
        assert(trim_start(e) == e);
        assert(trim_end(e) == e);
        assert(split_on(e, ',') == seq![e]);
        let m = seq![e].map_values(|p: Seq<char>| trim(p));
        assert(m =~= seq![e]);
        assert(m.drop_last() =~= Seq::<Seq<char>>::empty());
        assert(Seq::<Seq<char>>::empty().filter(|p: Seq<char>| p.len() > 0) =~= Seq::<Seq<char>>::empty());
        assert(m.filter(|p: Seq<char>| p.len() > 0) =~= Seq::<Seq<char>>::empty());
        assert(items =~= Seq::<Seq<char>>::empty());
    } else {
        lemma_trimmed_pieces_join(items);
        assert forall|k: int| 0 <= k < items.len() implies (#[trigger] items[k]).len() > 0 by {
            assert(clean_item(items[k]));
        }
        lemma_filter_keeps_nonempty(items);
    }
}

proof fn lemma_digit_char(d: int)
    requires
        0 <= d < 10,
    ensures
        is_digit(digit_char(d)),
        (digit_char(d) as int) - ('0' as int) == d,
        !is_ws(digit_char(d)),
{
}

proof fn lemma_decimal_digits(n: nat)
    ensures
        decimal(n).len() > 0,
        all_digits(decimal(n)),
        digits_value(decimal(n)) == n,
    decreases n,
{
    let s = decimal(n);
    if n < 10 {
        lemma_digit_char(n as int);
        assert(s.drop_last() =~= Seq::<char>::empty());
        assert(digits_value(Seq::<char>::empty()) == 0);
        assert(digits_value(s) == digits_value(s.drop_last()) * 10 + ((s.last() as int) - ('0' as int)) as nat);
    } else {
        lemma_decimal_digits(n / 10);
        lemma_digit_char((n % 10) as int);
        assert(s.drop_last() =~= decimal(n / 10));
        assert(s.last() == digit_char((n % 10) as int));
        assert(digits_value(s) == digits_value(s.drop_last()) * 10 + ((s.last() as int) - ('0' as int)) as nat);
        assert(n == (n / 10) * 10 + n % 10);
        assert forall|i: int| 0 <= i < s.len() implies is_digit(s[i]) by {
            if i < s.len() - 1 {
                assert(s[i] == s.drop_last()[i]);
            }
        }
    }
}

/// The decimal text of a number reads back as that number, and has no
/// white space around it.
pub proof fn lemma_decimal_reads_back(n: u64)
    ensures
        parse_u64_spec(decimal(n as nat)) == Some(n),
        trim(decimal(n as nat)) == decimal(n as nat),
{
    let s = decimal(n as nat);
    lemma_decimal_digits(n as nat);
    assert(is_digit(s[0]));
    assert(is_digit(s[s.len() - 1]));
    assert(unsigned_digits(s) == s);
    assert(trim_start(s) == s);
    assert(trim_end(s) == s);
}

} // verus!
