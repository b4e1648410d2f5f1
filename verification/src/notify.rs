//! Desktop notifications: the capture buffer tests read, and the decision
//! between recording a notification and handing it to the platform's
//! notifier (which the application runs).
use vstd::prelude::*;

verus! {

/// One captured notification.
#[derive(Debug, Clone, PartialEq, Eq)]
pub struct CapturedNotification {
    pub title: String,
    pub body: String,
}

/// The notifier's state: whether it captures, and what it captured.
#[derive(Debug)]
pub struct Notifier {
    capture: bool,
    captured: Vec<CapturedNotification>,
}

impl View for Notifier {
    type V = (bool, Seq<(Seq<char>, Seq<char>)>);

    closed spec fn view(&self) -> (bool, Seq<(Seq<char>, Seq<char>)>) {
        (self.capture, self.captured@.map_values(|c: CapturedNotification| (c.title@, c.body@)))
    }
}

impl Notifier {
    /// A notifier in production mode with an empty buffer.
    pub fn new() -> (r: Self)
        ensures
            !r@.0,
            r@.1.len() == 0,
    {
        let r = Notifier { capture: false, captured: Vec::new() };
        assert(r@.1 =~= Seq::<(Seq<char>, Seq<char>)>::empty());
        r
    }

    /// Switch into capture mode (true) or production mode (false). In
    /// capture mode, [`Notifier::fire`] records its arguments instead of
    /// asking for the platform's notifier.
    pub fn set_capture_mode(&mut self, enabled: bool)
        ensures
            final(self)@ == (enabled, old(self)@.1),
    {
        self.capture = enabled;
    }

    /// Drain the captured-notification buffer, leaving it empty.
    pub fn take_captured(&mut self) -> (r: Vec<CapturedNotification>)
        ensures
            r@.map_values(|c: CapturedNotification| (c.title@, c.body@)) == old(self)@.1,
            final(self)@ == (old(self)@.0, Seq::<(Seq<char>, Seq<char>)>::empty()),
    {
        let mut out: Vec<CapturedNotification> = Vec::new();
        std::mem::swap(&mut out, &mut self.captured);
        assert(self@.1 =~= Seq::<(Seq<char>, Seq<char>)>::empty());
        out
    }

    /// Fire a desktop notification with `title` and `body`. In capture
    /// mode the call is recorded and `false` is returned; in production
    /// mode nothing is recorded and `true` says that the platform's
    /// notifier is to be run.
    pub fn fire(&mut self, title: &str, body: &str) -> (send: bool)
        ensures
            send == !old(self)@.0,
            final(self)@ == (if old(self)@.0 {
                (true, old(self)@.1.push((title@, body@)))
            } else {
                old(self)@
            }),
    {
        if self.capture {
            let ghost before = self.captured@;
            self.captured.push(CapturedNotification { title: String::from_str(title), body: String::from_str(body) });
            assert(self.captured@.map_values(|c: CapturedNotification| (c.title@, c.body@)) =~= before.map_values(
                |c: CapturedNotification| (c.title@, c.body@),
            ).push((title@, body@)));
            false
        } else {
            true
        }
    }
}

} // verus!
