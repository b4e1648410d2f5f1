# gh-monitor

A transparent, always-on-top overlay timeline of GitHub activity. Events
from the repos and orgs you watch are grouped by repo, compressed into
timeline nodes with counts and humanized time ranges ("1-3 hrs ago"), and
diffed between polls so new nodes fade in and updated ones pulse.

## Layout

- `src/` — the library, verified with Verus. Each public function states
  what it returns in its `ensures`; the `law_*` proof functions state the
  properties that span functions (grouping partitions the events, the
  timeline is newest-first, a diff ignores label refreshes, the overlay's
  hover/passthrough and position-save rules, the settings form gives a
  config back unchanged, ...).
  - `events`, `json` — the GitHub events feed and its five event kinds.
  - `group`, `compress`, `humanize`, `snapshot`, `order` — the timeline.
  - `config`, `settings`, `setup`, `cli` — configuration and commands.
  - `auth`, `client`, `polling`, `status` — requests, errors, poll cycles.
  - `overlay`, `present`, `demo`, `notify`, `link`, `doctor` — the
    overlay's state machine and what it shows.
  - `text` — character-sequence helpers with their meaning as specs.
- `app/` — the program around the library: reading the config file, the
  HTTP requests, the poll loop, the window, the tray and the terminal.
- `tests/` — tests of the library on concrete values.

The outside crates `chrono`, `url` and `serde_json` are called from the
library through small trusted wrappers whose contracts name what they
return; everything else they feed is verified.
