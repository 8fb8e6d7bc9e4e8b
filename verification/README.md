# mechanix_shell

The logic of the Mechanix shell's notification and status widgets, written in
Verus and verified against its contracts.

- `src/` — the verified library:
  - `text` — UTF-8 substrings by byte offset, decimal rendering, white space.
  - `helper` — "time ago" labels, notification name/body previews, summary
    keys, auto-hide policy, action pairs.
  - `markup` — notification body markup (line breaks, `<a href>` links, bare
    URLs) parsed into nodes; the regex calls sit behind two trusted wrappers.
  - `center` and `load` — the grouped notification center: arrival, close,
    swipe dismissal, clear-all, expansion, height estimates, and loading the
    daemon's stored notifications.
  - `toasts` — the pop-up list, unique by id.
  - `events` — the decisions of the notification app's event loops.
  - `drawer` — the notification drawer's per-application card stacks.
  - `launcher` — bringing an application's window to the front or starting
    it.
  - `status_icons`, `notification_icon`, `app_icon` — icon choice and asset
    paths.
  - `config` — where configuration files are searched, in merge order.
  - `clock`, `context` — the wall clock and shared read-only state.
- `tests/` — tests on concrete values, run against the compiled library.
- `app/` — the edges: file system, environment, processes, the lock
  slider's floating-point position, and carrying out the event-loop and
  launcher decisions.
