# robrix (verified core)

The decision logic of the Robrix home screen, written in Verus and proved
against its contracts:

- `src/` — the library. Each module holds one screen or widget's logic as
  plain data and functions: summaries of membership changes and small state
  events (`membership_transitions`, `event_group`), global message search
  results (`global_message_search`), the event-source view (`event_source`),
  the dock layout and its repair (`dock`, `dock_tabs`), the add-room, invite,
  create-room and bot dialogs, the directory, link previews, the loading
  pane, the failed-send banner, and the text helpers they share (`text`). Calls into `ruma`,
  `htmlize`, `emojis` and `rangemap` go through small wrappers whose
  contracts state what those crates do.
- `tests/` — tests of the library on concrete values.
- `app/` — what stays outside the proofs: the clock, time formatting in the
  user's time zone, URL parsing and file reading.
