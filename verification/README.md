# sparring

The verified core of a service that runs debating spars (British
Parliamentary format): members sign up, the service draws up rooms, an
administrator edits the draft draw, adjudicators submit ballots, and the
results rank teams and rate speakers.

- `src/` is the library, verified with Verus. Each public function states
  what it returns in its contract; the laws that relate several functions
  are public proof functions (`lemma_*`).
  - `draft_draw`, `edit_command`: draft draws, the `swap`/`remove` command
    language and the edits it names.
  - `solve_allocation`: reading the rooms off a solver's allocation.
  - `confirm_draw`: the records written when a draft draw is confirmed.
  - `ballot`, `room`: ballots, scoresheets, rankings, the rows recorded
    for an accepted ballot, rooms.
  - `spar`, `group`, `user`, `permissions`, `requests`: records and the
    rules for creating, opening, releasing and joining them.
  - `model`, `sync`: an in-memory model of the service's records, stepped by
    the actions a fuzzer sends, and reloaded from the database.
  - `outside`: declarations of the outside types the records carry.
- `tests/` runs the library on concrete values.
- `app/` is a command-line front end: JSON in and out, the integer program
  that allocates rooms, and the floating-point ratings.

The two static assets the service serves, a copy of htmx and a stylesheet,
are files of the web application and are not part of this library; its
`assets` module only has the response types that carry them.
