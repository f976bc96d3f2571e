# x11-mcp

A server that lets an agent observe and control one X11 display over the Model
Context Protocol, with the rules behind its tools verified by Verus.

- `src/` is the verified library `x11_mcp`: what may be done on a display, what
  is read from it, and what an action sends to it. Every function states in its
  contract what it returns or changes.
- `app/` is the program around it: the X11 connection, the AT-SPI bus, desktop
  entries on disk, processes, and the MCP server on standard input and output.
- `tests/` runs the library on concrete values.

## How the two halves meet

The program reads plain values from the display and hands them to the library,
which answers with what to do next.

- An action is checked against a `Situation` (the windows, the pointer, the
  guarded frame), and becomes a plan of input steps that the program sends one
  by one (`controller`, `input`).
- An observation is planned, captured and recorded (`observe`, `frames`,
  `damage`, `capture`).
- Waits, settling, clipboard transfers, snapshots and batches are state machines
  that take what happened and say what follows (`wait`, `settle`, `clipboard`,
  `snapshot`, `element_wait`, `session`, `link`).

Times are handed in as integers: milliseconds where the display waits,
nanoseconds where a session or the rate limiter counts. Fractions are handed in
as the bits of a double and compared as such (`ieee`).

## What is proved of the whole

Public proof functions state what holds across calls, among them:

- a latched emergency stop refuses every mutation: input, window actions,
  actions on elements and launches, alone or in a batch
  (`latched_stop_refuses_every_mutation`);
- targeted actions need a frame (`targeted_actions_need_a_frame`);
- input and semantic actions stay within the window allowlist
  (`input_stays_within_the_allowlist`,
  `semantic_actions_stay_within_the_allowlist`);
- a guard that holds names a current frame, and a delta shows all damage since
  its base (`held_guard_is_current`, `deltas_show_all_damage`);
- window and element references are stable and never reused
  (`references_are_stable`, `references_are_not_reused`,
  `element_references_are_stable`);
- batches are fail-fast, run under one guard and release what is held however
  they end (`batches_are_fail_fast`, `steps_run_under_the_batch_guard`,
  `batches_release_on_every_exit`);
- quoted words of an `Exec` value read back unchanged
  (`quoted_words_read_back`);
- the input rate is limited (`rate_is_limited`).

What the library takes from other crates stands behind functions marked
`external_body`, each with a comment that says what is believed of it: glob
matching, hashing, PNG and base64 encoding, desktop-entry decoding, and a few
text functions of the standard library.
