# review_panel

A terminal panel that lists files to look at and commands to run, as an agent flags them in
an append-only log, and lets you open, copy, check off and clear them.

- `src/` is the verified library (Verus):
  - `text.rs`: character-level helpers (split, find, `@tsv` unescaping) with their specs;
  - `log.rs`: parsing both log line formats, grouping records into rows, start-up backfill
    and tailing of newly appended complete lines;
  - `marks.rs`: the set of done / cleared keys;
  - `actions.rs`: reading which opener was used, file labels, status messages, the OSC 52
    clipboard sequence;
  - `app.rs`: the panel state machine (cursor, scrolling, clicks, clearing, polling, and
    `handle_input`, which decides what each key, click, pointer move and wheel tick does);
    outside work is handed back to the event loop as effects;
  - `input.rs`: the input events, and where the buttons, hint, divider, list and status
    message sit on screen (ratatui's layout solver does the vertical split);
  - `render.rs`: the text segments of one row;
  - `laws.rs`: properties that span several functions, proved over the specs above.
- `app/` is the program around it: it reads the terminal's events and hands them to the
  library as `Input`, paints the areas the library lays out, and does the file and process
  work the library queues.
- `tests/` runs the library on concrete inputs.
