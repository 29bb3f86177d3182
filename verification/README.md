# clipscrub

A clipboard link cleaner whose cleaning rules are a library verified with
Verus, and whose terminal front end and clipboard access are a thin program
around it.

## Layout

- `src/` — the verified library.
  - `text.rs`: character helpers (Unicode white-space trimming, prefix and
    infix tests, UTF-8 lengths, decimal numerals, joining).
  - `web_url.rs`: URLs, parsed and edited by the `url` crate, carried by their
    serialization, with the byte bounds under which its edits keep their
    `u32` offsets.
  - `pattern.rs`: regular expressions, compiled and run by the `regex` crate.
  - `table.rs`: facts about maps kept as lists with distinct keys.
  - `rules.rs`: per-domain rules, the rule table, and the built-in rule set.
  - `config.rs`: the rule set the program runs with, and its switch overrides.
  - `url_cleaner.rs`: cleaning one link (`scrub_spec` says what it gives,
    `scrub_fits` on which links the `url` crate can make the edits) and the
    laws of the cleaning.
  - `stats.rs`: recent events and running counters, and the invariant that
    ties them together.
  - `worker.rs`: the clipboard watcher's decisions.
  - `ui.rs`: the monitoring view's key handling and labels.
- `app/` — the program: configuration files, the clipboard loop, the terminal
  view.
- `tests/` — tests of the library on concrete links and states.
