# indicatif

Progress bars and spinners for command line programs, with the logic that
decides what is drawn written in Verus and proved against its contracts.

## Layout

- `src/` is the verified library:
  - `ansi` — escape sequences: stripping them, measuring text, styles;
  - `text` — characters, decimal digits, line splitting;
  - `format` — human readable durations;
  - `template` and `expand` — the placeholder grammar of templates;
  - `dotted` — placeholder styles, read and written by the `console` crate;
  - `style` — rendering a bar's state through a template;
  - `state`, `bar` — the state of one bar and what finishing or changing it does;
  - `draw`, `term` — turning lines into terminal operations, rate limiting;
  - `multi`, `channel` — several bars sharing one terminal;
  - `ring` — bounded running maxima used by readers and writers.
- `tests/` runs the library on concrete values.
- `app/` holds what cannot be verified: terminals, clocks, threads, locks,
  and the formatting that works on floating point numbers.

Each module states its contracts over spec functions of plain sequences and
numbers; the public `law_*` proof functions state properties that relate
several operations.
