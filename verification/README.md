# witch

A typo-tolerant `which`. Exact names are resolved along `PATH` the way
`which` resolves them; misspelled names are fuzzy-matched, with
case-insensitive Jaro-Winkler similarity, against every executable on
`PATH` and ranked best-first.

The library under `src/` is written in Verus and verified:

- `text`: characters of strings, equality and code-point order.
- `path`: Unix path components, `starts_with`, `join`, file names,
  absolute paths.
- `exact`: skipping `PATH` entries, the exact lookup as a state machine
  (`ExactSearch`) and `find_exact`, and how a match is displayed.
- `order`: stable sorting stated as a relation, its insertion step, and its
  uniqueness.
- `path_scan`: candidates, sorting by name, and deduplication by name
  (first occurrence wins).
- `matcher`: scoring, the floor, best-first order and the quality cliff.
- `picker`: menu labels and the chosen entry.
- `cli`: the switches in force and what each query's outcome prints.

`app/main.rs` is the command around it: argument parsing (clap), the
environment, file-system probes, the menu (dialoguer) and printing.
