# celeste_autosplit

A Celeste auto splitter for LiveSplit-compatible hosts, with the testers
used to develop it. The decisions are a library verified with Verus; the
programs around it only read memory and files, talk to the host timer or
the window toolkit, and run the loops.

## Layout

`src/` — the verified library:

| Module         | What                                                                              |
| -------------- | --------------------------------------------------------------------------------- |
| `counter`      | run counters that add plausible increases and report each new total once          |
| `text`         | char-level string helpers (trimming, case-insensitive comparison, search)         |
| `settings_xml` | reading the `<AutoSplitterSettings>` XML: tag texts, entity unescaping            |
| `state`        | the per-tick game sample                                                          |
| `splits`       | the split grammar, the run configuration and the split evaluator                  |
| `memory`       | decoding raw memory reads (Everest info block, vanilla AutosplitterInfo, .NET)    |
| `everest`      | discovering and following Everest's `anchor -> Level -> Session` chain            |
| `game`         | `Celeste`, the `Game` of this crate: split decisions, in-game time, counters      |
| `engine`       | the `Game` trait and the tick loop's decisions for any game: stale reads, start,  |
|                | split, in-game time                                                               |
| `format`       | `m:ss.mmm` times and split labels                                                 |
| `tester`       | the testers' shared state, timers, log categories and `.lss` reading              |
| `view`         | what the GUI tester shows: row marks, labels, colours, log filtering              |

`app/` — the programs: the auto splitter (`splitter`, memory reads in
`backend`), the command-line tester and the GUI tester.

`tests/` — tests of the library on concrete values.
