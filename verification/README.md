# logtui

Pipe anything into an interactive terminal viewer:

```
docker compose logs -f web | logtui
cat bigfile.log | logtui --buffer-size 50000
journalctl -f | logtui --regex
```

Input is taken as opaque lines, finite or endless. The newest lines are held in
a ring of bounded size; every line is also archived in a temp file, so the whole
history stays scrollable and filterable. Filters are fuzzy, regex (falling back
to substring search where the pattern does not compile) or plain substring.

## Layout

- `src/` is the library, written and proved in Verus: the ring buffer, the
  bookkeeping of the spill file, the filters, the cleaning of input lines, the
  viewer's state with its key handling, and the composition of frames.
  - `state.rs` models the state and says what every event does to it;
  - `app.rs` is the executable viewer, proved to follow that model;
  - `laws.rs`, and the end of most other files, state what holds in general.
- `app/` is the program around it: arguments, the reader thread, the temp file,
  the terminal.
- `tests/` runs the library on concrete values.

The library does no input or output. Where a line has to be read back from the
spill file it returns where to read (`SpillRead`); where a filter has to look at
the whole file it returns a `Rescan`, which is fed line by line. The caller
reports how writes went.

## Keys

| key | while browsing | while searching |
| --- | --- | --- |
| `/` | edit the filter | |
| `j` `k` `↓` `↑`, PgDn, PgUp, Ctrl+D, Ctrl+U | move | Ctrl+U: delete to the start |
| `g` `G`, Home, End | first, last row | cursor to start, end |
| `h` `l` `←` `→` | scroll sideways | `←` `→`: move the cursor |
| `n` `N` | next, previous match | |
| `r` | toggle fuzzy and regex | Ctrl+R |
| Ctrl+W | | delete a word |
| Esc | clear the filter | clear the filter and leave |
| Enter | | keep the filter and leave |
| `q`, Ctrl+C | quit | Ctrl+C: quit |
