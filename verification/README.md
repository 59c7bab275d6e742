# calendar_display

The layout and configuration logic of an e-ink day calendar (a 300x400 black and white
panel driven by a microcontroller), written in Verus with its behaviour stated in
contracts and proved.

- `src/` is the verified library:
  - `spaces`: the boxes already drawn and the search for a free column for the next event;
  - `events`: the placement of one event (texts, column, frame);
  - `layout`: the hour grid, the next-day marker, the time ticker, the weekday strip;
  - `labels`: the texts written on the panel and the shortening of event titles;
  - `geometry`, `font`, `dates`: points and rectangles, glyph metrics, dates and times;
  - `config`, `caldav`, `boot`: the stored configuration and the requests that change it,
    the CalDAV server address, and the choice between calendar and configuration mode.
- `tests/` runs the library on concrete values, with the outside crates linked.
- `app/` is the program around it: drawing with `embedded-graphics`, the configuration
  web server on `picoserve`, the event heights (computed in floating point), and the
  C `memchr` shim.
