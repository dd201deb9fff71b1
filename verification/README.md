# Oberon

The core of a local music player for Windows, verified with Verus.

- `src/` is the library: the player as a state machine (`engine::state` says what every event does,
  `engine::player` carries it out, `engine::laws` states what holds across events), the negotiation of
  outputs, the parts of the decoders that decide where bytes and samples go, lyrics, covers, the scan
  of music folders, playlists, queries and settings.
- `app/` is the program around it: audio devices, files, the database, sample arithmetic in floating
  point, and the window. What only Windows has is compiled only there.
- `tests/` runs the library, with the real image, Opus and SQLite crates behind it.

Times are whole nanoseconds in the library and seconds in the user interface. Where a length or a
place goes through seconds of double precision, `double` says exactly what comes out.

A few functions are trusted rather than proved: those that call `String::push`, `std::str::from_utf8`,
`String::from_utf8_lossy`, the image decoder, the JPEG encoder and the Opus packet parser. Each says in
its doc comment what it claims.
