# catacomb

A video archiver built on yt-dlp: it downloads channels, playlists and
single videos into a folder-per-channel library, keeps the library
healthy (duplicates, missing sidecars), and publishes it as a Plex tree,
a podcast feed or a transcript view.

## Layout

- `src/` — the library, verified with Verus. Each module states its
  behaviour in `requires`/`ensures` contracts over mathematical models
  (`Seq`, `Set`, `int`), and the properties that span several functions
  are proved as `lemma_*` proof functions next to them. The few calls
  into the standard library and outside crates that Verus cannot read
  (paths, lower-casing, the clock, argon2, the random generator) sit
  behind small wrappers whose contracts are documented where they stand.
  JSON sidecars (`info.json`, a peer's library) are parsed once into the
  library's own `Json` tree, and every field the library uses is read
  from that tree by verified code.
- `tests/` — runtime tests of the library on concrete values.
- `app/` — the command line around the library: configuration files,
  directory walks, running yt-dlp and ffmpeg, reading and writing the
  SQLite databases of a backup restore, crash logging, and the parts
  whose arithmetic is floating point (durations and the comparison
  window of video fingerprints, folder suggestions).
