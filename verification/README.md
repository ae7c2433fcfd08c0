# vast_player

The logic of a small desktop music player, written in Verus with its
contracts proved:

- `src/lyrics.rs` — `.lrc` synced lyrics: timestamp parsing, line entries,
  a stable sort by time, and the line that is current at a given time.
- `src/queue.rs` — the play queue: ids, track catalog, the moves between
  tracks (`play_at`, `play_next`, `play_previous`) and its text listing.
- `src/track.rs` — track metadata: title choice from tags and file name,
  audio file extensions, track hashing.
- `src/paths.rs` — file names, stems and extensions of paths that every
  platform splits alike, and the `std::path` calls behind them.
- `src/tempo.rs` — the search for a tempo in `ffprobe`'s JSON metadata.
- `src/metronome.rs`, `src/display.rs`, `src/controls.rs` — beat index,
  tempo display, time labels, and the answer to media-control events.
- `src/text.rs` — trimming, digit and decimal/hex helpers.

`app/` holds the window, audio output (rodio), tag and directory reading,
`ffprobe`, media controls and the status bar; `tests/` runs the library.
