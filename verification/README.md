# web_player

A video player for the browser: MP4 and MKV demuxing, AC-3 and E-AC-3 decoding up to
the transform coefficients, M3U playlists, A/V synchronisation, buffering, seeking and
the render loop. The library under `src/` is verified with Verus.

- `src/ac3/` reads AC-3 and E-AC-3 frames.
- `src/demux/` reads MP4 and MKV/WebM files; `isomp4.rs` and `matroska.rs` hold the
  declarations of the crates that parse the containers, `walk.rs` and `elements.rs` check
  beforehand that these come to an end.
- `src/m3u.rs` reads playlists; `decimal.rs` and `text.rs` read its numbers and texts.
- `src/player/` decides what a player does. `open.rs`, `seek.rs` and `tick.rs` are state
  machines: each step says what is to be done outside, and is told what came of it.
- `app/` does it in the browser: WebCodecs, Web Audio, canvas and HTTP.
- `tests/` holds the tests.

Times are in microseconds where they belong to the media and in nanoseconds where they
belong to a clock.
