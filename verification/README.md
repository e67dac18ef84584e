# signal

The logic of Signal, a local-first desktop music player, as a Verus-verified
library, with the program around it.

- `src/` is the verified library: the search query language (parser and SQL
  compiler), the smart-playlist rule compiler, tag-derived values (audio file
  detection, album disc suffixes, genre lists, codec and container names, the
  names a track is filed under),
  the gapless playback window and the player's decisions, the integer side of
  audio authenticity analysis, listening statistics and library health
  arithmetic, the scanner's tallies and event sorting, and the command-line
  companion's requests and output lines. Every public function states what it
  returns in its contract; the `law_*` proof functions state properties that
  span functions.
- `tests/` runs the library on concrete inputs.
- `app/` is the unverified rest: the SQLite repositories, tag reading with
  lofty, decoding and the spectrum, the mpv thread, the filesystem watcher,
  the plugin HTTP calls, serde shapes, and the terminal binary.
