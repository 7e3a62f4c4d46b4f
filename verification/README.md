# Gource

Gource shows the history of a source repository as an animated tree of
directories.  This crate is its core, written in Verus: the functions under
`src/` are verified, and their contracts say what they return.  The exceptions
are those whose effect is seen elsewhere, by another thread or by a progress
sink: a cancellation token and progress reports promise nothing.

- `src/` reads custom logs and the output of Git within configured bounds,
  sorts and indexes records, encodes and checks cache entries, replays a
  history in fixed steps, and decides what is drawn.  Public proof functions
  state what holds of several of these together.
- `app/` does what needs the outside: files and standard input, Git
  processes, the private cache directory, positions of nodes, and graphics.
- `tests/` runs the library on concrete inputs.

## What is proved

- A log has one meaning.  How its bytes arrive, how much memory the parser
  has and how many runs it merges at a time change nothing but whether a
  bound is exceeded.
- Sort runs of a stream are handed out and read back piece by piece.  Pieces
  are not trusted: whatever they hold, the result is a history in canonical
  order or an error.  Where every piece is what was handed out, the history
  holds exactly the records of the log.  Every piece and every step leaves
  less work, so that the sort ends.
- Events are in canonical order: by timestamp, then by their place in the
  source.
- Loading a stored cache entry under its key gives back the history that was
  stored; entries that were cut, that belong to another key, or whose checksum
  does not match are misses.
- Repository time is exact rational arithmetic, does not depend on how elapsed
  time is handed in, and never runs backwards.
- A completed tick of a replay has one state, however the replay was pumped,
  advanced, sought and restored on the way.

## What is trusted

BLAKE3 digests come from the `blake3` crate and UTF-8 conversions from the
standard library.  The doc comments in `digest`, `text` and `git_process` say
what is taken on trust.  Sort runs of inputs that are in memory as a whole
stay there, counted against the disk budget; those of streams are files that
`app/` writes, reads and removes.
