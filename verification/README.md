# musicman

A small command-line music player: it scans `~/Music`, keeps a play queue,
and saves queues as playlists. Commands at the `musicman❯` prompt:
`add <term>`, `show`/`ls` (`current`/`cp`), `p`/`play`/`pause`, `clear`,
`next [n]`, `prev [n]`, `replay`, `playlist`/`pl` `new|load <name>` and
`show`/`ls`, `exit`.

Layout:

- `src/` — the verified library (Verus):
  - `text.rs` — splitting, trimming, joining, decimal parsing over characters;
  - `search.rs` — finding songs by a prefix of their lower-cased file name;
  - `commands.rs` — reading a line of input as a command;
  - `session.rs` — the player's state and what each command does to it;
  - `playlist.rs` — the playlist file format;
  - `frame.rs` — the framed listings;
  - `actions.rs` — what the program is told to do;
  - `laws.rs` — properties across operations.
- `app/` — the program: terminal input and output, audio (rodio), files.
- `tests/` — tests of the library.
