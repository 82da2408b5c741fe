# launchvault_core

The verified core of LaunchVault, a personal game launcher for Linux and
Windows: its library of games, its reading of Steam's files, and its theme
choice, written in Verus with contracts proved by the verifier.

- `src/vdf.rs` — parser for Steam's KeyValues (VDF) text, specified by a
  grammar over the text's characters, with the laws that written values read
  back and that whitespace outside quoted strings does not matter.
- `src/models.rs`, `src/library.rs` — games and saved data, how they are
  shown, and the library's operations (adding Steam and local games,
  sessions, removal, search, name order).
- `src/steam.rs` — library folders and app manifests, cover addresses and
  file names, launch arguments.
- `src/theme.rs` — theme kinds, presets and palettes.
- `src/text.rs`, `src/order.rs`, `src/path.rs` — character-level helpers,
  stable ordering by name, paths.
- `app/` — the command-line front end: files, network, processes and the
  environment.
