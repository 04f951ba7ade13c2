# survi_launcher

The logic of a Minecraft launcher, written in Verus with its contracts proved:
accounts (Microsoft, AZauth and offline), access codes of private instances,
the download plan of a game version (libraries and their platform rules,
assets, Fabric and Forge loaders, an instance server's files), the choice of a
Java runtime, and the game's command line.

- `src/` is the verified library. Calls into hashing, UUID, base64 and URL
  crates stand behind small trusted wrappers in `src/cripto.rs` (and two std
  wrappers in `src/texto.rs`), each with a doc comment saying what its
  contract claims.
- `app/` is the desktop application around it (Tauri commands, HTTP, files,
  processes, the SQLite store and Discord presence); it hands the library
  plain values and acts on what comes back.
- `tests/` runs the library on concrete values.
