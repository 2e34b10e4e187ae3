# bibliotecaria

The verified core of a desktop librarian for an Obsidian vault. An agent reads
a read-only mirror of the vault and leaves proposals in an output directory;
nothing reaches a note until the user accepts the proposal.

- `src/` holds the rules, each with a contract proved by Verus:
  `mirror` (what is mirrored, what a run counts, where a mirror may live),
  `paths` (whole-component prefixes, relative paths, accepting only plain
  relative paths), `proposals` (which files are proposals, newest-first
  listing), `agent` (prompts, tool-server configuration, command line, the
  agent's answer, the log entry of a run), `auth` (finding the sign-in token),
  `vault`, `mcp`, `sessions`, and `text` (character-level helpers).
- `app/` is the shell around it: Tauri commands, the file system, the agent's
  process, the key store and the tool server.
- `tests/` runs the library on concrete values.
