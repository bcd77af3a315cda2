# termii

A desktop SSH client: saved connections in folders, Tailscale device discovery, port
forwarding, file transfer over SCP/SFTP, and a master password that seals stored passwords.

- `src/` is the library, verified with Verus: the connection tree and its edits, the config
  and its import/export checks (JSON and SuperPuTTY XML), password sealing and the master
  password, Tailscale status parsing and grouping, the terminal grid and its escape-sequence
  handling, the session loop's port-forward bookkeeping, remote path helpers, and the
  decisions behind the dialogs and the terminal view.
- `app/` is the program around it: the egui window, SSH sessions (russh), transfers (ssh2),
  discovery calls, files on disk and their serde forms.
- `tests/` exercise the library.
