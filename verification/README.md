# gitka

Compressed backups of git repositories on removable media, with offline
unlock/lock sessions, LAN serving, deduplication, per-part encryption and
recovery records.

- `src/` is the verified library (Verus): the archive header and entry
  stream, volume splitting, deduplication bookkeeping, key derivation and
  per-part encryption, the session log, configuration editing, drive and
  mount-table logic, the sync decisions, and the decisions of every command.
- `app/` is the command-line tool around it: argument parsing, files,
  processes, git and HTTP.
- `tests/` exercises the library on concrete values.
