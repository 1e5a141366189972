# cronaut

The logic of Cronaut, a desktop manager for `systemd --user` timers and the
current user's crontab, written in Verus with its contracts proved.

- `src/` — the verified library:
  - `text` — characters, whitespace, trimming, words, lines, decimals;
  - `crontab` — reading a crontab into lines, writing it back, and the
    add / edit / enable / disable / remove operations, with the laws that
    every other line survives an edit and that disabling never loses an entry;
  - `timers` — unit names, unit-file contents and the managed marker, the
    values read back from unit files and from `systemctl`;
  - `logs` — `journalctl` arguments, snapshots, the table of running tails;
  - `desktop_env`, `settings`, `tray` — desktop detection and window decisions;
  - `error` — the error type and the text shown for each error.
- `app/` — the Tauri application around it: processes, files, the webview
  and the tray icon.
- `tests/` — tests of the library on concrete values.
