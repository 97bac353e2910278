# WinRehome

A Windows migration backup tool: it records the installed applications, finds
portable applications and high-value personal data, packs what is selected into a
single `.wrh` archive, verifies it, and restores it elsewhere.

The decisions are a library verified with Verus; the program around it does the
file, registry and console work.

## Layout

- `src/` — the verified library (`winrehome`).
  - `text`, `order`, `winpath`, `names` — text and Windows-path models, the stable
    sort, and the name lists the rules use.
  - `models`, `plan` — scan results, path keys, noise and system-path rules, display
    names, selection summaries.
  - `userdata`, `portable`, `installed`, `walk` — the scan rules: what a walk of a
    folder counts, how personal data and portable applications are recognized, how
    registry entries are kept.
  - `codec`, `archive`, `backup`, `restore` — the archive format (header, entries,
    manifest, footer), collecting and writing a backup, planning and checking a
    restore.
  - `review`, `config` — what the review screens decide, and where settings live.
- `app/` — the command-line program: walks folders, reads the registry, reads and
  writes files, and converts the manifest and settings to and from JSON.
- `tests/` — tests of the library on concrete values.

## Archive format

`WRH1`, then each file's DEFLATE stream, then the JSON manifest, then a footer of the
manifest's offset and length (little-endian `u64`s) and `WRHF`.
