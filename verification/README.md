# jgrep3

A Windows desktop grep: pick a folder, a query (literal or regular
expression) and file/folder masks; matching lines are listed with file,
line and column, and open in an external editor on double click.

## Layout

- `src/` — the library, verified with Verus:
  - `search/` — the search engine: file masks and `.gitignore` rules
    (`glob_mask`, `gitignore`), the walk decisions (`walk`), binary
    detection and decoding (`decode`), literal and regex matching
    (`match_engine`, `pattern`) and the per-file search over raw bytes or
    decoded text (`pool`).
  - `config` — the settings model, defaults, search history and where the
    settings file is read from and written to.
  - `editor` — the external editor's command line from its argument template.
  - `results`, `order` — the result list, stable sorting and status texts.
  - `layout`, `custom_draw`, `theme`, `settings`, `drives` — window layout
    and column stretching, what custom drawing paints, the palettes, the
    settings dialog's choices and the folder tree's drive and folder lists.
  - `text` — character, UTF-8 and UTF-16 helpers shared by the above.
- `app/` — the Windows program around the library: windows and controls,
  file and registry access, threads, and the floating-point DPI scaling.
- `tests/` — tests of the library.
