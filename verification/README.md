# vscode_rust

The logic of a small code editor workbench, written in Verus with its
behaviour stated in contracts and proved:

- `text`, `paths`: character-level text and path utilities (search, split,
  trim, numbers, UTF-8 widths, path components).
- `editor`: documents, indentation folding, syntax highlighting (through
  syntect) with bracket colouring across the document, the find widget, cursor arithmetic, visible lines under folds, inline diff rows.
- `git`: the `git` command lines behind Source Control and the parsers of
  their output (status, branches, history, changed files), the commit
  graph's swimlanes, and the multi-repository model.
- `search`: the workspace search engine (plain and regex matching, limits)
  and its view state.
- `fs`: the Explorer tree, its lazy loading and child order.
- `file_icons`, `assets`: the file-icon theme, built from the text of its
  JSON definition, the icon lookup, and SVG recolouring.
- `workbench`: editor tabs, the tab menu, shortcuts, the editor area, the
  active repository, commits and status messages.
- `vscode_widgets`: widget settings and answers, and what one frame of
  pointer input does to menus, tab strips, trees, selects, tables,
  checkboxes, radios and collapsible sections.

`app/` is a terminal front end that does the I/O (disk, `git`, folder
walks, file watching) around the library. `tests/` runs the library on
concrete inputs.
