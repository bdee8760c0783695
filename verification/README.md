# theme_picker

The logic of a wallpaper picker with a paginated thumbnail grid, proved with Verus.

- `src/` is the verified library:
  - `path.rs`, `lex.rs`, `path_list.rs`: paths as raw bytes, their components, their
    order, and a stable sort of path lists;
  - `filesystem.rs`: favorites (add, remove, file text, parsing), the selection of
    wallpapers in a directory listing, and cached thumbnail paths (SHA-256 named);
  - `hooks.rs`, `config.rs`: the settings and which hook applies a wallpaper;
  - `state.rs`, `ui/`: the picker state, keyboard/scroll/resize handling, the page
    layout, the highlight and the page indicators;
  - `text.rs`, `utils.rs`: text helpers, layout constants and the grid size.
- `app/` is the GTK program around it: windows, widgets, files, the thumbnail
  worker (libvips) and the hook processes.
- `tests/` runs the library on concrete values, and compares path handling
  with the standard library's.
