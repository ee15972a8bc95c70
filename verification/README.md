# fresh_editor: the read-only file viewer

A verified model of the editor's LIST-style viewer: opening a file from the
browser brings it up read-only, and only one viewer tab survives at a time.

- `src/buffer.rs`: buffers, files read from disk, and the sequence algebra
  (`find`, `without`, `update_buffer`) that the window is specified with.
- `src/window.rs`: the window's tabs, active buffer, viewer set and focus,
  with opening, closing, locking, promoting and hex toggling.
- `src/keys.rs`, `src/modes.rs`: the plugin-default tier of the keybinding
  resolver and the buffer-mode registry.
- `src/path_name.rs`: the display name of a file, the final component of
  its path.
- `src/editor.rs`: the editor state as a whole.
- `src/file_viewer.rs`: the viewer itself and the laws it keeps.
- `app/lib.rs`: reading files, terminal keys, and status-bar wording.
