# layernotes

Post-it notes for Wayland desktops: one fullscreen layer-shell surface per
monitor behind the windows, notes stored as markdown files with a YAML
frontmatter block.

The crate is split in two.

- `src/` is the library, written in Verus and proved: the note file format
  (`note_file`), file-name slugs (`slug`), paths (`paths`), configuration
  choices (`config`), the IPC line protocol (`ipc`), output layouts
  (`geometry`), the per-monitor surface registry (`outputs`), note placement
  and the rescue board (`notes`), reload merging and display order
  (`reload`), edit/pin/delete state (`session`), pointer gestures across
  monitors (`gesture`), file-watch filters (`watch`) and theme colours
  (`theme`). Each public function states its result in its `ensures`; the
  laws that relate several calls are public `lemma_*` proof functions.
- `app/` is the program around it: the iced user interface, Wayland and
  inotify plumbing, the Unix socket, file I/O, serde copies of the
  configuration types, and the floating-point screen geometry.

`tests/` exercises the library on concrete values.
