# novawm

The decision-making core of the NovaWM Wayland compositor, written in Verus
and proved against its specifications.

- `src/` is the verified library. Each module states its behaviour in
  `requires`/`ensures` contracts over mathematical models (`Seq`, `Set`,
  `Map`, integers) and proves laws about it as public proof functions
  (`lemma_*`):
  - geometry and layouts: `geometry`, `layout` (scroll strip, stacked rows,
    usable area, the targets windows are sent), `dwindle` (split tree, its
    pruning and the insertions that follow the windows), `ring` (border ring rectangles),
    `resize` (interactive resizing), `outputs` (monitor placement and the
    output that owns a point);
  - window bookkeeping and focus: `book` (column order, outputs, workspaces,
    moves and drops, arranging an output's scroll strip), `workspace` (columns, workspace and focus targets),
    `focus` (directional focus, pointer hits, layer keyboard grabs), `modes`
    (scratchpad, floating, maximized), `overview` (including each
    workspace's windows inside its overview cell);
  - input: `keybind`, `input` (key routing and filtering, action dispatch,
    pointer and wheel decisions, device settings);
  - configuration: `kdl_doc` (the parsed KDL document, through the `kdl`
    crate), `config` (applying documents to the settings), `reload` (the
    include walk and live reload), `rules`
    (window rules);
  - the control socket and tools: `ipc`, `listing`, `record`, `screenshot`,
    `session`, `text`.
- `tests/` runs the library on concrete values.
- `app/` is the unverified edge: the `novactl` client (socket I/O), reading
  configuration files and the environment, log files, keysym lookup through
  libxkbcommon, and the floating-point camera and easing helpers.

Verify with Verus; the tests run with `cargo test`.
