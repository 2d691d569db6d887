# polyorama

The workspace model of the Polyorama image analysis application, as a Verus
library, with the repository tooling around it.

`src/` holds the verified library:

- `dock`: the canonical dock tree of panes, its validation, pane moves and
  activation (split fractions in ten-thousandths).
- `commands`: image intents validated into undoable commands, their
  application and reversal, and the undo history.
- `runtime`, `residency`: tile payloads and their LZ4 decoding, the per-frame
  upload budget, the least-recently-used tile cache, and the residency state
  machine of demanded tiles.
- `actions`, `semantics`, `text`, `interface`: action identities and
  shortcuts, semantic node identities, text specifications and the plain
  descriptions shared by interface components.
- `plans`, `ui_tool`, `architecture`, `paths`: the rules of the repository
  tooling (plan lifecycles, the UI snapshot command line, architecture
  boundaries, output paths).
- `token_source`, `tokens`, `token_output`: the design token source read
  from its JSON model, theme and density overrides, alias and colour
  resolution, and the generated colour constants.
- `fixtures`: the UI snapshot fixture manifest, the frozen evaluation seed,
  text coverage counts and the verdicts of snapshot verification.
- `strings`, `text_scan`, `text_order`: building, reading and ordering text
  by characters.

`app/` is the tooling program: it reads files, parses JSON, runs processes,
decodes tiles on a thread and keeps the floating-point parts (synthetic
tiles, preferences, pane size classes, the facts and literals of token
numbers).

`tests/` exercises the library from outside.
