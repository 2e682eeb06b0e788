# patchwork

The verified core of Patchwork, a node-graph patching environment, written in
Verus. `src/` is the library; Verus checks every function there against its
contract. The few that only touch values shared with the audio thread promise
nothing of those values, which another thread may change at any time.

- `graph`: nodes, wires (one per input port), and the evaluation order given by
  Kahn's algorithm with its trailing cyclic part.
- `node_type`, `ports`: node kinds, their titles, colours and port lists; port
  kinds and the wiring rules.
- `undo`: bounded undo/redo history.
- `mcp`: the automation protocol: what each request line asks for, the tool
  calls, and the graph edits they make.
- `schedule`, `compile`: the render order of active audio chains and the flat
  layout (buffers, processors, operations, parameter slots) they compile to.
- `engine`: the audio engine's processor routing.
- `params`, `atomic_f32`: parameter slots shared with the audio thread.
- `eval`, `jsonpath`, `text`: text handling of node evaluation.
- `http`: requests in flight and how each is sent.
- `input`: MIDI message decoding and the kind of node a dropped file opens.

`tests/` exercises the library; `app/` is the automation server around it
(standard input and output, HTTP workers, JSON).
