# libkicaddy

Tools for reading and reasoning about KiCAD schematics, with the core logic
written in Verus and proved against its contracts.

## Layout

- `src/` — the verified library.
  - `sexpr`, `sexpr_write`, `sexpr_roundtrip`: the S-expression reader (exact
    decimal numbers, positioned errors), the KiCAD-style writer, and the proof
    that reading what was written gives the expression back.
  - `endpoint`, `commands`, `pin`, `schematic`, `common`: connection endpoints
    (`R1:1`, `&GND`), command-line vocabularies and small shared types.
  - `union_find`, `outline_nets`, `connectivity`, `netlist`: connection points on
    a 1/10000 mm grid, joined where they coincide or along wires; the nets of the
    outline, the connectivity graph with its pin-to-net table, and the netlist.
  - `sheet_reader`, `sheet_points`: reading the parts of a schematic that
    connections depend on out of its S-expression tree, and placing them on the
    grid.
  - `schematic_write`: the typed schematic model (sheets, symbols, pins,
    graphics, labels, wires and the rest) and how each part is written.
  - `schematic_items`, `schematic_save`: the editable items of a schematic read
    from its file, and the file's tree with the edits saved back into it: untouched
    items as they were written, new ones after them, placed symbols with their
    definitions.
  - `schematic_header`: a schematic's version, generator, uuid, paper and title
    block.
  - `schematic_update`: an updated component written back into its placed symbol
    item: place, rotation, mirroring, property values and instance references.
  - `schematic_read_back`: the proofs that reading a written schematic gives back
    its junctions, wires and labels, and a saved one its edited wires.
  - `outline_components`: the components of the outline with the net of each pin.
  - `symbol_library`, `symbol_place`: reading a symbol library out of its tree, and
    from a library symbol to what placing, the symbol summary and saving need.
  - `pin_geometry`, `component_edit`, `wire_edit`, `label_edit`, `place`,
    `connect_plan`, `disconnect`, `references`, `symbol_instance`,
    `component_update`: where pins attach; the editable schematic (components,
    wires, labels, junctions) with its commands: placing symbols, adding and
    deleting wires and labels, connecting and disconnecting endpoints, deleting and
    updating components, and numbering new references.
  - `symbol_info`: the summary of a library symbol for tools.
  - `semantic_outline`, `semantic_merge`, `semantic_components`,
    `semantic_text`: the semantic outline, where pull-ups, series parts and
    switches are folded into the nets they connect.
  - `ordering`, `text`: stable insertion sort with its laws, and string helpers.
  - `config`, `lookup`, `layout`, `search`, `mcp`, `project`, `tools`: the
    decisions and data types behind configuration, library lookup and the tool
    interface, the netlist text of a schematic description, and the update of a
    project file's cached sheet list.
- `tests/` — tests run against the compiled library.
- `app/` — the command-line program: file access, environment, argument
  parsing, JSON reading and writing of project files, fresh uuids, and the
  floating-point geometry for pins turned by other angles than quarter turns.
