# rebit

The core of Rebit, a BIM/CAD platform, written in Verus and proved against
its contracts.

## Layout

- `src/` is the verified library. Each module models its data with a view
  (a `Map`, `Seq` or plain values) and states what every public function
  returns or changes in terms of that view:
  - `entity`, `relationship`, `transaction`, `schema`: the building model,
    its relationship indexes, undoable transactions and the category schema;
  - `ui`, `desktop`, `plugins`, `pipeline`, `telemetry`, `gpu`: command
    registry and undo stack, the desktop shell, plugin lifecycle, the import
    job queue, telemetry and the GPU resource bookkeeping;
  - `auth`, `projects`, `collaboration`: sessions and roles, projects and
    access, comment threads and review state;
  - `ai`, `dwg`, `ifc`: rule checks and suggestions, file import/export;
  - `geometry`, `mesh`, `scene`, `sorted`, `constraints`: the integer side of
    the geometry kernel (face classification, boolean face selection, id
    allocation, edge pairing), mesh index assembly, scene culling, id-ordered
    maps and point-to-variable mappings;
  - `keyed`, `text`: string-keyed maps and decimal formatting used by the
    modules above.
- `tests/` exercises the library on concrete values.
- `app/` is the desktop program: the window and GPU code, and the
  floating-point geometry, constraint solving and rendering that call into
  the library for the decisions it proves.
