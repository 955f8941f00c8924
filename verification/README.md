# visurx

Analysis of JavaScript and TypeScript projects, written in Rust and verified
with Verus.

A project is a set of files held in memory. The library unpacks it from a ZIP
file, tells what its files are for, and runs the stages of the engine on them:
parsing, symbols, imports, references, control flow.

- `src/` is the library. Its functions state what they return, and Verus proves
  that they do.
  - `vfs`: the files of a project.
  - `scan`: a first look at them, with the manifests, container files and
    workspace files that are found on the way.
  - `engine`: the stages. `parse` turns a source into a tree, `semantic` finds
    symbols in it, `resolve` finds out where imports lead, `references` what
    the names that are called or extended refer to, and `cfg` how complex each
    function is. `analyse` does parsing and symbols in one pass.
  - `report`: what a run adds up to.
  - `error`, `panic_safety`, `adapter`: what can go wrong, what becomes of it,
    and in which format results are handed out.
  - `text`, `string_map`: strings and maps keyed by strings.
- `tests/` runs the library on examples.
- `app/` is the command line program around it: files, the console, JSON and
  protobuf.

The parser, the control flow graphs, the import resolver, and the readers of
ZIP, JSON and YAML are outside crates. The few functions that call them are
marked `external_body`; the comment above each says what is taken for granted.
