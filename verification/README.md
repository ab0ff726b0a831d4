# tyhtml

The verified core of a Typst-to-HTML compilation engine for Node.js.

- `src/` is the library, proved with Verus:
  - `options` resolves constructor and call options,
  - `dirs` derives Typst's data and cache directories from the platform and
    the environment, `package` resolves an imported package to a directory,
  - `html` cuts the body out of an HTML page,
  - `metadata` maps Typst metadata values onto JSON values,
  - `diagnostics` locates warnings and errors in the main file,
  - `compile` assembles the result of a compile.
- `app/` is the Node.js addon around it: the Typst world (files, fonts,
  clock), the call into the Typst compiler and HTML exporter, metadata
  queries, JSON serialisation and the N-API bindings.
- `tests/` exercises the library on concrete inputs.
