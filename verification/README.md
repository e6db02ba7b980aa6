# enx_wasm_parser

Decoder for Teledyne RDI PD0 / ENX acoustic Doppler current profiler files,
verified with Verus.

- `src/` — the verified library: little-endian readers (`bytes`), the
  ensemble header (`header`), the checksum (`checksum`), one module per data
  block (`fixed_leader`, `variable_leader`, `velocity`, `echo_intensity`,
  `vmdas_nav`), the per-ensemble assembly of a ping (`ensemble`) and the
  file-level loop (`parser`). Every function is specified against a spec
  function over the raw bytes; counts, positions and intensities stay in the
  instrument's integer units.
- `app/` — the WebAssembly entry point `parse_enx`: floating-point geometry
  (GPS to Cartesian, bin depths), JSON and Float32Array output, error texts.
- `tests/` — tests on hand-built ensembles.
