# klint

klint checks Rust code meant for the Linux kernel: it tracks the preemption count that each
function expects and changes, reads `#[klint::...]` annotations, and looks through the object
files that the compiler produces for references to `rust_build_error`. For the stack-frame
lint it reads the lint level and the configured frame-size limit; the frame sizes themselves
are not measured.

This crate holds the part of klint that can be stated and proved with Verus:

- `preempt_count`: expectation ranges of the preemption count, their meet, their shift by an
  adjustment and their rendering, with the lattice laws proved.
- `attribute`: the `#[klint::...]` attribute grammar, over plain tokens, with the whole
  grammar written as spec functions and the parser proved to follow it.
- `binary_analysis`: the section layout used to read DWARF out of relocatable object files
  (encoding and decoding of addresses, with the round trip and the placement of sections
  proved; unallocated sections share the region at address 0, sized by the largest of them), the relocation and loading of the DWARF sections into `gimli`, the decisions taken
  while walking the debugging information (names, PC ranges, inlined-call chains, file names,
  line-table search), the search for `rust_build_error` references and the stack-size lint's
  settings. Object files are read with the `object` crate through a small set of trusted
  functions in `binary_analysis/object_file.rs`.
- `diagnostic_items`: choosing the exported symbol that stands for `build_error`.
- `util`: decimal rendering and integer parsing as `str::parse` does it.

`app/` is the compiler driver around it: the rustc callbacks, the walk over `gimli`'s units,
entries and line programs (whose types the verifier cannot declare), file I/O and diagnostic
emission.
