# primport

Reads and writes PRIM mesh files of the Glacier engine and ports them between
the file layouts of HMA, ALPHA, HM2016 and WOA. The library is written in
Verus: every reader and writer states in its contract the bytes it consumes or
produces, and the laws in `src/roundtrip.rs` prove that what is written reads
back in the same layout.

Layout:

- `src/le.rs` – little-endian integers through the `byteorder` crate.
- `src/io.rs` – the byte reader and writer, padding, and arrays of integers.
- `src/version.rs`, `src/port.rs` – game versions and the command line.
- `src/object.rs`, `src/chunks.rs`, `src/vertices.rs`, `src/mesh.rs`,
  `src/prim.rs` – the parts of a file, from object headers up to whole files.
- `src/roundtrip.rs` – reading back what was written.
- `src/reread.rs` – what was read, written back in its layout, reads back
  as it was read.
- `app/` – the command-line program and its window, file I/O, verbose output,
  and the floating-point form of packed vertex attributes.

Floating-point values are held as their bit patterns throughout the library.
