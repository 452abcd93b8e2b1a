# wavefront_obj_io

A streaming reader and writer for Wavefront OBJ files, verified with Verus.

- `src/` is the verified library. `parse.rs` reads one line into a
  `Directive` (or the `ParseErrorKind` that keeps it from reading), and
  `ObjLineReader` numbers the lines of a file so that an error names its line. Numbers are
  checked as `f32`/`f64` parse them, or, with `parse_line_with` and
  `read_line_with`, by what the caller's own float type accepted of the texts
  that `number_fields` gives.
  `write.rs` writes each directive as one line. `laws.rs` proves that a written
  line reads back as the directive it was written from, and that whatever the
  reader reads, the writer can write. `text.rs` and `number.rs` hold the
  models of words, whitespace, integers and float literals that the contracts
  are stated over; `error.rs` the error types and their messages.
- `app/` is the `std::io` side: `read_obj_file` with the `ObjReader`
  callbacks, `IoObjWriter` with the `ObjWriter` methods, and the `ObjFloat`
  trait that turns number texts into `f32` or `f64` and back.
- `tests/` runs the library on concrete lines and files.

Decimal numbers are written with `itoa`.
