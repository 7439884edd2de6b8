# cargo_info_types

Parse the output of `cargo info -q <crate> --color never` into typed values
(`CrateInfo`, `Feature`), verified with Verus.

- `src/text.rs`: the character-level model (Unicode whitespace, `trim`,
  `lines`, `split_whitespace`, `split`, `find`, `rfind`) and executable
  counterparts proved against it.
- `src/types.rs`: `CrateInfo`, `Feature` and their models.
- `src/parser.rs`: the header, field and feature lines, the typestate parser
  (Description → Fields → Features → Complete) and `parse`, each with a
  contract over the model.
- `src/executor.rs`: the result of one run of `cargo info` from its exit
  status and output.
- `src/laws.rs`: properties proved of every input: the layout of the output
  (description, fields, features), round trips of header and feature lines,
  the field values read back, the error conditions, the optional final
  line ending, and "\r\n" line endings parsing like "\n".
- `src/lib.rs`: `strip_ansi_escapes`, which calls the `strip-ansi-escapes`
  crate.
- `app/`: launching the `cargo info` process, and the error types with their
  `Display` messages (`thiserror`).
