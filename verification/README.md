# dxf

Tables, line types and multileaders of DXF drawings, with the code pairs they
are read from and written as, verified with Verus.

- `src/handle.rs`: object handles, handed out past the reserved range and
  written as upper-case hexadecimal.
- `src/decimal.rs`: `Real`, a decimal floating-point number (17 significant
  digits, with infinities and not a number) that holds lengths and angles, and
  the parsing of numerals into it.
- `src/tables.rs`, `src/linetype.rs`: the table items and their normalization;
  line type patterns such as `A,0.5,-0.25,["X",STANDARD,S=1]`.
- `src/drawing.rs`: a drawing's tables, handle assignment and normalization.
- `src/writer.rs`, `src/reader.rs`, `src/items.rs`: writing a drawing as code
  pairs and reading it back.
- `src/mleader.rs`: the code pairs of a multileader.
- `src/normalization.rs`, `src/round_trip.rs`: what holds across these
  operations: normalizing makes a drawing normal and changes a normal one in
  nothing; reading back what was written gives the tables back.
- `app/`: serde support for handles and line type elements.
