# xjasper

A report engine: a JSON template of banded elements (title, detail, summary) is
filled with the rows of a JSON data source, with variables that aggregate decimal
values (Sum, Count, Average, Min, Max, First), and laid out on a page that a PDF
renderer draws.

- `src/` is the library, verified with Verus: expression parsing, template
  validation, the data source cursor, decimal aggregation, the layout engine and
  the geometry of the PDF page. Its contracts are stated over `Seq`, `Map`-like
  sequences of named entries, and views of each type; the laws of the library
  are public proof functions (`law_*`).
- `app/` is the command-line program: it reads files, turns template JSON into
  the library's types with `serde`, and draws the PDF with `printpdf`.
- `tests/` runs the library on concrete inputs.

## Maps keyed by name

The template's bands, the engine's variables and each JSON row are kept as vectors of
`(name, value)` entries rather than `String`-keyed `HashMap`s; their
contracts speak of the first entry of a name (and, where entries are made, of names that
occur once): `BandMap`, the engine's variables, and a data-source row. With a `String`
key, vstd's specification of `HashMap` gives nothing that a lookup could be proved from,
so a map read after a write could not be stated. JSON rows are still read through
`serde_json` into `HashMap`s; the order of their entries is the map's own, and the
contracts state only what does not depend on it.
