# bebytes

A verified model of the BeBytes binary layout: structs made of bit fields,
primitives, byte arrays, options, vectors, strings, marker-delimited fields,
fieldless enums and nested structs, encoded and decoded in big- or
little-endian order.

- `src/` is the library, verified with Verus. `codec` states what an
  encoding is and what decoding bytes gives; `encode` and `decode` implement
  them; `api` and `optimize` offer the operations of a struct with a layout;
  `enums`, `validate`, `resolve`, `layout` and `context` hold what decides
  and checks a layout; `attrs` reads field attributes and `types` field types
  and field paths; `size_expr` evaluates size expressions and `size_parse`
  reads them from text (parsed by `syn`), resolves the field names they use
  and writes them back as text;
  `roundtrip`, `bounds`, `sizes` and `placement` prove the laws that tie the
  operations together.
- `tests/` runs the library on concrete layouts and values.
- `app/` reads struct and enum definitions with `syn`, turns their types and
  attributes into the library's plain trees, and hands them to the library.
