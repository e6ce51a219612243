# macro_workshop

A small collection of Rust macros — a `Builder` derive, `FieldCounter`,
`DefaultNew` and `Getters` derives, a `CustomDebug` derive and a `seq!`
macro — whose logic is written and proved with Verus.

- `src/` is the verified library. It works on a plain-value model of token
  streams (`tokens`) and of derive inputs (`derive_input`). Each macro's
  decisions are functions with contracts over spec functions: `builder`,
  `customer_model`, `custom_debug`, `seq_expand` (and the block form in
  `seq_block`). `cursor` and `syntax` read tokens the way a parser does,
  with its error messages and spans. Literal values are read by `syn`
  behind two trusted wrappers in `literal`.
- `app/` converts between `proc_macro2`/`syn` values and the model, and
  writes the generated code with `quote`.
- `tests/` runs the library on token streams parsed from source text.
