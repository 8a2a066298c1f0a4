# deku_generic

Generates [deku](https://docs.rs/deku)'s `DekuReader`, `DekuWriter` and the
container traits for particular instantiations of a generic struct, rather than
for every `T`, with Verus proofs of what is generated.

- `src/stream.rs`, `src/syntax.rs`: token streams and the parts of Rust syntax
  that the macros read. The lexing and parsing is done by proc-macro2 and syn;
  the trusted functions are here and nowhere else.
- `src/item.rs`, `src/setting.rs`: a struct and its attributes, read out of
  their tokens. All that the parsers have to say is asked for here; the rest is
  a function of what was read.
- `src/attrs.rs`, `src/mirror.rs`, `src/bind.rs`: what the deku attributes say,
  their rewriting for the mirror structs, and the arguments of a request.
- `src/template.rs`, `src/emit.rs`, `src/expand.rs`, `src/entry.rs`: from a
  request to the generated code.
- `src/frame.rs`: a frame that is readable in one state and writable in two.
- `src/laws.rs`: what holds of the macros as a whole.
- `app/`: the macros on the compiler's own token type.
