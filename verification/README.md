# xtce_flight

Compiles an XTCE definition into a `no_std` Rust encoder and decoder for the spacecraft side.

The library takes a definition whose containers have been flattened (`plan`), decides what an
encoder for it looks like (`layout`, `builder`), refuses by name what cannot be encoded, and renders
a module with a `struct` per container (`emit`), with a test harness for it (`harness`). What the
rendered code does is also there as code that runs from the layout itself (`codec`, `calibration`),
so that it can be stated and proved for every container at once.

Everything in `src/` is verified with Verus. The main statements:

* `codec::encode` writes exactly the bits the layout gives, or refuses by the first value that does
  not fit; `codec::decode`, `matches` and `dispatch` are stated in the same terms.
* `roundtrip`: what was encoded decodes to the values that went in, satisfies the criteria of its
  container, and reaches it through the dispatcher; calibrators do not reach the packet; fixed
  values are written and never read; bits that nothing claims are zero.
* `builder::build` gives exactly the layout of a plan, or the first reason there is none.
* `structure`: fields of a container have different names and none is a criterion; the types of a
  layout have different names; the bits of a label fit its field; a plan whose runs of bits lie
  inside their containers becomes a layout that can be encoded.
* `half`: narrowing to binary16 rounds to nearest, ties to even, and widening is exact.
* `emit`: the source of a module, character by character, up to the formatter.

The formatter (`syn`, `prettyplease`), tokens and string literals (`proc_macro2`) and a few functions
of the standard library are taken on trust; each stands behind a small wrapper that says what is
claimed.

`app/` is the command line program: reading a definition, and printing what the library makes of it.
`tests/` holds, among others, a generated module next to the definition it was generated from.
