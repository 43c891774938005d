# Tokenizer core of a markdown parser, verified with Verus

- `src/tokenizer.rs`: the tokenizer. Its state is modelled by `Model`
  (see `Tokenizer::view`); every public operation states its effect as a
  spec function over that model (`spec_consume`, `spec_enter`, `spec_exit`,
  `spec_check`, `spec_attempt`, `spec_settle`, `spec_run`, `spec_flush`, ...).
  Walking through the document (line ending normalisation, tab expansion,
  jumps defined with `define_skip`) is specified by `step` and `walk`, whose
  termination rests on the `potential` measure.
- `src/construct/partial_non_lazy_continuation.rs`: the non-lazy
  continuation construct (two state functions).
- `src/state.rs`: state names, `State`, and the dispatcher `call`.
- `src/event.rs`, `src/parser.rs`, `src/resolve.rs`, `src/constant.rs`: the
  data the tokenizer works on.
- `src/laws.rs`: properties across operations: checks always revert,
  attempts revert on failure, reverting to a capture after only additions
  gives back the captured state, resolver registration is duplicate-free,
  the stack of open tokens is what the events leave open (kept by `new`,
  `enter`, `exit` of the innermost token and `consume`; its length is the
  number of enters minus exits), line endings and tabs are normalised,
  steps keep the jumps defined so far, jumps are taken, consuming moves
  forward, flushing feeds the end of the document. `lemma_run_ends` in
  `src/tokenizer.rs` shows that a run ends with its byte consumed, and a
  push that ends in a `Next` state stops at or after `to`.
- `tests/`: tests on concrete documents.
