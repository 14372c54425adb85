# snek

Compilers for two small expression languages, Cobra and Diamondback, written
in Verus. Source programs are S-expressions; the compilers check them and
emit x86-64 assembly text.

- `src/sexpr.rs` reads S-expressions through the `sexp` crate.
- `src/cobra/`: syntax, parser, instructions, environment (an `im::HashMap`),
  code generation, and the proofs about labels and stack operands.
- `src/diamondback/`: the same for Diamondback, with functions, calls and
  frames, and the proofs about frames, labels, calls and the order in which
  arguments reach parameters.
- `src/runtime.rs`, `src/tagging.rs`: the value encoding and the decisions of
  the run-time support (reading the input, printing the result).
- `app/`: the command-line driver and the run-time entry points.
- `tests/`: tests of the parsers, the compilers and the run-time support.
