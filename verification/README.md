# combinator_fuzzer

A grammar-combinator framework for structure-aware fuzzing, verified with Verus.

A grammar is a tree of `DataModel` nodes: fixed-size integers (`U8`, `U16`),
`Button` (the end of the input), `Sequence` (named fields in order), `SetOf`
(copies of a prototype until a condition holds), `Union` (the first matching
alternative), `Constraint` (a child that must satisfy a condition) and
`Switch` (an alternative picked from what was parsed before). Conditions and
selectors are small expressions over the context of parsed nodes around the
node being parsed.

Parsing a `BitArray` with a grammar gives a tree of the same kinds of nodes;
serialising the tree gives back exactly the bits the parse took, and fuzzing
it gives variants with one leaf replaced.

Layout:

- `src/model/bit_array.rs`: bit strings over bytes.
- `src/model/predicate.rs`, `src/model/context.rs`, `src/model/bolts.rs`: the
  condition language, the parse context and named children.
- `src/model.rs`: the node type, its mathematical model, parsing,
  serialising, fuzzing and the laws relating them.
- `src/library/`: one file per kind of node.
- `src/dns.rs`, `src/simple_example_grammar.rs`: two grammars.
- `app/`: the program that parses a DNS message from a file, and the
  floating-point feature vectors.
