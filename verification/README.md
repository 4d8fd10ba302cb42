# axis shape algebra and data regimes, verified

The parts of an experimental named-axis training library that decide things: which shapes
an operation accepts and what it produces, which samples a loader may hand out, and which
declarations an experiment's receipts record. Verus verifies every function in `src/`; the
public ones state what they return or change in contracts, and the laws that span several
calls are proved as lemmas.

- `src/axis.rs`, `src/geometry.rs`: named axes, dimensions and shapes whose axes are
  distinct and whose element count fits `usize`; the shared rewriting, window and product
  arithmetic.
- `src/contraction.rs`, `src/broadcast.rs`, `src/structural.rs`, `src/loss.rs`: the shape
  rules of contraction, elementwise broadcasting, renaming, selection, stacking,
  concatenation and categorical cross-entropy.
- `src/model/`: the shape algebra of the layers (convolutions, folds, pooling, dense,
  embedding, normalization and recurrent layers), average pooling's window divisors, the
  Muon parameter selection and partition, and the module containers.
- `src/research/`: single-pass and finite-pass data regimes, the loaders that enforce them,
  population disjointness, and the declarations of the empirical ledgers.
- `src/text.rs`: the text the library's messages and receipts are made of.
- `app/`: the floating-point ledgers and stencils, and the float view of generated addition
  problems, built on the library.
- `tests/`: scenarios on concrete values, one per documented behaviour and law.

Laws that relate several functions are public proof functions named `lemma_*`, beside the
functions they speak of.
