# zk_torch

Basic blocks of a zero-knowledge compiler for neural networks, over the
BN254 scalar field, with their behaviour stated and proved in Verus: what
each block computes, and parts of how blocks are committed to, proved and
folded.

## Layout

- `src/field.rs`: field elements (`Fe`) as plain values, their arithmetic
  through `ark-bn254`/`ark-ff`, the roots of unity of an evaluation domain
  through `ark-poly`, and the signed reading of an element.
- `src/tensor.rs`: dense row-major tensors, indices and offsets, resizing and
  padding to powers of two.
- `src/basic_block/`: one module per basic block (addition, matrix
  products, convolutions, concatenation, copy constraints, lookups, ...);
  each `run` states the output it computes. `copy_constraint` and
  `copy_partitions` also hold the permutation that a copy constraint's setup
  builds.
- `src/curve.rs`: points of the BN254 curve and its twist as plain
  coordinates, their group operations through `ark-bn254`, and
  multi-scalar multiplication.
- `src/poly.rs`: polynomial evaluation, and the products, differences and
  quotients by the vanishing polynomial that `ark-poly` computes.
- `src/eval.rs`: why a blinded polynomial keeps its values on the domain:
  Horner's rule in the field against Horner's rule over the integers.
- `src/basic_block/data.rs`: committed vectors (`Data::new`: interpolation,
  blinding, commitment) and their verifier form.
- `src/basic_block/copy_prove.rs`: the grand products of the copy
  constraint and of the concatenation, their blinded polynomials and
  commitments, and the blinded commitments of the permuted vectors.
- `src/basic_block/cqlin_prove.rs`, `matmul_prove.rs`, `prover.rs`: the
  provers of linear lookups and of matrix products (with the six extra
  points a proof for folding carries), and the commitments they share.
- `src/basic_block/concat_prove.rs`: the first rounds of the
  concatenation's and the copy constraint's provers (the vectors' values
  on the domain, blinded commitments, the commitments tying them to the
  committed vectors, the grand product and its commitment).
- `src/basic_block/matmul_fold.rs`: folding matrix product proofs (error
  terms, accumulation, the verifier's check); target-group elements (`Gt`)
  are held in `src/curve.rs`.
- `src/basic_block/transcript.rs`: what a lookup folding step absorbs
  before it draws its folding challenge.
- `src/basic_block/cq_fold.rs`, `cqlin_fold.rs`, `cqlin_verify.rs`,
  `cq_verify.rs`: folding a lookup proof into an accumulated one (error
  terms and new accumulator), and the verifier's check of a folding step.
- The verifier's side of the blocks: `verify` on the addition blocks, the
  sum, equality, the convolutions (`conv_check.rs`), concatenation
  along the last axis (`concat_check.rs`), linear lookups
  (`cqlin_check.rs`), lookups (`cq.rs`), matrix products
  (`matmul_check.rs`) and permutations (`permute_check.rs`): each returns
  the commitment comparison or the exact list of pairing checks; the
  lookups' `acc_decide` gives the decider's checks of an accumulator.
- `src/accumulator.rs`: cutting accumulated proofs into their parts, and the
  linear combinations that folding makes.
- `src/graph.rs`, `src/batched_basic_block.rs`: wiring nodes together and
  splitting batches.
- `app/`: what runs around the library: blocks computing with floats, the
  graph's run loop over trait objects, and printing.
- `tests/`: tests on concrete values.

Random draws (blinds, challenges) are arguments: the caller draws them
from its transcript, as is the pairing that the product block's folding
error needs. Computing pairings, the quotients and openings of the
copy constraint and of the concatenation, and the provers of plookup and
the batched lookups, are not part of this crate.
