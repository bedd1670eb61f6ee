# r1cs_ipa

A Bulletproofs-style inner-product argument over BLS12-381, and a
zero-knowledge argument for rank-one constraint systems built on it,
written in Verus.

Field arithmetic, group operations, Fiat-Shamir transcripts and constraint
synthesis are done by `ark_ff`, `ark_ec`, `merlin` and `ark_relations`; the
library states what it relies on from them and proves the rest:

- `field`, `group`: field elements as canonical integers below `r`, and
  points of G1 with their discrete logarithm as a ghost value, so that group
  arithmetic is arithmetic modulo `r`; distinct points have distinct
  encodings, so comparing encodings compares points.
- `transcript`: a transcript as the sequence of operations applied to it;
  challenges are functions of that sequence.
- `linalg`: inner products, powers, sparse matrix products, Pedersen
  commitments and their linearity (`lemma_pedersen_linear`).
- `ipa`, `r1cs`: the provers and verifiers, each with a contract that pins
  down its output, the completeness theorems
  (`lemma_ipa_completeness`, `lemma_r1cs_completeness`) and the binding of
  the inner-product verifier to one commitment (`lemma_ipa_verify_binding`).
- `circuit`: the cubic, power and SHA-256 example circuits, with theorems on
  when the cubic and power circuits are satisfied.
- `algebra`: the modular arithmetic behind the theorems.

`app/main.rs` runs the protocols end to end; `tests/` exercises them on
concrete values.
