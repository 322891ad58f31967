# dynamic_reshare

A protocol that hands a shared signing key over to a new set of participants, under a new
threshold if wanted, without changing the public key.

Old participants (dealers) weight their shares so that the weighted shares add up to the secret,
and deal them to the new participants (receivers) with Feldman's verifiable secret sharing. New
participants check what they were dealt, exchange auxiliary data, and prove to each other that
they know their new shares. A participant may be both, and is then said to be retained.

## Layout

- `src/` is the library, verified with Verus.
  - `builder`, `config`: who takes part, and in which role.
  - `dealer`: the weight of an old share, and what a dealer distributes.
  - `receiver`: the rounds of a new participant, one state for each.
  - `polynomial`, `sums`, `randomness`: what the two compute.
  - `round_input`, `order`: the message store of a round, and the order in which maps are read.
  - `suite`, `secp256k1`: the group and the digest. The functions at the end of `secp256k1` call
    `generic-ec`, `generic-ec-zkp` and `udigest`; their contracts are assumed, everything else is
    proved.
  - `algebra`, `interpolation`, `seqs`: mathematics.
  - `laws`: what holds of a reshare as a whole, such as that the public key is kept and that
    enough new shares determine the key.
- `tests/` run the library against the real group, message by message.
- `app/` drives the library over a network with `round-based`: it draws randomness, encodes and
  sends messages, and makes and verifies the zero-knowledge proofs on Paillier moduli.
