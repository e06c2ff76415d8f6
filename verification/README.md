# kitties

The kitties runtime module (kitties with 128-bit DNA, breeding, ownership
lists, a small market) as a Verus-verified library.

- `src/` is the verified library; every public function has a contract, and
  the laws of the owned-kitties list and of the module invariant are proof
  functions there.
- `tests/` runs the library on concrete values.
- `app/` holds the SCALE-encodable copies of the storage types (`Kitty`,
  `LinkedItem`) that a chain storage backend needs.

The chain itself (dispatch, storage, events, currency, the randomness source)
is outside the library: callers pass the signer (`Origin`), the block context
(`BlockContext`: random seed, extrinsic index, block number) and, for a
purchase, whether the payment went through.
