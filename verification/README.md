# wnfs

The private half of a content-addressed file system, verified with Verus.

A private node is a file or a directory. Its header holds a skip ratchet, from which the keys of
its revisions are derived. Whoever changes a directory moves every directory on the way to it on to
its next revision, so that a reference to the new root leads to all that is new.

## Layout

- `src/hash.rs`: digests, the nibbles that they are read by, and positions in a trie.
- `src/hamt.rs`: a trie as it is kept, over any node type.
- `src/uint256_serde_le.rs`: the fixed-width form of large numbers.
- `src/ratchet.rs`: what is relied upon of the skip ratchet.
- `src/ipld.rs`, `src/framing.rs`: IPLD values, and the check that bytes announce no more than they
  hold before they are decoded.
- `src/private/directory.rs`, `path.rs`, `operations.rs`: the directory tree and the operations on it.
- `src/private/forest.rs`: what is known of the nodes of a tree. A forest over a store answers with
  the place that has to be fetched next.
- `src/private/laws.rs`, `loading.rs`: what holds of the operations taken together.
- `src/private/node.rs`, `encoding.rs`: nodes, and the bytes that are stored of them.
- `src/private/header.rs`, `name.rs`: headers whose names are kept in an accumulator.
- `src/private/share.rs`: requests to share a node.
- `app/`: clocks, random numbers, stores, serde, and the bindings for the browser.

## What is trusted

The items marked `external_body` and `assume_specification` say what is relied upon of `sha3`,
`skip_ratchet`, `num-bigint-dig`, `semver`, `libipld`, `libipld-core` and `serde_ipld_dagcbor`. Each
has a doc comment that begins its claim with "Trusted".
