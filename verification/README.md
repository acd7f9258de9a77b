# rxarray

An extensible array: a radix tree from `usize` indices to integers and owned pointers, with its
behaviour stated in contracts and proved by Verus.

- `src/xarray.rs`: the array. Its contracts speak of the map of its entries.
- `src/node.rs`: the nodes of the tree, their slots, and the recursion down the levels.
- `src/spare.rs`: nodes that are allocated ahead of their use.
- `src/try_box.rs`: heap allocations that can be refused.
- `src/index.rs`: how an index is cut into slot offsets, and which nodes a path needs.
- `src/word.rs`, `src/value.rs`: the tagged words that slots hold, and the integers in them.
- `src/entry.rs`, `src/foreign.rs`, `src/error.rs`: what is stored, and what can go wrong.
- `src/laws.rs`: what holds of sequences of operations, of words and of paths.
- `tests/`: the same on concrete values.
