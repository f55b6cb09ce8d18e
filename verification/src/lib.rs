//! A height-balanced binary search tree over `u64` values.
//!
//! The tree keeps three invariants after every completed public operation:
//! binary-search ordering, a height-balance bound (the depths of the two
//! subtrees of every node differ by at most one), and uniqueness of values.
//! Balance is restored after every insertion or removal by constant-time
//! local rotations on the path back to the root.

mod balance;
mod insert;
mod laws;
mod remove;
mod render;
mod rotate;
mod tree;

pub use insert::lemma_unbalanced_insert_props;
pub use laws::lemma_count_matches_distinct_values;
pub use laws::lemma_rotate_left_then_right_restores;
pub use laws::lemma_rotate_right_then_left_restores;
pub use tree::BST;
