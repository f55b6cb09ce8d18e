//! Laws of the tree that relate several operations, stated once for every
//! tree and proved by Verus.

use vstd::prelude::*;
use vstd::set_lib::lemma_set_disjoint_lens;

use crate::tree::BST;

verus! {

/// In an ordered tree no two nodes hold equal values, so the node count
/// equals the number of distinct values the tree holds: inserting N distinct
/// values into an empty tree, in any order, yields a count of N, and
/// inserting a duplicate leaves the count unchanged.
pub proof fn lemma_count_matches_distinct_values(t: BST)
    requires
        t.ordered(),
    ensures
        t.as_set().finite(),
        t.as_set().len() == t.size(),
    decreases t,
{
    match t {
        BST::Empty => {},
        BST::Node { left, value, right } => {
            lemma_count_matches_distinct_values(*left);
            lemma_count_matches_distinct_values(*right);
            assert(left.as_set().disjoint(right.as_set())) by {
                assert forall|x: u64|
                    !(left.as_set().contains(x) && right.as_set().contains(x)) by {
                    if left.as_set().contains(x) && right.as_set().contains(x) {
                        assert(x < value && value < x);
                    }
                }
            };
            lemma_set_disjoint_lens(left.as_set(), right.as_set());
            let u = left.as_set() + right.as_set();
            assert(u == left.as_set().union(right.as_set()));
            assert(!u.contains(value));
            assert(u.insert(value).len() == u.len() + 1);
        },
    }
}

/// A left rotation immediately followed by a right rotation restores the
/// original structure exactly, on any tree whose right subtree is a node
/// (the shapes on which a left rotation does its work).
pub proof fn lemma_rotate_left_then_right_restores(t: BST)
    requires
        t.right_tree().is_node(),
    ensures
        t.rotated_left().rotated_right() == t,
{
    let l = t.left_tree();
    let v = t.node_value();
    let r = t.right_tree();
    let rl = r.left_tree();
    let rv = r.node_value();
    let rr = r.right_tree();
    let a = BST::Node { left: Box::new(l), value: v, right: Box::new(rl) };
    let x = BST::Node { left: Box::new(a), value: rv, right: Box::new(rr) };
    assert(t.rotated_left() == x);
    let b = BST::Node { left: Box::new(rl), value: rv, right: Box::new(rr) };
    assert(x.rotated_right() == BST::Node { left: Box::new(l), value: v, right: Box::new(b) });
    assert(r == b);
}

/// A right rotation immediately followed by a left rotation restores the
/// original structure exactly, on any tree whose left subtree is a node
/// (the shapes on which a right rotation does its work).
pub proof fn lemma_rotate_right_then_left_restores(t: BST)
    requires
        t.left_tree().is_node(),
    ensures
        t.rotated_right().rotated_left() == t,
{
    let l = t.left_tree();
    let v = t.node_value();
    let r = t.right_tree();
    let ll = l.left_tree();
    let lv = l.node_value();
    let lr = l.right_tree();
    let a = BST::Node { left: Box::new(lr), value: v, right: Box::new(r) };
    let x = BST::Node { left: Box::new(ll), value: lv, right: Box::new(a) };
    assert(t.rotated_right() == x);
    let b = BST::Node { left: Box::new(ll), value: lv, right: Box::new(lr) };
    assert(x.rotated_left() == BST::Node { left: Box::new(b), value: v, right: Box::new(r) });
    assert(l == b);
}

} // verus!
