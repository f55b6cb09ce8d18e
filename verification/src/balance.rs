//! Balance-factor computation and the rebalancing engine.

use vstd::prelude::*;

use crate::rotate::lemma_rotated_left_model;
use crate::rotate::lemma_rotated_left_right_model;
use crate::rotate::lemma_rotated_right_left_model;
use crate::rotate::lemma_rotated_right_model;
use crate::tree::BST;

verus! {

impl BST {
    /// Computes the balance factor: the depth of the left subtree minus the
    /// depth of the right subtree; the empty tree has balance factor 0.
    pub fn balance_factor(&self) -> (b: isize)
        requires
            self.height() <= isize::MAX,
        ensures
            b == self.spec_balance_factor(),
    {
        match self {
            BST::Empty => 0,
            BST::Node { left, right, .. } => {
                let left_depth = left.depth();
                let right_depth = right.depth();
                left_depth as isize - right_depth as isize
            },
        }
    }
}

/// A single right rotation restores balance at a left-heavy root whose left
/// child does not lean right, lowering the height by at most one.
proof fn lemma_rotated_right_restores(t: BST)
    requires
        t.is_node(),
        t.left_tree().balanced(),
        t.right_tree().balanced(),
        t.spec_balance_factor() == 2,
        t.left_tree().spec_balance_factor() >= 0,
    ensures
        t.rotated_right().balanced(),
        t.height() - 1 <= t.rotated_right().height() <= t.height(),
{
    reveal_with_fuel(BST::height, 4);
    reveal_with_fuel(BST::balanced, 4);
    let l = t.left_tree();
    let v = t.node_value();
    let r = t.right_tree();
    assert(l.is_node());
    let ll = l.left_tree();
    let lv = l.node_value();
    let lr = l.right_tree();
    let inner = BST::Node { left: Box::new(lr), value: v, right: Box::new(r) };
    let res = BST::Node { left: Box::new(ll), value: lv, right: Box::new(inner) };
    assert(t.rotated_right() == res);
    assert(ll.height() == r.height() + 1);
    assert(inner.balanced());
    assert(res.balanced());
}

/// A single left rotation restores balance at a right-heavy root whose right
/// child does not lean left, lowering the height by at most one.
proof fn lemma_rotated_left_restores(t: BST)
    requires
        t.is_node(),
        t.left_tree().balanced(),
        t.right_tree().balanced(),
        t.spec_balance_factor() == -2,
        t.right_tree().spec_balance_factor() <= 0,
    ensures
        t.rotated_left().balanced(),
        t.height() - 1 <= t.rotated_left().height() <= t.height(),
{
    reveal_with_fuel(BST::height, 4);
    reveal_with_fuel(BST::balanced, 4);
    let l = t.left_tree();
    let v = t.node_value();
    let r = t.right_tree();
    assert(r.is_node());
    let rl = r.left_tree();
    let rv = r.node_value();
    let rr = r.right_tree();
    let inner = BST::Node { left: Box::new(l), value: v, right: Box::new(rl) };
    let res = BST::Node { left: Box::new(inner), value: rv, right: Box::new(rr) };
    assert(t.rotated_left() == res);
    assert(rr.height() == l.height() + 1);
    assert(inner.balanced());
    assert(res.balanced());
}

/// The double rotation restores balance at a left-heavy root whose left
/// child leans right, lowering the height by exactly one.
proof fn lemma_rotated_left_right_restores(t: BST)
    requires
        t.is_node(),
        t.left_tree().balanced(),
        t.right_tree().balanced(),
        t.spec_balance_factor() == 2,
        t.left_tree().spec_balance_factor() < 0,
    ensures
        t.rotated_left_right().balanced(),
        t.height() - 1 <= t.rotated_left_right().height() <= t.height(),
{
    reveal_with_fuel(BST::height, 5);
    reveal_with_fuel(BST::balanced, 5);
    let l = t.left_tree();
    let v = t.node_value();
    let r = t.right_tree();
    assert(l.is_node());
    let ll = l.left_tree();
    let lv = l.node_value();
    let m = l.right_tree();
    assert(m.is_node());
    let ml = m.left_tree();
    let mv = m.node_value();
    let mr = m.right_tree();
    let la = BST::Node { left: Box::new(ll), value: lv, right: Box::new(ml) };
    let lrot = BST::Node { left: Box::new(la), value: mv, right: Box::new(mr) };
    assert(l.rotated_left() == lrot);
    let mid = BST::Node { left: Box::new(lrot), value: v, right: Box::new(r) };
    assert(t.rotated_left_right() == mid.rotated_right());
    let rb = BST::Node { left: Box::new(mr), value: v, right: Box::new(r) };
    let res = BST::Node { left: Box::new(la), value: mv, right: Box::new(rb) };
    assert(mid.rotated_right() == res);
    assert(m.height() == r.height() + 1);
    assert(ll.height() == r.height());
    assert(la.balanced() && la.height() == r.height() + 1);
    assert(rb.balanced() && rb.height() == r.height() + 1);
    assert(res.balanced());
}

/// The double rotation restores balance at a right-heavy root whose right
/// child leans left, lowering the height by exactly one.
proof fn lemma_rotated_right_left_restores(t: BST)
    requires
        t.is_node(),
        t.left_tree().balanced(),
        t.right_tree().balanced(),
        t.spec_balance_factor() == -2,
        t.right_tree().spec_balance_factor() > 0,
    ensures
        t.rotated_right_left().balanced(),
        t.height() - 1 <= t.rotated_right_left().height() <= t.height(),
{
    reveal_with_fuel(BST::height, 5);
    reveal_with_fuel(BST::balanced, 5);
    let l = t.left_tree();
    let v = t.node_value();
    let r = t.right_tree();
    assert(r.is_node());
    let rr = r.right_tree();
    let rv = r.node_value();
    let m = r.left_tree();
    assert(m.is_node());
    let ml = m.left_tree();
    let mv = m.node_value();
    let mr = m.right_tree();
    let ra = BST::Node { left: Box::new(mr), value: rv, right: Box::new(rr) };
    let rrot = BST::Node { left: Box::new(ml), value: mv, right: Box::new(ra) };
    assert(r.rotated_right() == rrot);
    let mid = BST::Node { left: Box::new(l), value: v, right: Box::new(rrot) };
    assert(t.rotated_right_left() == mid.rotated_left());
    let lb = BST::Node { left: Box::new(l), value: v, right: Box::new(ml) };
    let res = BST::Node { left: Box::new(lb), value: mv, right: Box::new(ra) };
    assert(mid.rotated_left() == res);
    assert(m.height() == l.height() + 1);
    assert(rr.height() == l.height());
    assert(lb.balanced() && lb.height() == l.height() + 1);
    assert(ra.balanced() && ra.height() == l.height() + 1);
    assert(res.balanced());
}

impl BST {
    /// Restores the balance invariant at the root by rotating until the
    /// balance factor is within `[-1, 1]` again, given that both subtrees
    /// are already balanced and the root is out of balance by at most one
    /// extra level — the only states the insertion and removal paths reach.
    ///
    /// An already balanced tree is left unchanged; the value set and the
    /// node count are always kept, and the height drops by at most one.
    pub fn rebalance(&mut self)
        requires
            old(self).ordered(),
            old(self).left_tree().balanced(),
            old(self).right_tree().balanced(),
            -2 <= old(self).spec_balance_factor() <= 2,
            old(self).height() <= usize::MAX,
        ensures
            final(self).ordered(),
            final(self).balanced(),
            final(self).as_set() == old(self).as_set(),
            final(self).size() == old(self).size(),
            old(self).height() - 1 <= final(self).height() <= old(self).height(),
            -1 <= old(self).spec_balance_factor() <= 1 ==> *final(self) == *old(self),
    {
        let mut t = BST::Empty;
        core::mem::swap(self, &mut t);
        loop
            invariant
                t.ordered(),
                t.left_tree().balanced(),
                t.right_tree().balanced(),
                -2 <= t.spec_balance_factor() <= 2,
                t.as_set() == old(self).as_set(),
                t.size() == old(self).size(),
                t.height() <= usize::MAX,
                t == *old(self) || (t.balanced() && old(self).height() - 1 <= t.height()
                    <= old(self).height()),
                -1 <= old(self).spec_balance_factor() <= 1 ==> t == *old(self),
            ensures
                -1 <= t.spec_balance_factor() <= 1,
            decreases vstd::math::abs(t.spec_balance_factor()),
        {
            let (left_depth, right_depth) = match &t {
                BST::Empty => (0, 0),
                BST::Node { left, right, .. } => (left.depth(), right.depth()),
            };
            if left_depth <= right_depth + 1 && right_depth <= left_depth + 1 {
                break;
            }
            let ghost t0 = t;
            if left_depth > right_depth + 1 {
                // Left-heavy by one extra level; the left subtree is a node.
                let left_leans_right = match &t {
                    BST::Empty => false,
                    BST::Node { left, .. } => match &**left {
                        BST::Empty => false,
                        BST::Node { left: l_left, right: l_right, .. } => {
                            l_left.depth() < l_right.depth()
                        },
                    },
                };
                if left_leans_right {
                    t.rotate_left_right();
                    proof {
                        lemma_rotated_left_right_model(t0);
                        lemma_rotated_left_right_restores(t0);
                    }
                } else {
                    t.rotate_right();
                    proof {
                        lemma_rotated_right_model(t0);
                        lemma_rotated_right_restores(t0);
                    }
                }
            } else {
                // Right-heavy by one extra level; the right subtree is a node.
                let right_leans_left = match &t {
                    BST::Empty => false,
                    BST::Node { right, .. } => match &**right {
                        BST::Empty => false,
                        BST::Node { left: r_left, right: r_right, .. } => {
                            r_left.depth() > r_right.depth()
                        },
                    },
                };
                if right_leans_left {
                    t.rotate_right_left();
                    proof {
                        lemma_rotated_right_left_model(t0);
                        lemma_rotated_right_left_restores(t0);
                    }
                } else {
                    t.rotate_left();
                    proof {
                        lemma_rotated_left_model(t0);
                        lemma_rotated_left_restores(t0);
                    }
                }
            }
        }
        *self = t;
    }
}

} // verus!
