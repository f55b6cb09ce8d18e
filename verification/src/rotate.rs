//! Rotation primitives: constant-time local restructurings that relink
//! subtree ownership without copying values.

use vstd::prelude::*;

use crate::tree::BST;

verus! {

impl BST {
    /// The tree after a left rotation: the right child is promoted to the
    /// root, the old root becomes its left child, and the promoted node's
    /// old left subtree is reattached as the old root's new right subtree.
    /// A tree whose right subtree is empty is left unchanged.
    pub open spec fn rotated_left(self) -> BST {
        match self {
            BST::Empty => self,
            BST::Node { left, value, right } => match *right {
                BST::Empty => self,
                BST::Node { left: r_left, value: r_value, right: r_right } => BST::Node {
                    left: Box::new(BST::Node { left, value, right: r_left }),
                    value: r_value,
                    right: r_right,
                },
            },
        }
    }

    /// The mirror image of `rotated_left`: the left child is promoted.
    /// A tree whose left subtree is empty is left unchanged.
    pub open spec fn rotated_right(self) -> BST {
        match self {
            BST::Empty => self,
            BST::Node { left, value, right } => match *left {
                BST::Empty => self,
                BST::Node { left: l_left, value: l_value, right: l_right } => BST::Node {
                    left: l_left,
                    value: l_value,
                    right: Box::new(BST::Node { left: l_right, value, right }),
                },
            },
        }
    }

    /// The tree after its left subtree is rotated left and the whole tree is
    /// then rotated right: the double rotation for a left-heavy tree whose
    /// left child is right-heavy.
    pub open spec fn rotated_left_right(self) -> BST {
        match self {
            BST::Empty => self,
            BST::Node { left, value, right } => (BST::Node {
                left: Box::new(left.rotated_left()),
                value,
                right,
            }).rotated_right(),
        }
    }

    /// The mirror image of `rotated_left_right`, for a right-heavy tree whose
    /// right child is left-heavy.
    pub open spec fn rotated_right_left(self) -> BST {
        match self {
            BST::Empty => self,
            BST::Node { left, value, right } => (BST::Node {
                left,
                value,
                right: Box::new(right.rotated_right()),
            }).rotated_left(),
        }
    }

    /// Rotates the tree left in place. If the right subtree is empty the
    /// call is a no-op.
    pub fn rotate_left(&mut self)
        ensures
            *final(self) == old(self).rotated_left(),
    {
        let mut t = BST::Empty;
        core::mem::swap(self, &mut t);
        match t {
            BST::Empty => {},
            BST::Node { left, value, right } => {
                match *right {
                    BST::Empty => {
                        *self = BST::Node { left, value, right: Box::new(BST::Empty) };
                    },
                    BST::Node { left: r_left, value: r_value, right: r_right } => {
                        *self = BST::Node {
                            left: Box::new(BST::Node { left, value, right: r_left }),
                            value: r_value,
                            right: r_right,
                        };
                    },
                }
            },
        }
    }

    /// Rotates the tree right in place. If the left subtree is empty the
    /// call is a no-op.
    pub fn rotate_right(&mut self)
        ensures
            *final(self) == old(self).rotated_right(),
    {
        let mut t = BST::Empty;
        core::mem::swap(self, &mut t);
        match t {
            BST::Empty => {},
            BST::Node { left, value, right } => {
                match *left {
                    BST::Empty => {
                        *self = BST::Node { left: Box::new(BST::Empty), value, right };
                    },
                    BST::Node { left: l_left, value: l_value, right: l_right } => {
                        *self = BST::Node {
                            left: l_left,
                            value: l_value,
                            right: Box::new(BST::Node { left: l_right, value, right }),
                        };
                    },
                }
            },
        }
    }

    /// Rotates the left subtree left, then the whole tree right.
    pub fn rotate_left_right(&mut self)
        ensures
            *final(self) == old(self).rotated_left_right(),
    {
        let mut t = BST::Empty;
        core::mem::swap(self, &mut t);
        match t {
            BST::Empty => {},
            BST::Node { mut left, value, right } => {
                (&mut *left).rotate_left();
                *self = BST::Node { left, value, right };
                self.rotate_right();
            },
        }
    }

    /// Rotates the right subtree right, then the whole tree left.
    pub fn rotate_right_left(&mut self)
        ensures
            *final(self) == old(self).rotated_right_left(),
    {
        let mut t = BST::Empty;
        core::mem::swap(self, &mut t);
        match t {
            BST::Empty => {},
            BST::Node { left, value, mut right } => {
                (&mut *right).rotate_right();
                *self = BST::Node { left, value, right };
                self.rotate_left();
            },
        }
    }
}

/// A left rotation keeps the value set, the node count, and the ordering
/// invariant; it only changes relative depths.
pub(crate) proof fn lemma_rotated_left_model(t: BST)
    ensures
        t.rotated_left().as_set() == t.as_set(),
        t.rotated_left().size() == t.size(),
        t.ordered() ==> t.rotated_left().ordered(),
{
    if t.is_node() && t.right_tree().is_node() {
        reveal_with_fuel(BST::as_set, 3);
        reveal_with_fuel(BST::size, 3);
        reveal_with_fuel(BST::ordered, 3);
        let l = t.left_tree();
        let v = t.node_value();
        let r = t.right_tree();
        let rl = r.left_tree();
        let rv = r.node_value();
        let rr = r.right_tree();
        let inner = BST::Node { left: Box::new(l), value: v, right: Box::new(rl) };
        let res = BST::Node { left: Box::new(inner), value: rv, right: Box::new(rr) };
        assert(t.rotated_left() == res);
        assert(res.as_set() =~= t.as_set());
        assert(res.size() == t.size());
        if t.ordered() {
            assert(r.as_set().contains(rv));
            assert(v < rv);
            assert forall|x: u64| inner.as_set().contains(x) implies x < rv by {
                if l.as_set().contains(x) {
                    assert(x < v);
                } else if rl.as_set().contains(x) {
                } else {
                    assert(x == v);
                }
            }
            assert forall|x: u64| rl.as_set().contains(x) implies v < x by {
                assert(r.as_set().contains(x));
            }
            assert(inner.ordered());
            assert(res.ordered());
        }
    }
}

/// A right rotation keeps the value set, the node count, and the ordering
/// invariant; it only changes relative depths.
pub(crate) proof fn lemma_rotated_right_model(t: BST)
    ensures
        t.rotated_right().as_set() == t.as_set(),
        t.rotated_right().size() == t.size(),
        t.ordered() ==> t.rotated_right().ordered(),
{
    if t.is_node() && t.left_tree().is_node() {
        reveal_with_fuel(BST::as_set, 3);
        reveal_with_fuel(BST::size, 3);
        reveal_with_fuel(BST::ordered, 3);
        let l = t.left_tree();
        let v = t.node_value();
        let r = t.right_tree();
        let ll = l.left_tree();
        let lv = l.node_value();
        let lr = l.right_tree();
        let inner = BST::Node { left: Box::new(lr), value: v, right: Box::new(r) };
        let res = BST::Node { left: Box::new(ll), value: lv, right: Box::new(inner) };
        assert(t.rotated_right() == res);
        assert(res.as_set() =~= t.as_set());
        assert(res.size() == t.size());
        if t.ordered() {
            assert(l.as_set().contains(lv));
            assert(lv < v);
            assert forall|x: u64| inner.as_set().contains(x) implies lv < x by {
                if r.as_set().contains(x) {
                    assert(v < x);
                } else if lr.as_set().contains(x) {
                } else {
                    assert(x == v);
                }
            }
            assert forall|x: u64| lr.as_set().contains(x) implies x < v by {
                assert(l.as_set().contains(x));
            }
            assert(inner.ordered());
            assert(res.ordered());
        }
    }
}

/// The double rotation of a left-heavy tree keeps the value set, the node
/// count, and the ordering invariant.
pub(crate) proof fn lemma_rotated_left_right_model(t: BST)
    ensures
        t.rotated_left_right().as_set() == t.as_set(),
        t.rotated_left_right().size() == t.size(),
        t.ordered() ==> t.rotated_left_right().ordered(),
{
    if t.is_node() {
        let l = t.left_tree();
        let v = t.node_value();
        let r = t.right_tree();
        lemma_rotated_left_model(l);
        let mid = BST::Node { left: Box::new(l.rotated_left()), value: v, right: Box::new(r) };
        assert(t.rotated_left_right() == mid.rotated_right());
        assert(mid.as_set() =~= t.as_set());
        lemma_rotated_right_model(mid);
        if t.ordered() {
            assert forall|x: u64| l.rotated_left().as_set().contains(x) implies x < v by {
                assert(l.as_set().contains(x));
            }
            assert(mid.ordered());
        }
    }
}

/// The double rotation of a right-heavy tree keeps the value set, the node
/// count, and the ordering invariant.
pub(crate) proof fn lemma_rotated_right_left_model(t: BST)
    ensures
        t.rotated_right_left().as_set() == t.as_set(),
        t.rotated_right_left().size() == t.size(),
        t.ordered() ==> t.rotated_right_left().ordered(),
{
    if t.is_node() {
        let l = t.left_tree();
        let v = t.node_value();
        let r = t.right_tree();
        lemma_rotated_right_model(r);
        let mid = BST::Node { left: Box::new(l), value: v, right: Box::new(r.rotated_right()) };
        assert(t.rotated_right_left() == mid.rotated_left());
        assert(mid.as_set() =~= t.as_set());
        lemma_rotated_left_model(mid);
        if t.ordered() {
            assert forall|x: u64| r.rotated_right().as_set().contains(x) implies v < x by {
                assert(r.as_set().contains(x));
            }
            assert(mid.ordered());
        }
    }
}

} // verus!

