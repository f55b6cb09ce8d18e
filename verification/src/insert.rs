//! Insertion: plain ordered insertion, and insertion with bottom-up
//! rebalancing of every ancestor on the unwind path.

use vstd::prelude::*;

use crate::tree::BST;

verus! {

impl BST {
    /// The tree after a plain ordered insertion with no rebalancing: a new
    /// node materializes at the empty slot the ordered descent reaches, and
    /// inserting a value already present changes nothing.
    pub open spec fn unbalanced_inserted(self, val: u64) -> BST
        decreases self,
    {
        match self {
            BST::Empty => BST::Node {
                left: Box::new(BST::Empty),
                value: val,
                right: Box::new(BST::Empty),
            },
            BST::Node { left, value, right } => {
                if val == value {
                    BST::Node { left, value, right }
                } else if val < value {
                    BST::Node { left: Box::new(left.unbalanced_inserted(val)), value, right }
                } else {
                    BST::Node { left, value, right: Box::new(right.unbalanced_inserted(val)) }
                }
            },
        }
    }
}

/// Plain ordered insertion keeps the ordering invariant, adds the value to
/// the set, and grows the node count exactly when the value is new; inserting
/// a value already present leaves the tree unchanged.
pub proof fn lemma_unbalanced_insert_props(t: BST, val: u64)
    requires
        t.ordered(),
    ensures
        t.unbalanced_inserted(val).ordered(),
        t.unbalanced_inserted(val).as_set() == t.as_set().insert(val),
        t.unbalanced_inserted(val).size() == t.size() + (if t.as_set().contains(val) {
            0int
        } else {
            1int
        }),
        t.as_set().contains(val) ==> t.unbalanced_inserted(val) == t,
    decreases t,
{
    let r = t.unbalanced_inserted(val);
    match t {
        BST::Empty => {
            assert(r.as_set() =~= t.as_set().insert(val));
        },
        BST::Node { left, value, right } => {
            if val == value {
                assert(r == t);
                assert(r.as_set() =~= t.as_set().insert(val));
            } else if val < value {
                lemma_unbalanced_insert_props(*left, val);
                let nl = left.unbalanced_inserted(val);
                assert(r == BST::Node { left: Box::new(nl), value, right });
                assert(r.as_set() =~= t.as_set().insert(val));
                assert forall|x: u64| nl.as_set().contains(x) implies x < value by {
                    if left.as_set().contains(x) {
                    } else {
                        assert(x == val);
                    }
                }
                assert(r.ordered());
                assert(!right.as_set().contains(val));
                if t.as_set().contains(val) {
                    assert(left.as_set().contains(val));
                }
            } else {
                lemma_unbalanced_insert_props(*right, val);
                let nr = right.unbalanced_inserted(val);
                assert(r == BST::Node { left, value, right: Box::new(nr) });
                assert(r.as_set() =~= t.as_set().insert(val));
                assert forall|x: u64| nr.as_set().contains(x) implies value < x by {
                    if right.as_set().contains(x) {
                    } else {
                        assert(x == val);
                    }
                }
                assert(r.ordered());
                assert(!left.as_set().contains(val));
                if t.as_set().contains(val) {
                    assert(right.as_set().contains(val));
                }
            }
        },
    }
}

/// The recursive body of `insert_unbalanced`, working on an owned tree.
fn insert_unbalanced_at(t: BST, val: u64) -> (r: BST)
    ensures
        r == t.unbalanced_inserted(val),
    decreases t,
{
    match t {
        BST::Empty => BST::Node {
            left: Box::new(BST::Empty),
            value: val,
            right: Box::new(BST::Empty),
        },
        BST::Node { left, value, right } => {
            if val == value {
                BST::Node { left, value, right }
            } else if val < value {
                let new_left = insert_unbalanced_at(*left, val);
                BST::Node { left: Box::new(new_left), value, right }
            } else {
                let new_right = insert_unbalanced_at(*right, val);
                BST::Node { left, value, right: Box::new(new_right) }
            }
        },
    }
}

impl BST {
    /// Inserts a value by ordered descent without rebalancing.
    ///
    /// If the value already exists the tree is unchanged. On an ordered tree
    /// the ordering invariant is kept, the value joins the set, and the node
    /// count grows exactly when the value is new.
    pub fn insert_unbalanced(&mut self, val: u64) -> (r: &mut Self)
        ensures
            *r == old(self).unbalanced_inserted(val),
            *final(self) == *final(r),
            old(self).ordered() ==> {
                &&& (*r).ordered()
                &&& (*r).as_set() == old(self).as_set().insert(val)
                &&& (*r).size() == old(self).size() + (if old(self).as_set().contains(val) {
                    0int
                } else {
                    1int
                })
                &&& old(self).as_set().contains(val) ==> *r == *old(self)
            },
    {
        proof {
            if old(self).ordered() {
                lemma_unbalanced_insert_props(*old(self), val);
            }
        }
        let mut t = BST::Empty;
        core::mem::swap(self, &mut t);
        *self = insert_unbalanced_at(t, val);
        self
    }
}

/// The recursive body of `insert`: ordered descent, then a rebalance of the
/// current node after the recursive call returns, so that every ancestor of
/// the insertion point is rebalanced bottom-up.
fn insert_at(t: BST, val: u64) -> (r: BST)
    requires
        t.ordered(),
        t.balanced(),
        t.height() < usize::MAX,
    ensures
        r.ordered(),
        r.balanced(),
        r.as_set() == t.as_set().insert(val),
        r.size() == t.size() + (if t.as_set().contains(val) {
            0int
        } else {
            1int
        }),
        t.as_set().contains(val) ==> r == t,
        t.height() <= r.height() <= t.height() + 1,
    decreases t,
{
    match t {
        BST::Empty => {
            let r = BST::Node {
                left: Box::new(BST::Empty),
                value: val,
                right: Box::new(BST::Empty),
            };
            proof {
                assert(r.as_set() =~= t.as_set().insert(val));
            }
            r
        },
        BST::Node { left, value, right } => {
            if val == value {
                let r = BST::Node { left, value, right };
                proof {
                    assert(r.as_set() =~= t.as_set().insert(val));
                }
                r
            } else if val < value {
                proof {
                    assert(!right.as_set().contains(val));
                    if t.as_set().contains(val) {
                        assert(left.as_set().contains(val));
                    }
                }
                let new_left = insert_at(*left, val);
                let mut n = BST::Node { left: Box::new(new_left), value, right };
                proof {
                    assert(n.as_set() =~= t.as_set().insert(val));
                    assert forall|x: u64| new_left.as_set().contains(x) implies x < value by {
                        if left.as_set().contains(x) {
                        } else {
                            assert(x == val);
                        }
                    }
                    assert(n.ordered());
                }
                let ghost n0 = n;
                n.rebalance();
                proof {
                    if t.as_set().contains(val) {
                        assert(n0 == t);
                    }
                    if n0.height() == t.height() + 1 {
                    } else {
                        assert(n0.height() == t.height());
                        assert(-1 <= n0.spec_balance_factor() <= 1);
                        assert(n == n0);
                    }
                }
                n
            } else {
                proof {
                    assert(!left.as_set().contains(val));
                    if t.as_set().contains(val) {
                        assert(right.as_set().contains(val));
                    }
                }
                let new_right = insert_at(*right, val);
                let mut n = BST::Node { left, value, right: Box::new(new_right) };
                proof {
                    assert(n.as_set() =~= t.as_set().insert(val));
                    assert forall|x: u64| new_right.as_set().contains(x) implies value < x by {
                        if right.as_set().contains(x) {
                        } else {
                            assert(x == val);
                        }
                    }
                    assert(n.ordered());
                }
                let ghost n0 = n;
                n.rebalance();
                proof {
                    if t.as_set().contains(val) {
                        assert(n0 == t);
                    }
                    if n0.height() == t.height() + 1 {
                    } else {
                        assert(n0.height() == t.height());
                        assert(-1 <= n0.spec_balance_factor() <= 1);
                        assert(n == n0);
                    }
                }
                n
            }
        },
    }
}

impl BST {
    /// Inserts a value, rebalancing every ancestor of the insertion point on
    /// the way back to the root, so that the tree is ordered and balanced
    /// again when the call returns.
    ///
    /// The value joins the set of values and the node count grows by one
    /// exactly when the value is new; inserting a value already present
    /// leaves the tree unchanged, so a repeated insertion is idempotent.
    /// The height grows by at most one and never shrinks.
    pub fn insert(&mut self, val: u64)
        requires
            old(self).inv(),
            old(self).height() < usize::MAX,
        ensures
            final(self).inv(),
            final(self).as_set() == old(self).as_set().insert(val),
            final(self).size() == old(self).size() + (if old(self).as_set().contains(val) {
                0int
            } else {
                1int
            }),
            old(self).as_set().contains(val) ==> *final(self) == *old(self),
            old(self).height() <= final(self).height() <= old(self).height() + 1,
    {
        let mut t = BST::Empty;
        core::mem::swap(self, &mut t);
        *self = insert_at(t, val);
    }
}

} // verus!
