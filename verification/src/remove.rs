//! Deletion: ordered descent, node splice or predecessor promotion, and
//! bottom-up rebalancing of every ancestor on the unwind path.

use vstd::prelude::*;

use crate::tree::BST;

verus! {

/// Detaches the node holding the maximum value of an owned non-empty subtree:
/// descends rightward to the node with an empty right subtree, promotes that
/// node's left subtree into its place, rebalances on the way back up, and
/// returns the remaining subtree together with the extracted value.
fn take_max_at(t: BST) -> (res: (BST, u64))
    requires
        t.is_node(),
        t.ordered(),
        t.balanced(),
        t.height() <= usize::MAX,
    ensures
        res.0.ordered(),
        res.0.balanced(),
        t.as_set().contains(res.1),
        forall|x: u64| t.as_set().contains(x) ==> x <= res.1,
        res.0.as_set() == t.as_set().remove(res.1),
        res.0.size() == t.size() - 1,
        t.height() - 1 <= res.0.height() <= t.height(),
    decreases t,
{
    proof {
        reveal_with_fuel(BST::as_set, 3);
        reveal_with_fuel(BST::size, 3);
        reveal_with_fuel(BST::height, 3);
    }
    match t {
        BST::Empty => {
            proof {
                assert(false);
            }
            (BST::Empty, 0)
        },
        BST::Node { left, value, right } => {
            if right.is_empty() {
                proof {
                    assert(!left.as_set().contains(value));
                    assert(left.as_set() =~= (BST::Node {
                        left,
                        value,
                        right,
                    }).as_set().remove(value));
                }
                (*left, value)
            } else {
                let (new_right, m) = take_max_at(*right);
                proof {
                    assert(right.as_set().contains(m));
                }
                let mut n = BST::Node { left, value, right: Box::new(new_right) };
                let ghost t0 = BST::Node { left, value, right };
                proof {
                    assert forall|x: u64| new_right.as_set().contains(x) implies value < x by {
                        assert(right.as_set().contains(x));
                    }
                    assert(n.ordered());
                    assert(value < m);
                    assert(!left.as_set().contains(m)) by {
                        if left.as_set().contains(m) {
                            assert(m < value);
                        }
                    };
                    assert(n.as_set() =~= t0.as_set().remove(m));
                    assert forall|x: u64| t0.as_set().contains(x) implies x <= m by {
                        if left.as_set().contains(x) {
                            assert(x < value);
                        } else if right.as_set().contains(x) {
                        } else {
                            assert(x == value);
                        }
                    }
                }
                let ghost n0 = n;
                n.rebalance();
                proof {
                    if n0.height() == t0.height() {
                    } else {
                        assert(n0.height() == t0.height() - 1);
                        assert(-1 <= n0.spec_balance_factor() <= 1);
                        assert(n == n0);
                    }
                }
                (n, m)
            }
        },
    }
}

/// The recursive body of `remove`: ordered descent; at the matching node a
/// splice when a subtree is empty, otherwise promotion of the predecessor
/// (the maximum of the left subtree); then a rebalance of the current node
/// after the match or the recursive call resolves.
fn remove_at(t: BST, val: u64) -> (r: BST)
    requires
        t.ordered(),
        t.balanced(),
        t.height() <= usize::MAX,
    ensures
        r.ordered(),
        r.balanced(),
        r.as_set() == t.as_set().remove(val),
        r.size() == t.size() - (if t.as_set().contains(val) {
            1int
        } else {
            0int
        }),
        !t.as_set().contains(val) ==> r == t,
        t.height() - 1 <= r.height() <= t.height(),
    decreases t,
{
    proof {
        reveal_with_fuel(BST::as_set, 3);
        reveal_with_fuel(BST::size, 3);
        reveal_with_fuel(BST::height, 3);
    }
    match t {
        BST::Empty => {
            proof {
                assert(t.as_set() =~= t.as_set().remove(val));
            }
            BST::Empty
        },
        BST::Node { left, value, right } => {
            let ghost t0 = BST::Node { left, value, right };
            if val == value {
                if left.is_empty() {
                    proof {
                        assert(!right.as_set().contains(val));
                        assert(right.as_set() =~= t0.as_set().remove(val));
                    }
                    *right
                } else if right.is_empty() {
                    proof {
                        assert(!left.as_set().contains(val));
                        assert(left.as_set() =~= t0.as_set().remove(val));
                    }
                    *left
                } else {
                    let (new_left, m) = take_max_at(*left);
                    proof {
                        assert(left.as_set().contains(m));
                        assert(m < value);
                    }
                    let mut n = BST::Node { left: Box::new(new_left), value: m, right };
                    proof {
                        assert forall|x: u64| new_left.as_set().contains(x) implies x < m by {
                            assert(left.as_set().contains(x));
                        }
                        assert forall|x: u64| right.as_set().contains(x) implies m < x by {}
                        assert(n.ordered());
                        assert(!left.as_set().contains(val));
                        assert(!right.as_set().contains(val));
                        assert(n.as_set() =~= t0.as_set().remove(val));
                    }
                    let ghost n0 = n;
                    n.rebalance();
                    proof {
                        if n0.height() == t0.height() {
                        } else {
                            assert(n0.height() == t0.height() - 1);
                            assert(-1 <= n0.spec_balance_factor() <= 1);
                            assert(n == n0);
                        }
                    }
                    n
                }
            } else if val < value {
                proof {
                    assert(!right.as_set().contains(val));
                    if t0.as_set().contains(val) {
                        assert(left.as_set().contains(val));
                    }
                }
                let new_left = remove_at(*left, val);
                let mut n = BST::Node { left: Box::new(new_left), value, right };
                proof {
                    assert forall|x: u64| new_left.as_set().contains(x) implies x < value by {
                        assert(left.as_set().contains(x));
                    }
                    assert(n.ordered());
                    assert(n.as_set() =~= t0.as_set().remove(val));
                }
                let ghost n0 = n;
                n.rebalance();
                proof {
                    if !t0.as_set().contains(val) {
                        assert(n0 == t0);
                    }
                    if n0.height() == t0.height() {
                    } else {
                        assert(n0.height() == t0.height() - 1);
                        assert(-1 <= n0.spec_balance_factor() <= 1);
                        assert(n == n0);
                    }
                }
                n
            } else {
                proof {
                    assert(!left.as_set().contains(val));
                    if t0.as_set().contains(val) {
                        assert(right.as_set().contains(val));
                    }
                }
                let new_right = remove_at(*right, val);
                let mut n = BST::Node { left, value, right: Box::new(new_right) };
                proof {
                    assert forall|x: u64| new_right.as_set().contains(x) implies value < x by {
                        assert(right.as_set().contains(x));
                    }
                    assert(n.ordered());
                    assert(n.as_set() =~= t0.as_set().remove(val));
                }
                let ghost n0 = n;
                n.rebalance();
                proof {
                    if !t0.as_set().contains(val) {
                        assert(n0 == t0);
                    }
                    if n0.height() == t0.height() {
                    } else {
                        assert(n0.height() == t0.height() - 1);
                        assert(-1 <= n0.spec_balance_factor() <= 1);
                        assert(n == n0);
                    }
                }
                n
            }
        },
    }
}

impl BST {
    /// Removes a value, rebalancing every node on the path back to the root,
    /// so that the tree is ordered and balanced again when the call returns.
    ///
    /// The value leaves the set of values and the node count drops by one
    /// exactly when the value was present; removing an absent value is a
    /// pure no-op. The height drops by at most one and never grows.
    pub fn remove(&mut self, val: u64)
        requires
            old(self).inv(),
            old(self).height() <= usize::MAX,
        ensures
            final(self).inv(),
            final(self).as_set() == old(self).as_set().remove(val),
            final(self).size() == old(self).size() - (if old(self).as_set().contains(val) {
                1int
            } else {
                0int
            }),
            !old(self).as_set().contains(val) ==> *final(self) == *old(self),
            old(self).height() - 1 <= final(self).height() <= old(self).height(),
    {
        let mut t = BST::Empty;
        core::mem::swap(self, &mut t);
        *self = remove_at(t, val);
    }
}

} // verus!
