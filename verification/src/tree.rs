//! The tree representation, its mathematical model, and the read-only queries.

use vstd::prelude::*;

verus! {

/// A height-balanced binary search tree holding `u64` values.
///
/// A tree is either `Empty` or a `Node` carrying one value and two subtrees.
/// A slot with no child holds the `Empty` case; emptiness is a tree shape,
/// not a missing pointer.
#[derive(Debug)]
pub enum BST {
    /// The empty tree.
    Empty,
    /// A node holding a value and two (possibly empty) subtrees.
    Node { left: Box<BST>, value: u64, right: Box<BST> },
}

impl Clone for BST {
    /// Deep copy: duplicates every node and its value, producing a fully
    /// independent tree that equals the source; later mutation of the copy
    /// cannot change the source, since the two share no node.
    fn clone(&self) -> (res: Self)
        ensures
            res == *self,
        decreases *self,
    {
        match self {
            BST::Empty => BST::Empty,
            BST::Node { left, value, right } => BST::Node {
                left: Box::new((&**left).clone()),
                value: *value,
                right: Box::new((&**right).clone()),
            },
        }
    }
}

impl PartialEq for BST {
    /// Shape-sensitive structural equality: two trees are equal exactly when
    /// both are empty, or both are nodes with equal values and recursively
    /// equal subtrees.
    fn eq(&self, other: &Self) -> (r: bool)
        decreases *self,
    {
        match (self, other) {
            (BST::Empty, BST::Empty) => true,
            (
                BST::Node { left: l1, value: v1, right: r1 },
                BST::Node { left: l2, value: v2, right: r2 },
            ) => *v1 == *v2 && (&**l1).eq(&**l2) && (&**r1).eq(&**r2),
            _ => false,
        }
    }
}

impl vstd::std_specs::cmp::PartialEqSpecImpl for BST {
    open spec fn obeys_eq_spec() -> bool {
        true
    }

    open spec fn eq_spec(&self, other: &Self) -> bool {
        *self == *other
    }
}

impl BST {
    /// The set of values held by the tree: the mathematical model that the
    /// contracts of `insert`, `remove`, `find` and `contains` speak of.
    pub open spec fn as_set(self) -> Set<u64>
        decreases self,
    {
        match self {
            BST::Empty => Set::empty(),
            BST::Node { left, value, right } => left.as_set().union(right.as_set()).insert(
                value,
            ),
        }
    }

    /// The number of nodes.
    pub open spec fn size(self) -> nat
        decreases self,
    {
        match self {
            BST::Empty => 0,
            BST::Node { left, value, right } => 1 + left.size() + right.size(),
        }
    }

    /// The number of nodes on the longest root-to-leaf path, root included;
    /// the empty tree has height 0.
    pub open spec fn height(self) -> nat
        decreases self,
    {
        match self {
            BST::Empty => 0,
            BST::Node { left, value, right } => 1 + if left.height() >= right.height() {
                left.height()
            } else {
                right.height()
            },
        }
    }

    /// True on nodes, false on the empty tree.
    pub open spec fn is_node(self) -> bool {
        match self {
            BST::Empty => false,
            BST::Node { .. } => true,
        }
    }

    /// The left subtree; the empty tree for the empty tree.
    pub open spec fn left_tree(self) -> BST {
        match self {
            BST::Empty => BST::Empty,
            BST::Node { left, .. } => *left,
        }
    }

    /// The right subtree; the empty tree for the empty tree.
    pub open spec fn right_tree(self) -> BST {
        match self {
            BST::Empty => BST::Empty,
            BST::Node { right, .. } => *right,
        }
    }

    /// The value at the root; zero for the empty tree, which no contract
    /// relies on.
    pub open spec fn node_value(self) -> u64
        recommends
            self.is_node(),
    {
        match self {
            BST::Empty => 0,
            BST::Node { value, .. } => value,
        }
    }

    /// The balance factor: height of the left subtree minus height of the
    /// right subtree.
    pub open spec fn spec_balance_factor(self) -> int {
        self.left_tree().height() - self.right_tree().height()
    }

    /// The binary-search ordering invariant: at every node, all values of the
    /// left subtree are below the node's value and all values of the right
    /// subtree are above it.
    pub open spec fn ordered(self) -> bool
        decreases self,
    {
        match self {
            BST::Empty => true,
            BST::Node { left, value, right } => {
                &&& (forall|x: u64| left.as_set().contains(x) ==> x < value)
                &&& (forall|x: u64| right.as_set().contains(x) ==> value < x)
                &&& left.ordered()
                &&& right.ordered()
            },
        }
    }

    /// The height-balance invariant: at every node the heights of the two
    /// subtrees differ by at most one.
    pub open spec fn balanced(self) -> bool
        decreases self,
    {
        match self {
            BST::Empty => true,
            BST::Node { left, value, right } => {
                &&& left.height() - right.height() <= 1
                &&& right.height() - left.height() <= 1
                &&& left.balanced()
                &&& right.balanced()
            },
        }
    }

    /// Well-formedness: ordering and balance together. Every public mutator
    /// preserves it.
    pub open spec fn inv(self) -> bool {
        self.ordered() && self.balanced()
    }
}

impl View for BST {
    type V = Set<u64>;

    open spec fn view(&self) -> Set<u64> {
        self.as_set()
    }
}

impl Default for BST {
    /// The default tree is empty.
    fn default() -> (t: Self)
        ensures
            t == BST::Empty,
    {
        BST::Empty
    }
}

impl BST {
    /// Creates an empty tree.
    pub fn new() -> (t: Self)
        ensures
            t == BST::Empty,
            t.inv(),
            t@ == Set::<u64>::empty(),
    {
        BST::Empty
    }

    /// Checks whether the tree is empty.
    pub fn is_empty(&self) -> (b: bool)
        ensures
            b <==> *self == BST::Empty,
    {
        match self {
            BST::Empty => true,
            BST::Node { .. } => false,
        }
    }

    /// Clears the tree, removing all nodes.
    pub fn clear(&mut self)
        ensures
            *final(self) == BST::Empty,
    {
        *self = BST::Empty;
    }

    /// Returns a reference to the value of the root node, or `None` if the
    /// tree is empty.
    pub fn root_value(&self) -> (r: Option<&u64>)
        ensures
            r is Some <==> self.is_node(),
            r matches Some(v) ==> *v == self.node_value(),
    {
        match self {
            BST::Empty => None,
            BST::Node { value, .. } => Some(value),
        }
    }

    /// Counts the nodes of the tree.
    pub fn count_nodes(&self) -> (n: usize)
        requires
            self.size() <= usize::MAX,
        ensures
            n == self.size(),
        decreases *self,
    {
        match self {
            BST::Empty => 0,
            BST::Node { left, right, .. } => {
                let left_count = left.count_nodes();
                let right_count = right.count_nodes();
                1 + left_count + right_count
            },
        }
    }

    /// Computes the depth of the tree: the number of nodes on the longest
    /// root-to-leaf path, so the empty tree has depth 0 and a single node
    /// has depth 1.
    pub fn depth(&self) -> (d: usize)
        requires
            self.height() <= usize::MAX,
        ensures
            d == self.height(),
        decreases *self,
    {
        match self {
            BST::Empty => 0,
            BST::Node { left, right, .. } => {
                let left_depth = left.depth();
                let right_depth = right.depth();
                1 + if left_depth >= right_depth {
                    left_depth
                } else {
                    right_depth
                }
            },
        }
    }

    /// Searches for a value by ordered descent.
    ///
    /// Returns a reference to the subtree rooted at the node holding the
    /// value, or `None` if the value is absent.
    pub fn find(&self, val: u64) -> (r: Option<&Self>)
        requires
            self.ordered(),
        ensures
            r is Some <==> self.as_set().contains(val),
            r matches Some(t) ==> t.is_node() && t.node_value() == val,
        decreases *self,
    {
        match self {
            BST::Empty => None,
            BST::Node { left, value, right } => {
                if val == *value {
                    Some(self)
                } else if val < *value {
                    proof {
                        assert(!right.as_set().contains(val));
                    }
                    left.find(val)
                } else {
                    proof {
                        assert(!left.as_set().contains(val));
                    }
                    right.find(val)
                }
            },
        }
    }

    /// Checks whether a value exists in the tree.
    pub fn contains(&self, val: u64) -> (b: bool)
        requires
            self.ordered(),
        ensures
            b == self.as_set().contains(val),
    {
        self.find(val).is_some()
    }

    /// Returns a reference to the left subtree, or `None` if the tree is
    /// empty or has no left child.
    pub fn left(&self) -> (r: Option<&Self>)
        ensures
            r is Some <==> self.left_tree().is_node(),
            r matches Some(t) ==> *t == self.left_tree(),
    {
        match self {
            BST::Empty => None,
            BST::Node { left, .. } => {
                if left.is_empty() {
                    None
                } else {
                    Some(left)
                }
            },
        }
    }

    /// Returns a reference to the right subtree, or `None` if the tree is
    /// empty or has no right child.
    pub fn right(&self) -> (r: Option<&Self>)
        ensures
            r is Some <==> self.right_tree().is_node(),
            r matches Some(t) ==> *t == self.right_tree(),
    {
        match self {
            BST::Empty => None,
            BST::Node { right, .. } => {
                if right.is_empty() {
                    None
                } else {
                    Some(right)
                }
            },
        }
    }

    /// Returns a reference to the node at the left end of the tree, which in
    /// an ordered tree holds the minimum value; `None` if the tree is empty.
    pub fn left_end(&self) -> (r: Option<&Self>)
        requires
            self.ordered(),
        ensures
            r is Some <==> self.is_node(),
            r matches Some(t) ==> {
                &&& t.is_node()
                &&& !t.left_tree().is_node()
                &&& self.as_set().contains(t.node_value())
                &&& forall|x: u64| self.as_set().contains(x) ==> t.node_value() <= x
            },
        decreases *self,
    {
        match self {
            BST::Empty => None,
            BST::Node { left, value, right } => {
                if left.is_empty() {
                    proof {
                        assert forall|x: u64| self.as_set().contains(x) implies *value <= x by {
                            assert(!left.as_set().contains(x));
                            if right.as_set().contains(x) {
                            } else {
                                assert(x == *value);
                            }
                        }
                    }
                    Some(self)
                } else {
                    let r = left.left_end();
                    proof {
                        let m = r.unwrap().node_value();
                        assert(left.as_set().contains(m));
                        assert forall|x: u64| self.as_set().contains(x) implies m <= x by {
                            if left.as_set().contains(x) {
                            } else if right.as_set().contains(x) {
                                assert(m < *value);
                            } else {
                                assert(x == *value);
                            }
                        }
                    }
                    r
                }
            },
        }
    }

    /// Returns a reference to the node at the right end of the tree, which in
    /// an ordered tree holds the maximum value; `None` if the tree is empty.
    pub fn right_end(&self) -> (r: Option<&Self>)
        requires
            self.ordered(),
        ensures
            r is Some <==> self.is_node(),
            r matches Some(t) ==> {
                &&& t.is_node()
                &&& !t.right_tree().is_node()
                &&& self.as_set().contains(t.node_value())
                &&& forall|x: u64| self.as_set().contains(x) ==> x <= t.node_value()
            },
        decreases *self,
    {
        match self {
            BST::Empty => None,
            BST::Node { left, value, right } => {
                if right.is_empty() {
                    proof {
                        assert forall|x: u64| self.as_set().contains(x) implies x <= *value by {
                            assert(!right.as_set().contains(x));
                            if left.as_set().contains(x) {
                            } else {
                                assert(x == *value);
                            }
                        }
                    }
                    Some(self)
                } else {
                    let r = right.right_end();
                    proof {
                        let m = r.unwrap().node_value();
                        assert(right.as_set().contains(m));
                        assert forall|x: u64| self.as_set().contains(x) implies x <= m by {
                            if right.as_set().contains(x) {
                            } else if left.as_set().contains(x) {
                                assert(*value < m);
                            } else {
                                assert(x == *value);
                            }
                        }
                    }
                    r
                }
            },
        }
    }
}

} // verus!
