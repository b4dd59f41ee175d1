//! A binary search tree over numbers.
//!
//! Smaller values go left, equal or larger values go right, so the in-order
//! walk lists the values sorted.

use vstd::prelude::*;

verus! {

use vstd::multiset::Multiset;

/// One node: a value and up to two subtrees.
pub struct Node {
    data: u64,
    left: Option<Box<Node>>,
    right: Option<Box<Node>>,
}

/// A binary search tree of `u64` values.
pub struct BinarySearchTree {
    root: Option<Box<Node>>,
}

/// The in-order walk of a subtree.
pub closed spec fn spec_tree_seq(n: Option<Box<Node>>) -> Seq<u64>
    decreases n,
{
    match n {
        None => Seq::empty(),
        Some(b) => spec_tree_seq(b.left) + seq![b.data] + spec_tree_seq(b.right),
    }
}

/// The search-tree shape: everything left of a node is smaller, everything
/// right of it is at least as large, recursively.
pub closed spec fn spec_tree_wf(n: Option<Box<Node>>) -> bool
    decreases n,
{
    match n {
        None => true,
        Some(b) => {
            &&& spec_tree_wf(b.left)
            &&& spec_tree_wf(b.right)
            &&& forall|i: int|
                0 <= i < spec_tree_seq(b.left).len() ==> #[trigger] spec_tree_seq(b.left)[i]
                    < b.data
            &&& forall|i: int|
                0 <= i < spec_tree_seq(b.right).len() ==> b.data <= #[trigger] spec_tree_seq(
                    b.right,
                )[i]
        },
    }
}

/// Inserts a value: smaller goes left, equal or larger goes right.
fn insert_node(n: &mut Option<Box<Node>>, data: u64)
    requires
        spec_tree_wf(*old(n)),
    ensures
        spec_tree_wf(*final(n)),
        spec_tree_seq(*final(n)).to_multiset() == spec_tree_seq(*old(n)).to_multiset().insert(
            data,
        ),
        forall|x: u64|
            spec_tree_seq(*final(n)).contains(x) <==> (spec_tree_seq(*old(n)).contains(x) || x
                == data),
    decreases *old(n),
{
    broadcast use vstd::seq_lib::group_seq_properties;

    match n {
        None => {
            *n = Some(Box::new(Node { data, left: None, right: None }));
            proof {
                assert(spec_tree_seq(*final(n)) =~= seq![data]);
                assert(spec_tree_seq(*final(n)).to_multiset() =~= spec_tree_seq(*old(n)).to_multiset().insert(data));
            }
        },
        Some(b) => {
            let ghost pre_left = spec_tree_seq(b.left);
            let ghost pre_right = spec_tree_seq(b.right);
            let ghost root = b.data;
            let went_left = data < b.data;
            if went_left {
                insert_node(&mut b.left, data);
            } else {
                insert_node(&mut b.right, data);
            }
            proof {
                broadcast use vstd::seq_lib::group_to_multiset_ensures;

                lemma_tree_seq_multiset(*final(n));
                lemma_tree_seq_multiset(*old(n));
                let bf = (*final(n))->0;
                let lf = spec_tree_seq(bf.left);
                let rf = spec_tree_seq(bf.right);
                assert(spec_tree_seq(*final(n)).to_multiset() =~= spec_tree_seq(
                    *old(n),
                ).to_multiset().insert(data));
                if went_left {
                    assert forall|i: int| 0 <= i < lf.len() implies #[trigger] lf[i]
                        < root by {
                        assert(lf.contains(lf[i]));
                        if pre_left.contains(lf[i]) {
                            let j = choose|j: int|
                                0 <= j < pre_left.len() && pre_left[j] == lf[i];
                        }
                    }
                } else {
                    assert forall|i: int| 0 <= i < rf.len() implies root <= #[trigger] rf[
                        i
                    ] by {
                        assert(rf.contains(rf[i]));
                        if pre_right.contains(rf[i]) {
                            let j = choose|j: int|
                                0 <= j < pre_right.len() && pre_right[j] == rf[i];
                        }
                    }
                }
                assert(spec_tree_wf(*final(n)));
                assert forall|x: u64|
                    spec_tree_seq(*final(n)).contains(x) <==> (spec_tree_seq(*old(n)).contains(x)
                        || x == data) by {
                    assert(spec_tree_seq(*final(n)).to_multiset().contains(x)
                        == spec_tree_seq(*final(n)).contains(x));
                    assert(spec_tree_seq(*old(n)).to_multiset().contains(x) == spec_tree_seq(
                        *old(n),
                    ).contains(x));
                }
            }
        },
    }
}

/// The multiset of an in-order walk splits over the node.
proof fn lemma_tree_seq_multiset(n: Option<Box<Node>>)
    ensures
        (match n {
            None => spec_tree_seq(n).to_multiset() == Multiset::<u64>::empty(),
            Some(b) => spec_tree_seq(n).to_multiset() == spec_tree_seq(b.left).to_multiset().add(
                Multiset::empty().insert(b.data),
            ).add(spec_tree_seq(b.right).to_multiset()),
        }),
{
    broadcast use vstd::seq_lib::group_seq_properties;

    match n {
        None => {
            assert(spec_tree_seq(n) =~= Seq::<u64>::empty());
            assert(Seq::<u64>::empty().to_multiset() =~= Multiset::<u64>::empty());
        },
        Some(b) => {
            let l = spec_tree_seq(b.left);
            let r = spec_tree_seq(b.right);
            vstd::seq_lib::lemma_multiset_commutative(l + seq![b.data], r);
            vstd::seq_lib::lemma_multiset_commutative(l, seq![b.data]);
            assert(seq![b.data].to_multiset() =~= Multiset::empty().insert(b.data));
        },
    }
}

/// A nondecreasing sequence.
pub open spec fn spec_sorted(s: Seq<u64>) -> bool {
    forall|i: int, j: int| 0 <= i <= j < s.len() ==> s[i] <= s[j]
}

/// The in-order walk of a tree of the search shape is nondecreasing.
proof fn lemma_tree_sorted(n: Option<Box<Node>>)
    requires
        spec_tree_wf(n),
    ensures
        spec_sorted(spec_tree_seq(n)),
    decreases n,
{
    match n {
        None => {},
        Some(b) => {
            lemma_tree_sorted(b.left);
            lemma_tree_sorted(b.right);
            let l = spec_tree_seq(b.left);
            let r = spec_tree_seq(b.right);
            let s = spec_tree_seq(n);
            assert forall|i: int, j: int| 0 <= i <= j < s.len() implies s[i] <= s[j] by {
                if i < l.len() {
                    assert(s[i] == l[i]);
                } else if i == l.len() {
                    assert(s[i] == b.data);
                } else {
                    assert(s[i] == r[i - l.len() - 1]);
                }
                if j < l.len() {
                    assert(s[j] == l[j]);
                } else if j == l.len() {
                    assert(s[j] == b.data);
                } else {
                    assert(s[j] == r[j - l.len() - 1]);
                }
            }
        },
    }
}

impl BinarySearchTree {
    /// The tree has the search shape.
    pub closed spec fn wf(&self) -> bool {
        spec_tree_wf(self.root)
    }

    /// The values, in sorted order.
    pub closed spec fn view(&self) -> Seq<u64> {
        spec_tree_seq(self.root)
    }

    /// An empty tree.
    pub fn new() -> (t: BinarySearchTree)
        ensures
            t.wf(),
            t@ == Seq::<u64>::empty(),
    {
        BinarySearchTree { root: None }
    }

    /// Inserts a value; duplicates are kept.
    pub fn insert(&mut self, data: u64)
        requires
            old(self).wf(),
        ensures
            final(self).wf(),
            final(self)@.to_multiset() == old(self)@.to_multiset().insert(data),
            forall|x: u64| final(self)@.contains(x) <==> (old(self)@.contains(x) || x == data),
    {
        insert_node(&mut self.root, data);
    }

    /// Whether the tree holds `data`.
    pub fn contains(&self, data: u64) -> (r: bool)
        requires
            self.wf(),
        ensures
            r == self@.contains(data),
    {
        contains_node(&self.root, data)
    }

    /// A cursor over the values, smallest first: it walks exactly the
    /// tree's values, in nondecreasing order.
    pub fn iter(&self) -> (it: BSTIterator)
        requires
            self.wf(),
        ensures
            it.spec_items() == self@,
            spec_sorted(it.spec_items()),
            it.spec_index() == 0,
    {
        proof {
            self.lemma_view_sorted();
        }
        let mut items: Vec<u64> = Vec::new();
        collect_in_order(&self.root, &mut items);
        proof {
            assert(items@ =~= self@);
        }
        BSTIterator { items, index: 0 }
    }

    /// The law of the search shape: a well-formed tree lists its values in
    /// nondecreasing order, so iteration after any sequence of inserts
    /// yields exactly the inserted values, sorted.
    pub proof fn lemma_view_sorted(&self)
        requires
            self.wf(),
        ensures
            spec_sorted(self@),
    {
        lemma_tree_sorted(self.root);
    }
}

/// Whether a subtree holds `data`, following the search shape.
fn contains_node(n: &Option<Box<Node>>, data: u64) -> (r: bool)
    requires
        spec_tree_wf(*n),
    ensures
        r == spec_tree_seq(*n).contains(data),
    decreases *n,
{
    broadcast use vstd::seq_lib::group_seq_properties;

    match n {
        None => {
            proof {
                assert(!spec_tree_seq(*n).contains(data));
            }
            false
        },
        Some(b) => {
            if data == b.data {
                proof {
                    let s = spec_tree_seq(*n);
                    assert(s[spec_tree_seq(b.left).len() as int] == b.data);
                }
                true
            } else if data < b.data {
                let r = contains_node(&b.left, data);
                proof {
                    lemma_contains_split(*n, data);
                }
                r
            } else {
                let r = contains_node(&b.right, data);
                proof {
                    lemma_contains_split(*n, data);
                }
                r
            }
        },
    }
}

/// Membership in a node's walk splits into the subtrees and the node's own
/// value.
proof fn lemma_contains_split(n: Option<Box<Node>>, data: u64)
    requires
        n is Some,
    ensures
        (match n {
            Some(b) => spec_tree_seq(n).contains(data) <==> (spec_tree_seq(b.left).contains(data)
                || data == b.data || spec_tree_seq(b.right).contains(data)),
            None => true,
        }),
{
    broadcast use vstd::seq_lib::group_seq_properties;

    match n {
        Some(b) => {
            let l = spec_tree_seq(b.left);
            let r = spec_tree_seq(b.right);
            let s = spec_tree_seq(n);
            assert(s == l + seq![b.data] + r);
            if spec_tree_seq(n).contains(data) {
                let i = choose|i: int| 0 <= i < s.len() && s[i] == data;
                if i < l.len() {
                    assert(l[i] == data);
                } else if i == l.len() {
                } else {
                    assert(r[i - l.len() - 1] == data);
                }
            }
            if l.contains(data) {
                let i = choose|i: int| 0 <= i < l.len() && l[i] == data;
                assert(s[i] == data);
            }
            if r.contains(data) {
                let i = choose|i: int| 0 <= i < r.len() && r[i] == data;
                assert(s[l.len() + 1 + i] == data);
            }
            assert(s[l.len() as int] == b.data);
        },
        None => {},
    }
}

/// Appends a subtree's values to `out`, in order.
fn collect_in_order(n: &Option<Box<Node>>, out: &mut Vec<u64>)
    ensures
        final(out)@ == old(out)@ + spec_tree_seq(*n),
    decreases *n,
{
    match n {
        None => {
            proof {
                assert(out@ =~= old(out)@ + spec_tree_seq(*n));
            }
        },
        Some(b) => {
            collect_in_order(&b.left, out);
            out.push(b.data);
            collect_in_order(&b.right, out);
            proof {
                assert(out@ =~= old(out)@ + spec_tree_seq(*n));
            }
        },
    }
}

/// A cursor over a tree's values, smallest first.
pub struct BSTIterator {
    items: Vec<u64>,
    index: usize,
}

impl BSTIterator {
    /// The values being walked, in order.
    pub closed spec fn spec_items(&self) -> Seq<u64> {
        self.items@
    }

    /// The cursor position.
    pub closed spec fn spec_index(&self) -> int {
        self.index as int
    }

    /// The next value, or `None` when the walk is over.
    pub fn next(&mut self) -> (r: Option<&u64>)
        ensures
            final(self).spec_items() == old(self).spec_items(),
            match r {
                Some(v) => old(self).spec_index() < old(self).spec_items().len() && *v == old(self).spec_items()[old(self).spec_index()] && final(self).spec_index() == old(self).spec_index() + 1,
                None => old(self).spec_index() >= old(self).spec_items().len() && final(self).spec_index() == old(self).spec_index(),
            },
    {
        if self.index < self.items.len() {
            let r = &self.items[self.index];
            self.index += 1;
            Some(r)
        } else {
            None
        }
    }
}

} // verus!
