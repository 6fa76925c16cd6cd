//! An index from keys to places, held in a tree of nodes.

use vstd::prelude::*;

verus! {

type Key = u64;

type Value = usize;

/// A node of the tree.
#[derive(Debug)]
pub struct BTreeNode {
    pub keys: Vec<Key>,
    pub values: Vec<Value>,
    pub children: Vec<Option<Box<BTreeNode>>>,
    pub leaf: bool,
}

/// What a [`BTreeNode`] holds.
#[verifier::ext_equal]
pub struct NodeView {
    pub keys: Seq<u64>,
    pub values: Seq<usize>,
    pub children: Seq<Option<NodeView>>,
    pub leaf: bool,
}

/// What a node holds.
pub open spec fn node_view(node: BTreeNode) -> NodeView
    decreases node,
{
    NodeView {
        keys: node.keys@,
        values: node.values@,
        children: Seq::new(
            node.children@.len(),
            |i: int|
                if 0 <= i < node.children@.len() {
                    match node.children@[i] {
                        Some(child) => Some(node_view(*child)),
                        None => None,
                    }
                } else {
                    None
                },
        ),
        leaf: node.leaf,
    }
}

impl View for BTreeNode {
    type V = NodeView;

    open spec fn view(&self) -> NodeView {
        node_view(*self)
    }
}

/// The first place whose key is not less than the given one.
pub open spec fn first_not_less(keys: Seq<u64>, key: u64) -> int
    decreases keys.len(),
{
    if keys.len() == 0 || key <= keys[0] {
        0
    } else {
        1 + first_not_less(keys.drop_first(), key)
    }
}

/// The place behind the last key that is not greater than the given one.
pub open spec fn last_not_greater(keys: Seq<u64>, key: u64) -> int
    decreases keys.len(),
{
    if keys.len() == 0 || key >= keys.last() {
        keys.len() as int
    } else {
        last_not_greater(keys.drop_last(), key)
    }
}

proof fn first_not_less_bounds(keys: Seq<u64>, key: u64)
    ensures
        0 <= first_not_less(keys, key) <= keys.len(),
        forall|j: int| 0 <= j < first_not_less(keys, key) ==> #[trigger] keys[j] < key,
        first_not_less(keys, key) < keys.len() ==> key <= keys[first_not_less(keys, key)],
    decreases keys.len(),
{
    if keys.len() > 0 && key > keys[0] {
        let rest = keys.drop_first();
        first_not_less_bounds(rest, key);
        assert forall|j: int| 0 <= j < first_not_less(keys, key) implies #[trigger] keys[j]
            < key by {
            if j > 0 {
                assert(keys[j] == rest[j - 1]);
            }
        }
    }
}

proof fn last_not_greater_bounds(keys: Seq<u64>, key: u64)
    ensures
        0 <= last_not_greater(keys, key) <= keys.len(),
        forall|j: int| last_not_greater(keys, key) <= j < keys.len() ==> #[trigger] keys[j] > key,
        last_not_greater(keys, key) > 0 ==> keys[last_not_greater(keys, key) - 1] <= key,
    decreases keys.len(),
{
    if keys.len() > 0 && key < keys.last() {
        let front = keys.drop_last();
        last_not_greater_bounds(front, key);
        assert forall|j: int| last_not_greater(keys, key) <= j < keys.len() implies #[trigger] keys[j]
            > key by {
            if j < front.len() {
                assert(keys[j] == front[j]);
            }
        }
    }
}

/// What a search in the node comes to: `None` where the node is not whole
/// enough to answer, else the value of the key, if there is one.
pub open spec fn found(node: NodeView, key: u64) -> Option<Option<usize>>
    decreases node,
{
    let i = first_not_less(node.keys, key);
    if 0 <= i < node.keys.len() && node.keys[i] == key {
        if i < node.values.len() {
            Some(Some(node.values[i]))
        } else {
            None
        }
    } else if node.leaf {
        Some(None)
    } else if 0 <= i < node.children.len() && node.children[i] is Some {
        found(node.children[i]->0, key)
    } else {
        None
    }
}

/// The height of a node.
pub open spec fn height(node: NodeView) -> nat
    decreases node, 0nat,
{
    if node.leaf {
        0
    } else {
        1 + heights(node.children)
    }
}

/// The greatest height of the children.
pub open spec fn heights(children: Seq<Option<NodeView>>) -> nat
    decreases children, 1nat,
{
    if children.len() == 0 {
        0
    } else {
        let before = heights(children.drop_last());
        let last = match children[children.len() - 1] {
            Some(child) => height(child),
            None => 0,
        };
        if before < last {
            last
        } else {
            before
        }
    }
}

proof fn height_of_child(children: Seq<Option<NodeView>>, i: int)
    requires
        0 <= i < children.len(),
        children[i] is Some,
    ensures
        height(children[i]->0) <= heights(children),
    decreases children.len(),
{
    if i < children.len() - 1 {
        height_of_child(children.drop_last(), i);
    }
}

proof fn heights_of_part(children: Seq<Option<NodeView>>, from: int, to: int)
    requires
        0 <= from <= to <= children.len(),
    ensures
        heights(children.subrange(from, to)) <= heights(children),
    decreases children.len(),
{
    let part = children.subrange(from, to);
    if part.len() > 0 {
        if to == children.len() {
            heights_of_part(children.drop_last(), from, to - 1);
            assert(part.drop_last() =~= children.drop_last().subrange(from, to - 1));
        } else {
            heights_of_part(children.drop_last(), from, to);
            assert(part =~= children.drop_last().subrange(from, to));
        }
    }
}

/// A leaf with the key in its place and the value at the same place. Where the
/// leaf has values that belong to no key, those shift with the others.
pub open spec fn leaf_with(node: NodeView, key: u64, value: usize) -> Option<NodeView> {
    let n = node.keys.len();
    let p = last_not_greater(node.keys, key);
    let values = node.values.push(value);
    if p == n {
        Some(NodeView { keys: node.keys.push(key), values, ..node })
    } else if n < values.len() {
        Some(
            NodeView {
                keys: node.keys.insert(p, key),
                values: values.remove(n as int).insert(p, values[n as int]),
                ..node
            },
        )
    } else {
        None
    }
}

/// The left part of a child that is split: its first keys, and all its values
/// but the one that goes up.
pub open spec fn left_part(y: NodeView, t: int) -> NodeView {
    NodeView {
        keys: y.keys.take(t - 1),
        values: y.values.remove(t - 1),
        children: if y.leaf {
            y.children
        } else {
            y.children.take(t)
        },
        leaf: y.leaf,
    }
}

/// The right part of a child that is split: its last keys, without values.
pub open spec fn right_part(y: NodeView, t: int) -> NodeView {
    NodeView {
        keys: y.keys.skip(t),
        values: Seq::empty(),
        children: if y.leaf {
            Seq::empty()
        } else {
            y.children.skip(t)
        },
        leaf: y.leaf,
    }
}

/// The node has a child there that can be split.
pub open spec fn can_split(node: NodeView, i: int, t: int) -> bool {
    &&& 0 < t
    &&& 0 <= i < node.children.len()
    &&& i <= node.keys.len()
    &&& i <= node.values.len()
    &&& node.children[i] is Some
    &&& t <= (node.children[i]->0).keys.len()
    &&& t <= (node.children[i]->0).values.len()
    &&& !(node.children[i]->0).leaf ==> t <= (node.children[i]->0).children.len()
}

/// The node with its child there split in two.
pub open spec fn split_at(node: NodeView, i: int, t: int) -> NodeView {
    let y = node.children[i]->0;
    NodeView {
        keys: node.keys.insert(i, y.keys[t - 1]),
        values: node.values.insert(i, y.values[t - 1]),
        children: node.children.update(i, Some(left_part(y, t))).insert(
            i + 1,
            Some(right_part(y, t)),
        ),
        leaf: node.leaf,
    }
}

proof fn height_of_parts(y: NodeView, t: int)
    requires
        !y.leaf ==> 0 <= t <= y.children.len(),
    ensures
        height(left_part(y, t)) <= height(y),
        height(right_part(y, t)) <= height(y),
{
    if !y.leaf {
        heights_of_part(y.children, 0, t);
        heights_of_part(y.children, t, y.children.len() as int);
        assert(y.children.take(t) =~= y.children.subrange(0, t));
        assert(y.children.skip(t) =~= y.children.subrange(t, y.children.len() as int));
    }
}

/// The node, and the place in it, at which a key goes down to a child: a full
/// child is split first.
pub open spec fn descent(node: NodeView, key: u64, t: int) -> Option<(NodeView, int)> {
    let i = last_not_greater(node.keys, key);
    if !(0 <= i < node.children.len() && node.children[i] is Some) {
        None
    } else if (node.children[i]->0).keys.len() == 2 * t - 1 {
        if can_split(node, i, t) {
            let split = split_at(node, i, t);
            Some(
                (
                    split,
                    if key > split.keys[i] {
                        i + 1
                    } else {
                        i
                    },
                ),
            )
        } else {
            None
        }
    } else {
        Some((node, i))
    }
}

/// A key goes down to a child that is less high than the node.
pub proof fn descent_goes_down(node: NodeView, key: u64, t: int)
    requires
        !node.leaf,
        descent(node, key, t) is Some,
    ensures
        ({
            let (next, i) = descent(node, key, t)->0;
            &&& 0 <= i < next.children.len()
            &&& next.children[i] is Some
            &&& height(next.children[i]->0) < height(node)
        }),
{
    let i = last_not_greater(node.keys, key);
    height_of_child(node.children, i);
    if (node.children[i]->0).keys.len() == 2 * t - 1 {
        height_of_parts(node.children[i]->0, t);
    }
}

/// The node with a key and a value put into it, or `None` where it is not
/// whole enough to take them.
pub open spec fn node_with(node: NodeView, key: u64, value: usize, t: int) -> Option<NodeView>
    decreases height(node),
{
    if node.leaf {
        leaf_with(node, key, value)
    } else {
        match descent(node, key, t) {
            None => None,
            Some((next, i)) => {
                proof {
                    descent_goes_down(node, key, t);
                }
                match node_with(next.children[i]->0, key, value, t) {
                    None => None,
                    Some(child) => Some(
                        NodeView { children: next.children.update(i, Some(child)), ..next },
                    ),
                }
            },
        }
    }
}

impl BTreeNode {
    fn new(leaf: bool) -> (r: Self)
        ensures
            r@ == (NodeView {
                keys: Seq::empty(),
                values: Seq::empty(),
                children: Seq::empty(),
                leaf,
            }),
    {
        let r = BTreeNode { keys: Vec::new(), values: Vec::new(), children: Vec::new(), leaf };
        proof {
            assert(r@.children =~= Seq::<Option<NodeView>>::empty());
        }
        r
    }

    fn search(&self, key: Key) -> (r: Option<&Value>)
        requires
            found(self@, key) is Some,
        ensures
            found(self@, key) == Some(
                match r {
                    Some(v) => Some(*v),
                    None => None,
                },
            ),
        decreases self,
    {
        let mut i: usize = 0;
        proof {
            assert(self.keys@.skip(0) =~= self.keys@);
        }
        while i < self.keys.len() && key > self.keys[i]
            invariant
                i <= self.keys@.len(),
                first_not_less(self.keys@, key) == i + first_not_less(
                    self.keys@.skip(i as int),
                    key,
                ),
            decreases self.keys@.len() - i,
        {
            proof {
                assert(self.keys@.skip(i as int).drop_first() =~= self.keys@.skip(i + 1));
            }
            i = i + 1;
        }
        proof {
            assert(i == first_not_less(self.keys@, key));
        }
        if i < self.keys.len() && key == self.keys[i] {
            return Some(&self.values[i]);
        }
        if self.leaf {
            None
        } else {
            match &self.children[i] {
                Some(child) => {
                    proof {
                        assert(self@.children[i as int] == Some(node_view(**child)));
                    }
                    child.search(key)
                },
                None => {
                    proof {
                        assert(self@.children[i as int] is None);
                    }
                    None
                },
            }
        }
    }
}

/// What a child holds.
spec fn child_view(child: Option<Box<BTreeNode>>) -> Option<NodeView> {
    match child {
        Some(child) => Some(node_view(*child)),
        None => None,
    }
}

/// What the children hold.
spec fn child_views(children: Seq<Option<Box<BTreeNode>>>) -> Seq<Option<NodeView>> {
    children.map_values(|c: Option<Box<BTreeNode>>| child_view(c))
}

proof fn view_of_children(node: BTreeNode)
    ensures
        node_view(node) == (NodeView {
            keys: node.keys@,
            values: node.values@,
            children: child_views(node.children@),
            leaf: node.leaf,
        }),
{
    assert(node_view(node).children =~= child_views(node.children@));
}

impl BTreeNode {
    fn split_child(&mut self, i: usize, t: usize)
        requires
            can_split(old(self)@, i as int, t as int),
        ensures
            final(self)@ == split_at(old(self)@, i as int, t as int),
    {
        proof {
            view_of_children(*self);
        }
        let ghost before = *self;
        let child = self.children.remove(i);
        if let Some(boxed) = child {
            let mut y = *boxed;
            let ghost y0 = y;
            proof {
                view_of_children(y0);
                assert(before@.children[i as int] == Some(node_view(y0)));
            }
            let mut z = BTreeNode::new(y.leaf);
            z.keys = y.keys.split_off(t);
            if !y.leaf {
                z.children = y.children.split_off(t);
            }
            self.keys.insert(i, y.keys.remove(t - 1));
            self.values.insert(i, y.values.remove(t - 1));
            proof {
                view_of_children(y);
                view_of_children(z);
                assert(y@.keys =~= y0@.keys.take(t - 1));
                assert(y@.children =~= left_part(y0@, t as int).children);
                assert(z@.children =~= right_part(y0@, t as int).children);
                assert(y@ =~= left_part(y0@, t as int));
                assert(z@ =~= right_part(y0@, t as int));
            }
            self.children.insert(i, Some(Box::new(y)));
            let count = self.children.len();
            proof {
                assert(i < count);
            }
            self.children.insert(i + 1, Some(Box::new(z)));
            proof {
                view_of_children(*self);
                assert(self@.children =~= split_at(before@, i as int, t as int).children);
            }
        }
    }

    /// Puts a key and a value into a leaf.
    fn insert_into_leaf(&mut self, key: Key, value: Value)
        requires
            old(self).leaf,
            leaf_with(old(self)@, key, value) is Some,
        ensures
            Some(final(self)@) == leaf_with(old(self)@, key, value),
    {
        let ghost keys0 = self.keys@;
        let ghost values0 = self.values@.push(value);
        let ghost n = self.keys@.len() as int;
        proof {
            view_of_children(*self);
            last_not_greater_bounds(keys0, key);
        }
        let mut i: usize = self.keys.len();
        self.keys.push(key);
        self.values.push(value);
        proof {
            assert(keys0.take(n) =~= keys0);
            assert(self.keys@ =~= keys0.insert(n, key));
        }
        while i > 0 && self.keys[i] < self.keys[i - 1]
            invariant
                n == keys0.len(),
                i <= n,
                self.keys@ == keys0.insert(i as int, key),
                self.values@ == (if i == n {
                    values0
                } else {
                    values0.remove(n).insert(i as int, values0[n])
                }),
                self.children == old(self).children,
                self.leaf == old(self).leaf,
                last_not_greater(keys0, key) == last_not_greater(keys0.take(i as int), key),
                last_not_greater(keys0, key) < n ==> n < values0.len(),
                0 <= last_not_greater(keys0, key) <= n,
            decreases i,
        {
            proof {
                assert(self.keys@[i - 1] == keys0[i - 1]);
                assert(keys0.take(i as int).last() == keys0[i - 1]);
                assert(keys0.take(i as int).drop_last() =~= keys0.take(i - 1));
                last_not_greater_bounds(keys0.take(i - 1), key);
                assert(last_not_greater(keys0, key) < n);
            }
            let moved_key: Key = self.keys[i - 1];
            self.keys.set(i, moved_key);
            self.keys.set(i - 1, key);
            let moved_value: Value = self.values[i - 1];
            let sinking_value: Value = self.values[i];
            self.values.set(i, moved_value);
            self.values.set(i - 1, sinking_value);
            i = i - 1;
            proof {
                assert(self.keys@ =~= keys0.insert(i as int, key));
                assert(self.values@ =~= values0.remove(n).insert(i as int, values0[n]));
            }
        }
        proof {
            if i > 0 {
                assert(self.keys@[i - 1] == keys0[i - 1]);
                assert(keys0.take(i as int).last() == keys0[i - 1]);
            }
            assert(last_not_greater(keys0, key) == i);
            view_of_children(*self);
            if i == n {
                assert(self.keys@ =~= keys0.push(key));
            }
        }
    }

    fn insert_non_full(&mut self, key: Key, value: Value, t: usize)
        requires
            0 < t <= usize::MAX / 2,
            node_with(old(self)@, key, value, t as int) is Some,
        ensures
            Some(final(self)@) == node_with(old(self)@, key, value, t as int),
        decreases height(old(self)@),
    {
        let ghost before = self@;
        if self.leaf {
            self.insert_into_leaf(key, value);
            return ;
        }
        proof {
            descent_goes_down(before, key, t as int);
            view_of_children(*self);
        }
        let mut i: usize = self.keys.len();
        proof {
            assert(self.keys@.take(i as int) =~= self.keys@);
        }
        while i > 0 && key < self.keys[i - 1]
            invariant
                i <= self.keys@.len(),
                last_not_greater(self.keys@, key) == last_not_greater(
                    self.keys@.take(i as int),
                    key,
                ),
            decreases i,
        {
            proof {
                assert(self.keys@.take(i as int).last() == self.keys@[i - 1]);
                assert(self.keys@.take(i as int).drop_last() =~= self.keys@.take(i - 1));
            }
            i = i - 1;
        }
        proof {
            if i > 0 {
                assert(self.keys@.take(i as int).last() == self.keys@[i - 1]);
            }
            assert(last_not_greater(self.keys@, key) == i);
        }
        let full = match &self.children[i] {
            Some(child) => {
                proof {
                    assert(self@.children[i as int] == Some(node_view(**child)));
                }
                child.keys.len() == 2 * t - 1
            },
            None => {
                proof {
                    assert(self@.children[i as int] is None);
                }
                false
            },
        };
        if full {
            self.split_child(i, t);
            proof {
                view_of_children(*self);
            }
            let count = self.keys.len();
            proof {
                assert(i < count);
            }
            if key > self.keys[i] {
                i = i + 1;
            }
        }
        proof {
            assert(descent(before, key, t as int) == Some((self@, i as int)));
            view_of_children(*self);
        }
        let ghost next = *self;
        let child = self.children.remove(i);
        if let Some(boxed) = child {
            let mut node = *boxed;
            proof {
                assert(next@.children[i as int] == Some(node_view(node)));
            }
            node.insert_non_full(key, value, t);
            self.children.insert(i, Some(Box::new(node)));
            proof {
                view_of_children(*self);
                assert(self@.children =~= next@.children.update(i as int, Some(node@)));
            }
        }
    }
}

/// A tree of nodes that hold keys with values, at most `2 * t - 1` of them
/// each.
#[derive(Debug)]
pub struct BTree {
    pub root: Option<Box<BTreeNode>>,
    pub t: usize,
}

/// What a [`BTree`] holds.
pub struct TreeView {
    pub root: Option<NodeView>,
    pub t: int,
}

impl View for BTree {
    type V = TreeView;

    open spec fn view(&self) -> TreeView {
        TreeView {
            root: match self.root {
                Some(root) => Some(node_view(*root)),
                None => None,
            },
            t: self.t as int,
        }
    }
}

/// What a search in the tree comes to.
pub open spec fn tree_found(tree: TreeView, key: u64) -> Option<Option<usize>> {
    match tree.root {
        Some(root) => found(root, key),
        None => Some(None),
    }
}

/// A node above a full root, with the root as its only child.
pub open spec fn above(root: NodeView) -> NodeView {
    NodeView { keys: Seq::empty(), values: Seq::empty(), children: seq![Some(root)], leaf: false }
}

/// The tree with a key and a value put into it, or `None` where a node of it
/// is not whole enough to take them.
pub open spec fn tree_with(tree: TreeView, key: u64, value: usize) -> Option<TreeView> {
    let root = match tree.root {
        None => Some(
            NodeView {
                keys: seq![key],
                values: seq![value],
                children: Seq::empty(),
                leaf: true,
            },
        ),
        Some(root) => if root.keys.len() == 2 * tree.t - 1 {
            if can_split(above(root), 0, tree.t) {
                node_with(split_at(above(root), 0, tree.t), key, value, tree.t)
            } else {
                None
            }
        } else {
            node_with(root, key, value, tree.t)
        },
    };
    match root {
        Some(root) => Some(TreeView { root: Some(root), ..tree }),
        None => None,
    }
}

impl BTree {
    pub fn new(t: usize) -> (r: Self)
        ensures
            r@ == (TreeView { root: None, t: t as int }),
    {
        BTree { root: None, t }
    }

    /// The value of the key, if it is there. A tree that came from elsewhere,
    /// or in which a node was split, may hold keys without values: those
    /// cannot be searched for.
    pub fn search(&self, key: Key) -> (r: Option<&Value>)
        requires
            tree_found(self@, key) is Some,
        ensures
            tree_found(self@, key) == Some(
                match r {
                    Some(v) => Some(*v),
                    None => None,
                },
            ),
    {
        match &self.root {
            Some(root) => root.search(key),
            None => None,
        }
    }

    /// Puts a key and a value into the tree.
    pub fn insert(&mut self, key: Key, value: Value)
        requires
            0 < old(self).t <= usize::MAX / 2,
            tree_with(old(self)@, key, value) is Some,
        ensures
            Some(final(self)@) == tree_with(old(self)@, key, value),
    {
        let mut taken: Option<Box<BTreeNode>> = None;
        std::mem::swap(&mut taken, &mut self.root);
        match taken {
            None => {
                let mut root = BTreeNode::new(true);
                root.keys.push(key);
                root.values.push(value);
                proof {
                    view_of_children(root);
                    assert(root@.keys =~= seq![key]);
                    assert(root@.values =~= seq![value]);
                    assert(root@.children =~= Seq::<Option<NodeView>>::empty());
                }
                self.root = Some(Box::new(root));
            },
            Some(boxed) => {
                let mut root = *boxed;
                let ghost r0 = root@;
                if root.keys.len() == 2 * self.t - 1 {
                    let mut s = BTreeNode::new(false);
                    s.children.push(Some(Box::new(root)));
                    proof {
                        view_of_children(s);
                        assert(s@.children =~= seq![Some(r0)]);
                        assert(s@ =~= above(r0));
                    }
                    s.split_child(0, self.t);
                    s.insert_non_full(key, value, self.t);
                    self.root = Some(Box::new(s));
                } else {
                    root.insert_non_full(key, value, self.t);
                    self.root = Some(Box::new(root));
                }
            },
        }
    }
}

// ---------------------------------------------------------------------------
// Laws
// ---------------------------------------------------------------------------

/// What a search for a key gives after an insertion: a key that was there keeps
/// the value that it had, and the inserted one has the value given with it.
pub open spec fn after_insertion(
    before: Option<usize>,
    asked: u64,
    key: u64,
    value: usize,
) -> Option<usize> {
    match before {
        Some(v) => Some(v),
        None => if asked == key {
            Some(value)
        } else {
            None
        },
    }
}

/// The keys stand in order.
pub open spec fn in_order(keys: Seq<u64>) -> bool {
    forall|i: int, j: int| 0 <= i <= j < keys.len() ==> #[trigger] keys[i] <= #[trigger] keys[j]
}

/// The key goes down to a leaf with a value for each key, through nodes that
/// are in order and past no child that would be split.
pub open spec fn takes_unsplit(node: NodeView, key: u64, t: int) -> bool
    decreases node,
{
    let i = last_not_greater(node.keys, key);
    &&& in_order(node.keys)
    &&& if node.leaf {
        node.keys.len() == node.values.len()
    } else {
        &&& 0 <= i < node.children.len()
        &&& node.children[i] is Some
        &&& (node.children[i]->0).keys.len() != 2 * t - 1
        &&& takes_unsplit(node.children[i]->0, key, t)
    }
}

proof fn first_place_unique(keys: Seq<u64>, key: u64, i: int)
    requires
        0 <= i <= keys.len(),
        forall|j: int| 0 <= j < i ==> #[trigger] keys[j] < key,
        i < keys.len() ==> key <= keys[i],
    ensures
        first_not_less(keys, key) == i,
{
    first_not_less_bounds(keys, key);
    let f = first_not_less(keys, key);
    if f < i {
        assert(keys[f] < key);
    } else if i < f {
        assert(keys[i] < key);
    }
}

proof fn leaf_takes(leaf: NodeView, key: u64, value: usize, asked: u64)
    requires
        leaf.leaf,
        leaf.keys.len() == leaf.values.len(),
        in_order(leaf.keys),
    ensures
        leaf_with(leaf, key, value) is Some,
        in_order((leaf_with(leaf, key, value)->0).keys),
        (leaf_with(leaf, key, value)->0).keys.len() == (leaf_with(
            leaf,
            key,
            value,
        )->0).values.len(),
        found(leaf, asked) is Some,
        found(leaf_with(leaf, key, value)->0, asked) == Some(
            after_insertion(found(leaf, asked)->0, asked, key, value),
        ),
{
    let n = leaf.keys.len() as int;
    let p = last_not_greater(leaf.keys, key);
    let next = leaf_with(leaf, key, value)->0;
    last_not_greater_bounds(leaf.keys, key);
    first_not_less_bounds(leaf.keys, asked);
    let f = first_not_less(leaf.keys, asked);
    assert(next.keys =~= leaf.keys.insert(p, key));
    assert(next.values =~= leaf.values.insert(p, value));
    assert forall|i: int, j: int| 0 <= i <= j < next.keys.len() implies #[trigger] next.keys[i]
        <= #[trigger] next.keys[j] by {
        if i < p {
            assert(next.keys[i] == leaf.keys[i]);
            assert(leaf.keys[i] <= leaf.keys[p - 1]);
        } else if i > p {
            assert(next.keys[i] == leaf.keys[i - 1]);
        }
        if j < p {
            assert(next.keys[j] == leaf.keys[j]);
        } else if j > p {
            assert(next.keys[j] == leaf.keys[j - 1]);
        }
    }
    if f < p {
        assert forall|j: int| 0 <= j < f implies #[trigger] next.keys[j] < asked by {
            assert(next.keys[j] == leaf.keys[j]);
        }
        assert(next.keys[f] == leaf.keys[f]);
        first_place_unique(next.keys, asked, f);
        assert(leaf.keys[f] <= leaf.keys[p - 1]);
        if asked == key && leaf.keys[f] != asked {
            assert(leaf.keys[p - 1] <= key);
            assert(false);
        }
    } else if asked <= key {
        assert forall|j: int| 0 <= j < p implies #[trigger] next.keys[j] < asked by {
            assert(next.keys[j] == leaf.keys[j]);
        }
        first_place_unique(next.keys, asked, p);
        if f < n && leaf.keys[f] == asked {
            assert(leaf.keys[f] > key);
        }
    } else {
        assert forall|j: int| 0 <= j < f + 1 implies #[trigger] next.keys[j] < asked by {
            if j < p {
                assert(next.keys[j] == leaf.keys[j]);
            } else if j > p {
                assert(next.keys[j] == leaf.keys[j - 1]);
            }
        }
        if f < n {
            assert(next.keys[f + 1] == leaf.keys[f]);
        }
        first_place_unique(next.keys, asked, f + 1);
    }
}

proof fn node_takes_unsplit(node: NodeView, key: u64, value: usize, t: int, asked: u64)
    requires
        takes_unsplit(node, key, t),
        found(node, asked) is Some,
    ensures
        node_with(node, key, value, t) is Some,
        found(node_with(node, key, value, t)->0, asked) == Some(
            after_insertion(found(node, asked)->0, asked, key, value),
        ),
    decreases node,
{
    if node.leaf {
        leaf_takes(node, key, value, asked);
    } else {
        let i = last_not_greater(node.keys, key);
        let f = first_not_less(node.keys, asked);
        last_not_greater_bounds(node.keys, key);
        first_not_less_bounds(node.keys, asked);
        let child = node.children[i]->0;
        // Whatever is asked for, the child takes the key.
        child_takes_unsplit(child, key, value, t);
        let next = node_with(node, key, value, t)->0;
        assert(next.keys == node.keys);
        assert(next.values == node.values);
        if f < node.keys.len() && node.keys[f] == asked {
        } else {
            if f == i {
                node_takes_unsplit(child, key, value, t, asked);
            } else if asked == key {
                if f < i {
                    assert(node.keys[f] <= node.keys[i - 1]);
                } else {
                    assert(node.keys[i] < asked);
                }
                assert(false);
            }
        }
    }
}

proof fn child_takes_unsplit(node: NodeView, key: u64, value: usize, t: int)
    requires
        takes_unsplit(node, key, t),
    ensures
        node_with(node, key, value, t) is Some,
    decreases node,
{
    if node.leaf {
        leaf_takes(node, key, value, key);
    } else {
        child_takes_unsplit(
            node.children[last_not_greater(node.keys, key)]->0,
            key,
            value,
            t,
        );
    }
}

/// Where no node is split, an insertion is taken and adds its key without a
/// change to any other: a key that was there keeps the value that it had. This
/// holds of every key that can be searched for.
pub proof fn insertion_without_a_split(tree: TreeView, key: u64, value: usize, asked: u64)
    requires
        tree.root matches Some(root) ==> root.keys.len() != 2 * tree.t - 1 && takes_unsplit(
            root,
            key,
            tree.t,
        ),
        tree_found(tree, asked) is Some,
    ensures
        tree_with(tree, key, value) is Some,
        tree_found(tree_with(tree, key, value)->0, asked) == Some(
            after_insertion(tree_found(tree, asked)->0, asked, key, value),
        ),
{
    match tree.root {
        None => {
            let keys = seq![key];
            if key < asked {
                first_place_unique(keys, asked, 1);
            } else {
                first_place_unique(keys, asked, 0);
            }
        },
        Some(root) => {
            node_takes_unsplit(root, key, value, tree.t, asked);
        },
    }
}

/// The tree is at most one leaf, with its keys in order and a value for each.
pub open spec fn is_one_leaf(tree: TreeView) -> bool {
    tree.root matches Some(root) ==> {
        &&& root.leaf
        &&& root.keys.len() == root.values.len()
        &&& in_order(root.keys)
    }
}

/// There is room in the leaf for one more key.
pub open spec fn has_room(tree: TreeView) -> bool {
    &&& 0 < tree.t
    &&& tree.root matches Some(root) ==> root.keys.len() < 2 * tree.t - 1
}

/// While the tree is one leaf with room in it, an insertion is taken, keeps
/// the leaf in order, and adds its key without a change to any other.
pub proof fn insertion_into_one_leaf(tree: TreeView, key: u64, value: usize, asked: u64)
    requires
        is_one_leaf(tree),
        has_room(tree),
    ensures
        tree_with(tree, key, value) is Some,
        is_one_leaf(tree_with(tree, key, value)->0),
        tree_found(tree, asked) is Some,
        tree_found(tree_with(tree, key, value)->0, asked) == Some(
            after_insertion(tree_found(tree, asked)->0, asked, key, value),
        ),
{
    if let Some(root) = tree.root {
        leaf_takes(root, key, value, asked);
    }
    insertion_without_a_split(tree, key, value, asked);
}

/// A node of a tree of degree one: at most one key, a value for each key, and
/// below it one child more than it has keys.
pub open spec fn is_narrow(node: NodeView) -> bool
    decreases node,
{
    &&& node.keys.len() <= 1
    &&& node.values.len() == node.keys.len()
    &&& !node.leaf ==> {
        &&& node.children.len() == node.keys.len() + 1
        &&& node.children[0] is Some
        &&& is_narrow(node.children[0]->0)
        &&& node.keys.len() == 1 ==> node.children[1] is Some && is_narrow(node.children[1]->0)
    }
}

proof fn narrow_nodes_answer(node: NodeView, asked: u64)
    requires
        is_narrow(node),
    ensures
        found(node, asked) is Some,
    decreases node,
{
    first_not_less_bounds(node.keys, asked);
    if !node.leaf {
        narrow_nodes_answer(node.children[0]->0, asked);
        if node.keys.len() == 1 {
            narrow_nodes_answer(node.children[1]->0, asked);
        }
    }
}

proof fn found_beside_one_key(node: NodeView, asked: u64)
    requires
        is_narrow(node),
        node.keys.len() == 1,
    ensures
        asked == node.keys[0] ==> found(node, asked) == Some(Some(node.values[0])),
        asked != node.keys[0] && node.leaf ==> found(node, asked) == Some(None::<usize>),
        asked < node.keys[0] && !node.leaf ==> found(node, asked) == found(
            node.children[0]->0,
            asked,
        ),
        asked > node.keys[0] && !node.leaf ==> found(node, asked) == found(
            node.children[1]->0,
            asked,
        ),
{
    first_place_unique(
        node.keys,
        asked,
        if asked > node.keys[0] {
            1
        } else {
            0
        },
    );
}

/// The parts of a narrow node that is split have no keys and answer as the
/// node does, each on its side of the key that goes up.
proof fn narrow_parts(y: NodeView, asked: u64)
    requires
        is_narrow(y),
        y.keys.len() == 1,
    ensures
        is_narrow(left_part(y, 1)),
        is_narrow(right_part(y, 1)),
        left_part(y, 1).keys.len() == 0,
        right_part(y, 1).keys.len() == 0,
        asked == y.keys[0] ==> found(y, asked) == Some(Some(y.values[0])),
        asked < y.keys[0] ==> found(left_part(y, 1), asked) == found(y, asked),
        asked > y.keys[0] ==> found(right_part(y, 1), asked) == found(y, asked),
{
    found_beside_one_key(y, asked);
}

/// A narrow node whose child is split answers as before.
proof fn narrow_split_answers(node: NodeView, asked: u64)
    requires
        is_narrow(node),
        node.keys.len() == 0,
        !node.leaf,
        (node.children[0]->0).keys.len() == 1,
    ensures
        can_split(node, 0, 1),
        is_narrow(split_at(node, 0, 1)),
        split_at(node, 0, 1).keys == seq![(node.children[0]->0).keys[0]],
        found(split_at(node, 0, 1), asked) == found(node.children[0]->0, asked),
{
    let y = node.children[0]->0;
    let split = split_at(node, 0, 1);
    assert(is_narrow(y));
    narrow_parts(y, asked);
    assert(split.keys =~= seq![y.keys[0]]);
    assert(split.values =~= seq![y.values[0]]);
    assert(is_narrow(split));
    found_beside_one_key(split, asked);
}

/// A narrow node with a key answers as before, but for what a child of it has
/// taken. The child is the one on the side of the taken key.
proof fn narrow_node_with_child(
    node: NodeView,
    i: int,
    child: NodeView,
    key: u64,
    value: usize,
    asked: u64,
)
    requires
        is_narrow(node),
        node.keys.len() == 1,
        !node.leaf,
        0 <= i < 2,
        i == 0 ==> key <= node.keys[0],
        i == 1 ==> key >= node.keys[0],
        is_narrow(child),
        found(node.children[i]->0, asked) is Some,
        found(child, asked) == Some(
            after_insertion(found(node.children[i]->0, asked)->0, asked, key, value),
        ),
    ensures
        ({
            let next = NodeView { children: node.children.update(i, Some(child)), ..node };
            &&& is_narrow(next)
            &&& found(node, asked) is Some
            &&& found(next, asked) == Some(
                after_insertion(found(node, asked)->0, asked, key, value),
            )
        }),
{
    let next = NodeView { children: node.children.update(i, Some(child)), ..node };
    assert(is_narrow(next));
    narrow_nodes_answer(node, asked);
    found_beside_one_key(node, asked);
    found_beside_one_key(next, asked);
}

proof fn narrow_node_takes(node: NodeView, key: u64, value: usize, asked: u64)
    requires
        is_narrow(node),
        node.keys.len() == 0,
    ensures
        node_with(node, key, value, 1) is Some,
        is_narrow(node_with(node, key, value, 1)->0),
        found(node, asked) is Some,
        found(node_with(node, key, value, 1)->0, asked) == Some(
            after_insertion(found(node, asked)->0, asked, key, value),
        ),
    decreases height(node),
{
    narrow_nodes_answer(node, asked);
    if node.leaf {
        leaf_takes(node, key, value, asked);
    } else {
        let y = node.children[0]->0;
        assert(is_narrow(y));
        if y.keys.len() == 1 {
            let split = split_at(node, 0, 1);
            let i: int = if key > split.keys[0] {
                1
            } else {
                0
            };
            narrow_split_answers(node, asked);
            narrow_parts(y, asked);
            assert(descent(node, key, 1) == Some((split, i)));
            descent_goes_down(node, key, 1);
            let part = split.children[i]->0;
            narrow_node_takes(part, key, value, asked);
            let child = node_with(part, key, value, 1)->0;
            narrow_node_with_child(split, i, child, key, value, asked);
        } else {
            assert(descent(node, key, 1) == Some((node, 0int)));
            descent_goes_down(node, key, 1);
            narrow_node_takes(y, key, value, asked);
        }
    }
}

/// A tree of degree one takes every insertion, and each adds its key without a
/// change to any other: a key that was there keeps the value that it had.
pub proof fn insertion_into_a_narrow_tree(tree: TreeView, key: u64, value: usize, asked: u64)
    requires
        tree.t == 1,
        tree.root matches Some(root) ==> is_narrow(root),
    ensures
        tree_with(tree, key, value) is Some,
        (tree_with(tree, key, value)->0).t == 1,
        (tree_with(tree, key, value)->0).root matches Some(root) && is_narrow(root),
        tree_found(tree, asked) is Some,
        tree_found(tree_with(tree, key, value)->0, asked) == Some(
            after_insertion(tree_found(tree, asked)->0, asked, key, value),
        ),
{
    match tree.root {
        None => {
            insertion_without_a_split(tree, key, value, asked);
        },
        Some(root) => {
            narrow_nodes_answer(root, asked);
            if root.keys.len() == 1 {
                let split = split_at(above(root), 0, 1);
                narrow_split_answers(above(root), asked);
                narrow_parts(root, asked);
                let i = last_not_greater(split.keys, key);
                last_not_greater_bounds(split.keys, key);
                let part = split.children[i]->0;
                assert(descent(split, key, 1) == Some((split, i)));
                narrow_node_takes(part, key, value, asked);
                let child = node_with(part, key, value, 1)->0;
                narrow_node_with_child(split, i, child, key, value, asked);
            } else {
                narrow_node_takes(root, key, value, asked);
            }
        },
    }
}

} // verus!
