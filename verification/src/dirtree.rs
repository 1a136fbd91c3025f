//! Directory tree: a flattened tree of directories, expanded and collapsed
//! node by node, with a cursor.

use vstd::prelude::*;
use crate::panel::{key_of, sort_keyed, sorted_with, Key, SortKey};
use crate::text::{chars_of, lowercase, to_lower};

verus! {

/// Directory tree browser: the root, the shown nodes in order (each
/// node's subtree right after it), the cursor and the scroll offset.
#[derive(Debug)]
pub struct DirTree {
    pub root: String,
    pub nodes: Vec<TreeNode>,
    pub cursor: usize,
    pub scroll_offset: usize,
    pub visible_height: usize,
}

/// A shown directory: its path, name, depth below the root, whether its
/// subdirectories are shown, and whether it has any.
#[derive(Debug, Clone)]
pub struct TreeNode {
    pub path: String,
    pub name: String,
    pub depth: usize,
    pub expanded: bool,
    pub has_children: bool,
}

/// A subdirectory as read from the file system: its name, path, and
/// whether it has subdirectories of its own that are not hidden.
#[derive(Debug, Clone)]
pub struct ChildDir {
    pub name: String,
    pub path: String,
    pub has_children: bool,
}

/// A node as plain values: path, name, depth, expanded, has children.
pub type NodeView = (Seq<char>, Seq<char>, nat, bool, bool);

impl DeepView for TreeNode {
    type V = NodeView;

    open spec fn deep_view(&self) -> NodeView {
        (self.path@, self.name@, self.depth as nat, self.expanded, self.has_children)
    }
}

/// A subdirectory as plain values: name, path, has children.
pub type ChildView = (Seq<char>, Seq<char>, bool);

impl DeepView for ChildDir {
    type V = ChildView;

    open spec fn deep_view(&self) -> ChildView {
        (self.name@, self.path@, self.has_children)
    }
}

/// Where the subtree shown below a node of depth `d` ends, looking from
/// `j` on: at the first node that is not deeper, or at the end.
pub open spec fn end_from(nodes: Seq<NodeView>, d: nat, j: int) -> int
    decreases nodes.len() - j,
{
    if j < 0 || j >= nodes.len() {
        nodes.len() as int
    } else if nodes[j].2 <= d {
        j
    } else {
        end_from(nodes, d, j + 1)
    }
}

/// Where the subtree shown below node `i` ends.
pub open spec fn subtree_end(nodes: Seq<NodeView>, i: int) -> int {
    end_from(nodes, nodes[i].2, i + 1)
}

/// A name that starts with `.` is hidden.
pub open spec fn hidden_name(name: Seq<char>) -> bool {
    name.len() > 0 && name[0] == '.'
}

/// The nodes at depth `depth` for the subdirectories that are not hidden,
/// in the order read, collapsed.
pub open spec fn child_nodes(listing: Seq<ChildView>, depth: nat) -> Seq<NodeView>
    decreases listing.len(),
{
    if listing.len() == 0 {
        Seq::empty()
    } else {
        let c = listing[0];
        let rest = child_nodes(listing.drop_first(), depth);
        if hidden_name(c.0) {
            rest
        } else {
            seq![(c.1, c.0, depth, false, c.2)] + rest
        }
    }
}

/// The order of sibling directories: by lower-case name.
pub open spec fn tree_key() -> spec_fn(NodeView) -> Key {
    |n: NodeView| (0int, 0int, lowercase(n.1), Seq::<char>::empty())
}

/// Node `n` marked expanded or collapsed.
pub open spec fn with_expanded(n: NodeView, e: bool) -> NodeView {
    (n.0, n.1, n.2, e, n.4)
}

/// The nodes after expanding node `i` with its subdirectories `listing`:
/// the node is marked expanded and its visible subdirectories, sorted by
/// name, are inserted one level deeper where its shown subtree ends.
pub open spec fn after_expand(nodes: Seq<NodeView>, i: int, listing: Seq<ChildView>) -> Seq<NodeView> {
    if i < 0 || i >= nodes.len() {
        nodes
    } else {
        let marked = nodes.update(i, with_expanded(nodes[i], true));
        let p = subtree_end(nodes, i);
        marked.take(p) + sorted_with(tree_key(), child_nodes(listing, nodes[i].2 + 1)) + marked.skip(p)
    }
}

/// The nodes after collapsing node `i`: marked collapsed, its shown
/// subtree removed.
pub open spec fn after_collapse(nodes: Seq<NodeView>, i: int) -> Seq<NodeView> {
    if i < 0 || i >= nodes.len() {
        nodes
    } else {
        let marked = nodes.update(i, with_expanded(nodes[i], false));
        marked.take(i + 1) + marked.skip(subtree_end(nodes, i))
    }
}

/// `a - b`, or 0 when `b` is larger.
pub open spec fn sat_sub(a: int, b: int) -> int {
    if a > b { a - b } else { 0 }
}

/// The page step of the tree: one less than the page height, at least 1.
pub open spec fn tree_page(height: usize) -> int {
    if height > 2 { height - 1 } else { 1 }
}

/// The scroll offset that brings the cursor onto a page of `height` rows:
/// up to the cursor when it is above, down so it is the last row when it
/// is below.
pub open spec fn visible_offset(cursor: usize, scroll: usize, height: usize) -> int {
    let s = if cursor < scroll { cursor as int } else { scroll as int };
    if cursor >= s + height { cursor - height + 1 } else { s }
}

/// Facts about where a subtree ends.
pub proof fn lemma_end_from(nodes: Seq<NodeView>, d: nat, j: int)
    requires
        0 <= j <= nodes.len(),
    ensures
        j <= end_from(nodes, d, j) <= nodes.len(),
        forall|k: int| j <= k < end_from(nodes, d, j) ==> nodes[k].2 > d,
        end_from(nodes, d, j) < nodes.len() ==> nodes[end_from(nodes, d, j)].2 <= d,
    decreases nodes.len() - j,
{
    if j < nodes.len() && nodes[j].2 > d {
        lemma_end_from(nodes, d, j + 1);
    }
}

/// The subtree end is the first position from `j` on that is not deeper.
pub proof fn lemma_end_from_is(nodes: Seq<NodeView>, d: nat, j: int, e: int)
    requires
        0 <= j <= e <= nodes.len(),
        forall|k: int| j <= k < e ==> nodes[k].2 > d,
        e < nodes.len() ==> nodes[e].2 <= d,
    ensures
        end_from(nodes, d, j) == e,
    decreases e - j,
{
    if j < e {
        lemma_end_from_is(nodes, d, j + 1, e);
    }
}

/// Every child node has the given depth.
pub proof fn lemma_child_depths(listing: Seq<ChildView>, depth: nat)
    ensures
        forall|k: int| 0 <= k < child_nodes(listing, depth).len() ==> #[trigger] child_nodes(listing, depth)[k].2 == depth,
    decreases listing.len(),
{
    if listing.len() > 0 {
        lemma_child_depths(listing.drop_first(), depth);
        let rest = child_nodes(listing.drop_first(), depth);
        assert forall|k: int| 0 <= k < child_nodes(listing, depth).len() implies #[trigger] child_nodes(listing, depth)[k].2 == depth by {
            if !hidden_name(listing[0].0) && k > 0 {
                assert(child_nodes(listing, depth)[k] == rest[k - 1]);
            }
        }
    }
}

/// Collapsing a node right after expanding it gives back the nodes as they
/// were, when the node was collapsed with nothing shown below it.
pub proof fn lemma_collapse_undoes_expand(nodes: Seq<NodeView>, i: int, listing: Seq<ChildView>)
    requires
        0 <= i < nodes.len(),
        !nodes[i].3,
        subtree_end(nodes, i) == i + 1,
    ensures
        after_collapse(after_expand(nodes, i, listing), i) == nodes,
{
    let d = nodes[i].2;
    let kids = sorted_with(tree_key(), child_nodes(listing, d + 1));
    let marked = nodes.update(i, with_expanded(nodes[i], true));
    let ex = after_expand(nodes, i, listing);
    assert(ex == marked.take(i + 1) + kids + marked.skip(i + 1));
    lemma_child_depths(listing, d + 1);
    crate::panel::lemma_sort_with_orders(tree_key(), child_nodes(listing, d + 1));
    assert forall|k: int| 0 <= k < kids.len() implies #[trigger] kids[k].2 == d + 1 by {
        vstd::seq_lib::lemma_multiset_commutative(kids, child_nodes(listing, d + 1));
        let c = child_nodes(listing, d + 1);
        assert(kids.to_multiset().count(kids[k]) > 0) by {
            broadcast use vstd::seq_lib::group_to_multiset_ensures;
            assert(kids.contains(kids[k]));
        }
        assert(c.to_multiset().count(kids[k]) > 0);
        broadcast use vstd::seq_lib::group_to_multiset_ensures;
        assert(c.contains(kids[k]));
        let w = choose|w: int| 0 <= w < c.len() && c[w] == kids[k];
        assert(c[w].2 == d + 1);
    }
    let e = i + 1 + kids.len();
    lemma_end_from(nodes, d, i + 1);
    assert forall|k: int| i + 1 <= k < e implies ex[k].2 > d by {
        assert(ex[k] == kids[k - i - 1]);
    }
    if e < ex.len() {
        assert(ex[e] == nodes[i + 1]);
    }
    lemma_end_from_is(ex, d, i + 1, e);
    assert(ex[i].2 == d);
    assert(with_expanded(with_expanded(nodes[i], true), false) == nodes[i]);
    assert(after_collapse(ex, i) =~= nodes);
}

/// Whether a name starts with `.`.
fn is_hidden_name(name: &str) -> (r: bool)
    ensures
        r == hidden_name(name@),
{
    let v = chars_of(name);
    v.len() > 0 && v[0] == '.'
}

/// The node for subdirectory `c` at depth `depth`, collapsed.
fn child_node(c: &ChildDir, depth: usize) -> (n: TreeNode)
    ensures
        n.deep_view() == (c.path@, c.name@, depth as nat, false, c.has_children),
{
    TreeNode { path: c.path.clone(), name: c.name.clone(), depth, expanded: false, has_children: c.has_children }
}

/// The sort key of a node: its lower-case name.
fn tree_sort_key(n: &TreeNode) -> (k: SortKey)
    ensures
        key_of(k) == tree_key()(n.deep_view()),
{
    let ln = chars_of(to_lower(n.name.as_str()).as_str());
    SortKey { rank: 0, num: 0, first: ln, second: Vec::new() }
}

/// The nodes for the visible subdirectories, sorted by name.
fn sorted_children(listing: &Vec<ChildDir>, depth: usize) -> (kids: Vec<TreeNode>)
    ensures
        kids.deep_view() == sorted_with(tree_key(), child_nodes(listing.deep_view(), depth as nat)),
{
    let mut kids: Vec<TreeNode> = Vec::new();
    let mut i: usize = listing.len();
    let ghost l = listing.deep_view();
    assert(l.skip(l.len() as int) =~= Seq::<ChildView>::empty());
    let mut rev: Vec<TreeNode> = Vec::new();
    let mut j: usize = 0;
    assert(l.skip(0) =~= l);
    assert(rev.deep_view() =~= Seq::<NodeView>::empty());
    while j < listing.len()
        invariant
            j <= listing.len(),
            l == listing.deep_view(),
            rev.deep_view() + child_nodes(l.skip(j as int), depth as nat) == child_nodes(l, depth as nat),
        decreases listing.len() - j,
    {
        let ghost before = rev.deep_view();
        assert(l.skip(j as int)[0] == listing@[j as int].deep_view());
        assert(l.skip(j as int).drop_first() =~= l.skip(j + 1));
        if !is_hidden_name(listing[j].name.as_str()) {
            let n = child_node(&listing[j], depth);
            rev.push(n);
            assert(rev.deep_view() =~= before.push(n.deep_view()));
        }
        j += 1;
        assert(rev.deep_view() + child_nodes(l.skip(j as int), depth as nat) =~= before + child_nodes(l.skip(j - 1), depth as nat));
    }
    assert(l.skip(j as int) =~= Seq::<ChildView>::empty());
    assert(rev.deep_view() =~= child_nodes(l, depth as nat));
    let mut keys: Vec<SortKey> = Vec::new();
    let mut q: usize = 0;
    while q < rev.len()
        invariant
            q <= rev.len(),
            keys.len() == q,
            forall|w: int| 0 <= w < q ==> key_of(#[trigger] keys@[w]) == tree_key()(rev@[w].deep_view()),
        decreases rev.len() - q,
    {
        let kx = tree_sort_key(&rev[q]);
        keys.push(kx);
        q += 1;
    }
    sort_keyed(rev, keys, Ghost(tree_key()))
}

impl DirTree {
    /// The shown nodes as plain values.
    pub open spec fn view_nodes(&self) -> Seq<NodeView> {
        self.nodes.deep_view()
    }

    /// Where the subtree shown below node `parent_index` ends: the position
    /// to insert its children at.
    fn find_insert_pos(&self, parent_index: usize) -> (p: usize)
        requires
            parent_index < self.nodes.len(),
        ensures
            p == subtree_end(self.view_nodes(), parent_index as int),
    {
        let depth = self.nodes[parent_index].depth;
        let mut i = parent_index + 1;
        let ghost ns = self.view_nodes();
        assert(ns[parent_index as int].2 == depth);
        while i < self.nodes.len()
            invariant
                parent_index < i <= self.nodes.len(),
                ns == self.view_nodes(),
                ns[parent_index as int].2 == depth,
                end_from(ns, depth as nat, parent_index + 1) == end_from(ns, depth as nat, i as int),
            decreases self.nodes.len() - i,
        {
            assert(ns[i as int] == self.nodes@[i as int].deep_view());
            if self.nodes[i].depth <= depth {
                return i;
            }
            i += 1;
        }
        i
    }

    /// Expands node `index` with its subdirectories `listing` (as read from
    /// the file system), inserting the visible ones, sorted by name, where
    /// its shown subtree ends.
    pub fn expand_node(&mut self, index: usize, listing: Vec<ChildDir>)
        requires
            index < old(self).nodes.len() ==> old(self).nodes@[index as int].depth < usize::MAX,
        ensures
            final(self).view_nodes() == after_expand(old(self).view_nodes(), index as int, listing.deep_view()),
            final(self).cursor == old(self).cursor,
            final(self).scroll_offset == old(self).scroll_offset,
            final(self).visible_height == old(self).visible_height,
            final(self).root@ == old(self).root@,
    {
        if index >= self.nodes.len() {
            return;
        }
        let ghost orig = self.view_nodes();
        let pos = self.find_insert_pos(index);
        let depth = self.nodes[index].depth + 1;
        self.nodes[index].expanded = true;
        let ghost marked = orig.update(index as int, with_expanded(orig[index as int], true));
        assert(self.view_nodes() =~= marked);
        let kids = sorted_children(&listing, depth);
        let ghost kv = kids.deep_view();
        proof {
            lemma_end_from(orig, orig[index as int].2, index + 1);
        }
        let mut rest = kids;
        let mut i: usize = 0;
        let n = rest.len();
        while rest.len() > 0
            invariant
                i <= kv.len(),
                kv.len() == n,
                pos <= marked.len(),
                self.nodes@.len() == marked.len() + i,
                rest.deep_view() == kv.skip(i as int),
                self.view_nodes() == marked.take(pos as int) + kv.take(i as int) + marked.skip(pos as int),
                self.cursor == old(self).cursor,
                self.scroll_offset == old(self).scroll_offset,
                self.visible_height == old(self).visible_height,
                self.root@ == old(self).root@,
            decreases rest.len(),
        {
            let ghost rv = rest.deep_view();
            assert(rv[0] == rest@[0].deep_view());
            let x = rest.remove(0);
            assert(rest.deep_view() =~= rv.drop_first());
            let ghost before = self.view_nodes();
            let cur_len = self.nodes.len();
            assert(pos + i <= cur_len);
            self.nodes.insert(pos + i, x);
            i += 1;
            assert(self.view_nodes() =~= before.insert(pos + i - 1, x.deep_view()));
            assert(self.view_nodes() =~= marked.take(pos as int) + kv.take(i as int) + marked.skip(pos as int));
            assert(rest.deep_view() =~= kv.skip(i as int));
        }
        assert(kv.take(i as int) =~= kv);
    }

    /// Collapses node `index`, removing its shown subtree.
    pub fn collapse_node(&mut self, index: usize)
        ensures
            final(self).view_nodes() == after_collapse(old(self).view_nodes(), index as int),
            final(self).cursor == old(self).cursor,
            final(self).scroll_offset == old(self).scroll_offset,
            final(self).visible_height == old(self).visible_height,
            final(self).root@ == old(self).root@,
    {
        if index >= self.nodes.len() {
            return;
        }
        let ghost orig = self.view_nodes();
        let end = self.find_insert_pos(index);
        proof {
            lemma_end_from(orig, orig[index as int].2, index + 1);
        }
        self.nodes[index].expanded = false;
        let ghost marked = orig.update(index as int, with_expanded(orig[index as int], false));
        assert(self.view_nodes() =~= marked);
        let mut count = end - (index + 1);
        while count > 0
            invariant
                index < end <= marked.len(),
                count <= end - (index + 1),
                self.nodes@.len() == index + 1 + marked.len() - (end - count),
                self.view_nodes() == marked.take(index + 1) + marked.subrange(end - count, marked.len() as int),
                self.cursor == old(self).cursor,
                self.scroll_offset == old(self).scroll_offset,
                self.visible_height == old(self).visible_height,
                self.root@ == old(self).root@,
            decreases count,
        {
            let ghost before = self.view_nodes();
            self.nodes.remove(index + 1);
            assert(self.view_nodes() =~= before.remove(index + 1));
            count -= 1;
            assert(self.view_nodes() =~= marked.take(index + 1) + marked.subrange(end - count, marked.len() as int));
        }
        assert(marked.subrange(end as int, marked.len() as int) =~= marked.skip(end as int));
    }

    /// A tree at `root` (which has subdirectories when `has_children`),
    /// expanded one level with `listing`, the root's subdirectories.
    pub fn new(root: String, has_children: bool, listing: Vec<ChildDir>) -> (t: DirTree)
        ensures
            t.root@ == root@,
            t.view_nodes() == after_expand(seq![(root@, root@, 0nat, true, has_children)], 0, listing.deep_view()),
            t.cursor == 0,
            t.scroll_offset == 0,
            t.visible_height == 20,
    {
        let mut tree = DirTree { root, nodes: Vec::new(), cursor: 0, scroll_offset: 0, visible_height: 20 };
        let node = TreeNode {
            name: tree.root.clone(),
            path: tree.root.clone(),
            depth: 0,
            expanded: true,
            has_children,
        };
        tree.nodes.push(node);
        assert(tree.view_nodes() =~= seq![(tree.root@, tree.root@, 0nat, true, has_children)]);
        tree.expand_node(0, listing);
        tree
    }

    /// Expands or collapses the node under the cursor, when it has
    /// subdirectories; `listing` is its subdirectories, used to expand it.
    pub fn toggle_expand(&mut self, listing: Vec<ChildDir>)
        requires
            old(self).cursor < old(self).nodes.len() ==> old(self).nodes@[old(self).cursor as int].depth < usize::MAX,
        ensures
            ({
                let ns = old(self).view_nodes();
                let c = old(self).cursor as int;
                final(self).view_nodes() == if c < ns.len() && ns[c].4 {
                    if ns[c].3 { after_collapse(ns, c) } else { after_expand(ns, c, listing.deep_view()) }
                } else {
                    ns
                }
            }),
            final(self).cursor == old(self).cursor,
            final(self).scroll_offset == old(self).scroll_offset,
    {
        if self.cursor >= self.nodes.len() {
            return;
        }
        let expanded = self.nodes[self.cursor].expanded;
        let has_children = self.nodes[self.cursor].has_children;
        if has_children {
            if expanded {
                self.collapse_node(self.cursor);
            } else {
                self.expand_node(self.cursor, listing);
            }
        }
    }

    /// Expands the node under the cursor if it is collapsed; `listing` is
    /// its subdirectories.
    pub fn enter(&mut self, listing: Vec<ChildDir>)
        requires
            old(self).cursor < old(self).nodes.len() ==> old(self).nodes@[old(self).cursor as int].depth < usize::MAX,
        ensures
            ({
                let ns = old(self).view_nodes();
                let c = old(self).cursor as int;
                final(self).view_nodes() == if c < ns.len() && !ns[c].3 {
                    after_expand(ns, c, listing.deep_view())
                } else {
                    ns
                }
            }),
            final(self).cursor == old(self).cursor,
            final(self).scroll_offset == old(self).scroll_offset,
    {
        if self.cursor < self.nodes.len() && !self.nodes[self.cursor].expanded {
            self.expand_node(self.cursor, listing);
        }
    }

    /// Scrolls so that the cursor is on the page.
    fn ensure_visible(&mut self)
        requires
            old(self).scroll_offset + old(self).visible_height <= usize::MAX,
            old(self).visible_height > 0 || old(self).cursor < usize::MAX,
        ensures
            final(self).scroll_offset == visible_offset(old(self).cursor, old(self).scroll_offset, old(self).visible_height),
            final(self).cursor == old(self).cursor,
            final(self).view_nodes() == old(self).view_nodes(),
            *final(self) == (DirTree { cursor: final(self).cursor, scroll_offset: final(self).scroll_offset, ..*old(self) }),
            final(self).visible_height == old(self).visible_height,
    {
        if self.cursor < self.scroll_offset {
            self.scroll_offset = self.cursor;
        }
        if self.cursor >= self.scroll_offset + self.visible_height {
            self.scroll_offset = self.cursor - self.visible_height + 1;
        }
    }

    /// One node up.
    pub fn cursor_up(&mut self)
        requires
            old(self).cursor > 0 ==> old(self).scroll_offset + old(self).visible_height <= usize::MAX,
        ensures
            old(self).cursor > 0 ==> final(self).cursor == old(self).cursor - 1
                && final(self).scroll_offset == visible_offset(final(self).cursor, old(self).scroll_offset, old(self).visible_height),
            old(self).cursor == 0 ==> final(self).cursor == 0 && final(self).scroll_offset == old(self).scroll_offset,
            final(self).view_nodes() == old(self).view_nodes(),
            *final(self) == (DirTree { cursor: final(self).cursor, scroll_offset: final(self).scroll_offset, ..*old(self) }),
    {
        if self.cursor > 0 {
            self.cursor = self.cursor - 1;
            self.ensure_visible();
        }
    }

    /// One node down, if there is one.
    pub fn cursor_down(&mut self)
        requires
            old(self).cursor + 1 < old(self).nodes.len() ==> old(self).scroll_offset + old(self).visible_height <= usize::MAX,
            old(self).cursor + 1 < old(self).nodes.len() ==> (old(self).visible_height > 0 || old(self).cursor + 1 < usize::MAX),
        ensures
            old(self).cursor + 1 < old(self).nodes.len() ==> final(self).cursor == old(self).cursor + 1
                && final(self).scroll_offset == visible_offset(final(self).cursor, old(self).scroll_offset, old(self).visible_height),
            !(old(self).cursor + 1 < old(self).nodes.len()) ==> final(self).cursor == old(self).cursor
                && final(self).scroll_offset == old(self).scroll_offset,
            final(self).view_nodes() == old(self).view_nodes(),
            *final(self) == (DirTree { cursor: final(self).cursor, scroll_offset: final(self).scroll_offset, ..*old(self) }),
    {
        if self.cursor < usize::MAX && self.cursor + 1 < self.nodes.len() {
            self.cursor = self.cursor + 1;
            self.ensure_visible();
        }
    }

    /// A page (one node less than the screen, at least one) up.
    pub fn page_up(&mut self)
        requires
            old(self).scroll_offset + old(self).visible_height <= usize::MAX,
            old(self).visible_height > 0 || old(self).cursor < usize::MAX,
        ensures
            final(self).cursor == sat_sub(old(self).cursor as int, tree_page(old(self).visible_height)),
            final(self).scroll_offset == visible_offset(final(self).cursor, old(self).scroll_offset, old(self).visible_height),
            final(self).view_nodes() == old(self).view_nodes(),
            *final(self) == (DirTree { cursor: final(self).cursor, scroll_offset: final(self).scroll_offset, ..*old(self) }),
    {
        let page = if self.visible_height > 2 { self.visible_height - 1 } else { 1 };
        self.cursor = if self.cursor > page { self.cursor - page } else { 0 };
        self.ensure_visible();
    }

    /// A page down, stopping at the last node.
    pub fn page_down(&mut self)
        requires
            old(self).scroll_offset + old(self).visible_height <= usize::MAX,
            old(self).cursor + tree_page(old(self).visible_height) <= usize::MAX,
            old(self).visible_height > 0 || old(self).nodes.len() < usize::MAX,
        ensures
            ({
                let want = old(self).cursor + tree_page(old(self).visible_height);
                let last = sat_sub(old(self).nodes.len() as int, 1);
                final(self).cursor == if want < last { want } else { last }
            }),
            final(self).scroll_offset == visible_offset(final(self).cursor, old(self).scroll_offset, old(self).visible_height),
            final(self).view_nodes() == old(self).view_nodes(),
            *final(self) == (DirTree { cursor: final(self).cursor, scroll_offset: final(self).scroll_offset, ..*old(self) }),
    {
        let page = if self.visible_height > 2 { self.visible_height - 1 } else { 1 };
        let last = if self.nodes.len() > 0 { self.nodes.len() - 1 } else { 0 };
        let want = self.cursor + page;
        self.cursor = if want < last { want } else { last };
        self.ensure_visible();
    }

    /// The path of the node under the cursor.
    pub fn selected_path(&self) -> (p: Option<&str>)
        ensures
            match p {
                Some(s) => self.cursor < self.nodes.len() && s@ == self.nodes@[self.cursor as int].path@,
                None => self.cursor >= self.nodes.len(),
            },
    {
        if self.cursor < self.nodes.len() {
            Some(self.nodes[self.cursor].path.as_str())
        } else {
            None
        }
    }
}

} // verus!
