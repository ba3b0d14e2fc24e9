//! The workspace file tree shown in the right sidebar: which entries are
//! left out, how a node is made, and the order of a folder's children.
use crate::candidate::{
    lemma_text_sign_antisymmetric, lemma_text_sign_lt_trans, lemma_text_sign_zero, text_sign,
    text_sign_of,
};
use crate::text::{chars_of, has_prefix, str_is};
use vstd::prelude::*;

verus! {

broadcast use vstd::string::group_string_axioms;

/// A file or folder of the tree.
#[derive(Debug)]
pub struct FileTreeNode {
    /// The file or folder name.
    pub name: String,
    /// Its full path.
    pub path: String,
    /// Whether it is a folder.
    pub is_dir: bool,
    /// Its children (folders only).
    pub children: Option<Vec<FileTreeNode>>,
    /// A folder left unexpanded by the depth limit, to be loaded on demand.
    pub truncated: bool,
}

/// Entries the tree leaves out: hidden ones and common build or dependency
/// folders.
pub open spec fn is_ignored(name: Seq<char>) -> bool {
    ||| has_prefix(name, "."@)
    ||| name == "node_modules"@
    ||| name == "target"@
    ||| name == "__pycache__"@
    ||| name == ".git"@
}

/// Whether an entry named `name` is left out of the tree.
pub fn is_ignored_entry(name: &str) -> (r: bool)
    ensures
        r == is_ignored(name@),
{
    let v = chars_of(name);
    crate::text::starts_with(&v, &chars_of(".")) || str_is("node_modules", &v) || str_is(
        "target",
        &v,
    ) || str_is("__pycache__", &v) || str_is(".git", &v)
}

/// A child listed past the depth limit: no children, and a folder marked for
/// loading on demand.
pub fn shallow_node(name: String, path: String, is_dir: bool) -> (r: FileTreeNode)
    ensures
        r.name@ == name@,
        r.path@ == path@,
        r.is_dir == is_dir,
        r.children is None,
        r.truncated == is_dir,
{
    FileTreeNode { name, path, is_dir, children: None, truncated: is_dir }
}

// ---------------------------------------------------------------------------
// The order of children
// ---------------------------------------------------------------------------
/// The order of children as a sign: folders before files, then by name.
pub open spec fn node_sign(a: FileTreeNode, b: FileTreeNode) -> int {
    if a.is_dir && !b.is_dir {
        -1
    } else if !a.is_dir && b.is_dir {
        1
    } else {
        text_sign(a.name@, b.name@)
    }
}

/// `x` inserted into `sorted` after every node that does not order after it.
pub open spec fn insert_node(sorted: Seq<FileTreeNode>, x: FileTreeNode) -> Seq<FileTreeNode>
    decreases sorted.len(),
{
    if sorted.len() == 0 {
        seq![x]
    } else if node_sign(sorted.last(), x) > 0 {
        insert_node(sorted.drop_last(), x).push(sorted.last())
    } else {
        sorted.push(x)
    }
}

/// The stable sort of `s` by `node_sign`.
pub open spec fn sorted_nodes(s: Seq<FileTreeNode>) -> Seq<FileTreeNode>
    decreases s.len(),
{
    if s.len() == 0 {
        s
    } else {
        insert_node(sorted_nodes(s.drop_last()), s.last())
    }
}

fn node_sign_of(a: &FileTreeNode, b: &FileTreeNode) -> (s: i8)
    ensures
        s as int == node_sign(*a, *b),
{
    if a.is_dir && !b.is_dir {
        -1
    } else if !a.is_dir && b.is_dir {
        1
    } else {
        text_sign_of(&chars_of(a.name.as_str()), &chars_of(b.name.as_str()))
    }
}

proof fn lemma_insert_node_at(pre: Seq<FileTreeNode>, x: FileTreeNode, j: int)
    requires
        0 <= j <= pre.len(),
        j == 0 || node_sign(pre[j - 1], x) <= 0,
        forall|k: int| j <= k < pre.len() ==> node_sign(#[trigger] pre[k], x) > 0,
    ensures
        insert_node(pre, x) == pre.insert(j, x),
    decreases pre.len(),
{
    if pre.len() == 0 {
        assert(pre.insert(j, x) =~= seq![x]);
    } else if j == pre.len() {
        assert(pre.insert(j, x) =~= pre.push(x));
    } else {
        let d = pre.drop_last();
        assert forall|k: int| j <= k < d.len() implies node_sign(#[trigger] d[k], x) > 0 by {
            assert(d[k] == pre[k]);
        }
        lemma_insert_node_at(d, x, j);
        assert(d.insert(j, x).push(pre.last()) =~= pre.insert(j, x));
    }
}

/// Sort children: folders first, then files, each by name. The sort is
/// stable.
pub fn sort_tree_nodes(nodes: &mut Vec<FileTreeNode>)
    ensures
        final(nodes)@ == sorted_nodes(old(nodes)@),
{
    let ghost input = nodes@;
    let n = nodes.len();
    if n == 0 {
        return;
    }
    let mut i: usize = 1;
    assert(input.subrange(0, 1).drop_last() =~= input.subrange(0, 0));
    assert(sorted_nodes(input.subrange(0, 0)) == input.subrange(0, 0));
    assert(input.subrange(0, 1).last() == input[0]);
    assert(insert_node(input.subrange(0, 0), input[0]) == seq![input[0]]);
    assert(nodes@.subrange(0, 1) =~= seq![input[0]]);
    while i < n
        invariant
            1 <= i <= n,
            n == nodes@.len(),
            input.len() == n,
            nodes@.subrange(0, i as int) == sorted_nodes(input.subrange(0, i as int)),
            nodes@.subrange(i as int, n as int) == input.subrange(i as int, n as int),
        decreases n - i,
    {
        let ghost pre = sorted_nodes(input.subrange(0, i as int));
        let ghost x = input[i as int];
        let ghost rest = input.subrange(i + 1, n as int);
        assert(nodes@[i as int] == x) by {
            assert(nodes@.subrange(i as int, n as int)[0] == input.subrange(i as int, n as int)[0]);
        }
        let mut j: usize = i;
        assert(nodes@ =~= pre.insert(i as int, x) + rest) by {
            assert(nodes@.subrange(i + 1, n as int) =~= nodes@.subrange(i as int, n as int).drop_first());
            assert(input.subrange(i + 1, n as int) =~= input.subrange(i as int, n as int).drop_first());
            assert(nodes@ =~= nodes@.subrange(0, i as int) + seq![nodes@[i as int]] + nodes@.subrange(
                i + 1,
                n as int,
            ));
        }
        while j > 0 && node_sign_of(&nodes[j - 1], &nodes[j]) > 0
            invariant
                0 <= j <= i < n,
                n == nodes@.len(),
                pre.len() == i,
                nodes@ == pre.insert(j as int, x) + rest,
                forall|k: int| j <= k < i ==> node_sign(#[trigger] pre[k], x) > 0,
            decreases j,
        {
            assert(nodes@[j - 1] == pre[j - 1]);
            assert(nodes@[j as int] == x);
            nodes.as_mut_slice().swap(j - 1, j);
            j = j - 1;
            assert(nodes@ =~= pre.insert(j as int, x) + rest);
        }
        proof {
            if j > 0 {
                assert(nodes@[j - 1] == pre[j - 1]);
                assert(nodes@[j as int] == x);
            }
            lemma_insert_node_at(pre, x, j as int);
            assert(input.subrange(0, i + 1 as int).drop_last() =~= input.subrange(0, i as int));
            assert(input.subrange(0, i + 1 as int).last() == x);
            assert(nodes@.subrange(0, i + 1 as int) =~= pre.insert(j as int, x));
            assert(nodes@.subrange(i + 1 as int, n as int) =~= rest);
        }
        i = i + 1;
    }
    assert(nodes@.subrange(0, n as int) =~= nodes@);
    assert(input.subrange(0, n as int) =~= input);
}

/// A fully built node: a folder has its children (sorted), a file none.
pub fn tree_node(name: String, path: String, is_dir: bool, children: Vec<FileTreeNode>) -> (r:
    FileTreeNode)
    ensures
        r.name@ == name@,
        r.path@ == path@,
        r.is_dir == is_dir,
        !r.truncated,
        is_dir ==> (r.children matches Some(c) && c@ == sorted_nodes(children@)),
        !is_dir ==> r.children is None,
{
    if is_dir {
        let mut children = children;
        sort_tree_nodes(&mut children);
        FileTreeNode { name, path, is_dir, children: Some(children), truncated: false }
    } else {
        FileTreeNode { name, path, is_dir, children: None, truncated: false }
    }
}

// ---------------------------------------------------------------------------
// Building the tree from a listing of the file system
// ---------------------------------------------------------------------------
/// What was read of one file system entry: its name and path, whether it is
/// a folder (or why its metadata could not be read), and, for a folder that
/// is expanded, its listing in directory order.
#[derive(Debug)]
pub struct FsEntry {
    pub name: String,
    pub path: String,
    pub meta: Result<bool, String>,
    pub entries: Vec<FsEntry>,
}

/// The value of a listing.
pub struct FsView {
    pub name: Seq<char>,
    pub path: Seq<char>,
    pub meta: Result<bool, Seq<char>>,
    pub entries: Seq<FsView>,
}

pub open spec fn fs_view(e: FsEntry) -> FsView
    decreases e,
{
    FsView {
        name: e.name@,
        path: e.path@,
        meta: match e.meta {
            Ok(b) => Ok(b),
            Err(m) => Err(m@),
        },
        entries: Seq::new(
            e.entries@.len(),
            |i: int|
                if 0 <= i < e.entries@.len() {
                    fs_view(e.entries@[i])
                } else {
                    FsView { name: Seq::empty(), path: Seq::empty(), meta: Ok(false), entries: Seq::empty() }
                },
        ),
    }
}

/// The value of a tree node.
pub struct NodeView {
    pub name: Seq<char>,
    pub path: Seq<char>,
    pub is_dir: bool,
    pub children: Option<Seq<NodeView>>,
    pub truncated: bool,
}

pub open spec fn node_view(n: FileTreeNode) -> NodeView
    decreases n,
{
    NodeView {
        name: n.name@,
        path: n.path@,
        is_dir: n.is_dir,
        children: match n.children {
            Some(c) => Some(
                Seq::new(
                    c@.len(),
                    |i: int|
                        if 0 <= i < c@.len() {
                            node_view(c@[i])
                        } else {
                            NodeView {
                                name: Seq::empty(),
                                path: Seq::empty(),
                                is_dir: false,
                                children: None,
                                truncated: false,
                            }
                        },
                ),
            ),
            None => None,
        },
        truncated: n.truncated,
    }
}

pub open spec fn node_views(s: Seq<FileTreeNode>) -> Seq<NodeView> {
    Seq::new(s.len(), |i: int| node_view(s[i]))
}

proof fn lemma_children_view(c: Vec<FileTreeNode>, n: FileTreeNode)
    requires
        n.children == Some(c),
    ensures
        node_view(n).children == Some(node_views(c@)),
{
    if let Some(v) = node_view(n).children {
        assert(v =~= node_views(c@));
    }
}

/// The order of children on their values.
pub open spec fn view_sign(a: NodeView, b: NodeView) -> int {
    if a.is_dir && !b.is_dir {
        -1
    } else if !a.is_dir && b.is_dir {
        1
    } else {
        text_sign(a.name, b.name)
    }
}

pub open spec fn insert_view(sorted: Seq<NodeView>, x: NodeView) -> Seq<NodeView>
    decreases sorted.len(),
{
    if sorted.len() == 0 {
        seq![x]
    } else if view_sign(sorted.last(), x) > 0 {
        insert_view(sorted.drop_last(), x).push(sorted.last())
    } else {
        sorted.push(x)
    }
}

/// The stable sort of node values: folders first, then by name.
pub open spec fn sorted_views(s: Seq<NodeView>) -> Seq<NodeView>
    decreases s.len(),
{
    if s.len() == 0 {
        s
    } else {
        insert_view(sorted_views(s.drop_last()), s.last())
    }
}

proof fn lemma_insert_views(s: Seq<FileTreeNode>, x: FileTreeNode)
    ensures
        node_views(insert_node(s, x)) == insert_view(node_views(s), node_view(x)),
    decreases s.len(),
{
    if s.len() == 0 {
        assert(node_views(seq![x]) =~= seq![node_view(x)]);
    } else {
        let d = s.drop_last();
        assert(node_views(s).drop_last() =~= node_views(d));
        assert(node_views(s).last() == node_view(s.last()));
        if node_sign(s.last(), x) > 0 {
            lemma_insert_views(d, x);
            assert(node_views(insert_node(d, x).push(s.last())) =~= node_views(insert_node(d, x)).push(
                node_view(s.last()),
            ));
        } else {
            assert(node_views(s.push(x)) =~= node_views(s).push(node_view(x)));
        }
    }
}

/// Sorting commutes with taking values.
proof fn lemma_sorted_views(s: Seq<FileTreeNode>)
    ensures
        node_views(sorted_nodes(s)) == sorted_views(node_views(s)),
    decreases s.len(),
{
    if s.len() == 0 {
        assert(node_views(s) =~= Seq::<NodeView>::empty());
    } else {
        let d = s.drop_last();
        lemma_sorted_views(d);
        lemma_insert_views(sorted_nodes(d), s.last());
        assert(node_views(s).drop_last() =~= node_views(d));
        assert(node_views(s).last() == node_view(s.last()));
    }
}

/// The node of a child listed past the depth limit.
pub open spec fn shallow_view(e: FsView) -> NodeView {
    let is_dir = e.meta == Ok::<bool, Seq<char>>(true);
    NodeView { name: e.name, path: e.path, is_dir, children: None, truncated: is_dir }
}

/// The tree of `e`, expanded `depth` levels below it: `None` when its
/// metadata could not be read. A folder lists its entries that are not
/// ignored; past the depth limit each is a shallow node, within it each is
/// its own tree (left out when that cannot be read); the children are sorted
/// folders first, then by name.
pub open spec fn tree_of(e: FsView, depth: nat) -> Option<NodeView>
    decreases depth, 1int, 0int,
{
    match e.meta {
        Err(_) => None,
        Ok(is_dir) => Some(
            NodeView {
                name: e.name,
                path: e.path,
                is_dir,
                children: if is_dir {
                    Some(sorted_views(tree_children(e.entries, depth)))
                } else {
                    None
                },
                truncated: false,
            },
        ),
    }
}

/// The (unsorted) children built from the listing `entries`.
pub open spec fn tree_children(entries: Seq<FsView>, depth: nat) -> Seq<NodeView>
    decreases depth, 0int, entries.len(),
{
    if entries.len() == 0 {
        Seq::empty()
    } else {
        let k = tree_children(entries.drop_last(), depth);
        let e = entries.last();
        if is_ignored(e.name) {
            k
        } else if depth == 0 {
            k.push(shallow_view(e))
        } else {
            match tree_of(e, (depth - 1) as nat) {
                Some(n) => k.push(n),
                None => k,
            }
        }
    }
}

proof fn lemma_fs_entries(e: FsEntry)
    ensures
        fs_view(e).entries == Seq::new(e.entries@.len(), |i: int| fs_view(e.entries@[i])),
{
    assert(fs_view(e).entries =~= Seq::new(e.entries@.len(), |i: int| fs_view(e.entries@[i])));
}

/// Build the file tree of `e`, expanding `remaining_depth` levels below it.
/// Fails with the metadata error when `e` could not be read.
pub fn build_file_tree(e: &FsEntry, remaining_depth: u32) -> (r: Result<FileTreeNode, String>)
    ensures
        match tree_of(fs_view(*e), remaining_depth as nat) {
            Some(v) => r matches Ok(n) && node_view(n) == v,
            None => r matches Err(m) && e.meta matches Err(x) && m@ == "读取 "@ + e.path@ + " 失败: "@
                + x@,
        },
    decreases remaining_depth,
{
    let is_dir = match &e.meta {
        Err(x) => {
            let mut m = String::from_str("读取 ");
            crate::text::push_chars(&mut m, &chars_of(e.path.as_str()));
            crate::text::push_chars(&mut m, &chars_of(" 失败: "));
            crate::text::push_chars(&mut m, &chars_of(x.as_str()));
            return Err(m);
        },
        Ok(b) => *b,
    };
    let ghost ev = fs_view(*e);
    proof {
        lemma_fs_entries(*e);
    }
    let mut children: Vec<FileTreeNode> = Vec::new();
    if is_dir {
        let mut i: usize = 0;
        while i < e.entries.len()
            invariant
                i <= e.entries@.len(),
                ev == fs_view(*e),
                ev.entries == Seq::new(e.entries@.len(), |k: int| fs_view(e.entries@[k])),
                node_views(children@) == tree_children(ev.entries.take(i as int), remaining_depth as nat),
            decreases e.entries.len() - i,
        {
            let c = &e.entries[i];
            let ghost cv = fs_view(*c);
            assert(ev.entries.take(i + 1).drop_last() =~= ev.entries.take(i as int));
            assert(ev.entries.take(i + 1).last() == cv);
            let ghost before = children@;
            if !is_ignored_entry(c.name.as_str()) {
                if remaining_depth == 0 {
                    let child_is_dir = match &c.meta {
                        Ok(b) => *b,
                        Err(_) => false,
                    };
                    let node = shallow_node(c.name.clone(), c.path.clone(), child_is_dir);
                    let ghost nv = node_view(node);
                    children.push(node);
                    assert(node_views(children@) =~= node_views(before).push(nv));
                } else {
                    match build_file_tree(c, remaining_depth - 1) {
                        Ok(node) => {
                            let ghost nv = node_view(node);
                            children.push(node);
                            assert(node_views(children@) =~= node_views(before).push(nv));
                        },
                        Err(_) => {},
                    }
                }
            }
            i = i + 1;
        }
        assert(ev.entries.take(e.entries@.len() as int) =~= ev.entries);
    } else {
        assert(node_views(children@) =~= Seq::<NodeView>::empty());
    }
    let ghost built = children@;
    let node = tree_node(e.name.clone(), e.path.clone(), is_dir, children);
    proof {
        if is_dir {
            let c = node.children->0;
            lemma_children_view(c, node);
            lemma_sorted_views(built);
        }
    }
    Ok(node)
}

// ---------------------------------------------------------------------------
// Laws of the order
// ---------------------------------------------------------------------------
proof fn lemma_insert_node_multiset(s: Seq<FileTreeNode>, x: FileTreeNode)
    ensures
        insert_node(s, x).to_multiset() == s.to_multiset().insert(x),
        insert_node(s, x).len() == s.len() + 1,
    decreases s.len(),
{
    broadcast use vstd::seq_lib::group_to_multiset_ensures;

    if s.len() == 0 {
        assert(seq![x] =~= Seq::<FileTreeNode>::empty().push(x));
    } else {
        let d = s.drop_last();
        assert(d.push(s.last()) =~= s);
        if node_sign(s.last(), x) > 0 {
            lemma_insert_node_multiset(d, x);
        }
    }
}

/// Sorting keeps exactly the children it was given.
pub proof fn sort_nodes_is_permutation(s: Seq<FileTreeNode>)
    ensures
        sorted_nodes(s).to_multiset() == s.to_multiset(),
        sorted_nodes(s).len() == s.len(),
    decreases s.len(),
{
    broadcast use vstd::seq_lib::group_to_multiset_ensures;

    if s.len() > 0 {
        let d = s.drop_last();
        sort_nodes_is_permutation(d);
        lemma_insert_node_multiset(sorted_nodes(d), s.last());
        assert(d.push(s.last()) =~= s);
    }
}

/// No child orders after its successor.
pub open spec fn is_tree_ordered(s: Seq<FileTreeNode>) -> bool {
    forall|i: int| 0 <= i < s.len() - 1 ==> node_sign(#[trigger] s[i], s[i + 1]) <= 0
}

proof fn lemma_insert_node_keeps_order(s: Seq<FileTreeNode>, x: FileTreeNode)
    requires
        is_tree_ordered(s),
    ensures
        is_tree_ordered(insert_node(s, x)),
        insert_node(s, x).len() == s.len() + 1,
        s.len() > 0 ==> (insert_node(s, x).last() == s.last() || insert_node(s, x).last() == x),
        s.len() > 0 && node_sign(s.last(), x) > 0 ==> insert_node(s, x).last() == s.last(),
    decreases s.len(),
{
    if s.len() == 0 {
    } else if node_sign(s.last(), x) > 0 {
        let d = s.drop_last();
        assert(is_tree_ordered(d)) by {
            assert forall|i: int| 0 <= i < d.len() - 1 implies node_sign(#[trigger] d[i], d[i + 1])
                <= 0 by {
                assert(d[i] == s[i] && d[i + 1] == s[i + 1]);
            }
        }
        lemma_insert_node_keeps_order(d, x);
        lemma_insert_node_multiset(d, x);
        let r = insert_node(d, x);
        lemma_text_sign_antisymmetric(s.last().name@, x.name@);
        if d.len() > 0 {
            assert(node_sign(d.last(), s.last()) <= 0) by {
                assert(d.last() == s[s.len() - 2]);
            }
        }
        assert forall|i: int| 0 <= i < r.push(s.last()).len() - 1 implies node_sign(
            #[trigger] r.push(s.last())[i],
            r.push(s.last())[i + 1],
        ) <= 0 by {
            if i < r.len() - 1 {
                assert(r.push(s.last())[i] == r[i] && r.push(s.last())[i + 1] == r[i + 1]);
            }
        }
    } else {
        assert forall|i: int| 0 <= i < s.push(x).len() - 1 implies node_sign(
            #[trigger] s.push(x)[i],
            s.push(x)[i + 1],
        ) <= 0 by {
            if i < s.len() - 1 {
                assert(s.push(x)[i] == s[i] && s.push(x)[i + 1] == s[i + 1]);
            }
        }
    }
}

/// Sorted children never have one ordered after its successor.
pub proof fn sort_nodes_ordered(s: Seq<FileTreeNode>)
    ensures
        is_tree_ordered(sorted_nodes(s)),
    decreases s.len(),
{
    if s.len() > 0 {
        sort_nodes_ordered(s.drop_last());
        lemma_insert_node_keeps_order(sorted_nodes(s.drop_last()), s.last());
    }
}

proof fn lemma_dirs_chain(s: Seq<FileTreeNode>, i: int, k: int)
    requires
        is_tree_ordered(s),
        0 <= i < k < s.len(),
        s[k].is_dir,
    ensures
        s[i].is_dir,
    decreases k - i,
{
    assert(node_sign(s[k - 1], s[k]) <= 0);
    if k - 1 > i {
        lemma_dirs_chain(s, i, k - 1);
    }
}

/// In ordered children every folder comes before every file.
pub proof fn folders_before_files(s: Seq<FileTreeNode>)
    requires
        is_tree_ordered(s),
    ensures
        forall|i: int, k: int| 0 <= i < k < s.len() && #[trigger] s[k].is_dir ==> #[trigger] s[i].is_dir,
{
    assert forall|i: int, k: int| 0 <= i < k < s.len() && #[trigger] s[k].is_dir implies #[trigger] s[i].is_dir by {
        lemma_dirs_chain(s, i, k);
    }
}

// ---------------------------------------------------------------------------
// Laws of the tree
// ---------------------------------------------------------------------------
/// No child value orders after its successor.
pub open spec fn views_ordered(s: Seq<NodeView>) -> bool {
    forall|i: int| 0 <= i < s.len() - 1 ==> view_sign(#[trigger] s[i], s[i + 1]) <= 0
}

proof fn lemma_view_sign_trans(a: NodeView, b: NodeView, c: NodeView)
    requires
        view_sign(a, b) <= 0,
        view_sign(b, c) <= 0,
    ensures
        view_sign(a, c) <= 0,
{
    lemma_text_sign_zero(a.name, b.name);
    lemma_text_sign_zero(b.name, c.name);
    if text_sign(a.name, b.name) < 0 && text_sign(b.name, c.name) < 0 {
        lemma_text_sign_lt_trans(a.name, b.name, c.name);
    }
}

proof fn lemma_insert_view_facts(s: Seq<NodeView>, x: NodeView)
    requires
        views_ordered(s),
    ensures
        views_ordered(insert_view(s, x)),
        insert_view(s, x).len() == s.len() + 1,
        insert_view(s, x).to_multiset() == s.to_multiset().insert(x),
        s.len() > 0 ==> (insert_view(s, x).last() == s.last() || insert_view(s, x).last() == x),
        s.len() > 0 && view_sign(s.last(), x) > 0 ==> insert_view(s, x).last() == s.last(),
    decreases s.len(),
{
    broadcast use vstd::seq_lib::group_to_multiset_ensures;

    if s.len() == 0 {
        assert(seq![x] =~= Seq::<NodeView>::empty().push(x));
    } else if view_sign(s.last(), x) > 0 {
        let d = s.drop_last();
        assert(d.push(s.last()) =~= s);
        assert(views_ordered(d)) by {
            assert forall|i: int| 0 <= i < d.len() - 1 implies view_sign(#[trigger] d[i], d[i + 1])
                <= 0 by {
                assert(d[i] == s[i] && d[i + 1] == s[i + 1]);
            }
        }
        lemma_insert_view_facts(d, x);
        let r = insert_view(d, x);
        lemma_text_sign_antisymmetric(s.last().name, x.name);
        if d.len() > 0 {
            assert(view_sign(d.last(), s.last()) <= 0) by {
                assert(d.last() == s[s.len() - 2]);
            }
        }
        assert forall|i: int| 0 <= i < r.push(s.last()).len() - 1 implies view_sign(
            #[trigger] r.push(s.last())[i],
            r.push(s.last())[i + 1],
        ) <= 0 by {
            if i < r.len() - 1 {
                assert(r.push(s.last())[i] == r[i] && r.push(s.last())[i + 1] == r[i + 1]);
            }
        }
    } else {
        assert(s.drop_last().push(s.last()) =~= s);
        assert forall|i: int| 0 <= i < s.push(x).len() - 1 implies view_sign(
            #[trigger] s.push(x)[i],
            s.push(x)[i + 1],
        ) <= 0 by {
            if i < s.len() - 1 {
                assert(s.push(x)[i] == s[i] && s.push(x)[i + 1] == s[i + 1]);
            }
        }
    }
}

proof fn lemma_sorted_view_facts(s: Seq<NodeView>)
    ensures
        views_ordered(sorted_views(s)),
        sorted_views(s).len() == s.len(),
        sorted_views(s).to_multiset() == s.to_multiset(),
    decreases s.len(),
{
    broadcast use vstd::seq_lib::group_to_multiset_ensures;

    if s.len() > 0 {
        let d = s.drop_last();
        lemma_sorted_view_facts(d);
        lemma_insert_view_facts(sorted_views(d), s.last());
        assert(d.push(s.last()) =~= s);
    } else {
        assert(views_ordered(s));
    }
}

proof fn lemma_views_pair(s: Seq<NodeView>, i: int, j: int)
    requires
        views_ordered(s),
        0 <= i < j < s.len(),
    ensures
        view_sign(s[i], s[j]) <= 0,
    decreases j - i,
{
    if j > i + 1 {
        lemma_views_pair(s, i, j - 1);
        assert(view_sign(s[j - 1], s[j]) <= 0);
        lemma_view_sign_trans(s[i], s[j - 1], s[j]);
    }
}

/// The child of the tree that the entry `f` gives at `depth`, if any.
pub open spec fn child_of(f: FsView, depth: nat) -> Option<NodeView> {
    if depth == 0 {
        Some(shallow_view(f))
    } else {
        tree_of(f, (depth - 1) as nat)
    }
}

proof fn lemma_tree_children_entries(entries: Seq<FsView>, depth: nat)
    ensures
        forall|v: NodeView|
            tree_children(entries, depth).contains(v) ==> !is_ignored(v.name) && exists|j: int|
                0 <= j < entries.len() && child_of(#[trigger] entries[j], depth) == Some(v),
        forall|j: int|
            0 <= j < entries.len() && !is_ignored(#[trigger] entries[j].name) ==> (child_of(entries[j], depth)
                matches Some(c) ==> tree_children(entries, depth).contains(c)),
    decreases entries.len(),
{
    if entries.len() > 0 {
        let d = entries.drop_last();
        let e = entries.last();
        lemma_tree_children_entries(d, depth);
        let k = tree_children(d, depth);
        let t = tree_children(entries, depth);
        assert forall|v: NodeView| t.contains(v) implies !is_ignored(v.name) && exists|j: int|
            0 <= j < entries.len() && child_of(#[trigger] entries[j], depth) == Some(v) by {
            let i = choose|i: int| 0 <= i < t.len() && t[i] == v;
            if i < k.len() {
                assert(k.contains(v));
                let j = choose|j: int| 0 <= j < d.len() && child_of(#[trigger] d[j], depth) == Some(v);
                assert(entries[j] == d[j]);
            } else {
                assert(entries[entries.len() - 1] == e);
                if depth > 0 {
                    assert(tree_of(e, (depth - 1) as nat) == Some(v));
                }
            }
        }
        assert forall|j: int|
            0 <= j < entries.len() && !is_ignored(#[trigger] entries[j].name) implies (child_of(
                entries[j],
                depth,
            ) matches Some(c) ==> t.contains(c)) by {
            if let Some(c) = child_of(entries[j], depth) {
                if j < d.len() {
                    assert(d[j] == entries[j]);
                    assert(k.contains(c));
                    let i = choose|i: int| 0 <= i < k.len() && k[i] == c;
                    if t.len() > k.len() {
                        assert(t[i] == c);
                    } else {
                        assert(t == k);
                    }
                } else {
                    assert(entries[j] == e);
                    assert(t[t.len() - 1] == c);
                }
            }
        }
    }
}

/// The children of a folder in the tree: each comes from a listed entry
/// whose name is not ignored, and every such entry gives one (a shallow node
/// at depth 0, below that its own tree when it can be read); folders come
/// before files, and each group is ordered by name.
pub proof fn folder_children_filtered_and_ordered(e: FsView, depth: nat)
    requires
        e.meta == Ok::<bool, Seq<char>>(true),
    ensures
        tree_of(e, depth) matches Some(n) && n.children matches Some(cs) && {
            &&& forall|v: NodeView|
                cs.contains(v) ==> !is_ignored(v.name) && exists|j: int|
                    0 <= j < e.entries.len() && child_of(#[trigger] e.entries[j], depth) == Some(v)
            &&& forall|j: int|
                0 <= j < e.entries.len() && !is_ignored(#[trigger] e.entries[j].name) ==> (child_of(
                    e.entries[j],
                    depth,
                ) matches Some(c) ==> cs.contains(c))
            &&& forall|i: int, k: int| 0 <= i < k < cs.len() ==> view_sign(#[trigger] cs[i], #[trigger] cs[k]) <= 0
        },
{
    broadcast use vstd::seq_lib::group_to_multiset_ensures;

    let raw = tree_children(e.entries, depth);
    lemma_tree_children_entries(e.entries, depth);
    lemma_sorted_view_facts(raw);
    let cs = sorted_views(raw);
    assert forall|v: NodeView| cs.contains(v) <==> raw.contains(v) by {
        assert(cs.to_multiset().count(v) == raw.to_multiset().count(v));
    }
    assert forall|i: int, k: int| 0 <= i < k < cs.len() implies view_sign(#[trigger] cs[i], #[trigger] cs[k]) <= 0 by {
        lemma_views_pair(cs, i, k);
    }
}

} // verus!
