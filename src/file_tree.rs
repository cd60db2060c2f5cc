//! The file tree: directories and files under an opened directory, held in
//! an arena. A node owns its children through their indices; the parent
//! index only leads back up. Children are loaded lazily, per directory.
use vstd::prelude::*;

use crate::paths::{compare_paths, display_name, lemma_cmp_eq, lemma_cmp_trans, name_of, relative_to, seq_cmp, strip_root};

verus! {

/// A child of a directory, keyed as the tree orders children: directories
/// (order 1) before files (order 2), then by path.
#[derive(Debug)]
pub struct ChildRef {
    pub order: usize,
    pub path: String,
    pub index: usize,
}

pub open spec fn ref_lt(a: ChildRef, b: ChildRef) -> bool {
    a.order < b.order || (a.order == b.order && seq_cmp(a.path@, b.path@) < 0)
}

pub open spec fn same_key(a: ChildRef, b: ChildRef) -> bool {
    a.order == b.order && a.path@ == b.path@
}

/// Children in strictly increasing key order, so no key twice.
pub open spec fn sorted_refs(s: Seq<ChildRef>) -> bool {
    forall|i: int, j: int| 0 <= i < j < s.len() ==> ref_lt(#[trigger] s[i], #[trigger] s[j])
}

pub open spec fn has_key(s: Seq<ChildRef>, c: ChildRef) -> bool {
    exists|i: int| 0 <= i < s.len() && same_key(#[trigger] s[i], c)
}

proof fn lemma_ref_trans(a: ChildRef, b: ChildRef, c: ChildRef)
    requires
        ref_lt(a, b),
        ref_lt(b, c),
    ensures
        ref_lt(a, c),
{
    if a.order == b.order && b.order == c.order {
        lemma_cmp_trans(a.path@, b.path@, c.path@);
    }
}

proof fn lemma_ref_total(a: ChildRef, b: ChildRef)
    ensures
        ref_lt(a, b) || ref_lt(b, a) || same_key(a, b),
        !(ref_lt(a, b) && ref_lt(b, a)),
        ref_lt(a, b) ==> !same_key(a, b),
{
    lemma_cmp_eq(a.path@, b.path@);
}

fn ref_less(a: &ChildRef, b: &ChildRef) -> (r: bool)
    ensures
        r == ref_lt(*a, *b),
{
    a.order < b.order || (a.order == b.order && compare_paths(a.path.as_str(), b.path.as_str()) < 0)
}

fn ref_same_key(a: &ChildRef, b: &ChildRef) -> (r: bool)
    ensures
        r == same_key(*a, *b),
{
    a.order == b.order && a.path == b.path
}

/// Adds `child` to a sorted set of children at its place; a child with the
/// same key is kept instead.
pub fn insert_child(children: &mut Vec<ChildRef>, child: ChildRef)
    requires
        sorted_refs(old(children)@),
    ensures
        sorted_refs(final(children)@),
        has_key(old(children)@, child) ==> final(children)@ == old(children)@,
        !has_key(old(children)@, child) ==> exists|k: int|
            0 <= k <= old(children)@.len() && final(children)@ == old(children)@.insert(k, child),
{
    let n = children.len();
    let mut k: usize = 0;
    while k < n && ref_less(&children[k], &child)
        invariant
            n == children@.len(),
            k <= n,
            forall|j: int| 0 <= j < k ==> ref_lt(#[trigger] children@[j], child),
        decreases n - k,
    {
        k = k + 1;
    }
    if k < n && ref_same_key(&children[k], &child) {
        return;
    }
    let ghost before = children@;
    proof {
        if k < n {
            lemma_ref_total(before[k as int], child);
        }
        assert forall|j: int| k <= j < n implies ref_lt(child, #[trigger] before[j]) by {
            if j > k {
                lemma_ref_trans(child, before[k as int], before[j]);
            }
        }
        assert(!has_key(before, child)) by {
            if has_key(before, child) {
                let i = choose|i: int| 0 <= i < before.len() && same_key(#[trigger] before[i], child);
                lemma_ref_total(before[i], child);
                if i < k {
                } else {
                    assert(ref_lt(child, before[i]));
                }
            }
        }
    }
    children.insert(k, child);
    proof {
        let after = children@;
        assert(after == before.insert(k as int, child));
        assert forall|i: int, j: int| 0 <= i < j < after.len() implies ref_lt(#[trigger] after[i], #[trigger] after[j]) by {
            if i < k && j == k {
            } else if i < k && j > k {
                assert(after[j] == before[j - 1]);
            } else if i == k {
                assert(after[j] == before[j - 1]);
            } else if i > k {
                assert(after[i] == before[i - 1]);
                assert(after[j] == before[j - 1]);
            }
        }
    }
}

/// The entries of a tree node's context menu.
#[derive(Debug, Clone, Copy, PartialEq, Eq, Structural)]
pub enum ContextMenu {
    Separator,
    Item(ContextMenuAction),
}

#[derive(Debug, Clone, Copy, PartialEq, Eq, Structural)]
pub enum ContextMenuAction {
    CopyFullPath,
    CopyRelativePath,
    OpenInNative,
}

/// The entries of a tree node's context menu, in order.
pub fn tree_context_menu() -> (r: Vec<ContextMenu>)
    ensures
        r@ == seq![
            ContextMenu::Item(ContextMenuAction::OpenInNative),
            ContextMenu::Separator,
            ContextMenu::Item(ContextMenuAction::CopyRelativePath),
            ContextMenu::Item(ContextMenuAction::CopyFullPath),
        ],
{
    let mut r: Vec<ContextMenu> = Vec::new();
    r.push(ContextMenu::Item(ContextMenuAction::OpenInNative));
    r.push(ContextMenu::Separator);
    r.push(ContextMenu::Item(ContextMenuAction::CopyRelativePath));
    r.push(ContextMenu::Item(ContextMenuAction::CopyFullPath));
    assert(r@ =~= seq![
        ContextMenu::Item(ContextMenuAction::OpenInNative),
        ContextMenu::Separator,
        ContextMenu::Item(ContextMenuAction::CopyRelativePath),
        ContextMenu::Item(ContextMenuAction::CopyFullPath),
    ]);
    r
}

/// One entry of a directory listing, as the file system reports it.
#[derive(Debug, Clone, Copy, PartialEq, Eq, Structural)]
pub enum EntryKind {
    Dir,
    File,
    /// Neither, or a type that could not be read: skipped.
    Other,
}

#[derive(Debug)]
pub struct DirEntry {
    pub path: String,
    pub kind: EntryKind,
}

/// A directory or a file of the tree.
#[derive(Debug)]
#[allow(inconsistent_fields)]
pub enum Node {
    Dir { path: String, children: Vec<ChildRef>, parent: Option<usize>, expand: bool },
    File { path: String, parent: usize },
}

pub open spec fn spec_path(n: Node) -> Seq<char> {
    match n {
        Node::Dir { path, .. } => path@,
        Node::File { path, .. } => path@,
    }
}

pub open spec fn spec_order(n: Node) -> usize {
    match n {
        Node::Dir { .. } => 1,
        Node::File { .. } => 2,
    }
}

pub open spec fn spec_children(n: Node) -> Seq<ChildRef> {
    match n {
        Node::Dir { children, .. } => children@,
        Node::File { .. } => Seq::empty(),
    }
}

pub open spec fn spec_parent(n: Node) -> Option<usize> {
    match n {
        Node::Dir { parent, .. } => parent,
        Node::File { parent, .. } => Some(parent),
    }
}

pub open spec fn spec_expand(n: Node) -> bool {
    match n {
        Node::Dir { expand, .. } => expand,
        Node::File { .. } => false,
    }
}

/// `n` with other children, or `n` itself for a file.
pub open spec fn with_children(old: Node, new: Node, kids: Seq<ChildRef>) -> bool {
    match (old, new) {
        (Node::Dir { path: p0, parent: q0, expand: e0, .. }, Node::Dir { path: p1, children: c1, parent: q1, expand: e1 }) => p0 == p1
            && q0 == q1 && e0 == e1 && c1@ == kids,
        (Node::File { .. }, _) => new == old,
        _ => false,
    }
}

impl Node {
    pub fn order(&self) -> (r: usize)
        ensures
            r == spec_order(*self),
    {
        match self {
            Node::Dir { .. } => 1,
            Node::File { .. } => 2,
        }
    }

    pub fn is_expand(&self) -> (r: bool)
        ensures
            r == spec_expand(*self),
    {
        match self {
            Node::Dir { expand, .. } => *expand,
            Node::File { .. } => false,
        }
    }

    /// Sets whether a directory shows its children; a file has no such flag.
    pub fn expand(&mut self, to_expand: bool)
        ensures
            match *old(self) {
                Node::Dir { path, children, parent, .. } => *final(self) == Node::Dir { path, children, parent, expand: to_expand },
                Node::File { .. } => *final(self) == *old(self),
            },
    {
        match self {
            Node::Dir { expand, .. } => {
                *expand = to_expand;
            },
            Node::File { .. } => {},
        }
    }

    pub fn is_dir(&self) -> (r: bool)
        ensures
            r == (*self is Dir),
    {
        match self {
            Node::Dir { .. } => true,
            Node::File { .. } => false,
        }
    }

    /// The last component of the node's path, as `Path::file_name` reads
    /// it; the whole path when it has none (`/`, `..`).
    pub fn name(&self) -> (r: String)
        ensures
            r@ == display_name(spec_path(*self)),
    {
        name_of(self.path().as_str())
    }

    pub fn path(&self) -> (r: &String)
        ensures
            r@ == spec_path(*self),
    {
        match self {
            Node::Dir { path, .. } => path,
            Node::File { path, .. } => path,
        }
    }

    /// Points a directory back at its parent; a file's parent is fixed.
    pub fn set_parent(&mut self, node: usize)
        ensures
            match *old(self) {
                Node::Dir { path, children, expand, .. } => *final(self) == Node::Dir { path, children, parent: Some(node), expand },
                Node::File { .. } => *final(self) == *old(self),
            },
    {
        match self {
            Node::Dir { parent, .. } => {
                *parent = Some(node);
            },
            Node::File { .. } => {},
        }
    }

    /// Adds a child to a directory at its place in the order; a file takes
    /// no child and answers `false`.
    pub fn add_child(&mut self, node: ChildRef) -> (r: bool)
        requires
            sorted_refs(spec_children(*old(self))),
        ensures
            r == (*old(self) is Dir),
            sorted_refs(spec_children(*final(self))),
            spec_path(*final(self)) == spec_path(*old(self)),
            spec_parent(*final(self)) == spec_parent(*old(self)),
            spec_expand(*final(self)) == spec_expand(*old(self)),
            *final(self) is Dir <==> *old(self) is Dir,
            has_key(spec_children(*old(self)), node) ==> spec_children(*final(self)) == spec_children(*old(self)),
            *old(self) is Dir && !has_key(spec_children(*old(self)), node) ==> exists|k: int|
                0 <= k <= spec_children(*old(self)).len() && spec_children(*final(self)) == spec_children(
                    *old(self),
                ).insert(k, node),
    {
        match self {
            Node::Dir { children, .. } => {
                insert_child(children, node);
                true
            },
            Node::File { .. } => false,
        }
    }

    /// The children of a directory, in order; `None` for a file.
    pub fn children(&self) -> (r: Option<&Vec<ChildRef>>)
        ensures
            r is Some <==> *self is Dir,
            r matches Some(c) ==> c@ == spec_children(*self),
    {
        match self {
            Node::Dir { children, .. } => Some(children),
            Node::File { .. } => None,
        }
    }

    /// Replaces the children of a directory; a file is left as it is.
    pub fn set_children(&mut self, nodes: Vec<ChildRef>)
        ensures
            with_children(*old(self), *final(self), nodes@),
    {
        match self {
            Node::Dir { children, .. } => {
                *children = nodes;
            },
            Node::File { .. } => {},
        }
    }

    /// Whether a directory has no children loaded yet.
    pub fn need_load_children(&self) -> (r: bool)
        ensures
            r == (*self is Dir && spec_children(*self).len() == 0),
    {
        match self {
            Node::Dir { children, .. } => children.len() == 0,
            Node::File { .. } => false,
        }
    }
}

/// The entries of a listing that become nodes: directories and files.
pub open spec fn kept_entries(s: Seq<DirEntry>) -> Seq<DirEntry>
    decreases s.len(),
{
    if s.len() == 0 {
        Seq::empty()
    } else {
        let r = kept_entries(s.drop_last());
        if s.last().kind is Other {
            r
        } else {
            r.push(s.last())
        }
    }
}

pub open spec fn entry_order(e: DirEntry) -> usize {
    if e.kind is Dir {
        1
    } else {
        2
    }
}

/// Whether `n` is the new node made for listing entry `e` under `parent`:
/// a collapsed directory with no children, or a file.
pub open spec fn is_node_for(n: Node, e: DirEntry, parent: usize) -> bool {
    &&& spec_path(n) == e.path@
    &&& spec_parent(n) == Some(parent)
    &&& match e.kind {
        EntryKind::Dir => n is Dir && spec_children(n).len() == 0 && !spec_expand(n),
        EntryKind::File => n is File,
        EntryKind::Other => false,
    }
}

pub open spec fn has_key_of(s: Seq<ChildRef>, order: usize, path: Seq<char>) -> bool {
    exists|i: int| 0 <= i < s.len() && (#[trigger] s[i]).order == order && s[i].path@ == path
}

/// A child reference of node `i` names a later node with its key and `i`
/// as parent.
pub open spec fn child_ok(nodes: Seq<Node>, i: int, c: ChildRef) -> bool {
    &&& i < c.index < nodes.len()
    &&& spec_path(nodes[c.index as int]) == c.path@
    &&& spec_order(nodes[c.index as int]) == c.order
    &&& spec_parent(nodes[c.index as int]) == Some(i as usize)
}

/// The root is the first node, a directory without parent; every other
/// node's parent comes before it; children are sorted and name later nodes
/// that have them as parent, so each node has one owner and the tree has no
/// cycle.
pub open spec fn tree_wf(nodes: Seq<Node>) -> bool {
    &&& nodes.len() > 0
    &&& nodes[0] is Dir
    &&& spec_parent(nodes[0]) is None
    &&& forall|i: int| 0 <= i < nodes.len() ==> sorted_refs(spec_children(#[trigger] nodes[i]))
    &&& forall|i: int, k: int|
        0 <= i < nodes.len() && 0 <= k < spec_children(nodes[i]).len() ==> child_ok(
            nodes,
            i,
            #[trigger] spec_children(nodes[i])[k],
        )
    &&& forall|i: int| 0 < i < nodes.len() ==> (spec_parent(#[trigger] nodes[i]) matches Some(p) && p < i)
}

/// Whether loading would read the children of node `i`: a directory,
/// expanded, with no children yet.
pub open spec fn wants_load(nodes: Seq<Node>, i: int) -> bool {
    nodes[i] is Dir && spec_expand(nodes[i]) && spec_children(nodes[i]).len() == 0
}

/// What loading the listing `entries` under node `p` does: one new node per
/// directory or file entry, in listing order, and `p`'s children become the
/// sorted set of their keys, each naming one of the new nodes.
pub open spec fn load_post(old: Seq<Node>, p: int, entries: Seq<DirEntry>, new: Seq<Node>) -> bool {
    let kept = kept_entries(entries);
    let ch = spec_children(new[p]);
    &&& new.len() == old.len() + kept.len()
    &&& forall|i: int| 0 <= i < old.len() && i != p ==> new[i] == old[i]
    &&& with_children(old[p], new[p], ch)
    &&& forall|j: int| 0 <= j < kept.len() ==> is_node_for(#[trigger] new[old.len() + j], kept[j], p as usize)
    &&& forall|k: int| 0 <= k < ch.len() ==> old.len() <= (#[trigger] ch[k]).index
    &&& forall|j: int| 0 <= j < kept.len() ==> has_key_of(ch, entry_order(#[trigger] kept[j]), kept[j].path@)
}

/// The directory that a chain of single directories starting at `i`
/// continues into: the only child of `i`, when `i` has one and it is a
/// directory.
pub open spec fn single_dir_child(nodes: Seq<Node>, i: int) -> Option<int> {
    let ch = spec_children(nodes[i]);
    if nodes[i] is Dir && ch.len() == 1 && i < ch[0].index < nodes.len() && nodes[ch[0].index as int] is Dir {
        Some(ch[0].index as int)
    } else {
        None
    }
}

/// The node where the chain of single directories from `i` ends.
pub open spec fn chain_end(nodes: Seq<Node>, i: int) -> int
    decreases nodes.len() - i,
{
    match single_dir_child(nodes, i) {
        Some(c) => if i < c < nodes.len() {
            chain_end(nodes, c)
        } else {
            i
        },
        None => i,
    }
}

/// What follows the first name in the label of the chain from `i`.
pub open spec fn chain_rest(nodes: Seq<Node>, i: int) -> Seq<char>
    decreases nodes.len() - i,
{
    match single_dir_child(nodes, i) {
        Some(c) => if i < c < nodes.len() {
            seq!['/'] + display_name(spec_path(nodes[c])) + chain_rest(nodes, c)
        } else {
            Seq::empty()
        },
        None => Seq::empty(),
    }
}

/// The label of the chain from `i`: the names along it joined by `/`.
pub open spec fn chain_label(nodes: Seq<Node>, i: int) -> Seq<char> {
    display_name(spec_path(nodes[i])) + chain_rest(nodes, i)
}

/// The directory tree under an opened directory; node 0 is its root.
pub struct FileTree {
    nodes: Vec<Node>,
}

impl View for FileTree {
    type V = Seq<Node>;

    closed spec fn view(&self) -> Seq<Node> {
        self.nodes@
    }
}

impl FileTree {
    /// The tree of the directory at `path`, expanded, with nothing loaded.
    pub fn new(path: String) -> (r: FileTree)
        ensures
            tree_wf(r@),
            r@.len() == 1,
            spec_path(r@[0]) == path@,
            spec_expand(r@[0]),
            spec_children(r@[0]).len() == 0,
    {
        let mut nodes: Vec<Node> = Vec::new();
        nodes.push(Node::Dir { path, children: Vec::new(), parent: None, expand: true });
        FileTree { nodes }
    }

    pub fn len(&self) -> (r: usize)
        ensures
            r == self@.len(),
    {
        self.nodes.len()
    }

    pub fn node(&self, index: usize) -> (r: &Node)
        requires
            index < self@.len(),
        ensures
            *r == self@[index as int],
    {
        &self.nodes[index]
    }

    /// Whether loading would read the children of the node at `index`.
    pub fn wants_children(&self, index: usize) -> (r: bool)
        requires
            index < self@.len(),
        ensures
            r == wants_load(self@, index as int),
    {
        let n = &self.nodes[index];
        n.is_dir() && n.is_expand() && n.need_load_children()
    }

    /// Expands or collapses the directory at `index`; a file is left as it is.
    pub fn expand(&mut self, index: usize, to_expand: bool)
        requires
            tree_wf(old(self)@),
            index < old(self)@.len(),
        ensures
            tree_wf(final(self)@),
            final(self)@ == old(self)@.update(index as int, final(self)@[index as int]),
            match old(self)@[index as int] {
                Node::Dir { path, children, parent, .. } => final(self)@[index as int] == Node::Dir { path, children, parent, expand: to_expand },
                Node::File { .. } => final(self)@[index as int] == old(self)@[index as int],
            },
    {
        let ghost before = self@;
        self.nodes[index].expand(to_expand);
        proof {
            assert(self@ =~= before.update(index as int, self@[index as int]));
            assert forall|i: int, k: int|
                0 <= i < self@.len() && 0 <= k < spec_children(self@[i]).len() implies child_ok(self@, i, #[trigger] spec_children(self@[i])[k]) by {
                assert(spec_children(self@[i]) == spec_children(before[i]));
                assert(child_ok(before, i, spec_children(before[i])[k]));
                let c = spec_children(before[i])[k].index as int;
                assert(spec_path(self@[c]) == spec_path(before[c]));
            }
            assert forall|i: int| 0 <= i < self@.len() implies sorted_refs(spec_children(#[trigger] self@[i])) by {
                assert(spec_children(self@[i]) == spec_children(before[i]));
            }
            assert forall|i: int| 0 < i < self@.len() implies (spec_parent(#[trigger] self@[i]) matches Some(p) && p < i) by {
                assert(spec_parent(self@[i]) == spec_parent(before[i]));
            }
        }
    }

    /// The path of the node at `index` relative to the root's, when it lies
    /// under the root.
    pub fn relative_path(&self, index: usize) -> (r: Option<String>)
        requires
            index < self@.len(),
            self@.len() > 0,
        ensures
            r is Some <==> relative_to(spec_path(self@[index as int]), spec_path(self@[0])) is Some,
            r matches Some(s) ==> relative_to(spec_path(self@[index as int]), spec_path(self@[0])) == Some(s@),
    {
        strip_root(self.nodes[index].path().as_str(), self.nodes[0].path().as_str())
    }

    /// Follows the chain of single directories from the directory at
    /// `index`: the node where it ends and the names along it joined by
    /// `/`, which the tree shows as one row.
    pub fn collapsed_chain(&self, index: usize) -> (r: (usize, String))
        requires
            tree_wf(self@),
            index < self@.len(),
        ensures
            r.0 as int == chain_end(self@, index as int),
            r.1@ == chain_label(self@, index as int),
    {
        proof {
            reveal_strlit("/");
            assert("/"@ =~= seq!['/']);
        }
        let mut cur = index;
        let mut label = self.nodes[index].name();
        loop
            invariant
                tree_wf(self@),
                cur < self@.len(),
                chain_end(self@, cur as int) == chain_end(self@, index as int),
                label@ + chain_rest(self@, cur as int) == chain_label(self@, index as int),
            decreases self@.len() - cur,
        {
            let node = &self.nodes[cur];
            let next = match node.children() {
                Some(kids) => {
                    if kids.len() == 1 {
                        let c = kids[0].index;
                        proof {
                            assert(child_ok(self@, cur as int, spec_children(self@[cur as int])[0]));
                        }
                        if self.nodes[c].is_dir() {
                            Some(c)
                        } else {
                            None
                        }
                    } else {
                        None
                    }
                },
                None => None,
            };
            match next {
                Some(c) => {
                    proof {
                        reveal_strlit("/");
                        assert("/"@ =~= seq!['/']);
                    }
                    let ghost before = label@;
                    label.append("/");
                    let name = self.nodes[c].name();
                    label.append(name.as_str());
                    proof {
                        assert(before + chain_rest(self@, cur as int) == before + (seq!['/'] + display_name(spec_path(self@[c as int])) + chain_rest(self@, c as int)));
                        assert(label@ + chain_rest(self@, c as int) =~= before + (seq!['/'] + display_name(spec_path(self@[c as int])) + chain_rest(self@, c as int)));
                    }
                    cur = c;
                },
                None => {
                    proof {
                        assert(label@ + chain_rest(self@, cur as int) =~= label@);
                    }
                    return (cur, label);
                },
            }
        }
    }
}

/// Loads the children of the node at `parent` from a listing of its
/// directory, read by the caller: only for a directory that is expanded and
/// has none yet. A listing that could not be read (`None`) leaves the
/// directory empty; entries of other types are skipped.
pub fn load_children(tree: &mut FileTree, parent: usize, listing: Option<Vec<DirEntry>>)
    requires
        tree_wf(old(tree)@),
        parent < old(tree)@.len(),
    ensures
        tree_wf(final(tree)@),
        !wants_load(old(tree)@, parent as int) || listing is None ==> final(tree)@ == old(tree)@,
        wants_load(old(tree)@, parent as int) && listing is Some ==> load_post(old(tree)@, parent as int, listing->0@, final(tree)@),
{
    if !tree.wants_children(parent) {
        return;
    }
    let entries = match listing {
        Some(e) => e,
        None => {
            return;
        },
    };
    let ghost old_nodes = tree@;
    let ghost es = entries@;
    let count = entries.len();
    let base = tree.nodes.len();
    let mut kids: Vec<ChildRef> = Vec::new();
    let mut i: usize = 0;
    for e in it: entries.into_iter()
        invariant
            i == it.index(),
            it.seq() == es,
            count == es.len(),
            base == old_nodes.len(),
            parent < base,
            tree_wf(old_nodes),
            wants_load(old_nodes, parent as int),
            tree_wf(tree@),
            tree@.len() == base + kept_entries(es.subrange(0, i as int)).len(),
            tree@.subrange(0, base as int) == old_nodes,
            forall|j: int|
                0 <= j < kept_entries(es.subrange(0, i as int)).len() ==> is_node_for(
                    #[trigger] tree@[base + j],
                    kept_entries(es.subrange(0, i as int))[j],
                    parent,
                ),
            sorted_refs(kids@),
            forall|k: int| 0 <= k < kids@.len() ==> child_ok(tree@, parent as int, #[trigger] kids@[k]) && base <= kids@[k].index,
            forall|j: int|
                0 <= j < kept_entries(es.subrange(0, i as int)).len() ==> has_key_of(
                    kids@,
                    entry_order(#[trigger] kept_entries(es.subrange(0, i as int))[j]),
                    kept_entries(es.subrange(0, i as int))[j].path@,
                ),
    {
        let ghost before = tree@;
        let ghost kids0 = kids@;
        let ghost pre = es.subrange(0, i as int);
        let ghost post = es.subrange(0, i + 1);
        proof {
            assert(post.drop_last() =~= pre);
            assert(post.last() == e);
        }
        let order: usize = match e.kind {
            EntryKind::Dir => 1,
            EntryKind::File => 2,
            EntryKind::Other => 0,
        };
        if order != 0 {
            let index = tree.nodes.len();
            let key = ChildRef { order, path: e.path.clone(), index };
            let node = if order == 1 {
                Node::Dir { path: e.path, children: Vec::new(), parent: Some(parent), expand: false }
            } else {
                Node::File { path: e.path, parent }
            };
            tree.nodes.push(node);
            proof {
                assert(tree@ == before.push(node));
                assert(tree@.subrange(0, base as int) =~= old_nodes);
                assert forall|k: int| 0 <= k < kids0.len() implies child_ok(tree@, parent as int, #[trigger] kids0[k]) by {
                    assert(child_ok(before, parent as int, kids0[k]));
                    assert(tree@[kids0[k].index as int] == before[kids0[k].index as int]);
                }
                assert forall|i2: int, k: int|
                    0 <= i2 < tree@.len() && 0 <= k < spec_children(tree@[i2]).len() implies child_ok(
                        tree@,
                        i2,
                        #[trigger] spec_children(tree@[i2])[k],
                    ) by {
                    if i2 < before.len() {
                        assert(tree@[i2] == before[i2]);
                        assert(child_ok(before, i2, spec_children(before[i2])[k]));
                        assert(tree@[spec_children(before[i2])[k].index as int] == before[spec_children(before[i2])[k].index as int]);
                    }
                }
                assert forall|i2: int| 0 <= i2 < tree@.len() implies sorted_refs(spec_children(#[trigger] tree@[i2])) by {
                    if i2 < before.len() {
                        assert(tree@[i2] == before[i2]);
                    }
                }
                assert forall|i2: int| 0 < i2 < tree@.len() implies (spec_parent(#[trigger] tree@[i2]) matches Some(p) && p < i2) by {
                    if i2 < before.len() {
                        assert(tree@[i2] == before[i2]);
                    }
                }
            }
            insert_child(&mut kids, key);
            proof {
                assert(kept_entries(post) == kept_entries(pre).push(e));
                let kp = kept_entries(post);
                assert forall|j: int| 0 <= j < kp.len() implies is_node_for(#[trigger] tree@[base + j], kp[j], parent) by {
                    if j < kp.len() - 1 {
                        assert(kp[j] == kept_entries(pre)[j]);
                        assert(tree@[base + j] == before[base + j]);
                    }
                }
                assert forall|k: int| 0 <= k < kids@.len() implies child_ok(tree@, parent as int, #[trigger] kids@[k]) && base <= kids@[k].index by {
                    if !has_key(kids0, key) {
                        let kk = choose|kk: int| 0 <= kk <= kids0.len() && kids@ == kids0.insert(kk, key);
                        if k < kk {
                            assert(kids@[k] == kids0[k]);
                        } else if k > kk {
                            assert(kids@[k] == kids0[k - 1]);
                        }
                    }
                }
                assert forall|j: int| 0 <= j < kp.len() implies has_key_of(kids@, entry_order(#[trigger] kp[j]), kp[j].path@) by {
                    if !has_key(kids0, key) {
                        let kk = choose|kk: int| 0 <= kk <= kids0.len() && kids@ == kids0.insert(kk, key);
                        if j < kp.len() - 1 {
                            assert(kp[j] == kept_entries(pre)[j]);
                            let w = choose|w: int| 0 <= w < kids0.len() && (#[trigger] kids0[w]).order == entry_order(kp[j]) && kids0[w].path@ == kp[j].path@;
                            if w < kk {
                                assert(kids@[w] == kids0[w]);
                            } else {
                                assert(kids@[w + 1] == kids0[w]);
                            }
                        } else {
                            assert(kids@[kk] == key);
                        }
                    } else {
                        if j < kp.len() - 1 {
                            assert(kp[j] == kept_entries(pre)[j]);
                        } else {
                            let w = choose|w: int| 0 <= w < kids0.len() && same_key(#[trigger] kids0[w], key);
                            assert(kids@[w] == kids0[w]);
                        }
                    }
                }
            }
        } else {
            proof {
                assert(kept_entries(post) == kept_entries(pre));
            }
        }
        i = i + 1;
    }
    let ghost before = tree@;
    proof {
        assert(es.subrange(0, es.len() as int) =~= es);
    }
    tree.nodes[parent].set_children(kids);
    proof {
        let kept = kept_entries(es);
        assert(before.subrange(0, base as int) == old_nodes);
        assert forall|i2: int| 0 <= i2 < base && i2 != parent implies tree@[i2] == old_nodes[i2] by {
            assert(before[i2] == old_nodes[i2]);
        }
        assert forall|j: int| 0 <= j < kept.len() implies is_node_for(#[trigger] tree@[base + j], kept[j], parent) by {
            assert(tree@[base + j] == before[base + j]);
        }
        assert(spec_children(tree@[parent as int]) == kids@);
        assert forall|i2: int, k: int|
            0 <= i2 < tree@.len() && 0 <= k < spec_children(tree@[i2]).len() implies child_ok(
                tree@,
                i2,
                #[trigger] spec_children(tree@[i2])[k],
            ) by {
            if i2 == parent {
                assert(child_ok(before, parent as int, kids@[k]));
                assert(kids@[k].index != parent);
                assert(tree@[kids@[k].index as int] == before[kids@[k].index as int]);
            } else {
                assert(tree@[i2] == before[i2]);
                assert(child_ok(before, i2, spec_children(before[i2])[k]));
                let c = spec_children(before[i2])[k].index as int;
                if c == parent {
                    assert(with_children(before[c], tree@[c], kids@));
                } else {
                    assert(tree@[c] == before[c]);
                }
            }
        }
        assert forall|i2: int| 0 <= i2 < tree@.len() implies sorted_refs(spec_children(#[trigger] tree@[i2])) by {
            if i2 != parent {
                assert(tree@[i2] == before[i2]);
            }
        }
        assert forall|i2: int| 0 < i2 < tree@.len() implies (spec_parent(#[trigger] tree@[i2]) matches Some(p) && p < i2) by {
            assert(spec_parent(tree@[i2]) == spec_parent(before[i2]));
        }
    }
}

/// The compaction of the display: a directory under the root whose only
/// child is a directory is shown in one row with it, as far as such a
/// chain goes. With three directories nested without branching and the
/// last empty, the row ends at the third and reads `a/b/c`, while the tree
/// still holds three distinct directory nodes, each the only child of the
/// one before.
pub proof fn lemma_three_deep_chain(nodes: Seq<Node>, a: int, b: int, c: int)
    requires
        tree_wf(nodes),
        spec_children(nodes[0]).len() == 1,
        spec_children(nodes[0])[0].index == a,
        nodes[a] is Dir,
        spec_children(nodes[a]).len() == 1,
        spec_children(nodes[a])[0].index == b,
        nodes[b] is Dir,
        spec_children(nodes[b]).len() == 1,
        spec_children(nodes[b])[0].index == c,
        nodes[c] is Dir,
        spec_children(nodes[c]).len() == 0,
    ensures
        chain_end(nodes, a) == c,
        chain_label(nodes, a) == display_name(spec_path(nodes[a])) + seq!['/'] + display_name(spec_path(nodes[b])) + seq!['/']
            + display_name(spec_path(nodes[c])),
        0 < a < b < c < nodes.len(),
        spec_parent(nodes[a]) == Some(0usize),
        spec_parent(nodes[b]) == Some(a as usize),
        spec_parent(nodes[c]) == Some(b as usize),
{
    assert(child_ok(nodes, 0, spec_children(nodes[0])[0]));
    assert(child_ok(nodes, a, spec_children(nodes[a])[0]));
    assert(child_ok(nodes, b, spec_children(nodes[b])[0]));
    assert(single_dir_child(nodes, a) == Some(b));
    assert(single_dir_child(nodes, b) == Some(c));
    assert(single_dir_child(nodes, c) is None);
    assert(chain_end(nodes, c) == c);
    assert(chain_end(nodes, b) == c);
    assert(chain_rest(nodes, c) =~= Seq::<char>::empty());
    let na = display_name(spec_path(nodes[a]));
    let nb = display_name(spec_path(nodes[b]));
    let nc = display_name(spec_path(nodes[c]));
    assert(chain_rest(nodes, b) == seq!['/'] + nc + chain_rest(nodes, c));
    assert(chain_rest(nodes, a) == seq!['/'] + nb + chain_rest(nodes, b));
    assert(chain_label(nodes, a) =~= na + seq!['/'] + nb + seq!['/'] + nc);
}

} // verus!
