//! State of the asset tree: a lazily listed tree of directory entries plus
//! the selection, rename, delete, drag and import state around it.
//!
//! The tree widget collects `TreeAction`s while it draws; `AssetState::apply`
//! decides what each one changes and answers with the file-system work
//! (`AssetEffect`) that the caller performs, reporting back through the
//! completion methods (`children_loaded`, `meta_ready`, `refresh_dir`, ...).
use vstd::prelude::*;
use crate::fs_ops::{DirEntry, DirEntryView, MetaFile, entries_view, assets_root, get_or_create_meta};
use crate::prefab_types::{opt_string_view};
use crate::text::{
    after_last, before_last, chars_of, concat, segment_after_last, segment_before_last, str_eq,
    trim, trimmed, starts_with, vec_starts_with,
};

verus! {

// ─── tree nodes ────────────────────────────────────────────────────────────

/// One entry of the tree, with its children once they have been listed.
pub struct TreeNode {
    pub entry: DirEntry,
    pub expanded: bool,
    pub loaded: bool,
    pub children: Vec<TreeNode>,
    /// The asset's `.meta` sidecar, once it has been read or created
    /// (files only).
    pub meta: Option<MetaFile>,
}

/// Model of a tree node.
pub struct TreeNodeView {
    pub entry: DirEntryView,
    pub expanded: bool,
    pub loaded: bool,
    pub children: Seq<TreeNodeView>,
    pub meta: Option<MetaFile>,
}

/// Model of a tree.
pub open spec fn tree_view(n: TreeNode) -> TreeNodeView
    decreases n,
{
    TreeNodeView {
        entry: n.entry@,
        expanded: n.expanded,
        loaded: n.loaded,
        children: trees_view(n.children@),
        meta: n.meta,
    }
}

/// Models of a sequence of trees.
pub open spec fn trees_view(s: Seq<TreeNode>) -> Seq<TreeNodeView>
    decreases s,
{
    if s.len() == 0 {
        Seq::empty()
    } else {
        trees_view(s.drop_last()).push(tree_view(s.last()))
    }
}

impl View for TreeNode {
    type V = TreeNodeView;

    open spec fn view(&self) -> TreeNodeView {
        tree_view(*self)
    }
}

/// `trees_view` is taken element by element.
pub broadcast proof fn lemma_trees_view(s: Seq<TreeNode>)
    ensures
        #[trigger] trees_view(s).len() == s.len(),
        forall|i: int| 0 <= i < s.len() ==> #[trigger] trees_view(s)[i] == s[i]@,
    decreases s.len(),
{
    if s.len() > 0 {
        lemma_trees_view(s.drop_last());
    }
}

proof fn lemma_trees_view_update(s: Seq<TreeNode>, i: int, c: TreeNode)
    requires
        0 <= i < s.len(),
    ensures
        trees_view(s.update(i, c)) == trees_view(s).update(i, c@),
{
    lemma_trees_view(s);
    lemma_trees_view(s.update(i, c));
    assert(trees_view(s.update(i, c)) =~= trees_view(s).update(i, c@));
}

/// A node for a freshly listed entry: collapsed, not listed, no meta.
pub open spec fn fresh_node(e: DirEntryView) -> TreeNodeView {
    TreeNodeView { entry: e, expanded: false, loaded: false, children: Seq::empty(), meta: None }
}

/// Fresh nodes for a listing, in its order.
pub open spec fn fresh_nodes(s: Seq<DirEntryView>) -> Seq<TreeNodeView> {
    s.map_values(|e: DirEntryView| fresh_node(e))
}

impl TreeNode {
    /// A collapsed, not yet listed node for `entry`.
    pub fn new(entry: DirEntry) -> (r: Self)
        ensures
            r@ == fresh_node(entry@),
    {
        let r = TreeNode { entry, expanded: false, loaded: false, children: Vec::new(), meta: None };
        assert(trees_view(r.children@) =~= Seq::<TreeNodeView>::empty());
        r
    }
}

impl TreeNode {
    /// Installs a fresh listing of this node's folder; the node counts as
    /// listed (an unreadable folder is listed as empty by the caller).
    pub fn load_children(&mut self, entries: Vec<DirEntry>)
        ensures
            final(self)@ == apply_op(old(self)@, NodeOpView::Load(entries_view(entries@))),
    {
        apply_node_op(self, NodeOp::Load(entries));
    }

    /// Whether this node still needs its `.meta` read or created: a file
    /// without one.
    pub fn needs_meta(&self) -> (r: bool)
        ensures
            r == (self@.meta is None && !self@.entry.is_dir),
    {
        self.meta.is_none() && !self.entry.is_dir
    }

    /// Gives a file without `.meta` the one read from disk, or a fresh one;
    /// answers a fresh `.meta`, which the caller must write.
    pub fn ensure_meta(&mut self, on_disk: Option<MetaFile>) -> (created: Option<MetaFile>)
        ensures
            old(self)@.meta is None && !old(self)@.entry.is_dir ==> match on_disk {
                Some(m) => final(self)@ == (TreeNodeView { meta: Some(m), ..old(self)@ }) && created is None,
                None => created matches Some(m) && final(self)@ == (TreeNodeView { meta: Some(m), ..old(self)@ })
                    && m.included && 1 <= m.id <= 32767,
            },
            !(old(self)@.meta is None && !old(self)@.entry.is_dir) ==> final(self)@ == old(self)@ && created is None,
    {
        if self.meta.is_none() && !self.entry.is_dir {
            let (m, fresh) = get_or_create_meta(on_disk);
            self.meta = Some(m);
            if fresh {
                Some(m)
            } else {
                None
            }
        } else {
            None
        }
    }
}

/// Fresh nodes for the entries of a listing.
pub fn nodes_for(entries: &Vec<DirEntry>) -> (r: Vec<TreeNode>)
    ensures
        trees_view(r@) == fresh_nodes(entries_view(entries@)),
{
    let ghost all = entries_view(entries@);
    let mut out: Vec<TreeNode> = Vec::new();
    let mut i: usize = 0;
    proof {
        assert(trees_view(out@) =~= fresh_nodes(all.take(0)));
    }
    while i < entries.len()
        invariant
            all == entries_view(entries@),
            i <= entries@.len(),
            trees_view(out@) == fresh_nodes(all.take(i as int)),
        decreases entries@.len() - i,
    {
        let e = entries[i].clone();
        let node = TreeNode::new(e);
        let ghost before = out@;
        out.push(node);
        proof {
            assert(out@.drop_last() =~= before);
            assert(fresh_nodes(all.take(i + 1)) =~= fresh_nodes(all.take(i as int)).push(fresh_node(all[i as int])));
        }
        i += 1;
    }
    proof {
        assert(all.take(entries@.len() as int) =~= all);
    }
    out
}

// ─── finding a node by path ────────────────────────────────────────────────

/// Index path (relative to `n`) of the first node, in pre-order, whose
/// entry has the path `path`.
pub open spec fn find_tree(n: TreeNodeView, path: Seq<char>) -> Option<Seq<usize>>
    decreases n, 0int,
{
    if n.entry.path == path {
        Some(Seq::empty())
    } else {
        find_from(n.children, path, 0)
    }
}

/// Index path of the first node, in pre-order over `f[i..]`, whose entry
/// has the path `path`.
pub open spec fn find_from(f: Seq<TreeNodeView>, path: Seq<char>, i: int) -> Option<Seq<usize>>
    decreases f, f.len() - i,
{
    if i < 0 || i >= f.len() || i > usize::MAX {
        None
    } else {
        match find_tree(f[i], path) {
            Some(p) => Some(seq![i as usize] + p),
            None => find_from(f, path, i + 1),
        }
    }
}

/// The node reached from `n` by following `ip`.
pub open spec fn node_in(n: TreeNodeView, ip: Seq<usize>) -> Option<TreeNodeView>
    decreases ip.len(),
{
    if ip.len() == 0 {
        Some(n)
    } else if ip[0] < n.children.len() {
        node_in(n.children[ip[0] as int], ip.drop_first())
    } else {
        None
    }
}

/// The node of the forest `f` reached by following `ip`.
pub open spec fn forest_node(f: Seq<TreeNodeView>, ip: Seq<usize>) -> Option<TreeNodeView> {
    if ip.len() > 0 && ip[0] < f.len() {
        node_in(f[ip[0] as int], ip.drop_first())
    } else {
        None
    }
}

/// Some node of the forest has the path `path`.
pub open spec fn forest_has(f: Seq<TreeNodeView>, path: Seq<char>) -> bool {
    exists|ip: Seq<usize>| #[trigger] forest_node(f, ip) matches Some(m) && m.entry.path == path
}

/// The node found for a path has that path.
pub proof fn lemma_find_tree_sound(n: TreeNodeView, path: Seq<char>)
    ensures
        find_tree(n, path) matches Some(ip) ==> (node_in(n, ip) matches Some(m) && m.entry.path == path),
    decreases n, 0int,
{
    if n.entry.path != path {
        lemma_find_from_sound(n.children, path, 0);
        if let Some(ip) = find_from(n.children, path, 0) {
            assert(ip.drop_first() == ip.drop_first());
        }
    }
}

/// The node found in a forest for a path has that path.
pub proof fn lemma_find_from_sound(f: Seq<TreeNodeView>, path: Seq<char>, i: int)
    ensures
        find_from(f, path, i) matches Some(ip) ==> (forest_node(f, ip) matches Some(m) && m.entry.path == path),
    decreases f, f.len() - i,
{
    if 0 <= i < f.len() && i <= usize::MAX {
        lemma_find_tree_sound(f[i], path);
        match find_tree(f[i], path) {
            Some(p) => {
                let ip = seq![i as usize] + p;
                assert(ip.drop_first() =~= p);
            },
            None => {
                lemma_find_from_sound(f, path, i + 1);
            },
        }
    }
}

/// When nothing is found for a path, no node of the tree has that path.
pub proof fn lemma_find_tree_complete(n: TreeNodeView, path: Seq<char>, ip: Seq<usize>)
    requires
        find_tree(n, path) is None,
    ensures
        !(node_in(n, ip) matches Some(m) && m.entry.path == path),
    decreases n, 0int,
{
    if ip.len() > 0 && ip[0] < n.children.len() {
        lemma_find_from_complete(n.children, path, 0, ip);
    }
}

/// When nothing is found in `f[i..]`, no node there has that path.
pub proof fn lemma_find_from_complete(f: Seq<TreeNodeView>, path: Seq<char>, i: int, ip: Seq<usize>)
    requires
        0 <= i,
        find_from(f, path, i) is None,
        ip.len() > 0,
        i <= ip[0],
    ensures
        !(forest_node(f, ip) matches Some(m) && m.entry.path == path),
    decreases f, f.len() - i,
{
    if i < f.len() {
        if ip[0] == i {
            lemma_find_tree_complete(f[i], path, ip.drop_first());
        } else {
            lemma_find_from_complete(f, path, i + 1, ip);
        }
    }
}

#[verifier::spinoff_prover]
#[verifier::rlimit(40)]
fn find_in_tree(n: &TreeNode, path: &str) -> (r: Option<Vec<usize>>)
    ensures
        r matches Some(v) ==> find_tree(n@, path@) == Some(v@),
        r is None ==> find_tree(n@, path@) is None,
    decreases n,
{
    if str_eq(n.entry.path.as_str(), path) {
        return Some(Vec::new());
    }
    let ghost cs = trees_view(n.children@);
    proof {
        lemma_trees_view(n.children@);
    }
    let mut i: usize = 0;
    while i < n.children.len()
        invariant
            cs == trees_view(n.children@),
            cs.len() == n.children@.len(),
            i <= cs.len(),
            n.entry.path@ != path@,
            find_tree(n@, path@) == find_from(cs, path@, i as int),
        decreases cs.len() - i,
    {
        proof {
            lemma_trees_view(n.children@);
        }
        let found = find_in_tree(&n.children[i], path);
        match found {
            Some(mut p) => {
                let ghost rest = p@;
                p.insert(0, i);
                proof {
                    assert(cs[i as int] == n.children@[i as int]@);
                    assert(p@ =~= seq![i] + rest);
                }
                return Some(p);
            },
            None => {
                proof {
                    assert(cs[i as int] == n.children@[i as int]@);
                }
            },
        }
        i += 1;
    }
    None
}

/// Index path of the first node, in pre-order over the roots, whose entry
/// has the path `path`.
#[verifier::spinoff_prover]
#[verifier::rlimit(40)]
pub fn find_node(roots: &Vec<TreeNode>, path: &str) -> (r: Option<Vec<usize>>)
    ensures
        r matches Some(v) ==> find_from(trees_view(roots@), path@, 0) == Some(v@),
        r is None ==> find_from(trees_view(roots@), path@, 0) is None,
{
    let ghost f = trees_view(roots@);
    proof {
        lemma_trees_view(roots@);
    }
    let mut i: usize = 0;
    while i < roots.len()
        invariant
            f == trees_view(roots@),
            f.len() == roots@.len(),
            i <= f.len(),
            find_from(f, path@, 0) == find_from(f, path@, i as int),
        decreases f.len() - i,
    {
        proof {
            lemma_trees_view(roots@);
        }
        let found = find_in_tree(&roots[i], path);
        match found {
            Some(mut p) => {
                let ghost rest = p@;
                p.insert(0, i);
                proof {
                    assert(f[i as int] == roots@[i as int]@);
                    assert(p@ =~= seq![i] + rest);
                }
                return Some(p);
            },
            None => {
                proof {
                    assert(f[i as int] == roots@[i as int]@);
                }
            },
        }
        i += 1;
    }
    None
}

// ─── changing one node ─────────────────────────────────────────────────────

/// A change made to one node of the tree.
pub enum NodeOp {
    /// Expand a collapsed node, collapse an expanded one.
    ToggleExpanded,
    /// Install a fresh listing of the node's directory.
    Load(Vec<DirEntry>),
    /// Record the node's `.meta`, unless it has one or is a folder.
    SetMetaIfMissing(MetaFile),
    /// Flip the `included` flag of the node's `.meta`, if it has one.
    FlipIncluded,
}

/// Model of a node change.
pub enum NodeOpView {
    ToggleExpanded,
    Load(Seq<DirEntryView>),
    SetMetaIfMissing(MetaFile),
    FlipIncluded,
}

impl View for NodeOp {
    type V = NodeOpView;

    open spec fn view(&self) -> NodeOpView {
        match self {
            NodeOp::ToggleExpanded => NodeOpView::ToggleExpanded,
            NodeOp::Load(es) => NodeOpView::Load(entries_view(es@)),
            NodeOp::SetMetaIfMissing(m) => NodeOpView::SetMetaIfMissing(*m),
            NodeOp::FlipIncluded => NodeOpView::FlipIncluded,
        }
    }
}

/// `m` with its `included` flag flipped.
pub open spec fn flipped(m: MetaFile) -> MetaFile {
    MetaFile { id: m.id, included: !m.included }
}

/// The node `n` after the change `op`.
pub open spec fn apply_op(n: TreeNodeView, op: NodeOpView) -> TreeNodeView {
    match op {
        NodeOpView::ToggleExpanded => TreeNodeView { expanded: !n.expanded, ..n },
        NodeOpView::Load(es) => TreeNodeView { children: fresh_nodes(es), loaded: true, ..n },
        NodeOpView::SetMetaIfMissing(m) => if n.meta is None && !n.entry.is_dir {
            TreeNodeView { meta: Some(m), ..n }
        } else {
            n
        },
        NodeOpView::FlipIncluded => match n.meta {
            Some(m) => TreeNodeView { meta: Some(flipped(m)), ..n },
            None => n,
        },
    }
}

/// The tree `n` with the change `op` made to the node at `ip` (unchanged
/// when `ip` leads nowhere).
pub open spec fn modify_in(n: TreeNodeView, ip: Seq<usize>, op: NodeOpView) -> TreeNodeView
    decreases ip.len(),
{
    if ip.len() == 0 {
        apply_op(n, op)
    } else if ip[0] < n.children.len() {
        TreeNodeView {
            children: n.children.update(ip[0] as int, modify_in(n.children[ip[0] as int], ip.drop_first(), op)),
            ..n
        }
    } else {
        n
    }
}

/// The forest `f` with the change `op` made to the node at `ip`.
pub open spec fn modify_forest(f: Seq<TreeNodeView>, ip: Seq<usize>, op: NodeOpView) -> Seq<TreeNodeView> {
    if ip.len() > 0 && ip[0] < f.len() {
        f.update(ip[0] as int, modify_in(f[ip[0] as int], ip.drop_first(), op))
    } else {
        f
    }
}

fn apply_node_op(n: &mut TreeNode, op: NodeOp)
    ensures
        final(n)@ == apply_op(old(n)@, op@),
{
    match op {
        NodeOp::ToggleExpanded => {
            n.expanded = !n.expanded;
        },
        NodeOp::Load(es) => {
            n.children = nodes_for(&es);
            n.loaded = true;
        },
        NodeOp::SetMetaIfMissing(m) => {
            if n.meta.is_none() && !n.entry.is_dir {
                n.meta = Some(m);
            }
        },
        NodeOp::FlipIncluded => {
            match n.meta {
                Some(m) => {
                    n.meta = Some(MetaFile { id: m.id, included: !m.included });
                },
                None => {},
            }
        },
    }
}

fn modify_tree(n: &mut TreeNode, ip: &Vec<usize>, k: usize, op: NodeOp)
    requires
        k <= ip@.len(),
    ensures
        final(n)@ == modify_in(old(n)@, ip@.skip(k as int), op@),
    decreases ip@.len() - k,
{
    if k == ip.len() {
        apply_node_op(n, op);
        return;
    }
    let idx = ip[k];
    proof {
        lemma_trees_view(n.children@);
        assert(ip@.skip(k as int).drop_first() =~= ip@.skip(k + 1));
    }
    if idx < n.children.len() {
        modify_tree(&mut n.children[idx], ip, k + 1, op);
        proof {
            lemma_trees_view_update(old(n).children@, idx as int, n.children@[idx as int]);
            assert(n.children@ == old(n).children@.update(idx as int, n.children@[idx as int]));
        }
    }
}

/// Makes the change `op` to the node of the forest at `ip`.
pub fn modify_roots(roots: &mut Vec<TreeNode>, ip: &Vec<usize>, op: NodeOp)
    ensures
        trees_view(final(roots)@) == modify_forest(trees_view(old(roots)@), ip@, op@),
{
    proof {
        lemma_trees_view(roots@);
    }
    if ip.len() > 0 && ip[0] < roots.len() {
        let idx = ip[0];
        proof {
            assert(ip@.skip(1) =~= ip@.drop_first());
        }
        modify_tree(&mut roots[idx], ip, 1, op);
        proof {
            lemma_trees_view_update(old(roots)@, idx as int, roots@[idx as int]);
            assert(roots@ == old(roots)@.update(idx as int, roots@[idx as int]));
        }
    }
}

// ─── actions, effects and the state ────────────────────────────────────────

/// What the tree widget asks for while it is drawn.
pub enum TreeAction {
    ToggleExpand(String),
    Select(String),
    EnsureMeta(String),
    ToggleIncluded(String),
    StartRename(String, String),
    CancelRename,
    CommitRename(String),
    RequestDelete(String),
    CancelDelete,
    ConfirmDelete(String),
    DragOver(Option<String>),
    Drop { source: String, target: String },
    Import(String),
    NewFolder(String),
    NewComp(String),
}

/// Model of a tree action.
pub enum TreeActionView {
    ToggleExpand(Seq<char>),
    Select(Seq<char>),
    EnsureMeta(Seq<char>),
    ToggleIncluded(Seq<char>),
    StartRename(Seq<char>, Seq<char>),
    CancelRename,
    CommitRename(Seq<char>),
    RequestDelete(Seq<char>),
    CancelDelete,
    ConfirmDelete(Seq<char>),
    DragOver(Option<Seq<char>>),
    Drop { source: Seq<char>, target: Seq<char> },
    Import(Seq<char>),
    NewFolder(Seq<char>),
    NewComp(Seq<char>),
}

impl View for TreeAction {
    type V = TreeActionView;

    open spec fn view(&self) -> TreeActionView {
        match self {
            TreeAction::ToggleExpand(p) => TreeActionView::ToggleExpand(p@),
            TreeAction::Select(p) => TreeActionView::Select(p@),
            TreeAction::EnsureMeta(p) => TreeActionView::EnsureMeta(p@),
            TreeAction::ToggleIncluded(p) => TreeActionView::ToggleIncluded(p@),
            TreeAction::StartRename(p, n) => TreeActionView::StartRename(p@, n@),
            TreeAction::CancelRename => TreeActionView::CancelRename,
            TreeAction::CommitRename(p) => TreeActionView::CommitRename(p@),
            TreeAction::RequestDelete(p) => TreeActionView::RequestDelete(p@),
            TreeAction::CancelDelete => TreeActionView::CancelDelete,
            TreeAction::ConfirmDelete(p) => TreeActionView::ConfirmDelete(p@),
            TreeAction::DragOver(t) => TreeActionView::DragOver(opt_string_view(*t)),
            TreeAction::Drop { source, target } => TreeActionView::Drop { source: source@, target: target@ },
            TreeAction::Import(d) => TreeActionView::Import(d@),
            TreeAction::NewFolder(d) => TreeActionView::NewFolder(d@),
            TreeAction::NewComp(d) => TreeActionView::NewComp(d@),
        }
    }
}

/// File-system work that an action leaves to the caller.
pub enum AssetEffect {
    Nothing,
    /// List this folder and hand the listing to `children_loaded`.
    ListChildren(String),
    /// Read or create this asset's `.meta` and hand it to `meta_ready`.
    CreateMeta { path: String, toggle_after: bool },
    /// Write this `.meta` and rebuild the manifest.
    WriteMeta { path: String, meta: MetaFile },
    /// Rename the asset and its `.meta`; on success call `after_rename`,
    /// refresh `dir` and rebuild the manifest.
    Rename { old_path: String, new_path: String, dir: String },
    /// Delete the asset and its `.meta`; on success call `after_delete`,
    /// refresh `dir` and rebuild the manifest.
    Delete { path: String, dir: String },
    /// Move the asset named `name` (and its `.meta`) into `target` under a
    /// free name; on success refresh `target` and `src_dir` and rebuild the
    /// manifest.
    Move { source: String, target: String, name: String, src_dir: String },
    /// Open the file picker; its answer goes to `import_picked`.
    PickFile,
    /// Create a folder `new_folder` (under a free name) in this folder.
    CreateFolder(String),
    /// Create an empty prefab `new_prefab.comp` (under a free name) in this
    /// folder, with its `.meta`.
    CreateComp(String),
}

/// Model of an effect.
pub enum EffectView {
    Nothing,
    ListChildren(Seq<char>),
    CreateMeta { path: Seq<char>, toggle_after: bool },
    WriteMeta { path: Seq<char>, meta: MetaFile },
    Rename { old_path: Seq<char>, new_path: Seq<char>, dir: Seq<char> },
    Delete { path: Seq<char>, dir: Seq<char> },
    Move { source: Seq<char>, target: Seq<char>, name: Seq<char>, src_dir: Seq<char> },
    PickFile,
    CreateFolder(Seq<char>),
    CreateComp(Seq<char>),
}

impl View for AssetEffect {
    type V = EffectView;

    open spec fn view(&self) -> EffectView {
        match self {
            AssetEffect::Nothing => EffectView::Nothing,
            AssetEffect::ListChildren(p) => EffectView::ListChildren(p@),
            AssetEffect::CreateMeta { path, toggle_after } => EffectView::CreateMeta { path: path@, toggle_after: *toggle_after },
            AssetEffect::WriteMeta { path, meta } => EffectView::WriteMeta { path: path@, meta: *meta },
            AssetEffect::Rename { old_path, new_path, dir } => EffectView::Rename { old_path: old_path@, new_path: new_path@, dir: dir@ },
            AssetEffect::Delete { path, dir } => EffectView::Delete { path: path@, dir: dir@ },
            AssetEffect::Move { source, target, name, src_dir } => EffectView::Move {
                source: source@,
                target: target@,
                name: name@,
                src_dir: src_dir@,
            },
            AssetEffect::PickFile => EffectView::PickFile,
            AssetEffect::CreateFolder(d) => EffectView::CreateFolder(d@),
            AssetEffect::CreateComp(d) => EffectView::CreateComp(d@),
        }
    }
}

/// What polling the file picker gave.
pub enum ImportPoll {
    /// The picker is still open.
    Waiting,
    /// The picker closed: the chosen file, or nothing when cancelled.
    Answered(Option<String>),
    /// The picker went away without answering.
    Gone,
}

/// The asset tree and the interaction state around it.
pub struct AssetState {
    pub roots: Vec<TreeNode>,
    pub roots_loaded: bool,
    pub load_error: Option<String>,
    pub selected_path: Option<String>,
    pub drop_target: Option<String>,
    pub renaming_path: Option<String>,
    pub rename_draft: String,
    pub confirming_delete_path: Option<String>,
    /// The folder an import goes to while the file picker is open.
    pub pending_import: Option<String>,
}

/// Model of the asset state.
pub struct AssetStateView {
    pub roots: Seq<TreeNodeView>,
    pub roots_loaded: bool,
    pub load_error: Option<Seq<char>>,
    pub selected_path: Option<Seq<char>>,
    pub drop_target: Option<Seq<char>>,
    pub renaming_path: Option<Seq<char>>,
    pub rename_draft: Seq<char>,
    pub confirming_delete_path: Option<Seq<char>>,
    pub pending_import: Option<Seq<char>>,
}

impl View for AssetState {
    type V = AssetStateView;

    open spec fn view(&self) -> AssetStateView {
        AssetStateView {
            roots: trees_view(self.roots@),
            roots_loaded: self.roots_loaded,
            load_error: opt_string_view(self.load_error),
            selected_path: opt_string_view(self.selected_path),
            drop_target: opt_string_view(self.drop_target),
            renaming_path: opt_string_view(self.renaming_path),
            rename_draft: self.rename_draft@,
            confirming_delete_path: opt_string_view(self.confirming_delete_path),
            pending_import: opt_string_view(self.pending_import),
        }
    }
}

/// The first node of the forest, in pre-order, with the path `p`.
pub open spec fn found_node(f: Seq<TreeNodeView>, p: Seq<char>) -> Option<TreeNodeView> {
    match find_from(f, p, 0) {
        Some(ip) => forest_node(f, ip),
        None => None,
    }
}

/// The forest with the change `op` made to the first node with the path `p`.
pub open spec fn modify_found(f: Seq<TreeNodeView>, p: Seq<char>, op: NodeOpView) -> Seq<TreeNodeView> {
    match find_from(f, p, 0) {
        Some(ip) => modify_forest(f, ip, op),
        None => f,
    }
}

/// Dropping `source` on `target` would move it nowhere: onto itself, into
/// the folder it is already in, or into its own subtree.
pub open spec fn drop_is_noop(source: Seq<char>, target: Seq<char>) -> bool {
    source == target || before_last(source, '/') == target || starts_with(target, source + seq!['/'])
}

/// What one action does: the next state and the work left to the caller.
pub open spec fn step(s: AssetStateView, a: TreeActionView) -> (AssetStateView, EffectView) {
    match a {
        TreeActionView::ToggleExpand(p) => match found_node(s.roots, p) {
            Some(n) => (
                AssetStateView { roots: modify_found(s.roots, p, NodeOpView::ToggleExpanded), ..s },
                if !n.expanded && !n.loaded { EffectView::ListChildren(p) } else { EffectView::Nothing },
            ),
            None => (s, EffectView::Nothing),
        },
        TreeActionView::Select(p) => (AssetStateView { selected_path: Some(p), ..s }, EffectView::Nothing),
        TreeActionView::EnsureMeta(p) => (
            s,
            match found_node(s.roots, p) {
                Some(n) => if n.meta is None && !n.entry.is_dir {
                    EffectView::CreateMeta { path: p, toggle_after: false }
                } else {
                    EffectView::Nothing
                },
                None => EffectView::Nothing,
            },
        ),
        TreeActionView::ToggleIncluded(p) => match found_node(s.roots, p) {
            Some(n) => match n.meta {
                Some(m) => (
                    AssetStateView { roots: modify_found(s.roots, p, NodeOpView::FlipIncluded), ..s },
                    EffectView::WriteMeta { path: p, meta: flipped(m) },
                ),
                None => (
                    s,
                    if !n.entry.is_dir {
                        EffectView::CreateMeta { path: p, toggle_after: true }
                    } else {
                        EffectView::Nothing
                    },
                ),
            },
            None => (s, EffectView::Nothing),
        },
        TreeActionView::StartRename(p, name) => (
            AssetStateView { renaming_path: Some(p), rename_draft: name, ..s },
            EffectView::Nothing,
        ),
        TreeActionView::CancelRename => (
            AssetStateView { renaming_path: None, rename_draft: Seq::empty(), ..s },
            EffectView::Nothing,
        ),
        TreeActionView::CommitRename(old_path) => {
            let new_name = trim(s.rename_draft);
            let dir = before_last(old_path, '/');
            (
                AssetStateView { renaming_path: None, ..s },
                if new_name.len() == 0 || new_name == after_last(old_path, '/') {
                    EffectView::Nothing
                } else {
                    EffectView::Rename { old_path, new_path: dir + seq!['/'] + new_name, dir }
                },
            )
        },
        TreeActionView::RequestDelete(p) => (AssetStateView { confirming_delete_path: Some(p), ..s }, EffectView::Nothing),
        TreeActionView::CancelDelete => (AssetStateView { confirming_delete_path: None, ..s }, EffectView::Nothing),
        TreeActionView::ConfirmDelete(p) => (
            AssetStateView { confirming_delete_path: None, ..s },
            EffectView::Delete { path: p, dir: before_last(p, '/') },
        ),
        TreeActionView::DragOver(t) => (AssetStateView { drop_target: t, ..s }, EffectView::Nothing),
        TreeActionView::Drop { source, target } => (
            AssetStateView { drop_target: None, ..s },
            if drop_is_noop(source, target) {
                EffectView::Nothing
            } else {
                EffectView::Move { source, target, name: after_last(source, '/'), src_dir: before_last(source, '/') }
            },
        ),
        TreeActionView::Import(d) => if s.pending_import is None {
            (AssetStateView { pending_import: Some(d), ..s }, EffectView::PickFile)
        } else {
            (s, EffectView::Nothing)
        },
        TreeActionView::NewFolder(d) => (s, EffectView::CreateFolder(d)),
        TreeActionView::NewComp(d) => (s, EffectView::CreateComp(d)),
    }
}

fn node_in_from<'a>(n: &'a TreeNode, ip: &Vec<usize>, k: usize) -> (r: Option<&'a TreeNode>)
    requires
        k <= ip@.len(),
    ensures
        r matches Some(m) ==> node_in(n@, ip@.skip(k as int)) == Some(m@),
        r is None ==> node_in(n@, ip@.skip(k as int)) is None,
    decreases ip@.len() - k,
{
    if k == ip.len() {
        return Some(n);
    }
    let idx = ip[k];
    proof {
        lemma_trees_view(n.children@);
        assert(ip@.skip(k as int).drop_first() =~= ip@.skip(k + 1));
    }
    if idx < n.children.len() {
        node_in_from(&n.children[idx], ip, k + 1)
    } else {
        None
    }
}

/// The node of the forest reached by following `ip`.
pub fn get_node<'a>(roots: &'a Vec<TreeNode>, ip: &Vec<usize>) -> (r: Option<&'a TreeNode>)
    ensures
        r matches Some(m) ==> forest_node(trees_view(roots@), ip@) == Some(m@),
        r is None ==> forest_node(trees_view(roots@), ip@) is None,
{
    proof {
        lemma_trees_view(roots@);
    }
    if ip.len() > 0 && ip[0] < roots.len() {
        proof {
            assert(ip@.skip(1) =~= ip@.drop_first());
        }
        node_in_from(&roots[ip[0]], ip, 1)
    } else {
        None
    }
}

impl AssetState {
    /// An empty tree whose roots have not been listed yet.
    pub fn new() -> (r: Self)
        ensures
            r@ == (AssetStateView {
                roots: Seq::empty(),
                roots_loaded: false,
                load_error: None,
                selected_path: None,
                drop_target: None,
                renaming_path: None,
                rename_draft: Seq::empty(),
                confirming_delete_path: None,
                pending_import: None,
            }),
    {
        let r = AssetState {
            roots: Vec::new(),
            roots_loaded: false,
            load_error: None,
            selected_path: None,
            drop_target: None,
            renaming_path: None,
            rename_draft: String::new(),
            confirming_delete_path: None,
            pending_import: None,
        };
        assert(trees_view(r.roots@) =~= Seq::<TreeNodeView>::empty());
        r
    }

    /// Applies one action of the tree widget: changes the state as `step`
    /// says and answers with the work left to the caller.
    #[verifier::spinoff_prover]
    #[verifier::rlimit(40)]
    pub fn apply(&mut self, action: TreeAction) -> (e: AssetEffect)
        ensures
            final(self)@ == step(old(self)@, action@).0,
            e@ == step(old(self)@, action@).1,
    {
        match action {
            TreeAction::ToggleExpand(path) => {
                match find_node(&self.roots, path.as_str()) {
                    Some(ip) => {
                        let need = match get_node(&self.roots, &ip) {
                            Some(n) => Some(!n.expanded && !n.loaded),
                            None => None,
                        };
                        match need {
                            Some(need) => {
                                modify_roots(&mut self.roots, &ip, NodeOp::ToggleExpanded);
                                if need {
                                    AssetEffect::ListChildren(path)
                                } else {
                                    AssetEffect::Nothing
                                }
                            },
                            None => AssetEffect::Nothing,
                        }
                    },
                    None => AssetEffect::Nothing,
                }
            },
            TreeAction::Select(path) => {
                self.selected_path = Some(path);
                AssetEffect::Nothing
            },
            TreeAction::EnsureMeta(path) => {
                match find_node(&self.roots, path.as_str()) {
                    Some(ip) => {
                        let create = match get_node(&self.roots, &ip) {
                            Some(n) => n.meta.is_none() && !n.entry.is_dir,
                            None => false,
                        };
                        if create {
                            AssetEffect::CreateMeta { path, toggle_after: false }
                        } else {
                            AssetEffect::Nothing
                        }
                    },
                    None => AssetEffect::Nothing,
                }
            },
            TreeAction::ToggleIncluded(path) => {
                match find_node(&self.roots, path.as_str()) {
                    Some(ip) => {
                        let found: Option<(Option<MetaFile>, bool)> = match get_node(&self.roots, &ip) {
                            Some(n) => Some((n.meta, n.entry.is_dir)),
                            None => None,
                        };
                        match found {
                            Some((Some(m), _)) => {
                                modify_roots(&mut self.roots, &ip, NodeOp::FlipIncluded);
                                AssetEffect::WriteMeta { path, meta: MetaFile { id: m.id, included: !m.included } }
                            },
                            Some((None, false)) => AssetEffect::CreateMeta { path, toggle_after: true },
                            _ => AssetEffect::Nothing,
                        }
                    },
                    None => AssetEffect::Nothing,
                }
            },
            TreeAction::StartRename(path, name) => {
                self.renaming_path = Some(path);
                self.rename_draft = name;
                AssetEffect::Nothing
            },
            TreeAction::CancelRename => {
                self.renaming_path = None;
                self.rename_draft = String::new();
                AssetEffect::Nothing
            },
            TreeAction::CommitRename(old_path) => {
                let new_name = trimmed(self.rename_draft.as_str());
                self.renaming_path = None;
                let old_name = segment_after_last(old_path.as_str(), '/');
                if new_name.as_str().is_empty() || str_eq(new_name.as_str(), old_name.as_str()) {
                    return AssetEffect::Nothing;
                }
                let dir = segment_before_last(old_path.as_str(), '/');
                let with_sep = concat(dir.as_str(), "/");
                let new_path = concat(with_sep.as_str(), new_name.as_str());
                proof {
                    reveal_strlit("/");
                    assert(new_path@ == dir@ + seq!['/'] + new_name@);
                }
                AssetEffect::Rename { old_path, new_path, dir }
            },
            TreeAction::RequestDelete(path) => {
                self.confirming_delete_path = Some(path);
                AssetEffect::Nothing
            },
            TreeAction::CancelDelete => {
                self.confirming_delete_path = None;
                AssetEffect::Nothing
            },
            TreeAction::ConfirmDelete(path) => {
                self.confirming_delete_path = None;
                let dir = segment_before_last(path.as_str(), '/');
                AssetEffect::Delete { path, dir }
            },
            TreeAction::DragOver(target) => {
                self.drop_target = target;
                AssetEffect::Nothing
            },
            TreeAction::Drop { source, target } => {
                self.drop_target = None;
                let src_dir = segment_before_last(source.as_str(), '/');
                let inside = concat(source.as_str(), "/");
                let target_chars = chars_of(target.as_str());
                let inside_chars = chars_of(inside.as_str());
                proof {
                    reveal_strlit("/");
                    assert(inside@ == source@ + seq!['/']);
                }
                if str_eq(source.as_str(), target.as_str()) || str_eq(src_dir.as_str(), target.as_str())
                    || vec_starts_with(&target_chars, &inside_chars) {
                    return AssetEffect::Nothing;
                }
                let name = segment_after_last(source.as_str(), '/');
                AssetEffect::Move { source, target, name, src_dir }
            },
            TreeAction::Import(dir) => {
                if self.pending_import.is_none() {
                    self.pending_import = Some(dir);
                    AssetEffect::PickFile
                } else {
                    AssetEffect::Nothing
                }
            },
            TreeAction::NewFolder(dir) => AssetEffect::CreateFolder(dir),
            TreeAction::NewComp(dir) => AssetEffect::CreateComp(dir),
        }
    }

    /// A listing of the folder `path` arrived: the first node with that
    /// path gets fresh children and counts as listed.
    pub fn children_loaded(&mut self, path: &str, entries: Vec<DirEntry>)
        ensures
            final(self)@ == (AssetStateView {
                roots: modify_found(old(self)@.roots, path@, NodeOpView::Load(entries_view(entries@))),
                ..old(self)@
            }),
    {
        match find_node(&self.roots, path) {
            Some(ip) => modify_roots(&mut self.roots, &ip, NodeOp::Load(entries)),
            None => {},
        }
    }

    /// Prepares a refresh of the folder `dir`: answers whether a node of
    /// the tree has that path (the caller then lists it and hands the
    /// listing to `children_loaded`); otherwise `dir` is taken for the
    /// assets root and the root listing is marked stale.
    pub fn refresh_dir(&mut self, dir: &str) -> (listed: bool)
        ensures
            listed == find_from(old(self)@.roots, dir@, 0) is Some,
            final(self)@ == if listed {
                old(self)@
            } else {
                AssetStateView { roots_loaded: false, ..old(self)@ }
            },
    {
        match find_node(&self.roots, dir) {
            Some(_) => true,
            None => {
                self.roots_loaded = false;
                false
            },
        }
    }

    /// The `.meta` of `path` was read or created: the node records it if
    /// it has none; with `toggle_after` its `included` flag is then flipped
    /// and the new `.meta`, to be written, is returned.
    #[verifier::spinoff_prover]
    #[verifier::rlimit(40)]
    pub fn meta_ready(&mut self, path: &str, meta: MetaFile, toggle_after: bool) -> (r: Option<MetaFile>)
        ensures
            match find_from(old(self)@.roots, path@, 0) {
                Some(ip) => {
                    let r1 = modify_forest(old(self)@.roots, ip, NodeOpView::SetMetaIfMissing(meta));
                    match (toggle_after, forest_node(r1, ip)) {
                        (true, Some(n)) => match n.meta {
                            Some(m) => final(self)@ == (AssetStateView {
                                roots: modify_forest(r1, ip, NodeOpView::FlipIncluded),
                                ..old(self)@
                            }) && r == Some(flipped(m)),
                            None => final(self)@ == (AssetStateView { roots: r1, ..old(self)@ }) && r is None,
                        },
                        _ => final(self)@ == (AssetStateView { roots: r1, ..old(self)@ }) && r is None,
                    }
                },
                None => final(self)@ == old(self)@ && r is None,
            },
    {
        match find_node(&self.roots, path) {
            Some(ip) => {
                modify_roots(&mut self.roots, &ip, NodeOp::SetMetaIfMissing(meta));
                if !toggle_after {
                    return None;
                }
                let current = match get_node(&self.roots, &ip) {
                    Some(n) => n.meta,
                    None => None,
                };
                match current {
                    Some(m) => {
                        modify_roots(&mut self.roots, &ip, NodeOp::FlipIncluded);
                        Some(MetaFile { id: m.id, included: !m.included })
                    },
                    None => None,
                }
            },
            None => None,
        }
    }

    /// A rename went through: a selection of the old path follows it.
    pub fn after_rename(&mut self, old_path: &str, new_path: String)
        ensures
            final(self)@ == (AssetStateView {
                selected_path: if old(self)@.selected_path == Some(old_path@) {
                    Some(new_path@)
                } else {
                    old(self)@.selected_path
                },
                ..old(self)@
            }),
    {
        let hit = match &self.selected_path {
            Some(sel) => str_eq(sel.as_str(), old_path),
            None => false,
        };
        if hit {
            self.selected_path = Some(new_path);
        }
    }

    /// A delete went through: a selection of the deleted path is dropped.
    pub fn after_delete(&mut self, path: &str)
        ensures
            final(self)@ == (AssetStateView {
                selected_path: if old(self)@.selected_path == Some(path@) {
                    None
                } else {
                    old(self)@.selected_path
                },
                ..old(self)@
            }),
    {
        let hit = match &self.selected_path {
            Some(sel) => str_eq(sel.as_str(), path),
            None => false,
        };
        if hit {
            self.selected_path = None;
        }
    }

    /// The listing of the assets root arrived (or failed): the roots are
    /// replaced by fresh nodes, or the error is kept; either way the roots
    /// count as loaded.
    pub fn roots_listed(&mut self, listing: Result<Vec<DirEntry>, String>)
        ensures
            final(self)@ == match listing {
                Ok(es) => AssetStateView {
                    roots: fresh_nodes(entries_view(es@)),
                    load_error: None,
                    roots_loaded: true,
                    ..old(self)@
                },
                Err(e) => AssetStateView { load_error: Some(e@), roots_loaded: true, ..old(self)@ },
            },
    {
        match listing {
            Ok(es) => {
                self.roots = nodes_for(&es);
                self.load_error = None;
            },
            Err(e) => {
                self.load_error = Some(e);
            },
        }
        self.roots_loaded = true;
    }

    /// Before the tree is drawn: the folder whose listing is still owed
    /// for the roots (`{project_root}/assets`), if it is; the caller lists it
    /// and hands the result to `roots_listed`.
    pub fn ensure_roots(&self, project_root: &str) -> (r: Option<String>)
        ensures
            match r {
                Some(dir) => !self@.roots_loaded && dir@ == project_root@ + "/assets"@,
                None => self@.roots_loaded,
            },
    {
        if self.roots_loaded {
            None
        } else {
            Some(assets_root(project_root))
        }
    }

    /// Completes a pending import from what the file picker reported.
    /// Once it answered, or went away, nothing is pending any more; when a
    /// file was picked for a pending import, answers the target folder and
    /// the picked file's name, to be copied there under a free name.
    pub fn poll_import(&mut self, polled: ImportPoll) -> (r: Option<(String, String)>)
        ensures
            match polled {
                ImportPoll::Waiting => final(self)@ == old(self)@ && r is None,
                ImportPoll::Gone => final(self)@ == (AssetStateView { pending_import: None, ..old(self)@ }) && r is None,
                ImportPoll::Answered(picked) => {
                    &&& final(self)@ == (AssetStateView { pending_import: None, ..old(self)@ })
                    &&& match (old(self)@.pending_import, picked) {
                        (Some(d), Some(src)) => r matches Some((rd, name)) && rd@ == d && name@ == after_last(src@, '/'),
                        _ => r is None,
                    }
                },
            },
    {
        match polled {
            ImportPoll::Waiting => None,
            ImportPoll::Gone => {
                self.pending_import = None;
                None
            },
            ImportPoll::Answered(picked) => {
                let pending = self.pending_import.take();
                match (pending, picked) {
                    (Some(dir), Some(src)) => {
                        let name = segment_after_last(src.as_str(), '/');
                        Some((dir, name))
                    },
                    _ => None,
                }
            },
        }
    }
}


// ─── laws ──────────────────────────────────────────────────────────────────

/// A change that keeps a node's entry and children (everything but a new
/// listing).
pub open spec fn keeps_shape(op: NodeOpView) -> bool {
    !(op is Load)
}

/// A change that undoes itself when made twice.
pub open spec fn self_inverse(op: NodeOpView) -> bool {
    op is ToggleExpanded || op is FlipIncluded
}

proof fn lemma_find_tree_modify(n: TreeNodeView, ip: Seq<usize>, op: NodeOpView, path: Seq<char>)
    requires
        keeps_shape(op),
    ensures
        find_tree(modify_in(n, ip, op), path) == find_tree(n, path),
    decreases n, 0int,
{
    if ip.len() > 0 && ip[0] < n.children.len() {
        lemma_find_from_modify(n.children, ip, op, path, 0);
        assert(modify_in(n, ip, op).children == modify_forest(n.children, ip, op));
    }
}

proof fn lemma_find_from_modify(f: Seq<TreeNodeView>, ip: Seq<usize>, op: NodeOpView, path: Seq<char>, i: int)
    requires
        keeps_shape(op),
    ensures
        find_from(modify_forest(f, ip, op), path, i) == find_from(f, path, i),
    decreases f, f.len() - i,
{
    let g = modify_forest(f, ip, op);
    if 0 <= i < f.len() && i <= usize::MAX {
        if ip.len() > 0 && ip[0] == i {
            lemma_find_tree_modify(f[i], ip.drop_first(), op, path);
        }
        assert(find_tree(g[i], path) == find_tree(f[i], path));
        lemma_find_from_modify(f, ip, op, path, i + 1);
    }
}

proof fn lemma_node_in_modify(n: TreeNodeView, ip: Seq<usize>, op: NodeOpView)
    ensures
        node_in(modify_in(n, ip, op), ip) == match node_in(n, ip) {
            Some(m) => Some(apply_op(m, op)),
            None => None,
        },
    decreases ip.len(),
{
    if ip.len() > 0 && ip[0] < n.children.len() {
        lemma_node_in_modify(n.children[ip[0] as int], ip.drop_first(), op);
    }
}

proof fn lemma_modify_twice(n: TreeNodeView, ip: Seq<usize>, op: NodeOpView)
    requires
        self_inverse(op),
    ensures
        modify_in(modify_in(n, ip, op), ip, op) == n,
    decreases ip.len(),
{
    if ip.len() == 0 {
        assert(apply_op(apply_op(n, op), op) == n);
    } else if ip[0] < n.children.len() {
        let i = ip[0] as int;
        lemma_modify_twice(n.children[i], ip.drop_first(), op);
        let once = modify_in(n, ip, op);
        assert(once.children[i] == modify_in(n.children[i], ip.drop_first(), op));
        assert(modify_in(once, ip, op).children =~= n.children);
    }
}

/// What a search for a path finds is a node with that path, and a search
/// finds nothing only when no node of the forest has that path.
pub proof fn lemma_find_exact(f: Seq<TreeNodeView>, path: Seq<char>)
    ensures
        find_from(f, path, 0) matches Some(ip) ==> (forest_node(f, ip) matches Some(m) && m.entry.path == path),
        find_from(f, path, 0) is None <==> !forest_has(f, path),
{
    lemma_find_from_sound(f, path, 0);
    if find_from(f, path, 0) is None {
        assert forall|ip: Seq<usize>| !(#[trigger] forest_node(f, ip) matches Some(m) && m.entry.path == path) by {
            if ip.len() > 0 {
                lemma_find_from_complete(f, path, 0, ip);
            }
        }
    } else {
        let ip = find_from(f, path, 0).unwrap();
        assert(forest_node(f, ip) matches Some(m) && m.entry.path == path);
    }
}

/// Expanding (or collapsing) a node twice gives back the state it started
/// from.
pub proof fn lemma_toggle_expand_twice(s: AssetStateView, p: Seq<char>)
    ensures
        step(step(s, TreeActionView::ToggleExpand(p)).0, TreeActionView::ToggleExpand(p)).0 == s,
{
    let op = NodeOpView::ToggleExpanded;
    if let Some(ip) = find_from(s.roots, p, 0) {
        if let Some(n) = forest_node(s.roots, ip) {
            let r1 = modify_forest(s.roots, ip, op);
            lemma_find_from_modify(s.roots, ip, op, p, 0);
            lemma_node_in_modify(s.roots[ip[0] as int], ip.drop_first(), op);
            assert(forest_node(r1, ip) == Some(apply_op(n, op)));
            lemma_modify_twice(s.roots[ip[0] as int], ip.drop_first(), op);
            assert(modify_forest(r1, ip, op) =~= s.roots);
        }
    }
}

/// Flipping a node's `included` flag twice gives back the state it started
/// from; the first flip writes the flipped `.meta`, the second writes back
/// the one it started with.
pub proof fn lemma_toggle_included_twice(s: AssetStateView, p: Seq<char>)
    requires
        found_node(s.roots, p) matches Some(n) && n.meta is Some,
    ensures
        step(s, TreeActionView::ToggleIncluded(p)).1
            == (EffectView::WriteMeta { path: p, meta: flipped(found_node(s.roots, p).unwrap().meta.unwrap()) }),
        step(step(s, TreeActionView::ToggleIncluded(p)).0, TreeActionView::ToggleIncluded(p)).0 == s,
        step(step(s, TreeActionView::ToggleIncluded(p)).0, TreeActionView::ToggleIncluded(p)).1
            == (EffectView::WriteMeta { path: p, meta: found_node(s.roots, p).unwrap().meta.unwrap() }),
{
    let op = NodeOpView::FlipIncluded;
    let ip = find_from(s.roots, p, 0).unwrap();
    let n = forest_node(s.roots, ip).unwrap();
    let r1 = modify_forest(s.roots, ip, op);
    lemma_find_from_modify(s.roots, ip, op, p, 0);
    lemma_node_in_modify(s.roots[ip[0] as int], ip.drop_first(), op);
    assert(forest_node(r1, ip) == Some(apply_op(n, op)));
    lemma_modify_twice(s.roots[ip[0] as int], ip.drop_first(), op);
    assert(modify_forest(r1, ip, op) =~= s.roots);
    let m = n.meta.unwrap();
    assert(flipped(flipped(m)) == m);
}

/// A drop onto the dragged item itself, onto the folder it already is in,
/// or into its own subtree moves nothing and only clears the drop target.
pub proof fn lemma_drop_in_place(s: AssetStateView, source: Seq<char>, target: Seq<char>)
    requires
        drop_is_noop(source, target),
    ensures
        step(s, TreeActionView::Drop { source, target }).1 == EffectView::Nothing,
        step(s, TreeActionView::Drop { source, target }).0 == (AssetStateView { drop_target: None, ..s }),
{
}
} // verus!
