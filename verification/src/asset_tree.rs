//! What a row of the asset tree shows and which actions its interactions
//! produce. The widget code draws the row from a `RowModel` and reports what
//! was clicked in `RowEvents`; `row_actions` turns that into `TreeAction`s.
use vstd::prelude::*;
use crate::asset_state::{
    TreeAction, TreeActionView, TreeNode, found_node, find_node, get_node, trees_view,
};
use crate::fs_ops::{DirEntry, DirEntryView, MetaFile, ext_of, file_ext};
use crate::prefab_types::opt_string_view;
use crate::text::{
    after_last, before_last, chars_of, concat, segment_after_last, segment_before_last, starts_with, str_eq,
    vec_starts_with,
};

verus! {

// ─── icons ─────────────────────────────────────────────────────────────────

/// Which icon an entry of the tree gets.
#[derive(Debug, Clone, Copy, PartialEq, Eq, Structural)]
pub enum FileIconKind {
    Dir,
    Png,
    Glb,
    Anim,
    Comp,
    Other,
}

/// The icon of an entry: folders, the asset kinds by extension, or a
/// generic file.
pub open spec fn icon_of(e: DirEntryView) -> FileIconKind {
    if e.is_dir {
        FileIconKind::Dir
    } else if ext_of(e.name) == ".png"@ {
        FileIconKind::Png
    } else if ext_of(e.name) == ".glb"@ {
        FileIconKind::Glb
    } else if ext_of(e.name) == ".anim"@ {
        FileIconKind::Anim
    } else if ext_of(e.name) == ".comp"@ {
        FileIconKind::Comp
    } else {
        FileIconKind::Other
    }
}

/// The icon of an entry.
pub fn file_icon_kind(entry: &DirEntry) -> (r: FileIconKind)
    ensures
        r == icon_of(entry@),
{
    if entry.is_dir {
        return FileIconKind::Dir;
    }
    let ext = file_ext(entry.name.as_str());
    if str_eq(ext.as_str(), ".png") {
        FileIconKind::Png
    } else if str_eq(ext.as_str(), ".glb") {
        FileIconKind::Glb
    } else if str_eq(ext.as_str(), ".anim") {
        FileIconKind::Anim
    } else if str_eq(ext.as_str(), ".comp") {
        FileIconKind::Comp
    } else {
        FileIconKind::Other
    }
}

/// The extensions the editor can preview.
pub open spec fn is_supported_ext(ext: Seq<char>) -> bool {
    ext == ".png"@ || ext == ".glb"@ || ext == ".anim"@ || ext == ".comp"@
}

/// Whether the editor can preview files with this extension.
pub fn supported_ext(ext: &str) -> (r: bool)
    ensures
        r == is_supported_ext(ext@),
{
    str_eq(ext, ".png") || str_eq(ext, ".glb") || str_eq(ext, ".anim") || str_eq(ext, ".comp")
}

/// What the asset tab shows for the selected file.
#[derive(Debug, Clone, Copy, PartialEq, Eq, Structural)]
pub enum AssetViewer {
    Png,
    Glb,
    Anim,
    /// the prefab editor, with its own inspector
    Prefab,
    Unsupported,
}

/// The viewer for a file, by the extension of its name (the text after the
/// path's last `/`).
pub open spec fn viewer_of(path: Seq<char>) -> AssetViewer {
    let ext = ext_of(after_last(path, '/'));
    if ext == ".png"@ {
        AssetViewer::Png
    } else if ext == ".glb"@ {
        AssetViewer::Glb
    } else if ext == ".anim"@ {
        AssetViewer::Anim
    } else if ext == ".comp"@ {
        AssetViewer::Prefab
    } else {
        AssetViewer::Unsupported
    }
}

/// Which viewer shows the file at `path` (see [`viewer_of`]).
pub fn asset_viewer(path: &str) -> (r: AssetViewer)
    ensures
        r == viewer_of(path@),
{
    let name = segment_after_last(path, '/');
    let ext = file_ext(name.as_str());
    if str_eq(ext.as_str(), ".png") {
        AssetViewer::Png
    } else if str_eq(ext.as_str(), ".glb") {
        AssetViewer::Glb
    } else if str_eq(ext.as_str(), ".anim") {
        AssetViewer::Anim
    } else if str_eq(ext.as_str(), ".comp") {
        AssetViewer::Prefab
    } else {
        AssetViewer::Unsupported
    }
}

/// The `.meta` of the first node, in pre-order, with this path (none when
/// no node has it or it has no `.meta` yet).
pub fn find_meta(nodes: &Vec<TreeNode>, path: &str) -> (r: Option<MetaFile>)
    ensures
        r == match found_node(trees_view(nodes@), path@) {
            Some(n) => n.meta,
            None => None,
        },
{
    match find_node(nodes, path) {
        Some(ip) => match get_node(nodes, &ip) {
            Some(n) => n.meta,
            None => None,
        },
        None => None,
    }
}

// ─── what a row shows ──────────────────────────────────────────────────────

/// How a row is highlighted.
#[derive(Debug, Clone, Copy, PartialEq, Eq, Structural)]
pub enum RowHighlight {
    Selected,
    DropTarget,
    Dragging,
    Plain,
}

/// How strongly a row's icon and name are drawn.
#[derive(Debug, Clone, Copy, PartialEq, Eq, Structural)]
pub enum RowTone {
    Accent,
    Normal,
    Muted,
}

/// What one row of the tree shows.
pub struct RowModel {
    pub is_supported: bool,
    pub is_selected: bool,
    pub is_dragging: bool,
    pub is_drop_target: bool,
    pub is_renaming: bool,
    /// The row may not take a drop: it is the dragged item or inside it.
    pub is_invalid_target: bool,
    /// Where items created from or dropped on this row go: the folder
    /// itself, or a file's folder.
    pub target_dir: String,
    pub needs_meta: bool,
    pub highlight: RowHighlight,
    pub icon: FileIconKind,
    pub tone: RowTone,
    /// The state of the "included" box (files only).
    pub included: bool,
    /// The extension shown after the name of a file the editor cannot
    /// preview (`?` when it has none).
    pub ext_tag: Option<String>,
    pub confirming_delete: bool,
    pub shows_children: bool,
}

/// What the interaction state says about one row.
pub struct RowContext {
    pub selected_path: Option<String>,
    pub dragging: Option<String>,
    pub drop_target: Option<String>,
    pub renaming_path: Option<String>,
    pub confirming_delete_path: Option<String>,
}

/// Where items created from or dropped on an entry's row go.
pub open spec fn target_dir_of(e: DirEntryView) -> Seq<char> {
    if e.is_dir {
        e.path
    } else {
        before_last(e.path, '/')
    }
}

/// The row is the dragged item or lies inside it.
pub open spec fn inside_dragged(path: Seq<char>, dragging: Option<Seq<char>>) -> bool {
    match dragging {
        Some(dp) => path == dp || starts_with(path, dp + seq!['/']),
        None => false,
    }
}

fn same_path(o: &Option<String>, path: &str) -> (r: bool)
    ensures
        r == (opt_string_view(*o) == Some(path@)),
{
    match o {
        Some(p) => str_eq(p.as_str(), path),
        None => false,
    }
}

/// What the row of `node` shows, given the interaction state.
#[verifier::spinoff_prover]
#[verifier::rlimit(40)]
pub fn row_model(node: &TreeNode, ctx: &RowContext) -> (m: RowModel)
    ensures
        m.is_supported == (node@.entry.is_dir || is_supported_ext(ext_of(node@.entry.name))),
        m.is_selected == (opt_string_view(ctx.selected_path) == Some(node@.entry.path)),
        m.is_dragging == (opt_string_view(ctx.dragging) == Some(node@.entry.path)),
        m.is_drop_target == (node@.entry.is_dir && opt_string_view(ctx.drop_target) == Some(node@.entry.path)),
        m.is_renaming == (opt_string_view(ctx.renaming_path) == Some(node@.entry.path)),
        m.is_invalid_target == inside_dragged(node@.entry.path, opt_string_view(ctx.dragging)),
        m.target_dir@ == target_dir_of(node@.entry),
        m.needs_meta == (!node@.entry.is_dir && node@.meta is None),
        m.highlight == if m.is_selected {
            RowHighlight::Selected
        } else if m.is_drop_target {
            RowHighlight::DropTarget
        } else if m.is_dragging {
            RowHighlight::Dragging
        } else {
            RowHighlight::Plain
        },
        m.icon == icon_of(node@.entry),
        m.tone == if m.is_selected { RowTone::Accent } else if m.is_supported { RowTone::Normal } else { RowTone::Muted },
        m.included == match node@.meta {
            Some(meta) => meta.included,
            None => true,
        },
        opt_string_view(m.ext_tag) == if !node@.entry.is_dir && !m.is_supported {
            Some(if ext_of(node@.entry.name).len() == 0 { "?"@ } else { ext_of(node@.entry.name) })
        } else {
            None
        },
        m.confirming_delete == (opt_string_view(ctx.confirming_delete_path) == Some(node@.entry.path)),
        m.shows_children == (node@.entry.is_dir && node@.expanded),
{
    let entry = &node.entry;
    let path = entry.path.as_str();
    let ext = file_ext(entry.name.as_str());
    let is_supported = entry.is_dir || supported_ext(ext.as_str());
    let is_selected = same_path(&ctx.selected_path, path);
    let is_dragging = same_path(&ctx.dragging, path);
    let is_drop_target = entry.is_dir && same_path(&ctx.drop_target, path);
    let is_renaming = same_path(&ctx.renaming_path, path);
    let is_invalid_target = match &ctx.dragging {
        Some(dp) => {
            let inside = concat(dp.as_str(), "/");
            proof {
                reveal_strlit("/");
                assert(inside@ == dp@ + seq!['/']);
            }
            str_eq(path, dp.as_str()) || vec_starts_with(&chars_of(path), &chars_of(inside.as_str()))
        },
        None => false,
    };
    let target_dir = if entry.is_dir { entry.path.clone() } else { segment_before_last(path, '/') };
    let highlight = if is_selected {
        RowHighlight::Selected
    } else if is_drop_target {
        RowHighlight::DropTarget
    } else if is_dragging {
        RowHighlight::Dragging
    } else {
        RowHighlight::Plain
    };
    let tone = if is_selected { RowTone::Accent } else if is_supported { RowTone::Normal } else { RowTone::Muted };
    let included = match node.meta {
        Some(m) => m.included,
        None => true,
    };
    let ext_tag = if !entry.is_dir && !is_supported {
        if ext.as_str().is_empty() {
            Some("?".to_string())
        } else {
            Some(ext)
        }
    } else {
        None
    };
    RowModel {
        is_supported,
        is_selected,
        is_dragging,
        is_drop_target,
        is_renaming,
        is_invalid_target,
        target_dir,
        needs_meta: !entry.is_dir && node.meta.is_none(),
        highlight,
        icon: file_icon_kind(entry),
        tone,
        included,
        ext_tag,
        confirming_delete: same_path(&ctx.confirming_delete_path, path),
        shows_children: entry.is_dir && node.expanded,
    }
}

// ─── what a row's interactions ask for ─────────────────────────────────────

/// A choice of a row's right-click menu.
#[derive(Debug, Clone, Copy, PartialEq, Eq, Structural)]
pub enum RowMenuChoice {
    Import,
    NewFolder,
    NewComp,
    Rename,
    Delete,
}

/// What the user did to a row this frame.
pub struct RowEvents {
    pub chevron_clicked: bool,
    pub include_toggled: bool,
    pub menu: Option<RowMenuChoice>,
    /// While renaming: the edited name, when it changed.
    pub rename_edited: Option<String>,
    pub rename_submitted: bool,
    pub rename_escaped: bool,
    pub name_clicked: bool,
    pub delete_clicked: bool,
    pub rename_clicked: bool,
    pub drop_hovered: bool,
    /// The path of an item dropped on the row.
    pub dropped: Option<String>,
    pub confirm_yes: bool,
    pub confirm_no: bool,
}

/// `a` when `b` holds, else nothing.
pub open spec fn when(b: bool, a: TreeActionView) -> Seq<TreeActionView> {
    if b {
        seq![a]
    } else {
        Seq::empty()
    }
}

/// The actions of a menu choice made on a row.
pub open spec fn menu_actions(choice: Option<RowMenuChoice>, e: DirEntryView) -> Seq<TreeActionView> {
    match choice {
        Some(RowMenuChoice::Import) => seq![TreeActionView::Import(target_dir_of(e))],
        Some(RowMenuChoice::NewFolder) => seq![TreeActionView::NewFolder(target_dir_of(e))],
        Some(RowMenuChoice::NewComp) => seq![TreeActionView::NewComp(target_dir_of(e))],
        Some(RowMenuChoice::Rename) => seq![TreeActionView::StartRename(e.path, e.name)],
        Some(RowMenuChoice::Delete) => seq![TreeActionView::RequestDelete(e.path)],
        None => Seq::empty(),
    }
}

/// The first actions of a row: the `.meta` request, the chevron, the
/// include box and the menu.
pub open spec fn head_part(e: DirEntryView, meta: Option<MetaFile>, ev: RowEvents) -> Seq<TreeActionView> {
    when(!e.is_dir && meta is None, TreeActionView::EnsureMeta(e.path))
        + when(e.is_dir && ev.chevron_clicked, TreeActionView::ToggleExpand(e.path))
        + when(!e.is_dir && ev.include_toggled, TreeActionView::ToggleIncluded(e.path))
        + menu_actions(ev.menu, e)
}

/// The actions of the name: the rename box while renaming, else a click on
/// the name and the hover buttons.
pub open spec fn name_part(e: DirEntryView, supported: bool, renaming: bool, ev: RowEvents) -> Seq<TreeActionView> {
    if renaming {
        (match ev.rename_edited {
            Some(d) => seq![TreeActionView::StartRename(e.path, d@)],
            None => Seq::empty(),
        }) + when(ev.rename_submitted, TreeActionView::CommitRename(e.path))
            + when(ev.rename_escaped, TreeActionView::CancelRename)
    } else {
        when(ev.name_clicked && e.is_dir, TreeActionView::ToggleExpand(e.path))
            + when(ev.name_clicked && !e.is_dir && supported, TreeActionView::Select(e.path))
            + when(ev.delete_clicked, TreeActionView::RequestDelete(e.path))
            + when(ev.rename_clicked, TreeActionView::StartRename(e.path, e.name))
    }
}

/// The drop actions, unless the row may not take a drop.
pub open spec fn drop_part(e: DirEntryView, invalid_target: bool, ev: RowEvents) -> Seq<TreeActionView> {
    if invalid_target {
        Seq::empty()
    } else {
        when(ev.drop_hovered, TreeActionView::DragOver(Some(target_dir_of(e)))) + match ev.dropped {
            Some(src) => seq![TreeActionView::Drop { source: src@, target: target_dir_of(e) }],
            None => Seq::empty(),
        }
    }
}

/// The answers to a delete confirmation shown on the row.
pub open spec fn confirm_part(e: DirEntryView, confirming: bool, ev: RowEvents) -> Seq<TreeActionView> {
    if confirming {
        when(ev.confirm_yes, TreeActionView::ConfirmDelete(e.path)) + when(ev.confirm_no, TreeActionView::CancelDelete)
    } else {
        Seq::empty()
    }
}

/// The actions a row's interactions produce, in the order the row is drawn:
/// the `.meta` request, chevron, include box, menu, name (or rename box),
/// hover buttons, drop, delete confirmation.
pub open spec fn row_actions_of(
    e: DirEntryView,
    meta: Option<MetaFile>,
    renaming: bool,
    invalid_target: bool,
    confirming: bool,
    ev: RowEvents,
) -> Seq<TreeActionView> {
    head_part(e, meta, ev) + name_part(e, e.is_dir || is_supported_ext(ext_of(e.name)), renaming, ev)
        + drop_part(e, invalid_target, ev) + confirm_part(e, confirming, ev)
}

/// Models of a sequence of actions.
pub open spec fn actions_view(s: Seq<TreeAction>) -> Seq<TreeActionView> {
    s.map_values(|a: TreeAction| a@)
}

fn push_action(out: &mut Vec<TreeAction>, a: TreeAction)
    ensures
        actions_view(final(out)@) == actions_view(old(out)@).push(a@),
{
    let ghost v = a@;
    out.push(a);
    assert(actions_view(final(out)@) =~= actions_view(old(out)@).push(v));
}

fn push_when(out: &mut Vec<TreeAction>, b: bool, a: TreeAction)
    ensures
        actions_view(final(out)@) == actions_view(old(out)@) + when(b, a@),
{
    if b {
        push_action(out, a);
        assert(actions_view(old(out)@).push(a@) =~= actions_view(old(out)@) + seq![a@]);
    } else {
        assert(actions_view(old(out)@) + Seq::<TreeActionView>::empty() =~= actions_view(old(out)@));
    }
}

fn push_head(node: &TreeNode, model: &RowModel, ev: &RowEvents, out: &mut Vec<TreeAction>)
    requires
        model.target_dir@ == target_dir_of(node.entry@),
    ensures
        actions_view(final(out)@) == actions_view(old(out)@) + head_part(node.entry@, node.meta, *ev),
{
    let ghost start = actions_view(out@);
    let ghost e = node.entry@;
    let entry = &node.entry;
    let is_dir = entry.is_dir;
    push_when(out, !is_dir && node.meta.is_none(), TreeAction::EnsureMeta(entry.path.clone()));
    push_when(out, is_dir && ev.chevron_clicked, TreeAction::ToggleExpand(entry.path.clone()));
    push_when(out, !is_dir && ev.include_toggled, TreeAction::ToggleIncluded(entry.path.clone()));
    let ghost s3 = actions_view(out@);
    match ev.menu {
        Some(RowMenuChoice::Import) => push_action(out, TreeAction::Import(model.target_dir.clone())),
        Some(RowMenuChoice::NewFolder) => push_action(out, TreeAction::NewFolder(model.target_dir.clone())),
        Some(RowMenuChoice::NewComp) => push_action(out, TreeAction::NewComp(model.target_dir.clone())),
        Some(RowMenuChoice::Rename) => push_action(out, TreeAction::StartRename(entry.path.clone(), entry.name.clone())),
        Some(RowMenuChoice::Delete) => push_action(out, TreeAction::RequestDelete(entry.path.clone())),
        None => {},
    }
    proof {
        assert(actions_view(out@) =~= s3 + menu_actions(ev.menu, e));
        assert(actions_view(out@) =~= start + head_part(node.entry@, node.meta, *ev));
    }
}

fn push_name(node: &TreeNode, model: &RowModel, ev: &RowEvents, out: &mut Vec<TreeAction>)
    ensures
        actions_view(final(out)@) == actions_view(old(out)@) + name_part(node.entry@, model.is_supported, model.is_renaming, *ev),
{
    let ghost start = actions_view(out@);
    let ghost e = node.entry@;
    let entry = &node.entry;
    let is_dir = entry.is_dir;
    if model.is_renaming {
        match &ev.rename_edited {
            Some(d) => push_action(out, TreeAction::StartRename(entry.path.clone(), d.clone())),
            None => {},
        }
        let ghost s1 = actions_view(out@);
        proof {
            assert(s1 =~= start + (match ev.rename_edited {
                Some(d) => seq![TreeActionView::StartRename(e.path, d@)],
                None => Seq::empty(),
            }));
        }
        push_when(out, ev.rename_submitted, TreeAction::CommitRename(entry.path.clone()));
        push_when(out, ev.rename_escaped, TreeAction::CancelRename);
        proof {
            assert(actions_view(out@) =~= start + name_part(node.entry@, model.is_supported, model.is_renaming, *ev));
        }
    } else {
        push_when(out, ev.name_clicked && is_dir, TreeAction::ToggleExpand(entry.path.clone()));
        push_when(out, ev.name_clicked && !is_dir && model.is_supported, TreeAction::Select(entry.path.clone()));
        push_when(out, ev.delete_clicked, TreeAction::RequestDelete(entry.path.clone()));
        push_when(out, ev.rename_clicked, TreeAction::StartRename(entry.path.clone(), entry.name.clone()));
        proof {
            assert(actions_view(out@) =~= start + name_part(node.entry@, model.is_supported, model.is_renaming, *ev));
        }
    }
}

fn push_drop(node: &TreeNode, model: &RowModel, ev: &RowEvents, out: &mut Vec<TreeAction>)
    requires
        model.target_dir@ == target_dir_of(node.entry@),
    ensures
        actions_view(final(out)@) == actions_view(old(out)@) + drop_part(node.entry@, model.is_invalid_target, *ev),
{
    let ghost start = actions_view(out@);
    if !model.is_invalid_target {
        push_when(out, ev.drop_hovered, TreeAction::DragOver(Some(model.target_dir.clone())));
        match &ev.dropped {
            Some(src) => push_action(out, TreeAction::Drop { source: src.clone(), target: model.target_dir.clone() }),
            None => {},
        }
        proof {
            assert(actions_view(out@) =~= start + drop_part(node.entry@, model.is_invalid_target, *ev));
        }
    } else {
        proof {
            assert(actions_view(out@) =~= start + drop_part(node.entry@, model.is_invalid_target, *ev));
        }
    }
}

fn push_confirm(node: &TreeNode, model: &RowModel, ev: &RowEvents, out: &mut Vec<TreeAction>)
    ensures
        actions_view(final(out)@) == actions_view(old(out)@) + confirm_part(node.entry@, model.confirming_delete, *ev),
{
    let ghost start = actions_view(out@);
    if model.confirming_delete {
        push_when(out, ev.confirm_yes, TreeAction::ConfirmDelete(node.entry.path.clone()));
        push_when(out, ev.confirm_no, TreeAction::CancelDelete);
    }
    proof {
        assert(actions_view(out@) =~= start + confirm_part(node.entry@, model.confirming_delete, *ev));
    }
}

proof fn lemma_concat4(
    start: Seq<TreeActionView>,
    h: Seq<TreeActionView>,
    nm: Seq<TreeActionView>,
    d: Seq<TreeActionView>,
    c: Seq<TreeActionView>,
)
    ensures
        start + h + nm + d + c == start + (h + nm + d + c),
{
    assert(start + h + nm + d + c =~= start + (h + nm + d + c));
}

/// Appends the actions a row's interactions produce this frame.
pub fn row_actions(node: &TreeNode, model: &RowModel, ev: &RowEvents, out: &mut Vec<TreeAction>)
    requires
        model.is_supported == (node.entry@.is_dir || is_supported_ext(ext_of(node.entry@.name))),
        model.target_dir@ == target_dir_of(node.entry@),
    ensures
        actions_view(final(out)@) == actions_view(old(out)@) + row_actions_of(
            node.entry@,
            node.meta,
            model.is_renaming,
            model.is_invalid_target,
            model.confirming_delete,
            *ev,
        ),
{
    let ghost start = actions_view(out@);
    push_head(node, model, ev, out);
    push_name(node, model, ev, out);
    push_drop(node, model, ev, out);
    push_confirm(node, model, ev, out);
    proof {
        lemma_concat4(
            start,
            head_part(node.entry@, node.meta, *ev),
            name_part(node.entry@, model.is_supported, model.is_renaming, *ev),
            drop_part(node.entry@, model.is_invalid_target, *ev),
            confirm_part(node.entry@, model.confirming_delete, *ev),
        );
    }
}

/// After a frame of dragging in which nothing reported a drop target, the
/// target is cleared.
pub fn finish_frame(actions: &mut Vec<TreeAction>, dragging: bool)
    ensures
        actions_view(final(actions)@) == if dragging && !(exists|i: int|
            0 <= i < old(actions)@.len() && #[trigger] actions_view(old(actions)@)[i] is DragOver) {
            actions_view(old(actions)@).push(TreeActionView::DragOver(None))
        } else {
            actions_view(old(actions)@)
        },
{
    if !dragging {
        return;
    }
    let ghost av = actions_view(actions@);
    let mut i: usize = 0;
    while i < actions.len()
        invariant
            i <= actions@.len(),
            av == actions_view(actions@),
            actions@ == old(actions)@,
            forall|j: int| 0 <= j < i ==> !(#[trigger] av[j] is DragOver),
        decreases actions@.len() - i,
    {
        let is_over = match &actions[i] {
            TreeAction::DragOver(_) => true,
            _ => false,
        };
        if is_over {
            proof {
                assert(av[i as int] is DragOver);
            }
            return;
        }
        i += 1;
    }
    push_action(actions, TreeAction::DragOver(None));
}

} // verus!
