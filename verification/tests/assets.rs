use curio_editor::asset_state::{find_node, AssetEffect, AssetState, ImportPoll, TreeAction, TreeNode};
use curio_editor::asset_tree::{
    asset_viewer, file_icon_kind, find_meta, finish_frame, AssetViewer, row_actions, row_model, FileIconKind, RowContext, RowEvents, RowHighlight,
    RowMenuChoice, RowTone,
};
use curio_editor::fs_ops::{DirEntry, MetaFile};

fn dir(path: &str) -> DirEntry {
    let name = path.rsplit('/').next().unwrap().to_string();
    DirEntry { name, path: path.to_string(), is_dir: true }
}

fn file(path: &str) -> DirEntry {
    let name = path.rsplit('/').next().unwrap().to_string();
    DirEntry { name, path: path.to_string(), is_dir: false }
}

fn loaded_state() -> AssetState {
    let mut s = AssetState::new();
    assert_eq!(s.ensure_roots("/proj"), Some("/proj/assets".to_string()));
    s.roots_listed(Ok(vec![dir("/proj/assets/models"), file("/proj/assets/logo.png")]));
    assert_eq!(s.ensure_roots("/proj"), None);
    s
}

fn no_events() -> RowEvents {
    RowEvents {
        chevron_clicked: false,
        include_toggled: false,
        menu: None,
        rename_edited: None,
        rename_submitted: false,
        rename_escaped: false,
        name_clicked: false,
        delete_clicked: false,
        rename_clicked: false,
        drop_hovered: false,
        dropped: None,
        confirm_yes: false,
        confirm_no: false,
    }
}

fn no_context() -> RowContext {
    RowContext { selected_path: None, dragging: None, drop_target: None, renaming_path: None, confirming_delete_path: None }
}

#[test]
fn expanding_lists_once_and_collapsing_restores() {
    let mut s = loaded_state();
    let e = s.apply(TreeAction::ToggleExpand("/proj/assets/models".to_string()));
    assert!(matches!(e, AssetEffect::ListChildren(ref p) if p == "/proj/assets/models"));
    assert!(s.roots[0].expanded);
    s.children_loaded("/proj/assets/models", vec![file("/proj/assets/models/hero.glb")]);
    assert!(s.roots[0].loaded);
    assert_eq!(s.roots[0].children.len(), 1);
    let e = s.apply(TreeAction::ToggleExpand("/proj/assets/models".to_string()));
    assert!(matches!(e, AssetEffect::Nothing));
    assert!(!s.roots[0].expanded);
    // listed already: expanding again asks for nothing
    let e = s.apply(TreeAction::ToggleExpand("/proj/assets/models".to_string()));
    assert!(matches!(e, AssetEffect::Nothing));
    assert!(s.roots[0].expanded);
}

#[test]
fn find_node_searches_in_pre_order() {
    let mut s = loaded_state();
    s.children_loaded("/proj/assets/models", vec![file("/proj/assets/models/hero.glb")]);
    assert_eq!(find_node(&s.roots, "/proj/assets/models/hero.glb"), Some(vec![0, 0]));
    assert_eq!(find_node(&s.roots, "/proj/assets/logo.png"), Some(vec![1]));
    assert_eq!(find_node(&s.roots, "/nowhere"), None);
}

#[test]
fn meta_is_created_then_toggled_twice_back() {
    let mut s = loaded_state();
    let e = s.apply(TreeAction::EnsureMeta("/proj/assets/logo.png".to_string()));
    assert!(matches!(e, AssetEffect::CreateMeta { ref path, toggle_after: false } if path == "/proj/assets/logo.png"));
    assert_eq!(s.meta_ready("/proj/assets/logo.png", MetaFile { id: 9, included: true }, false), None);
    assert_eq!(find_meta(&s.roots, "/proj/assets/logo.png"), Some(MetaFile { id: 9, included: true }));
    let e = s.apply(TreeAction::ToggleIncluded("/proj/assets/logo.png".to_string()));
    assert!(matches!(e, AssetEffect::WriteMeta { meta: MetaFile { id: 9, included: false }, .. }));
    let e = s.apply(TreeAction::ToggleIncluded("/proj/assets/logo.png".to_string()));
    assert!(matches!(e, AssetEffect::WriteMeta { meta: MetaFile { id: 9, included: true }, .. }));
    assert_eq!(find_meta(&s.roots, "/proj/assets/logo.png"), Some(MetaFile { id: 9, included: true }));
}

#[test]
fn toggling_inclusion_without_meta_creates_it_first() {
    let mut s = loaded_state();
    let e = s.apply(TreeAction::ToggleIncluded("/proj/assets/logo.png".to_string()));
    assert!(matches!(e, AssetEffect::CreateMeta { toggle_after: true, .. }));
    let written = s.meta_ready("/proj/assets/logo.png", MetaFile { id: 3, included: true }, true);
    assert_eq!(written, Some(MetaFile { id: 3, included: false }));
    // folders get no meta
    let e = s.apply(TreeAction::ToggleIncluded("/proj/assets/models".to_string()));
    assert!(matches!(e, AssetEffect::Nothing));
}

#[test]
fn rename_commits_a_trimmed_new_name() {
    let mut s = loaded_state();
    s.apply(TreeAction::StartRename("/proj/assets/logo.png".to_string(), "  brand.png ".to_string()));
    assert_eq!(s.renaming_path.as_deref(), Some("/proj/assets/logo.png"));
    let e = s.apply(TreeAction::CommitRename("/proj/assets/logo.png".to_string()));
    match e {
        AssetEffect::Rename { old_path, new_path, dir } => {
            assert_eq!(old_path, "/proj/assets/logo.png");
            assert_eq!(new_path, "/proj/assets/brand.png");
            assert_eq!(dir, "/proj/assets");
        }
        _ => panic!("expected a rename"),
    }
    assert!(s.renaming_path.is_none());
    s.apply(TreeAction::Select("/proj/assets/logo.png".to_string()));
    s.after_rename("/proj/assets/logo.png", "/proj/assets/brand.png".to_string());
    assert_eq!(s.selected_path.as_deref(), Some("/proj/assets/brand.png"));
}

#[test]
fn rename_to_same_or_empty_name_does_nothing() {
    let mut s = loaded_state();
    s.apply(TreeAction::StartRename("/proj/assets/logo.png".to_string(), "logo.png".to_string()));
    assert!(matches!(s.apply(TreeAction::CommitRename("/proj/assets/logo.png".to_string())), AssetEffect::Nothing));
    s.apply(TreeAction::StartRename("/proj/assets/logo.png".to_string(), "   ".to_string()));
    assert!(matches!(s.apply(TreeAction::CommitRename("/proj/assets/logo.png".to_string())), AssetEffect::Nothing));
    s.apply(TreeAction::CancelRename);
    assert!(s.renaming_path.is_none());
    assert_eq!(s.rename_draft, "");
}

#[test]
fn delete_clears_the_selection() {
    let mut s = loaded_state();
    s.apply(TreeAction::Select("/proj/assets/logo.png".to_string()));
    s.apply(TreeAction::RequestDelete("/proj/assets/logo.png".to_string()));
    assert_eq!(s.confirming_delete_path.as_deref(), Some("/proj/assets/logo.png"));
    let e = s.apply(TreeAction::ConfirmDelete("/proj/assets/logo.png".to_string()));
    assert!(matches!(e, AssetEffect::Delete { ref path, ref dir } if path == "/proj/assets/logo.png" && dir == "/proj/assets"));
    assert!(s.confirming_delete_path.is_none());
    s.after_delete("/proj/assets/logo.png");
    assert!(s.selected_path.is_none());
}

#[test]
fn refresh_of_unknown_folder_reloads_roots() {
    let mut s = loaded_state();
    assert!(s.refresh_dir("/proj/assets/models"));
    assert!(s.roots_loaded);
    assert!(!s.refresh_dir("/proj/assets"));
    assert!(!s.roots_loaded);
}

#[test]
fn drops_in_place_move_nothing() {
    let mut s = loaded_state();
    for target in ["/proj/assets/models", "/proj/assets/models/inner", "/proj/assets"] {
        s.apply(TreeAction::DragOver(Some(target.to_string())));
        let e = s.apply(TreeAction::Drop { source: "/proj/assets/models".to_string(), target: target.to_string() });
        assert!(matches!(e, AssetEffect::Nothing), "target {target}");
        assert!(s.drop_target.is_none());
    }
    let e = s.apply(TreeAction::Drop { source: "/proj/assets/logo.png".to_string(), target: "/proj/assets/models".to_string() });
    match e {
        AssetEffect::Move { source, target, name, src_dir } => {
            assert_eq!(source, "/proj/assets/logo.png");
            assert_eq!(target, "/proj/assets/models");
            assert_eq!(name, "logo.png");
            assert_eq!(src_dir, "/proj/assets");
        }
        _ => panic!("expected a move"),
    }
}

#[test]
fn import_waits_for_the_picker() {
    let mut s = loaded_state();
    assert!(matches!(s.apply(TreeAction::Import("/proj/assets".to_string())), AssetEffect::PickFile));
    assert!(matches!(s.apply(TreeAction::Import("/proj/assets/models".to_string())), AssetEffect::Nothing));
    assert_eq!(s.poll_import(ImportPoll::Waiting), None);
    assert_eq!(s.pending_import.as_deref(), Some("/proj/assets"));
    let r = s.poll_import(ImportPoll::Answered(Some("/home/me/pics/cat.png".to_string())));
    assert_eq!(r, Some(("/proj/assets".to_string(), "cat.png".to_string())));
    assert!(s.pending_import.is_none());
    s.apply(TreeAction::Import("/proj/assets".to_string()));
    assert_eq!(s.poll_import(ImportPoll::Answered(None)), None);
    s.apply(TreeAction::Import("/proj/assets".to_string()));
    assert_eq!(s.poll_import(ImportPoll::Gone), None);
    assert!(s.pending_import.is_none());
}

#[test]
fn creation_actions_target_a_folder() {
    let mut s = loaded_state();
    assert!(matches!(s.apply(TreeAction::NewFolder("/proj/assets".to_string())), AssetEffect::CreateFolder(ref d) if d == "/proj/assets"));
    assert!(matches!(s.apply(TreeAction::NewComp("/proj/assets".to_string())), AssetEffect::CreateComp(ref d) if d == "/proj/assets"));
}

#[test]
fn failed_root_listing_is_reported() {
    let mut s = AssetState::new();
    s.roots_listed(Err("No such file or directory".to_string()));
    assert!(s.roots_loaded);
    assert_eq!(s.load_error.as_deref(), Some("No such file or directory"));
}

#[test]
fn tree_node_meta_and_children() {
    let mut n = TreeNode::new(file("/p/a.png"));
    assert!(n.needs_meta());
    assert_eq!(n.ensure_meta(Some(MetaFile { id: 4, included: false })), None);
    assert_eq!(n.meta, Some(MetaFile { id: 4, included: false }));
    let mut f = TreeNode::new(file("/p/b.png"));
    let created = f.ensure_meta(None).unwrap();
    assert!(created.included && (1..=32767).contains(&created.id));
    let mut d = TreeNode::new(dir("/p/d"));
    assert!(!d.needs_meta());
    assert_eq!(d.ensure_meta(None), None);
    d.load_children(vec![file("/p/d/x.comp")]);
    assert!(d.loaded);
    assert_eq!(d.children[0].entry.name, "x.comp");
}

#[test]
fn icons_follow_the_extension() {
    assert_eq!(file_icon_kind(&dir("/p/d")), FileIconKind::Dir);
    assert_eq!(file_icon_kind(&file("/p/a.PNG")), FileIconKind::Png);
    assert_eq!(file_icon_kind(&file("/p/a.glb")), FileIconKind::Glb);
    assert_eq!(file_icon_kind(&file("/p/a.anim")), FileIconKind::Anim);
    assert_eq!(file_icon_kind(&file("/p/a.comp")), FileIconKind::Comp);
    assert_eq!(file_icon_kind(&file("/p/a.txt")), FileIconKind::Other);
}

#[test]
fn row_model_of_an_unsupported_file() {
    let node = TreeNode::new(file("/p/assets/notes.txt"));
    let m = row_model(&node, &no_context());
    assert!(!m.is_supported);
    assert!(m.needs_meta);
    assert_eq!(m.ext_tag.as_deref(), Some(".txt"));
    assert_eq!(m.tone, RowTone::Muted);
    assert_eq!(m.highlight, RowHighlight::Plain);
    assert_eq!(m.target_dir, "/p/assets");
    assert!(m.included);
    let bare = TreeNode::new(file("/p/assets/LICENSE"));
    assert_eq!(row_model(&bare, &no_context()).ext_tag.as_deref(), Some("?"));
}

#[test]
fn row_model_of_a_dragged_folder() {
    let node = TreeNode::new(dir("/p/assets/models"));
    let ctx = RowContext {
        selected_path: None,
        dragging: Some("/p/assets".to_string()),
        drop_target: Some("/p/assets/models".to_string()),
        renaming_path: None,
        confirming_delete_path: None,
    };
    let m = row_model(&node, &ctx);
    assert!(m.is_invalid_target);
    assert!(m.is_drop_target);
    assert_eq!(m.highlight, RowHighlight::DropTarget);
    assert_eq!(m.target_dir, "/p/assets/models");
    let ctx2 = RowContext { selected_path: Some("/p/assets/models".to_string()), ..no_context() };
    let m2 = row_model(&node, &ctx2);
    assert_eq!(m2.highlight, RowHighlight::Selected);
    assert_eq!(m2.tone, RowTone::Accent);
    assert!(!m2.is_invalid_target);
}

#[test]
fn row_actions_follow_the_drawing_order() {
    let node = TreeNode::new(file("/p/assets/logo.png"));
    let m = row_model(&node, &no_context());
    let mut ev = no_events();
    ev.include_toggled = true;
    ev.menu = Some(RowMenuChoice::NewFolder);
    ev.name_clicked = true;
    ev.dropped = Some("/p/assets/other.png".to_string());
    let mut out = Vec::new();
    row_actions(&node, &m, &ev, &mut out);
    assert_eq!(out.len(), 5);
    assert!(matches!(out[0], TreeAction::EnsureMeta(ref p) if p == "/p/assets/logo.png"));
    assert!(matches!(out[1], TreeAction::ToggleIncluded(_)));
    assert!(matches!(out[2], TreeAction::NewFolder(ref d) if d == "/p/assets"));
    assert!(matches!(out[3], TreeAction::Select(ref p) if p == "/p/assets/logo.png"));
    assert!(matches!(out[4], TreeAction::Drop { ref source, ref target } if source == "/p/assets/other.png" && target == "/p/assets"));
}

#[test]
fn frame_without_a_hovered_target_clears_it() {
    let mut actions = vec![TreeAction::Select("/x".to_string())];
    finish_frame(&mut actions, true);
    assert!(matches!(actions.last(), Some(TreeAction::DragOver(None))));
    let mut hovered = vec![TreeAction::DragOver(Some("/x".to_string()))];
    finish_frame(&mut hovered, true);
    assert_eq!(hovered.len(), 1);
    let mut idle: Vec<TreeAction> = Vec::new();
    finish_frame(&mut idle, false);
    assert!(idle.is_empty());
}

#[test]
fn viewers_by_extension() {
    assert_eq!(asset_viewer("/p/assets/ui/logo.PNG"), AssetViewer::Png);
    assert_eq!(asset_viewer("/p/assets/hero.glb"), AssetViewer::Glb);
    assert_eq!(asset_viewer("/p/assets/run.anim"), AssetViewer::Anim);
    assert_eq!(asset_viewer("level.comp"), AssetViewer::Prefab);
    assert_eq!(asset_viewer("/p/assets.png/readme"), AssetViewer::Unsupported);
    assert_eq!(asset_viewer("/p/assets/notes.txt"), AssetViewer::Unsupported);
}
