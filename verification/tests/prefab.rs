use curio_editor::fs_ops::{EntryType, FacetComponent, FacetField, FacetManifest, ManifestEntry};
use curio_editor::prefab_facets::{all_component_types, component_fields, sort_names};
use curio_editor::prefab_resolver::{
    base_file_path, base_references, resolve_no_base, resolve_node, resolved_to_raw, resolved_to_raw_full, BaseEntry,
    BaseLibrary, BaseLoader,
};
use curio_editor::prefab_state::{field_name, split_last, GizmoMode, PrefabAction, PrefabState};
use curio_editor::prefab_tab::{
    axis_shown, component_header_actions, field_action, field_is_checked, field_value, node_row_actions, vector_axes,
    ComponentHeaderEvents, FieldEdit, NodeRowEvents,
    gizmo_mode_for_key, local_transform_slot,
    addable_component_types, asset_dropdown_model, component_closed_key, inspector_fields, node_closed_key, path_debug,
};
use curio_editor::prefab_transforms::{collect_render_targets, renderer_asset_path, renderer_kind, RendererKind};
use curio_editor::prefab_types::{
    builtin_component_fields, default_component, default_game_object, get_node_at_path, get_node_at_path_mut, is_renderer, is_transform,
    join_field, read_renderer_asset, set_component_field, set_node_at_path, split_field, write_renderer_asset,
    FieldDescriptor, PrefabComponentRaw, PrefabGameObjectRaw,
};

fn comp(kind: &str, fields: &[&str]) -> PrefabComponentRaw {
    PrefabComponentRaw { kind: kind.to_string(), fields: fields.iter().map(|f| f.to_string()).collect() }
}

fn obj(name: &str, base: Option<&str>, components: Vec<PrefabComponentRaw>, children: Vec<PrefabGameObjectRaw>) -> PrefabGameObjectRaw {
    PrefabGameObjectRaw { enabled: true, name: name.to_string(), base: base.map(|b| b.to_string()), components, children }
}

fn manifest() -> Vec<ManifestEntry> {
    vec![
        ManifestEntry { id: 7, name: "hero".to_string(), kind: "Embedded".to_string(), uri: "assets/hero.glb".to_string() },
        ManifestEntry { id: 8, name: "base".to_string(), kind: "Embedded".to_string(), uri: "assets/base.comp".to_string() },
        ManifestEntry { id: 7, name: "hero2".to_string(), kind: "Embedded".to_string(), uri: "assets/hero2.glb".to_string() },
    ]
}

#[test]
fn fields_split_and_join() {
    assert_eq!(split_field("position: (1,2,3)"), ("position".to_string(), "(1,2,3)".to_string()));
    assert_eq!(split_field(" scale :2"), ("scale".to_string(), "2".to_string()));
    assert_eq!(split_field("  lonely  "), ("lonely".to_string(), String::new()));
    assert_eq!(join_field("asset", "12"), "asset: 12");
    let (k, v) = split_field(&join_field("asset", "12"));
    assert_eq!((k.as_str(), v.as_str()), ("asset", "12"));
}

#[test]
fn component_kinds() {
    assert!(is_transform("Transform2D") && is_transform("Transform3D") && !is_transform("Transform"));
    assert!(is_renderer("RendererStatic") && is_renderer("RendererDynamic") && !is_renderer("Renderer"));
    assert_eq!(builtin_component_fields("Transform3D").iter().map(|f| f.name.clone()).collect::<Vec<_>>(), vec!["position", "rotation", "scale"]);
    assert!(matches!(builtin_component_fields("RendererStatic")[0].kind, EntryType::Asset(ref e) if e == ".glb"));
    assert!(matches!(builtin_component_fields("RendererDynamic")[0].kind, EntryType::Asset(ref e) if e == ".anim"));
    assert!(builtin_component_fields("Custom").is_empty());
}

#[test]
fn setting_fields_replaces_and_appends() {
    let c = comp("Transform3D", &["position: (0,0,0)", "scale: 1", "position: (9,9,9)"]);
    let set = set_component_field(&c, "position", "(1,2,3)");
    assert_eq!(set.fields, vec!["scale: 1", "position: (1,2,3)"]);
    let r = comp("RendererStatic", &["asset: 3", "other: x", "asset: 4"]);
    assert_eq!(read_renderer_asset(&r).as_deref(), Some("3"));
    assert_eq!(write_renderer_asset(&r, "12").fields, vec!["asset: 12", "other: x", "asset: 4"]);
    let fresh = write_renderer_asset(&default_component("RendererStatic"), "5");
    assert_eq!(fresh.fields, vec!["asset: 5"]);
    assert_eq!(read_renderer_asset(&fresh).as_deref(), Some("5"));
}

#[test]
fn defaults() {
    let g = default_game_object("Child");
    assert!(g.enabled && g.name == "Child" && g.base.is_none() && g.components.is_empty() && g.children.is_empty());
    assert_eq!(default_component("Foo"), comp("Foo", &[]));
}

#[test]
fn nodes_by_index_path() {
    let tree = obj("root", None, vec![], vec![obj("a", None, vec![], vec![obj("a0", None, vec![], vec![])]), obj("b", None, vec![], vec![])]);
    assert_eq!(get_node_at_path(&tree, &[0, 0]).map(|n| n.name.as_str()), Some("a0"));
    assert!(get_node_at_path(&tree, &[2]).is_none());
    let replaced = set_node_at_path(&tree, &[1], obj("B", None, vec![], vec![]));
    assert_eq!(get_node_at_path(&replaced, &[1]).map(|n| n.name.as_str()), Some("B"));
    assert_eq!(set_node_at_path(&tree, &[5, 1], obj("X", None, vec![], vec![])), tree);
    let mut edited = tree.clone();
    if let Some(node) = get_node_at_path_mut(&mut edited, &[0, 0]) {
        node.name = "renamed".to_string();
    }
    assert_eq!(get_node_at_path(&edited, &[0, 0]).map(|n| n.name.as_str()), Some("renamed"));
    assert_eq!(get_node_at_path(&edited, &[1]), get_node_at_path(&tree, &[1]));
    let mut untouched = tree.clone();
    assert!(get_node_at_path_mut(&mut untouched, &[0, 3]).is_none());
    assert_eq!(untouched, tree);
    assert_eq!(split_last(&[3, 4, 5]), Some((vec![3, 4], 5)));
    assert_eq!(split_last(&[]), None);
}

#[test]
fn no_base_marks_everything_alike() {
    let n = obj("root", None, vec![comp("Transform3D", &["position: (1,2,3)"])], vec![obj("kid", None, vec![comp("Tag", &[])], vec![])]);
    let r = resolve_no_base(&n, true);
    assert!(r.added_by_child && r.components[0].added_by_child && r.components[0].fields[0].overridden);
    assert_eq!(resolved_to_raw(&r), n);
    let inherited = resolve_no_base(&n, false);
    assert!(!inherited.components[0].fields[0].overridden);
    assert_eq!(resolved_to_raw_full(&inherited), n);
    assert_eq!(resolved_to_raw(&inherited).components.len(), 0);
}

#[test]
fn a_base_chain_is_merged_and_saves_only_overrides() {
    let base = obj(
        "Base",
        None,
        vec![comp("Transform3D", &["position: (1,1,1)", "scale: (2,2,2)"]), comp("RendererStatic", &["asset: 7"])],
        vec![obj("Wheel", None, vec![comp("Transform3D", &["position: (0,0,0)"])], vec![])],
    );
    let library = BaseLibrary { entries: vec![BaseEntry { key: "assets/base.comp".to_string(), raw: Some(base) }] };
    let child = obj(
        "Car",
        Some(" assets/base.comp "),
        vec![comp("Transform3D", &["position: (5,5,5)"]), comp("Tag", &["label: car"])],
        vec![obj("Wheel", None, vec![comp("Transform3D", &["position: (9,9,9)"])], vec![]), obj("Door", None, vec![], vec![])],
    );
    let r = resolve_node(&library, &child, &Vec::new());
    assert_eq!(r.name, "Car");
    let kinds: Vec<&str> = r.components.iter().map(|c| c.kind.as_str()).collect();
    assert_eq!(kinds, vec!["Transform3D", "RendererStatic", "Tag"]);
    let t = &r.components[0];
    assert_eq!((t.fields[0].raw.as_str(), t.fields[0].overridden), ("position: (5,5,5)", true));
    // a base without a base of its own resolves as a from-scratch object,
    // so what the child inherits from it counts as set
    assert_eq!((t.fields[1].raw.as_str(), t.fields[1].overridden), ("scale: (2,2,2)", true));
    assert!(!t.added_by_child && r.components[1].added_by_child && r.components[2].added_by_child);
    let names: Vec<&str> = r.children.iter().map(|c| c.name.as_str()).collect();
    assert_eq!(names, vec!["Wheel", "Door"]);
    assert_eq!(r.children[0].components[0].fields[0].raw, "position: (9,9,9)");
    let saved = resolved_to_raw(&r);
    assert_eq!(
        saved.components,
        vec![
            comp("Transform3D", &["position: (5,5,5)", "scale: (2,2,2)"]),
            comp("RendererStatic", &["asset: 7"]),
            comp("Tag", &["label: car"]),
        ]
    );
    let full = resolved_to_raw_full(&r);
    assert_eq!(full.components[1], comp("RendererStatic", &["asset: 7"]));
    assert_eq!(base_references(&child), vec!["assets/base.comp".to_string()]);
}

#[test]
fn cycles_and_missing_bases_resolve_as_if_no_base() {
    let child = obj("A", Some("a.comp"), vec![comp("Tag", &[])], vec![]);
    let empty = BaseLibrary { entries: Vec::new() };
    let r = resolve_node(&empty, &child, &Vec::new());
    assert!(r.base.is_none() && r.added_by_child);
    let visited = vec!["a.comp".to_string()];
    let lib = BaseLibrary { entries: vec![BaseEntry { key: "a.comp".to_string(), raw: Some(child.clone()) }] };
    let r2 = resolve_node(&lib, &child, &visited);
    assert!(r2.base.is_none());
    let failed = BaseLibrary { entries: vec![BaseEntry { key: "a.comp".to_string(), raw: None }] };
    assert!(resolve_node(&failed, &child, &Vec::new()).base.is_none());
    assert!(failed.has("a.comp") && lib.has("a.comp"));
    assert!(!empty.has("a.comp") && !failed.has("b.comp"));
}

#[test]
fn base_files_by_id_or_path() {
    let m = manifest();
    assert_eq!(base_file_path("/proj", " 8 ", &m), Ok("/proj/assets/base.comp".to_string()));
    assert_eq!(base_file_path("/proj", "7", &m), Ok("/proj/assets/hero.glb".to_string()));
    assert_eq!(base_file_path("/proj", "99", &m), Err("No manifest entry for ID 99".to_string()));
    assert_eq!(base_file_path("/proj", "assets/x.comp", &m), Ok("/proj/assets/x.comp".to_string()));
    assert_eq!(base_file_path("/proj", "008", &m), Err("No manifest entry for ID 008".to_string()));
}

#[test]
fn renderer_assets_resolve_against_the_manifest() {
    let m = manifest();
    assert_eq!(renderer_asset_path("/proj", "7", &m).as_deref(), Some("/proj/assets/hero2.glb"));
    assert_eq!(renderer_asset_path("/proj", "42", &m), None);
    assert_eq!(renderer_asset_path("/proj", "  ", &m), None);
    assert_eq!(renderer_asset_path("/proj", "models/car.glb", &m).as_deref(), Some("/proj/assets/models/car.glb"));
    assert_eq!(renderer_kind("RendererStatic"), RendererKind::Static);
    assert_eq!(renderer_kind("RendererDynamic"), RendererKind::Dynamic);
}

#[test]
fn render_targets_skip_disabled_subtrees() {
    let mut hidden = obj("hidden", None, vec![comp("RendererStatic", &["asset: 7"])], vec![obj("under", None, vec![comp("RendererDynamic", &["asset: spine/a.anim"])], vec![])]);
    hidden.enabled = false;
    let root = obj(
        "root",
        None,
        vec![comp("Transform3D", &[]), comp("RendererStatic", &["asset: 7"]), comp("RendererStatic", &["asset: 404"])],
        vec![hidden, obj("kid", None, vec![comp("RendererDynamic", &["asset: spine/a.anim"])], vec![])],
    );
    let targets = collect_render_targets("/proj", &root, &manifest());
    assert_eq!(targets.len(), 2);
    assert_eq!(targets[0].path, Vec::<usize>::new());
    assert_eq!(targets[0].asset_abs_path, "/proj/assets/hero2.glb");
    assert_eq!(targets[0].renderer_kind, RendererKind::Static);
    assert_eq!(targets[1].path, vec![1]);
    assert_eq!(targets[1].name, "kid");
    assert_eq!(targets[1].asset_abs_path, "/proj/assets/spine/a.anim");
    assert_eq!(targets[1].renderer_kind, RendererKind::Dynamic);
}

#[test]
fn facets_override_builtin_fields() {
    let facets = FacetManifest {
        manifest: vec![FacetComponent {
            name: "Transform3D".to_string(),
            data: vec![FacetField { name: "position".to_string(), data: EntryType::Vector3 }],
        }],
    };
    let f = component_fields(&facets, "Transform3D");
    assert_eq!(f.len(), 1);
    assert_eq!(component_fields(&facets, "RendererStatic")[0].name, "asset");
    assert!(component_fields(&facets, "Unknown").is_empty());
    let types = all_component_types(&facets);
    assert_eq!(types, vec!["RendererDynamic", "RendererStatic", "Transform2D", "Transform3D"]);
    let more = FacetManifest { manifest: vec![FacetComponent { name: "Audio".to_string(), data: vec![] }, FacetComponent { name: "Zebra".to_string(), data: vec![] }] };
    assert_eq!(all_component_types(&more), vec!["Audio", "RendererDynamic", "RendererStatic", "Transform2D", "Transform3D", "Zebra"]);
    let repeated = FacetManifest {
        manifest: vec![
            FacetComponent { name: "Audio".to_string(), data: vec![] },
            FacetComponent { name: "Audio".to_string(), data: vec![] },
            FacetComponent { name: "Transform2D".to_string(), data: vec![] },
        ],
    };
    assert_eq!(all_component_types(&repeated), vec!["Audio", "RendererDynamic", "RendererStatic", "Transform2D", "Transform3D"]);
    assert_eq!(sort_names(vec!["b".to_string(), "B".to_string(), "a".to_string()]), vec!["B", "a", "b"]);
}

#[test]
fn inspector_keys_and_rows() {
    assert_eq!(path_debug(&[]), "[]");
    assert_eq!(path_debug(&[0, 12, 3]), "[0, 12, 3]");
    assert_eq!(node_closed_key(&[1, 2]), "closed:[1, 2]");
    assert_eq!(component_closed_key(&[4], 2), "closed:[4]#2");
    let known = vec![FieldDescriptor { name: "position".to_string(), kind: EntryType::Vector3 }];
    let c = comp("Transform3D", &["position: (1,1,1)", "speed: 3", "mass: 1"]);
    let rows = inspector_fields(known, &c);
    let names: Vec<&str> = rows.iter().map(|r| r.name.as_str()).collect();
    assert_eq!(names, vec!["position", "speed", "mass"]);
    assert!(matches!(rows[1].kind, EntryType::Float));
    let all = vec!["RendererStatic".to_string(), "Tag".to_string(), "Transform3D".to_string()];
    assert_eq!(addable_component_types(&all, &vec![comp("Tag", &[])]), vec!["RendererStatic", "Transform3D"]);
}

#[test]
fn asset_dropdowns() {
    let m = manifest();
    let accepts = vec![".comp".to_string()];
    let d = asset_dropdown_model(Some(" 8 "), &accepts, "-- no base --", &m);
    assert_eq!(d.display, "base");
    assert!(d.can_clear);
    assert_eq!(d.options.len(), 1);
    assert_eq!(d.options[0].label, "base  (base.comp)");
    assert_eq!(d.options[0].value, "8");
    assert!(d.options[0].selected);
    let unknown = asset_dropdown_model(Some("55"), &accepts, "-- no base --", &m);
    assert_eq!(unknown.display, "unknown (55)");
    assert!(!unknown.can_clear);
    let none = asset_dropdown_model(None, &vec![".glb".to_string()], "-- pick --", &m);
    assert_eq!(none.display, "-- pick --");
    assert_eq!(none.options.len(), 2);
    assert!(!none.options[0].selected);
}

#[test]
fn gizmo_fields() {
    assert_eq!(field_name(GizmoMode::Translate), "position");
    assert_eq!(field_name(GizmoMode::Rotate), "rotation");
    assert_eq!(field_name(GizmoMode::Scale), "scale");
}

#[test]
fn prefab_state_edits_and_widgets() {
    let mut s = PrefabState::new();
    assert!(s.ensure_loaded("/proj/a.comp"));
    assert!(!s.ensure_loaded("/proj/a.comp"));
    assert!(!s.apply(PrefabAction::AddChild(vec![])));
    let raw = obj("root", None, vec![], vec![]);
    s.finish_load(Ok(raw), &BaseLibrary { entries: Vec::new() });
    assert!(s.apply(PrefabAction::AddChild(vec![])));
    assert_eq!(s.raw.as_ref().unwrap().children.len(), 1);
    assert!(s.apply(PrefabAction::SetName(vec![0], "kid".to_string())));
    assert_eq!(s.raw.as_ref().unwrap().children[0].name, "kid");
    assert!(!s.apply(PrefabAction::Select(Some(vec![0]))));
    assert_eq!(s.selected_path, Some(vec![0]));
    assert!(s.apply(PrefabAction::RemoveChild(vec![0])));
    assert!(s.selected_path.is_none());
    assert!(!s.apply(PrefabAction::ToggleExpand("closed:[]".to_string())));
    assert_eq!(s.expanded_nodes, vec!["closed:[]".to_string()]);
    assert!(!s.apply(PrefabAction::ToggleExpand("closed:[]".to_string())));
    assert!(s.expanded_nodes.is_empty());
    assert!(!s.apply(PrefabAction::RequestCameraReset));
    assert!(s.camera_reset_requested);
    assert_eq!(s.reload().as_deref(), Some("/proj/a.comp"));
    assert!(s.file_path.is_none());
}

#[test]
fn gizmo_slot_and_keys() {
    assert_eq!(local_transform_slot(&vec![comp("Tag", &[]), comp("Transform3D", &[]), comp("Transform3D", &[])]), (true, 1));
    assert_eq!(local_transform_slot(&vec![comp("Tag", &[]), comp("Transform2D", &[])]), (false, 2));
    assert_eq!(gizmo_mode_for_key('W', GizmoMode::Scale), GizmoMode::Translate);
    assert_eq!(gizmo_mode_for_key('E', GizmoMode::Scale), GizmoMode::Rotate);
    assert_eq!(gizmo_mode_for_key('R', GizmoMode::Translate), GizmoMode::Scale);
    assert_eq!(gizmo_mode_for_key('q', GizmoMode::Rotate), GizmoMode::Rotate);
}

#[test]
fn node_header_actions() {
    let quiet = NodeRowEvents {
        chevron_clicked: false,
        enabled_changed: None,
        name_clicked: false,
        delete_clicked: false,
        duplicate_clicked: false,
    };
    assert!(node_row_actions(&vec![0, 1], false, quiet).is_empty());
    let all = NodeRowEvents {
        chevron_clicked: true,
        enabled_changed: Some(false),
        name_clicked: true,
        delete_clicked: true,
        duplicate_clicked: true,
    };
    assert_eq!(
        node_row_actions(&vec![0, 1], false, all),
        vec![
            PrefabAction::ToggleExpand("closed:[0, 1]".to_string()),
            PrefabAction::SetEnabled(vec![0, 1], false),
            PrefabAction::Select(Some(vec![0, 1])),
            PrefabAction::RemoveChild(vec![0, 1]),
            PrefabAction::DuplicateChild(vec![0, 1]),
        ]
    );
    assert_eq!(
        node_row_actions(&vec![], true, all),
        vec![
            PrefabAction::ToggleExpand("closed:[]".to_string()),
            PrefabAction::SetEnabled(vec![], false),
            PrefabAction::Select(None),
        ]
    );
}

#[test]
fn component_header_actions_in_order() {
    let ev = ComponentHeaderEvents { chevron_clicked: true, remove_clicked: true, down_clicked: true, up_clicked: true };
    assert_eq!(
        component_header_actions(&vec![2], 1, ev),
        vec![
            PrefabAction::ToggleComponentOpen("closed:[2]#1".to_string()),
            PrefabAction::RemoveComponent(vec![2], 1),
            PrefabAction::MoveComponent(vec![2], 1, 2),
            PrefabAction::MoveComponent(vec![2], 1, 0),
        ]
    );
    let up_only = ComponentHeaderEvents { chevron_clicked: false, remove_clicked: false, down_clicked: false, up_clicked: true };
    assert!(component_header_actions(&vec![2], 0, up_only).is_empty());
}

#[test]
fn field_rows() {
    let c = comp("Transform2D", &["position: (1,2)", "visible: true", "position: (9,9)"]);
    assert_eq!(field_value(&c, "position").as_deref(), Some("(1,2)"));
    assert_eq!(field_value(&c, "scale"), None);
    assert!(field_is_checked(&field_value(&c, "visible")));
    assert!(!field_is_checked(&None));
    assert_eq!(vector_axes(&EntryType::Vector2), vec!['x', 'y']);
    assert_eq!(vector_axes(&EntryType::Vector4), vec!['x', 'y', 'z', 'w']);
    assert!(!axis_shown("Transform2D", "position", 'z'));
    assert!(axis_shown("Transform2D", "rotation", 'z'));
    assert!(axis_shown("Transform3D", "position", 'z'));

    let speed = FieldDescriptor { name: "speed".to_string(), kind: EntryType::Float };
    let pos = FieldDescriptor { name: "position".to_string(), kind: EntryType::Vector3 };
    let flag = FieldDescriptor { name: "on".to_string(), kind: EntryType::Bool };
    let mesh = FieldDescriptor { name: "asset".to_string(), kind: EntryType::Asset(".glb".to_string()) };
    let p = vec![0];
    assert_eq!(field_action(&p, 1, &speed, FieldEdit::SetDefault), Some(PrefabAction::SetComponentField(vec![0], 1, "speed: 0".to_string())));
    assert_eq!(
        field_action(&p, 1, &pos, FieldEdit::SetDefault),
        Some(PrefabAction::SetComponentField(vec![0], 1, "position: (0.0,0.0,0.0)".to_string()))
    );
    assert_eq!(field_action(&p, 1, &flag, FieldEdit::SetDefault), Some(PrefabAction::SetComponentField(vec![0], 1, "on: false".to_string())));
    assert_eq!(field_action(&p, 1, &mesh, FieldEdit::SetDefault), None);
    assert_eq!(field_action(&p, 1, &flag, FieldEdit::Toggle(true)), Some(PrefabAction::SetComponentField(vec![0], 1, "on: true".to_string())));
    assert_eq!(field_action(&p, 1, &speed, FieldEdit::Typed("2.5".to_string())), Some(PrefabAction::SetComponentField(vec![0], 1, "speed: 2.5".to_string())));
    assert_eq!(field_action(&p, 1, &speed, FieldEdit::Typed("   ".to_string())), None);
    assert_eq!(field_action(&p, 1, &speed, FieldEdit::Clear), Some(PrefabAction::RemoveComponentField(vec![0], 1, "speed".to_string())));
    assert_eq!(
        field_action(&p, 1, &mesh, FieldEdit::AssetChosen(Some("7".to_string()))),
        Some(PrefabAction::SetComponentField(vec![0], 1, "asset: 7".to_string()))
    );
    assert_eq!(field_action(&p, 1, &mesh, FieldEdit::AssetChosen(None)), Some(PrefabAction::RemoveComponentField(vec![0], 1, "asset".to_string())));
}

#[test]
fn a_child_may_use_its_parents_base() {
    let x = obj("X", None, vec![comp("Tag", &["label: x"])], vec![]);
    let library = BaseLibrary { entries: vec![BaseEntry { key: "x.comp".to_string(), raw: Some(x) }] };
    let c = obj("C", Some("x.comp"), vec![], vec![]);
    let parent = obj("P", Some("x.comp"), vec![], vec![c.clone()]);
    let r = resolve_node(&library, &parent, &Vec::new());
    let alone = resolve_node(&library, &c, &Vec::new());
    assert_eq!(r.children.len(), 1);
    assert_eq!(r.children[0].components.len(), 1);
    assert_eq!(r.children[0].components[0].kind, "Tag");
    assert_eq!(r.children[0].base, alone.base);
    assert_eq!(r.children[0].components.len(), alone.components.len());
    // a base that contains itself is a cycle and falls back
    let y = obj("Y", None, vec![], vec![obj("Inner", Some("y.comp"), vec![comp("Tag", &[])], vec![])]);
    let lib_y = BaseLibrary { entries: vec![BaseEntry { key: "y.comp".to_string(), raw: Some(y) }] };
    let top = obj("Top", Some("y.comp"), vec![], vec![]);
    let ry = resolve_node(&lib_y, &top, &Vec::new());
    assert_eq!(ry.children.len(), 1);
}

#[test]
fn edits_keep_the_resolution_until_resolved_again() {
    let mut s = PrefabState::new();
    s.ensure_loaded("/proj/a.comp");
    let raw = obj("root", None, vec![], vec![]);
    s.finish_load(Ok(raw), &BaseLibrary { entries: Vec::new() });
    assert!(!s.apply(PrefabAction::ToggleExpand("k".to_string())));
    assert!(s.resolved.is_some());
    assert!(s.apply(PrefabAction::AddChild(vec![])));
    assert_eq!(s.resolved.as_ref().unwrap().children.len(), 0);
    s.resolve_with(&BaseLibrary { entries: Vec::new() });
    assert_eq!(s.resolved.as_ref().unwrap().children.len(), 1);
    assert!(!s.apply(PrefabAction::RequestCameraReset));
    assert!(s.take_camera_reset());
    assert!(!s.take_camera_reset());
}

#[test]
fn bases_are_read_once_each() {
    let root = obj("P", Some("a.comp"), vec![], vec![obj("C", Some("b.comp"), vec![], vec![]), obj("D", Some("a.comp"), vec![], vec![])]);
    let mut loader = BaseLoader::new(&root);
    assert_eq!(loader.pending, vec!["a.comp".to_string(), "b.comp".to_string(), "a.comp".to_string()]);
    assert_eq!(loader.next_key(), Some("a.comp".to_string()));
    loader.loaded("a.comp".to_string(), Some(obj("A", Some("c.comp"), vec![], vec![])));
    assert_eq!(loader.next_key(), Some("c.comp".to_string()));
    loader.loaded("c.comp".to_string(), None);
    assert_eq!(loader.next_key(), Some("b.comp".to_string()));
    loader.loaded("b.comp".to_string(), None);
    assert_eq!(loader.next_key(), None);
    assert!(loader.pending.is_empty());
    assert_eq!(loader.library.entries.len(), 3);
}

#[test]
fn finishing_a_load_resolves_through_the_bases() {
    let mut s = PrefabState::new();
    assert!(s.ensure_loaded("/proj/top.comp"));
    let y = obj("Y", None, vec![], vec![obj("Inner", None, vec![comp("Tag", &[])], vec![])]);
    let lib = BaseLibrary { entries: vec![BaseEntry { key: "y.comp".to_string(), raw: Some(y) }] };
    let top = obj("Top", Some("y.comp"), vec![], vec![]);
    s.finish_load(Ok(top), &lib);
    assert_eq!(s.resolved.as_ref().unwrap().children.len(), 1);
    assert!(s.load_error.is_none());
    assert!(!s.ensure_loaded("/proj/top.comp"));
    assert_eq!(s.resolved.as_ref().unwrap().children.len(), 1);
    assert!(s.ensure_loaded("/proj/other.comp"));
    s.finish_load(Err("Failed to read file: gone".to_string()), &BaseLibrary { entries: Vec::new() });
    assert_eq!(s.load_error.as_deref(), Some("Failed to read file: gone"));
    assert_eq!(s.raw.as_ref().unwrap().name, "Top");
    assert_eq!(s.resolved.as_ref().unwrap().children.len(), 1);
}

#[test]
fn an_edit_is_resolved_and_handed_back_for_saving() {
    let mut s = PrefabState::new();
    let y = obj("Y", None, vec![], vec![obj("Inner", None, vec![], vec![])]);
    let lib = BaseLibrary { entries: vec![BaseEntry { key: "y.comp".to_string(), raw: Some(y) }] };
    assert!(s.apply_and_resolve(PrefabAction::AddChild(vec![]), &lib).is_none());
    assert!(s.ensure_loaded("/proj/top.comp"));
    s.finish_load(Ok(obj("Top", None, vec![], vec![])), &BaseLibrary { entries: Vec::new() });
    let edit = PrefabAction::SetBase(vec![], Some("y.comp".to_string()));
    let next = s.edited_tree(&edit).unwrap();
    assert_eq!(next.base.as_deref(), Some("y.comp"));
    assert!(s.raw.as_ref().unwrap().base.is_none());
    let (path, tree) = s.apply_and_resolve(edit, &lib).unwrap();
    assert_eq!(path, "/proj/top.comp");
    assert_eq!(tree.base.as_deref(), Some("y.comp"));
    assert_eq!(s.raw.as_ref().unwrap().base.as_deref(), Some("y.comp"));
    assert_eq!(s.resolved.as_ref().unwrap().children.len(), 1);
    assert!(s.edited_tree(&PrefabAction::RequestCameraReset).is_none());
    assert!(s.apply_and_resolve(PrefabAction::ToggleExpand("k".to_string()), &lib).is_none());
    assert_eq!(s.expanded_nodes, vec!["k".to_string()]);
    assert_eq!(s.resolved.as_ref().unwrap().children.len(), 1);
}
