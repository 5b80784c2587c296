//! State of the prefab editor: the loaded raw tree, its resolution, and the
//! editing actions that the tree/inspector widgets queue up.
use vstd::prelude::*;
use crate::text::{str_eq, concat};
use crate::prefab_types::{
    PrefabComponentRaw, PrefabGameObjectRaw, ComponentView, GameObjectView, components_view,
    objects_view, lemma_objects_view, strings_view, opt_string_view, clone_strings,
    clone_opt_string, field_key, field_key_of, node_at, replace_at,
    get_node_at_path_mut, default_game_object, fresh_object, remove_fields_with_key,
    lemma_node_at_replace_at, field_value, field_value_of, first_field_with_key, lemma_first_field_with_key,
};
use crate::prefab_resolver::{BaseLibrary, ResolvedGameObject, resolve_node, resolve_view};

verus! {

// ─── gizmo mode ────────────────────────────────────────────────────────────

/// Which handles the 3D viewport's gizmo shows for the selected object.
#[derive(Debug, Clone, Copy, PartialEq, Eq, Structural)]
pub enum GizmoMode {
    Translate,
    Rotate,
    Scale,
}

/// The transform field a gizmo mode edits.
pub open spec fn gizmo_field(mode: GizmoMode) -> Seq<char> {
    match mode {
        GizmoMode::Translate => "position"@,
        GizmoMode::Rotate => "rotation"@,
        GizmoMode::Scale => "scale"@,
    }
}

/// `position`, `rotation` or `scale`: the field the gizmo edits.
pub fn field_name(mode: GizmoMode) -> (r: &'static str)
    ensures
        r@ == gizmo_field(mode),
{
    match mode {
        GizmoMode::Translate => "position",
        GizmoMode::Rotate => "rotation",
        GizmoMode::Scale => "scale",
    }
}

impl Default for GizmoMode {
    fn default() -> (r: Self)
        ensures
            r == GizmoMode::Translate,
    {
        GizmoMode::Translate
    }
}

// ─── actions ───────────────────────────────────────────────────────────────

/// An edit queued while the widgets walk the tree, applied afterwards.
#[derive(Debug, PartialEq)]
pub enum PrefabAction {
    ToggleExpand(String),
    ToggleComponentOpen(String),
    Select(Option<Vec<usize>>),
    RequestCameraReset,
    SetEnabled(Vec<usize>, bool),
    SetName(Vec<usize>, String),
    SetBase(Vec<usize>, Option<String>),
    AddChild(Vec<usize>),
    RemoveChild(Vec<usize>),
    DuplicateChild(Vec<usize>),
    AddComponent(Vec<usize>, String),
    /// Like `AddComponent`, with initial fields.
    AddComponentWithFields(Vec<usize>, String, Vec<String>),
    RemoveComponent(Vec<usize>, usize),
    MoveComponent(Vec<usize>, usize, usize),
    SetComponentField(Vec<usize>, usize, String),
    RemoveComponentField(Vec<usize>, usize, String),
}

/// Model of an action.
pub enum PrefabActionView {
    ToggleExpand(Seq<char>),
    ToggleComponentOpen(Seq<char>),
    Select(Option<Seq<usize>>),
    RequestCameraReset,
    SetEnabled(Seq<usize>, bool),
    SetName(Seq<usize>, Seq<char>),
    SetBase(Seq<usize>, Option<Seq<char>>),
    AddChild(Seq<usize>),
    RemoveChild(Seq<usize>),
    DuplicateChild(Seq<usize>),
    AddComponent(Seq<usize>, Seq<char>),
    AddComponentWithFields(Seq<usize>, Seq<char>, Seq<Seq<char>>),
    RemoveComponent(Seq<usize>, usize),
    MoveComponent(Seq<usize>, usize, usize),
    SetComponentField(Seq<usize>, usize, Seq<char>),
    RemoveComponentField(Seq<usize>, usize, Seq<char>),
}

/// An optional path, as a sequence.
pub open spec fn opt_path_view(p: Option<Vec<usize>>) -> Option<Seq<usize>> {
    match p {
        Some(v) => Some(v@),
        None => None,
    }
}

impl View for PrefabAction {
    type V = PrefabActionView;

    open spec fn view(&self) -> PrefabActionView {
        match self {
            PrefabAction::ToggleExpand(k) => PrefabActionView::ToggleExpand(k@),
            PrefabAction::ToggleComponentOpen(k) => PrefabActionView::ToggleComponentOpen(k@),
            PrefabAction::Select(p) => PrefabActionView::Select(opt_path_view(*p)),
            PrefabAction::RequestCameraReset => PrefabActionView::RequestCameraReset,
            PrefabAction::SetEnabled(p, e) => PrefabActionView::SetEnabled(p@, *e),
            PrefabAction::SetName(p, n) => PrefabActionView::SetName(p@, n@),
            PrefabAction::SetBase(p, b) => PrefabActionView::SetBase(p@, opt_string_view(*b)),
            PrefabAction::AddChild(p) => PrefabActionView::AddChild(p@),
            PrefabAction::RemoveChild(p) => PrefabActionView::RemoveChild(p@),
            PrefabAction::DuplicateChild(p) => PrefabActionView::DuplicateChild(p@),
            PrefabAction::AddComponent(p, k) => PrefabActionView::AddComponent(p@, k@),
            PrefabAction::AddComponentWithFields(p, k, f) => PrefabActionView::AddComponentWithFields(p@, k@, strings_view(f@)),
            PrefabAction::RemoveComponent(p, i) => PrefabActionView::RemoveComponent(p@, *i),
            PrefabAction::MoveComponent(p, a, b) => PrefabActionView::MoveComponent(p@, *a, *b),
            PrefabAction::SetComponentField(p, i, f) => PrefabActionView::SetComponentField(p@, *i, f@),
            PrefabAction::RemoveComponentField(p, i, k) => PrefabActionView::RemoveComponentField(p@, *i, k@),
        }
    }
}

/// Does the action edit the tree (rather than only the widgets' state)?
pub open spec fn is_edit(a: PrefabActionView) -> bool {
    !(a is ToggleExpand || a is ToggleComponentOpen || a is Select || a is RequestCameraReset)
}

/// The path of the node an edit changes: the parent, for removing and
/// duplicating a child.
pub open spec fn edit_target(a: PrefabActionView) -> Seq<usize> {
    match a {
        PrefabActionView::SetEnabled(p, _) => p,
        PrefabActionView::SetName(p, _) => p,
        PrefabActionView::SetBase(p, _) => p,
        PrefabActionView::AddChild(p) => p,
        PrefabActionView::RemoveChild(p) => if p.len() > 0 { p.drop_last() } else { p },
        PrefabActionView::DuplicateChild(p) => if p.len() > 0 { p.drop_last() } else { p },
        PrefabActionView::AddComponent(p, _) => p,
        PrefabActionView::AddComponentWithFields(p, _, _) => p,
        PrefabActionView::RemoveComponent(p, _) => p,
        PrefabActionView::MoveComponent(p, _, _) => p,
        PrefabActionView::SetComponentField(p, _, _) => p,
        PrefabActionView::RemoveComponentField(p, _, _) => p,
        _ => Seq::empty(),
    }
}

/// `fields` without those keyed by `raw_field`'s key, then `raw_field`.
pub open spec fn fields_with(fields: Seq<Seq<char>>, raw_field: Seq<char>) -> Seq<Seq<char>> {
    fields.filter(|f: Seq<char>| field_key(f) != field_key(raw_field)).push(raw_field)
}

/// `fields` without those keyed `key`.
pub open spec fn fields_without(fields: Seq<Seq<char>>, key: Seq<char>) -> Seq<Seq<char>> {
    fields.filter(|f: Seq<char>| field_key(f) != key)
}

/// The component at `i` with its fields changed by `f`, when there is one.
pub open spec fn map_component(cs: Seq<ComponentView>, i: int, fields: Seq<Seq<char>>) -> Seq<ComponentView> {
    if 0 <= i < cs.len() {
        cs.update(i, ComponentView { kind: cs[i].kind, fields })
    } else {
        cs
    }
}

/// What an edit does to the node it targets.
pub open spec fn edit_node(n: GameObjectView, a: PrefabActionView) -> GameObjectView {
    match a {
        PrefabActionView::SetEnabled(_, e) => GameObjectView { enabled: e, ..n },
        PrefabActionView::SetName(_, name) => GameObjectView { name, ..n },
        PrefabActionView::SetBase(_, b) => GameObjectView { base: b, ..n },
        PrefabActionView::AddChild(_) => GameObjectView {
            children: n.children.push(fresh_object("New GameObject"@)),
            ..n
        },
        PrefabActionView::RemoveChild(p) => if p.len() > 0 && p.last() < n.children.len() {
            GameObjectView { children: n.children.remove(p.last() as int), ..n }
        } else {
            n
        },
        PrefabActionView::DuplicateChild(p) => if p.len() > 0 && p.last() < n.children.len() {
            let c = n.children[p.last() as int];
            GameObjectView {
                children: n.children.insert(p.last() + 1, GameObjectView { name: c.name + "_1"@, ..c }),
                ..n
            }
        } else {
            n
        },
        PrefabActionView::AddComponent(_, kind) => GameObjectView {
            components: n.components.push(ComponentView { kind, fields: Seq::empty() }),
            ..n
        },
        PrefabActionView::AddComponentWithFields(_, kind, fields) => GameObjectView {
            components: n.components.push(ComponentView { kind, fields }),
            ..n
        },
        PrefabActionView::RemoveComponent(_, i) => if i < n.components.len() {
            GameObjectView { components: n.components.remove(i as int), ..n }
        } else {
            n
        },
        PrefabActionView::MoveComponent(_, from, to) => if from < n.components.len() && to < n.components.len() {
            GameObjectView {
                components: n.components.remove(from as int).insert(to as int, n.components[from as int]),
                ..n
            }
        } else {
            n
        },
        PrefabActionView::SetComponentField(_, i, raw_field) => if i < n.components.len() {
            GameObjectView {
                components: map_component(n.components, i as int, fields_with(n.components[i as int].fields, raw_field)),
                ..n
            }
        } else {
            n
        },
        PrefabActionView::RemoveComponentField(_, i, key) => if i < n.components.len() {
            GameObjectView {
                components: map_component(n.components, i as int, fields_without(n.components[i as int].fields, key)),
                ..n
            }
        } else {
            n
        },
        _ => n,
    }
}

/// What an edit does to the whole tree: its target node edited, or nothing
/// when the target path leads nowhere.
pub open spec fn apply_edit(raw: GameObjectView, a: PrefabActionView) -> GameObjectView {
    match node_at(raw, edit_target(a)) {
        Some(n) => replace_at(raw, edit_target(a), edit_node(n, a)),
        None => raw,
    }
}


// ─── executing an edit on one node ─────────────────────────────────────────

proof fn lemma_objects_view_remove(s: Seq<PrefabGameObjectRaw>, i: int)
    requires
        0 <= i < s.len(),
    ensures
        objects_view(s.remove(i)) == objects_view(s).remove(i),
{
    lemma_objects_view(s);
    lemma_objects_view(s.remove(i));
    assert(objects_view(s.remove(i)) =~= objects_view(s).remove(i));
}

proof fn lemma_objects_view_insert(s: Seq<PrefabGameObjectRaw>, i: int, c: PrefabGameObjectRaw)
    requires
        0 <= i <= s.len(),
    ensures
        objects_view(s.insert(i, c)) == objects_view(s).insert(i, c@),
{
    lemma_objects_view(s);
    lemma_objects_view(s.insert(i, c));
    assert(objects_view(s.insert(i, c)) =~= objects_view(s).insert(i, c@));
}

proof fn lemma_objects_view_push(s: Seq<PrefabGameObjectRaw>, c: PrefabGameObjectRaw)
    ensures
        objects_view(s.push(c)) == objects_view(s).push(c@),
{
    lemma_objects_view(s);
    lemma_objects_view(s.push(c));
    assert(objects_view(s.push(c)) =~= objects_view(s).push(c@));
}

fn set_fields_of(comps: &mut Vec<PrefabComponentRaw>, i: usize, fields: Vec<String>)
    requires
        i < old(comps)@.len(),
    ensures
        components_view(final(comps)@) == map_component(components_view(old(comps)@), i as int, strings_view(fields@)),
{
    let kind = comps[i].kind.clone();
    comps.set(i, PrefabComponentRaw { kind, fields });
    assert(components_view(comps@) =~= map_component(components_view(old(comps)@), i as int, strings_view(fields@)));
}

fn fields_with_exec(fields: &Vec<String>, raw_field: String) -> (r: Vec<String>)
    ensures
        strings_view(r@) == fields_with(strings_view(fields@), raw_field@),
{
    let key = field_key_of(raw_field.as_str());
    let mut kept = remove_fields_with_key(fields, key.as_str());
    let ghost before = kept@;
    kept.push(raw_field);
    proof {
        assert(strings_view(kept@) =~= strings_view(before).push(raw_field@));
    }
    kept
}

/// Applies an edit to the node it targets.
fn edit_node_exec(node: &mut PrefabGameObjectRaw, action: &PrefabAction)
    ensures
        final(node)@ == edit_node(old(node)@, action@),
{
    proof {
        lemma_objects_view(node.children@);
    }
    match action {
        PrefabAction::SetEnabled(_, e) => {
            node.enabled = *e;
        },
        PrefabAction::SetName(_, name) => {
            node.name = name.clone();
        },
        PrefabAction::SetBase(_, b) => {
            node.base = clone_opt_string(b);
        },
        PrefabAction::AddChild(_) => {
            let fresh = default_game_object("New GameObject");
            proof {
                lemma_objects_view_push(node.children@, fresh);
            }
            node.children.push(fresh);
        },
        PrefabAction::RemoveChild(p) => {
            if p.len() > 0 {
                let idx = p[p.len() - 1];
                if idx < node.children.len() {
                    proof {
                        lemma_objects_view_remove(node.children@, idx as int);
                    }
                    node.children.remove(idx);
                }
            }
        },
        PrefabAction::DuplicateChild(p) => {
            if p.len() > 0 {
                let idx = p[p.len() - 1];
                if idx < node.children.len() {
                    let mut dup = node.children[idx].clone();
                    dup.name = concat(dup.name.as_str(), "_1");
                    proof {
                        lemma_objects_view_insert(node.children@, idx + 1, dup);
                    }
                    node.children.insert(idx + 1, dup);
                }
            }
        },
        PrefabAction::AddComponent(_, kind) => {
            let c = PrefabComponentRaw { kind: kind.clone(), fields: Vec::new() };
            let ghost before = node.components@;
            node.components.push(c);
            proof {
                assert(c@.fields =~= Seq::<Seq<char>>::empty());
                assert(components_view(node.components@) =~= components_view(before).push(c@));
            }
        },
        PrefabAction::AddComponentWithFields(_, kind, fields) => {
            let c = PrefabComponentRaw { kind: kind.clone(), fields: clone_strings(fields) };
            let ghost before = node.components@;
            node.components.push(c);
            proof {
                assert(components_view(node.components@) =~= components_view(before).push(c@));
            }
        },
        PrefabAction::RemoveComponent(_, i) => {
            if *i < node.components.len() {
                let ghost before = node.components@;
                node.components.remove(*i);
                proof {
                    assert(components_view(node.components@) =~= components_view(before).remove(*i as int));
                }
            }
        },
        PrefabAction::MoveComponent(_, from, to) => {
            if *from < node.components.len() && *to < node.components.len() {
                let ghost before = node.components@;
                let c = node.components.remove(*from);
                node.components.insert(*to, c);
                proof {
                    assert(components_view(node.components@) =~= components_view(before).remove(*from as int).insert(
                        *to as int,
                        components_view(before)[*from as int],
                    ));
                }
            }
        },
        PrefabAction::SetComponentField(_, i, raw_field) => {
            if *i < node.components.len() {
                let fields = fields_with_exec(&node.components[*i].fields, raw_field.clone());
                set_fields_of(&mut node.components, *i, fields);
            }
        },
        PrefabAction::RemoveComponentField(_, i, key) => {
            if *i < node.components.len() {
                let fields = remove_fields_with_key(&node.components[*i].fields, key.as_str());
                set_fields_of(&mut node.components, *i, fields);
            }
        },
        _ => {},
    }
    assert(node@ =~= edit_node(old(node)@, action@));
}


// ─── toggled key sets ──────────────────────────────────────────────────────

/// `after` holds `key` exactly when `before` did not, and every other key
/// exactly when `before` did.
pub open spec fn toggled(before: Seq<Seq<char>>, after: Seq<Seq<char>>, key: Seq<char>) -> bool {
    forall|x: Seq<char>| #[trigger] after.contains(x) == if x == key {
        !before.contains(key)
    } else {
        before.contains(x)
    }
}

proof fn lemma_contains_push(s: Seq<Seq<char>>, a: Seq<char>, x: Seq<char>)
    ensures
        s.push(a).contains(x) == (s.contains(x) || a == x),
{
    if s.contains(x) {
        let j = choose|j: int| 0 <= j < s.len() && s[j] == x;
        assert(s.push(a)[j] == x);
    }
    if s.push(a).contains(x) {
        let j = choose|j: int| 0 <= j < s.push(a).len() && s.push(a)[j] == x;
        if j < s.len() {
            assert(s[j] == x);
        }
    }
    assert(s.push(a)[s.len() as int] == a);
}

/// Toggles `key`'s membership in a set of keys kept as a vector.
pub fn toggle_key(set: &mut Vec<String>, key: String)
    ensures
        toggled(strings_view(old(set)@), strings_view(final(set)@), key@),
{
    let ghost sv = strings_view(set@);
    let mut present = false;
    let mut i: usize = 0;
    while i < set.len()
        invariant
            i <= set@.len(),
            sv == strings_view(set@),
            present == strings_view(set@).take(i as int).contains(key@),
        decreases set@.len() - i,
    {
        proof {
            assert(sv.take(i + 1) =~= sv.take(i as int).push(sv[i as int]));
            lemma_contains_push(sv.take(i as int), sv[i as int], key@);
        }
        if str_eq(set[i].as_str(), key.as_str()) {
            present = true;
        }
        i += 1;
    }
    proof {
        assert(sv.take(sv.len() as int) =~= sv);
    }
    if present {
        let kept = remove_equal(set, key.as_str());
        *set = kept;
    } else {
        set.push(key);
        proof {
            assert(strings_view(set@) =~= sv.push(key@));
            assert forall|x: Seq<char>| #[trigger] strings_view(set@).contains(x) == if x == key@ {
                !sv.contains(key@)
            } else {
                sv.contains(x)
            } by {
                if strings_view(set@).contains(x) && x != key@ {
                    let j = choose|j: int| 0 <= j < strings_view(set@).len() && strings_view(set@)[j] == x;
                    assert(sv[j] == x);
                }
                if sv.contains(x) {
                    let j = choose|j: int| 0 <= j < sv.len() && sv[j] == x;
                    assert(strings_view(set@)[j] == x);
                }
                assert(strings_view(set@)[sv.len() as int] == key@);
            }
        }
    }
}

fn remove_equal(set: &Vec<String>, key: &str) -> (r: Vec<String>)
    ensures
        forall|x: Seq<char>| #[trigger] strings_view(r@).contains(x) == (x != key@ && strings_view(set@).contains(x)),
{
    let ghost sv = strings_view(set@);
    let mut out: Vec<String> = Vec::new();
    let mut i: usize = 0;
    while i < set.len()
        invariant
            i <= set@.len(),
            sv == strings_view(set@),
            forall|x: Seq<char>| #[trigger] strings_view(out@).contains(x) == (x != key@ && sv.take(i as int).contains(x)),
        decreases set@.len() - i,
    {
        let ghost before = strings_view(out@);
        proof {
            assert(sv.take(i + 1) =~= sv.take(i as int).push(sv[i as int]));
        }
        if !str_eq(set[i].as_str(), key) {
            out.push(set[i].clone());
            proof {
                assert(strings_view(out@) =~= before.push(sv[i as int]));
                assert forall|x: Seq<char>| #[trigger] strings_view(out@).contains(x) == (x != key@ && sv.take(i + 1).contains(x)) by {
                    lemma_contains_push(before, sv[i as int], x);
                    lemma_contains_push(sv.take(i as int), sv[i as int], x);
                }
            }
        } else {
            proof {
                assert forall|x: Seq<char>| #[trigger] strings_view(out@).contains(x) == (x != key@ && sv.take(i + 1).contains(x)) by {
                    lemma_contains_push(sv.take(i as int), sv[i as int], x);
                }
            }
        }
        i += 1;
    }
    proof {
        assert(sv.take(sv.len() as int) =~= sv);
    }
    out
}

/// Toggling the same key twice restores every key's membership.
pub proof fn lemma_toggle_twice(s0: Seq<Seq<char>>, s1: Seq<Seq<char>>, s2: Seq<Seq<char>>, key: Seq<char>)
    requires
        toggled(s0, s1, key),
        toggled(s1, s2, key),
    ensures
        forall|x: Seq<char>| #[trigger] s2.contains(x) == s0.contains(x),
{
    assert forall|x: Seq<char>| #[trigger] s2.contains(x) == s0.contains(x) by {
        assert(s2.contains(x) == if x == key { !s1.contains(key) } else { s1.contains(x) });
        assert(s1.contains(key) == !s0.contains(key));
        assert(s1.contains(x) == if x == key { !s0.contains(key) } else { s0.contains(x) });
    }
}

// ─── the editor state ──────────────────────────────────────────────────────

/// State backing the prefab editor.
#[derive(Debug)]
pub struct PrefabState {
    pub file_path: Option<String>,
    pub raw: Option<PrefabGameObjectRaw>,
    pub resolved: Option<ResolvedGameObject>,
    pub load_error: Option<String>,
    pub selected_path: Option<Vec<usize>>,
    /// keys of the tree nodes shown closed, kept as a set
    /// (a `Vec`: vstd states `HashSet` only for keys with a key model,
    /// and `String` has none)
    pub expanded_nodes: Vec<String>,
    /// keys of the component blocks shown closed, kept as a set
    pub open_components: Vec<String>,
    pub camera_reset_requested: bool,
    pub gizmo_mode: GizmoMode,
}

/// The raw tree's model, when one is loaded.
pub open spec fn opt_raw_view(r: Option<PrefabGameObjectRaw>) -> Option<GameObjectView> {
    match r {
        Some(t) => Some(t@),
        None => None,
    }
}

/// What [`PrefabState::apply`] makes of the state, the resolved tree
/// aside: `after` is `before` with `a` applied.
pub open spec fn applied(before: PrefabState, after: PrefabState, a: PrefabActionView) -> bool {
    &&& opt_raw_view(after.raw) == match opt_raw_view(before.raw) {
        Some(r) => if is_edit(a) { Some(apply_edit(r, a)) } else { Some(r) },
        None => None,
    }
    &&& opt_path_view(after.selected_path) == match a {
        PrefabActionView::Select(p) => p,
        PrefabActionView::RemoveChild(p) => if before.raw is Some && opt_path_view(before.selected_path) == Some(p) {
            None
        } else {
            opt_path_view(before.selected_path)
        },
        _ => opt_path_view(before.selected_path),
    }
    &&& match a {
        PrefabActionView::ToggleExpand(k) => toggled(strings_view(before.expanded_nodes@), strings_view(after.expanded_nodes@), k),
        _ => after.expanded_nodes@ == before.expanded_nodes@,
    }
    &&& match a {
        PrefabActionView::ToggleComponentOpen(k) => toggled(strings_view(before.open_components@), strings_view(after.open_components@), k),
        _ => after.open_components@ == before.open_components@,
    }
    &&& after.camera_reset_requested == (before.camera_reset_requested || a is RequestCameraReset)
    &&& after.file_path == before.file_path
    &&& after.load_error == before.load_error
    &&& after.gizmo_mode == before.gizmo_mode
}

impl PrefabState {
    /// Nothing loaded, nothing selected, translate gizmo.
    pub fn new() -> (r: Self)
        ensures
            r.file_path is None,
            r.raw is None,
            r.resolved is None,
            r.load_error is None,
            r.selected_path is None,
            r.expanded_nodes@.len() == 0,
            r.open_components@.len() == 0,
            !r.camera_reset_requested,
            r.gizmo_mode == GizmoMode::Translate,
    {
        PrefabState {
            file_path: None,
            raw: None,
            resolved: None,
            load_error: None,
            selected_path: None,
            expanded_nodes: Vec::new(),
            open_components: Vec::new(),
            camera_reset_requested: false,
            gizmo_mode: GizmoMode::default(),
        }
    }

    /// Starts showing the file at `path`. Answers whether it has to be read
    /// (it is not read again when it is already the one shown): then the
    /// selection and the last error are cleared.
    pub fn ensure_loaded(&mut self, path: &str) -> (load: bool)
        ensures
            load == !(opt_string_view(old(self).file_path) == Some(path@)),
            opt_string_view(final(self).file_path) == Some(path@),
            load ==> final(self).selected_path is None && final(self).load_error is None,
            !load ==> final(self).selected_path == old(self).selected_path
                && final(self).load_error == old(self).load_error,
            opt_raw_view(final(self).raw) == opt_raw_view(old(self).raw),
            final(self).resolved == old(self).resolved,
            final(self).expanded_nodes@ == old(self).expanded_nodes@,
            final(self).open_components@ == old(self).open_components@,
            final(self).camera_reset_requested == old(self).camera_reset_requested,
            final(self).gizmo_mode == old(self).gizmo_mode,
    {
        let same = match &self.file_path {
            Some(p) => str_eq(p.as_str(), path),
            None => false,
        };
        if same {
            return false;
        }
        self.file_path = Some(path.to_owned());
        self.selected_path = None;
        self.load_error = None;
        true
    }

    /// Records how reading the file went: the raw tree, resolved afresh
    /// through the bases in `bases`, or the error to show.
    pub fn finish_load(&mut self, outcome: Result<PrefabGameObjectRaw, String>, bases: &BaseLibrary)
        ensures
            match outcome {
                Ok(raw) => {
                    &&& opt_raw_view(final(self).raw) == Some(raw@)
                    &&& (match final(self).resolved {
                        Some(r) => r@ == resolve_view(bases@, raw@, Seq::empty()),
                        None => false,
                    })
                    &&& final(self).load_error == old(self).load_error
                },
                Err(e) => {
                    &&& final(self).load_error == Some(e)
                    &&& opt_raw_view(final(self).raw) == opt_raw_view(old(self).raw)
                    &&& final(self).resolved == old(self).resolved
                },
            },
            final(self).file_path == old(self).file_path,
            final(self).selected_path == old(self).selected_path,
            final(self).expanded_nodes@ == old(self).expanded_nodes@,
            final(self).open_components@ == old(self).open_components@,
            final(self).camera_reset_requested == old(self).camera_reset_requested,
            final(self).gizmo_mode == old(self).gizmo_mode,
    {
        match outcome {
            Ok(raw) => {
                let none: Vec<String> = Vec::new();
                proof {
                    assert(strings_view(none@) =~= Seq::<Seq<char>>::empty());
                }
                self.resolved = Some(resolve_node(bases, &raw, &none));
                self.raw = Some(raw);
            },
            Err(e) => {
                self.load_error = Some(e);
            },
        }
    }

    /// Forgets which file is shown so that the next `ensure_loaded` reads it
    /// again; answers the file to read.
    pub fn reload(&mut self) -> (path: Option<String>)
        ensures
            path == old(self).file_path,
            final(self).file_path is None,
            opt_raw_view(final(self).raw) == opt_raw_view(old(self).raw),
    {
        let path = self.file_path.take();
        path
    }

    /// The raw tree as an edit leaves it, when a tree is loaded and the
    /// action is an edit; `None` otherwise. The state itself is not changed.
    pub fn edited_tree(&self, action: &PrefabAction) -> (r: Option<PrefabGameObjectRaw>)
        ensures
            opt_raw_view(r) == match opt_raw_view(self.raw) {
                Some(t) => if is_edit(action@) { Some(apply_edit(t, action@)) } else { None },
                None => None,
            },
    {
        match action {
            PrefabAction::ToggleExpand(_) | PrefabAction::ToggleComponentOpen(_) | PrefabAction::Select(_)
            | PrefabAction::RequestCameraReset => {
                return None;
            },
            _ => {},
        }
        let mut new_raw = match &self.raw {
            Some(r) => r.clone(),
            None => {
                return None;
            },
        };
        let ghost a = action@;
        let ghost r0 = new_raw@;
        let target: Vec<usize> = match action {
            PrefabAction::RemoveChild(p) | PrefabAction::DuplicateChild(p) => {
                match split_last(p.as_slice()) {
                    Some((parent, _)) => parent,
                    None => Vec::new(),
                }
            },
            PrefabAction::SetEnabled(p, _) | PrefabAction::SetName(p, _) | PrefabAction::SetBase(p, _)
            | PrefabAction::AddChild(p) | PrefabAction::AddComponent(p, _)
            | PrefabAction::AddComponentWithFields(p, _, _) | PrefabAction::RemoveComponent(p, _)
            | PrefabAction::MoveComponent(p, _, _) | PrefabAction::SetComponentField(p, _, _)
            | PrefabAction::RemoveComponentField(p, _, _) => p.clone(),
            _ => Vec::new(),
        };
        proof {
            match a {
                PrefabActionView::RemoveChild(p) => { if p.len() == 0 { assert(target@ =~= p); } },
                PrefabActionView::DuplicateChild(p) => { if p.len() == 0 { assert(target@ =~= p); } },
                _ => {},
            }
        }
        assert(target@ == edit_target(a));
        match get_node_at_path_mut(&mut new_raw, target.as_slice()) {
            Some(node) => {
                edit_node_exec(node, action);
            },
            None => {},
        }
        assert(new_raw@ == apply_edit(r0, a));
        Some(new_raw)
    }

    /// Applies one queued action. Widget-only actions change the widgets'
    /// state; edits change the raw tree when one is loaded. Answers whether
    /// the tree changed, in which case it must be resolved again and saved.
    #[verifier::spinoff_prover]
    #[verifier::rlimit(40)]
    pub fn apply(&mut self, action: PrefabAction) -> (save: bool)
        ensures
            save == (old(self).raw is Some && is_edit(action@)),
            applied(*old(self), *final(self), action@),
            final(self).resolved == old(self).resolved,
    {
        match action {
            PrefabAction::ToggleExpand(key) => {
                toggle_key(&mut self.expanded_nodes, key);
                return false;
            },
            PrefabAction::ToggleComponentOpen(key) => {
                toggle_key(&mut self.open_components, key);
                return false;
            },
            PrefabAction::Select(path) => {
                self.selected_path = path;
                return false;
            },
            PrefabAction::RequestCameraReset => {
                self.camera_reset_requested = true;
                return false;
            },
            _ => {},
        }
        let new_raw = match self.edited_tree(&action) {
            Some(t) => t,
            None => {
                return false;
            },
        };
        match &action {
            PrefabAction::RemoveChild(p) => {
                let same = match &self.selected_path {
                    Some(sel) => paths_equal(sel, p),
                    None => false,
                };
                if same {
                    self.selected_path = None;
                }
            },
            _ => {},
        }
        self.raw = Some(new_raw);
        true
    }

    /// Applies one queued action and, when it edited the tree, resolves the
    /// edited tree afresh through `bases` (the bases of the edited tree).
    /// After an edit the state holds the edited tree resolved, and the
    /// answer is the file to save and the tree to write there; otherwise
    /// the resolution is kept and nothing is to be saved.
    pub fn apply_and_resolve(&mut self, action: PrefabAction, bases: &BaseLibrary) -> (write: Option<(String, PrefabGameObjectRaw)>)
        ensures
            applied(*old(self), *final(self), action@),
            old(self).raw is Some && is_edit(action@) ==> match (final(self).raw, final(self).resolved) {
                (Some(t), Some(r)) => r@ == resolve_view(bases@, t@, Seq::empty()),
                _ => false,
            },
            !(old(self).raw is Some && is_edit(action@)) ==> final(self).resolved == old(self).resolved,
            match write {
                Some((path, tree)) => old(self).raw is Some && is_edit(action@)
                    && old(self).file_path == Some(path) && opt_raw_view(final(self).raw) == Some(tree@),
                None => !(old(self).raw is Some && is_edit(action@) && old(self).file_path is Some),
            },
    {
        let save = self.apply(action);
        if !save {
            return None;
        }
        self.resolve_with(bases);
        match (&self.file_path, &self.raw) {
            (Some(path), Some(tree)) => Some((path.clone(), tree.clone())),
            _ => None,
        }
    }

    /// Resolves the current raw tree afresh (no key visited) through the
    /// bases in `bases` and keeps the result; with no tree loaded, nothing
    /// changes.
    pub fn resolve_with(&mut self, bases: &BaseLibrary)
        ensures
            match old(self).raw {
                Some(raw) => match final(self).resolved {
                    Some(r) => r@ == resolve_view(bases@, raw@, Seq::empty()),
                    None => false,
                },
                None => final(self).resolved == old(self).resolved,
            },
            opt_raw_view(final(self).raw) == opt_raw_view(old(self).raw),
            final(self).file_path == old(self).file_path,
            final(self).selected_path == old(self).selected_path,
            final(self).expanded_nodes@ == old(self).expanded_nodes@,
            final(self).open_components@ == old(self).open_components@,
            final(self).load_error == old(self).load_error,
            final(self).camera_reset_requested == old(self).camera_reset_requested,
            final(self).gizmo_mode == old(self).gizmo_mode,
    {
        let resolved = match &self.raw {
            Some(raw) => {
                let none: Vec<String> = Vec::new();
                proof {
                    assert(strings_view(none@) =~= Seq::<Seq<char>>::empty());
                }
                resolve_node(bases, raw, &none)
            },
            None => {
                return;
            },
        };
        self.resolved = Some(resolved);
    }

    /// Answers whether the camera was asked to reset, and clears the
    /// request.
    pub fn take_camera_reset(&mut self) -> (r: bool)
        ensures
            r == old(self).camera_reset_requested,
            !final(self).camera_reset_requested,
            opt_raw_view(final(self).raw) == opt_raw_view(old(self).raw),
            final(self).resolved == old(self).resolved,
            final(self).file_path == old(self).file_path,
            final(self).selected_path == old(self).selected_path,
            final(self).expanded_nodes@ == old(self).expanded_nodes@,
            final(self).open_components@ == old(self).open_components@,
            final(self).load_error == old(self).load_error,
            final(self).gizmo_mode == old(self).gizmo_mode,
    {
        let r = self.camera_reset_requested;
        self.camera_reset_requested = false;
        r
    }
}

/// Equality of two index paths.
pub fn paths_equal(a: &Vec<usize>, b: &Vec<usize>) -> (r: bool)
    ensures
        r == (a@ == b@),
{
    if a.len() != b.len() {
        return false;
    }
    let mut i: usize = 0;
    while i < a.len()
        invariant
            a@.len() == b@.len(),
            i <= a@.len(),
            forall|j: int| 0 <= j < i ==> a@[j] == b@[j],
        decreases a@.len() - i,
    {
        if a[i] != b[i] {
            return false;
        }
        i += 1;
    }
    assert(a@ =~= b@);
    true
}

/// The index path without its last index, and that index.
pub fn split_last(path: &[usize]) -> (r: Option<(Vec<usize>, usize)>)
    ensures
        path@.len() == 0 ==> r is None,
        path@.len() > 0 ==> (r matches Some((parent, last)) && parent@ == path@.drop_last() && last == path@.last()),
{
    if path.len() == 0 {
        return None;
    }
    let mut t: Vec<usize> = Vec::new();
    let mut k: usize = 0;
    while k < path.len() - 1
        invariant
            k < path@.len(),
            t@ == path@.take(k as int),
        decreases path@.len() - k,
    {
        t.push(path[k]);
        assert(path@.take(k + 1) =~= path@.take(k as int).push(path@[k as int]));
        k += 1;
    }
    assert(path@.take(k as int) =~= path@.drop_last());
    Some((t, path[path.len() - 1]))
}


/// After an edit, the node at the edited path is the edited node: what a
/// read gives back of a write.
pub proof fn lemma_apply_edit_read_back(raw: GameObjectView, a: PrefabActionView)
    requires
        node_at(raw, edit_target(a)) is Some,
    ensures
        node_at(apply_edit(raw, a), edit_target(a)) == Some(edit_node(node_at(raw, edit_target(a)).unwrap(), a)),
{
    lemma_node_at_replace_at(raw, edit_target(a), edit_node(node_at(raw, edit_target(a)).unwrap(), a));
}

/// Setting a field of an existing component replaces it: afterwards the
/// component holds `f` as its only field with `f`'s key, so reading that
/// key gives `f`'s value; it keeps every field it had under another key and
/// gains nothing else; its type and the node's other components stay.
pub proof fn lemma_set_field_replaces(raw: GameObjectView, p: Seq<usize>, i: usize, f: Seq<char>)
    requires
        node_at(raw, p) is Some,
        i < node_at(raw, p).unwrap().components.len(),
    ensures
        ({
            let n = node_at(raw, p).unwrap();
            let before = n.components[i as int].fields;
            let key = field_key(f);
            match node_at(apply_edit(raw, PrefabActionView::SetComponentField(p, i, f)), p) {
                Some(m) => {
                    let after = m.components[i as int].fields;
                    &&& m.components.len() == n.components.len()
                    &&& m.components[i as int].kind == n.components[i as int].kind
                    &&& forall|c: int| 0 <= c < n.components.len() && c != i ==> m.components[c] == n.components[c]
                    &&& after.contains(f)
                    &&& forall|j: int| 0 <= j < after.len() && field_key(after[j]) == key ==> after[j] == f
                    &&& forall|j: int, k: int| 0 <= j < after.len() && 0 <= k < after.len()
                        && field_key(after[j]) == key && field_key(after[k]) == key ==> j == k
                    &&& field_value_of(after, key) == Some(field_value(f))
                    &&& forall|j: int| 0 <= j < before.len() && field_key(before[j]) != key ==> after.contains(before[j])
                    &&& forall|j: int| 0 <= j < after.len() && field_key(after[j]) != key ==> before.contains(after[j])
                },
                None => false,
            }
        }),
{
    let a = PrefabActionView::SetComponentField(p, i, f);
    let n = node_at(raw, p).unwrap();
    assert(edit_target(a) == p);
    lemma_apply_edit_read_back(raw, a);
    let before = n.components[i as int].fields;
    let key = field_key(f);
    let pred = |x: Seq<char>| field_key(x) != field_key(f);
    let flt = before.filter(pred);
    let after = fields_with(before, f);
    assert(after == flt.push(f));
    let m = edit_node(n, a);
    assert(m.components == n.components.update(i as int, ComponentView { kind: n.components[i as int].kind, fields: after }));
    assert forall|j: int| 0 <= j < flt.len() implies field_key(#[trigger] flt[j]) != key by {
        before.lemma_filter_pred(pred, j);
    }
    assert(after[after.len() - 1] == f);
    assert forall|j: int| 0 <= j < after.len() && field_key(after[j]) == key implies after[j] == f by {
        if j < flt.len() {
            assert(after[j] == flt[j]);
        }
    }
    assert forall|j: int, k: int| 0 <= j < after.len() && 0 <= k < after.len()
        && field_key(after[j]) == key && field_key(after[k]) == key implies j == k by {
        if j < flt.len() {
            assert(after[j] == flt[j]);
        }
        if k < flt.len() {
            assert(after[k] == flt[k]);
        }
    }
    lemma_first_field_with_key(after, key);
    assert(field_key(after[after.len() - 1]) == key);
    match first_field_with_key(after, key) {
        Some(q) => {
            if q < flt.len() {
                assert(after[q] == flt[q]);
            }
        },
        None => {
            assert(false);
        },
    }
    assert forall|j: int| 0 <= j < before.len() && field_key(before[j]) != key implies after.contains(before[j]) by {
        before.lemma_filter_contains(pred, j);
        let w = choose|w: int| 0 <= w < flt.len() && flt[w] == before[j];
        assert(after[w] == flt[w]);
    }
    assert forall|j: int| 0 <= j < after.len() && field_key(after[j]) != key implies before.contains(after[j]) by {
        assert(j < flt.len());
        assert(after[j] == flt[j]);
        assert(flt.contains(flt[j]));
        before.lemma_filter_contains_rev(pred, flt[j]);
    }
    assert(after.contains(f));
}

/// An edit whose path leads nowhere leaves the tree unchanged.
pub proof fn lemma_apply_edit_missing(raw: GameObjectView, a: PrefabActionView)
    requires
        node_at(raw, edit_target(a)) is None,
    ensures
        apply_edit(raw, a) == raw,
{
}

} // verus!
