//! What the prefab inspector lists and what its rows ask for: the keys
//! under which tree nodes and component blocks are remembered as closed,
//! the actions of their headers, the fields shown for a component and the
//! actions of their rows, the component types still addable to an object,
//! and the contents of an asset dropdown.
use vstd::prelude::*;
use crate::fs_ops::{
    EntryType, EntryTypeView, ManifestEntry, ManifestEntryView, manifest_view, ext_of, file_ext, i16_of, parse_i16,
};
use crate::prefab_types::{
    FieldDescriptor, FieldDescriptorView, PrefabComponentRaw, ComponentView, descriptors_view, field_key,
    split_field, strings_view, components_view, field_value_of, opt_string_view, position_of_key, join_field,
    join_field_spec,
};
use crate::prefab_state::{PrefabAction, PrefabActionView};
use crate::text::{after_last, concat, int_decimal, nat_decimal, segment_after_last, string_from_chars,
    str_eq, trim, trimmed, u64_decimal, i16_decimal, chars_of, owned};

verus! {

// ─── remembered-closed keys ────────────────────────────────────────────────

/// The `{:?}` text of an index path after its first `k` items: `, 3, 4`.
pub open spec fn path_items_text(path: Seq<usize>) -> Seq<char>
    decreases path.len(),
{
    if path.len() == 0 {
        Seq::empty()
    } else if path.len() == 1 {
        nat_decimal(path[0] as nat)
    } else {
        path_items_text(path.drop_last()) + ", "@ + nat_decimal(path.last() as nat)
    }
}

/// The `{:?}` text of an index path: `[0, 2, 1]`.
pub open spec fn path_text(path: Seq<usize>) -> Seq<char> {
    "["@ + path_items_text(path) + "]"@
}

/// `{:?}` of an index path.
#[verifier::spinoff_prover]
#[verifier::rlimit(40)]
pub fn path_debug(path: &[usize]) -> (r: String)
    ensures
        r@ == path_text(path@),
{
    let mut out = "[".to_string();
    let mut i: usize = 0;
    while i < path.len()
        invariant
            i <= path@.len(),
            out@ == "["@ + path_items_text(path@.take(i as int)),
        decreases path@.len() - i,
    {
        let d = string_from_chars(&u64_decimal(path[i] as u64));
        if i > 0 {
            out.append(", ");
        }
        out.append(d.as_str());
        proof {
            let t = path@.take(i + 1);
            assert(t.drop_last() =~= path@.take(i as int));
            if i == 0 {
                assert(path_items_text(t) == nat_decimal(path@[0] as nat));
                assert(out@ =~= "["@ + path_items_text(t));
            } else {
                assert(out@ =~= "["@ + path_items_text(t));
            }
        }
        i += 1;
    }
    out.append("]");
    proof {
        assert(path@.take(path@.len() as int) =~= path@);
    }
    out
}

/// The key under which a tree node is remembered as closed.
pub fn node_closed_key(path: &[usize]) -> (r: String)
    ensures
        r@ == "closed:"@ + path_text(path@),
{
    let p = path_debug(path);
    concat("closed:", p.as_str())
}

/// The key under which a component block is remembered as closed.
pub fn component_closed_key(path: &[usize], index: usize) -> (r: String)
    ensures
        r@ == "closed:"@ + path_text(path@) + "#"@ + nat_decimal(index as nat),
{
    let k = node_closed_key(path);
    let with_hash = concat(k.as_str(), "#");
    let d = string_from_chars(&u64_decimal(index as u64));
    concat(with_hash.as_str(), d.as_str())
}

// ─── fields of a component block ───────────────────────────────────────────

/// The keys of a component's fields that the declared fields do not name,
/// in order.
pub open spec fn extra_keys(fields: Seq<Seq<char>>, known: Seq<FieldDescriptorView>) -> Seq<Seq<char>>
    decreases fields.len(),
{
    if fields.len() == 0 {
        Seq::empty()
    } else {
        let k = field_key(fields.last());
        extra_keys(fields.drop_last(), known) + if (exists|j: int| 0 <= j < known.len() && #[trigger] known[j].name == k) {
            Seq::empty()
        } else {
            seq![k]
        }
    }
}

/// The rows of a component block: the declared fields, then every other
/// key the component holds, shown as a number.
pub open spec fn inspector_fields_of(known: Seq<FieldDescriptorView>, c: ComponentView) -> Seq<FieldDescriptorView> {
    known + extra_keys(c.fields, known).map_values(|k: Seq<char>| FieldDescriptorView { name: k, kind: EntryTypeView::Float })
}

fn is_known(known: &Vec<FieldDescriptor>, k: &str) -> (r: bool)
    ensures
        r == exists|j: int| 0 <= j < known@.len() && #[trigger] descriptors_view(known@)[j].name == k@,
{
    let ghost kv = descriptors_view(known@);
    let mut i: usize = 0;
    while i < known.len()
        invariant
            i <= known@.len(),
            kv == descriptors_view(known@),
            forall|j: int| 0 <= j < i ==> kv[j].name != k@,
        decreases known@.len() - i,
    {
        if str_eq(known[i].name.as_str(), k) {
            assert(kv[i as int].name == k@);
            return true;
        }
        i += 1;
    }
    false
}

/// The rows a component block shows.
#[verifier::spinoff_prover]
#[verifier::rlimit(40)]
pub fn inspector_fields(known: Vec<FieldDescriptor>, comp: &PrefabComponentRaw) -> (r: Vec<FieldDescriptor>)
    ensures
        descriptors_view(r@) == inspector_fields_of(descriptors_view(known@), comp@),
{
    let ghost kv = descriptors_view(known@);
    let ghost fs = comp@.fields;
    let mut extra: Vec<FieldDescriptor> = Vec::new();
    let mut i: usize = 0;
    while i < comp.fields.len()
        invariant
            i <= comp.fields@.len(),
            kv == descriptors_view(known@),
            fs == comp@.fields,
            fs == strings_view(comp.fields@),
            descriptors_view(extra@) == extra_keys(fs.take(i as int), kv).map_values(
                |k: Seq<char>| FieldDescriptorView { name: k, kind: EntryTypeView::Float },
            ),
        decreases comp.fields@.len() - i,
    {
        let (k, _v) = split_field(comp.fields[i].as_str());
        let ghost before = descriptors_view(extra@);
        proof {
            assert(fs.take(i + 1).drop_last() =~= fs.take(i as int));
            assert(fs[i as int] == comp.fields@[i as int]@);
        }
        let ghost kk = k@;
        proof {
            assert(kk == field_key(fs.take(i + 1).last()));
        }
        if !is_known(&known, k.as_str()) {
            extra.push(FieldDescriptor { name: k, kind: EntryType::Float });
            proof {
                assert(descriptors_view(extra@) =~= before.push(FieldDescriptorView { name: kk, kind: EntryTypeView::Float }));
                assert(extra_keys(fs.take(i + 1), kv) =~= extra_keys(fs.take(i as int), kv).push(kk));
                assert(descriptors_view(extra@) =~= extra_keys(fs.take(i + 1), kv).map_values(
                    |k: Seq<char>| FieldDescriptorView { name: k, kind: EntryTypeView::Float },
                ));
            }
        } else {
            proof {
                assert(descriptors_view(extra@) =~= extra_keys(fs.take(i + 1), kv).map_values(
                    |k: Seq<char>| FieldDescriptorView { name: k, kind: EntryTypeView::Float },
                ));
            }
        }
        i += 1;
    }
    proof {
        assert(fs.take(fs.len() as int) =~= fs);
    }
    let mut out = known;
    let ghost kept = descriptors_view(out@);
    let mut j: usize = 0;
    while j < extra.len()
        invariant
            j <= extra@.len(),
            descriptors_view(out@) == kept + descriptors_view(extra@).take(j as int),
        decreases extra@.len() - j,
    {
        let d = FieldDescriptor { name: extra[j].name.clone(), kind: extra[j].kind.clone() };
        let ghost before = descriptors_view(out@);
        out.push(d);
        proof {
            assert(descriptors_view(out@) =~= before.push(d@));
            assert(descriptors_view(extra@)[j as int] == d@);
            assert(descriptors_view(extra@).take(j + 1) =~= descriptors_view(extra@).take(j as int).push(d@));
        }
        j += 1;
    }
    proof {
        assert(descriptors_view(extra@).take(extra@.len() as int) =~= descriptors_view(extra@));
    }
    out
}

// ─── the "add facet" menu ──────────────────────────────────────────────────

/// The component types an object does not have yet, in menu order.
pub open spec fn addable_of(all: Seq<Seq<char>>, existing: Seq<ComponentView>) -> Seq<Seq<char>> {
    all.filter(|t: Seq<char>| !(exists|j: int| 0 <= j < existing.len() && #[trigger] existing[j].kind == t))
}

fn has_kind(existing: &Vec<PrefabComponentRaw>, t: &str) -> (r: bool)
    ensures
        r == exists|j: int| 0 <= j < existing@.len() && #[trigger] components_view(existing@)[j].kind == t@,
{
    let ghost cv = components_view(existing@);
    let mut i: usize = 0;
    while i < existing.len()
        invariant
            i <= existing@.len(),
            cv == components_view(existing@),
            forall|j: int| 0 <= j < i ==> cv[j].kind != t@,
        decreases existing@.len() - i,
    {
        if str_eq(existing[i].kind.as_str(), t) {
            assert(cv[i as int].kind == t@);
            return true;
        }
        i += 1;
    }
    false
}

/// The entries of the "add facet" menu: the known types the object lacks.
pub fn addable_component_types(all: &Vec<String>, existing: &Vec<PrefabComponentRaw>) -> (r: Vec<String>)
    ensures
        strings_view(r@) == addable_of(strings_view(all@), components_view(existing@)),
{
    let ghost av = strings_view(all@);
    let ghost cv = components_view(existing@);
    let ghost pred = |t: Seq<char>| !(exists|j: int| 0 <= j < cv.len() && #[trigger] cv[j].kind == t);
    let mut out: Vec<String> = Vec::new();
    let mut i: usize = 0;
    while i < all.len()
        invariant
            i <= all@.len(),
            av == strings_view(all@),
            cv == components_view(existing@),
            pred == (|t: Seq<char>| !(exists|j: int| 0 <= j < cv.len() && #[trigger] cv[j].kind == t)),
            strings_view(out@) == av.take(i as int).filter(pred),
        decreases all@.len() - i,
    {
        proof {
            reveal_with_fuel(Seq::filter, 1);
            assert(av.take(i + 1).drop_last() =~= av.take(i as int));
            assert(av[i as int] == all@[i as int]@);
        }
        if !has_kind(existing, all[i].as_str()) {
            let ghost before = out@;
            out.push(all[i].clone());
            proof {
                assert(strings_view(out@) =~= strings_view(before).push(av[i as int]));
            }
        }
        i += 1;
    }
    proof {
        assert(av.take(all@.len() as int) =~= av);
    }
    out
}

// ─── asset dropdowns ───────────────────────────────────────────────────────

/// One choice of an asset dropdown.
pub struct DropdownOption {
    /// `name  (file)`.
    pub label: String,
    /// What choosing it stores: the entry's id, in decimal.
    pub value: String,
    pub selected: bool,
}

/// Model of a dropdown choice.
pub struct DropdownOptionView {
    pub label: Seq<char>,
    pub value: Seq<char>,
    pub selected: bool,
}

impl View for DropdownOption {
    type V = DropdownOptionView;

    open spec fn view(&self) -> DropdownOptionView {
        DropdownOptionView { label: self.label@, value: self.value@, selected: self.selected }
    }
}

/// Models of dropdown choices.
pub open spec fn options_view(s: Seq<DropdownOption>) -> Seq<DropdownOptionView> {
    s.map_values(|o: DropdownOption| o@)
}

/// The choice for a manifest entry.
pub open spec fn option_of(e: ManifestEntryView, current: Option<i16>) -> DropdownOptionView {
    DropdownOptionView {
        label: e.name + "  ("@ + after_last(e.uri, '/') + ")"@,
        value: int_decimal(e.id as int),
        selected: current == Some(e.id),
    }
}

/// The choices for the entries of an accepted extension, in order.
pub open spec fn options_of(m: Seq<ManifestEntryView>, accepts: Seq<Seq<char>>, current: Option<i16>) -> Seq<DropdownOptionView>
    decreases m.len(),
{
    if m.len() == 0 {
        Seq::empty()
    } else {
        options_of(m.drop_last(), accepts, current) + if accepts.contains(ext_of(m.last().uri)) {
            seq![option_of(m.last(), current)]
        } else {
            Seq::empty()
        }
    }
}

/// The entry behind an option: an entry of an accepted extension whose id
/// the option holds, the option selected exactly when that id is the
/// current one.
pub open spec fn option_for_entry(o: DropdownOptionView, e: ManifestEntryView, accepts: Seq<Seq<char>>, current: Option<i16>) -> bool {
    &&& accepts.contains(ext_of(e.uri))
    &&& o.value == int_decimal(e.id as int)
    &&& o.selected == (current == Some(e.id))
}

/// Every choice of an asset dropdown stands for a manifest entry of an
/// accepted extension, and it is selected exactly when that entry's id is
/// the dropdown's current id; every entry of an accepted extension has such
/// a choice.
pub proof fn lemma_options_follow_entries(m: Seq<ManifestEntryView>, accepts: Seq<Seq<char>>, current: Option<i16>)
    ensures
        forall|k: int| 0 <= k < options_of(m, accepts, current).len() ==> exists|j: int| 0 <= j < m.len()
            && option_for_entry(#[trigger] options_of(m, accepts, current)[k], m[j], accepts, current),
        forall|j: int| 0 <= j < m.len() && accepts.contains(ext_of(m[j].uri)) ==> exists|k: int|
            0 <= k < options_of(m, accepts, current).len()
            && option_for_entry(options_of(m, accepts, current)[k], #[trigger] m[j], accepts, current),
    decreases m.len(),
{
    if m.len() > 0 {
        let init = m.drop_last();
        lemma_options_follow_entries(init, accepts, current);
        let before = options_of(init, accepts, current);
        let all = options_of(m, accepts, current);
        assert(all.take(before.len() as int) =~= before);
        assert forall|k: int| 0 <= k < all.len() implies exists|j: int| 0 <= j < m.len()
            && option_for_entry(#[trigger] all[k], m[j], accepts, current) by {
            if k < before.len() {
                assert(all[k] == before[k]);
                let j = choose|j: int| 0 <= j < init.len() && option_for_entry(before[k], init[j], accepts, current);
                assert(m[j] == init[j]);
            } else {
                assert(all[k] == option_of(m.last(), current));
                assert(m[m.len() - 1] == m.last());
            }
        }
        assert forall|j: int| 0 <= j < m.len() && accepts.contains(ext_of(m[j].uri)) implies exists|k: int|
            0 <= k < all.len() && option_for_entry(all[k], #[trigger] m[j], accepts, current) by {
            if j < init.len() {
                assert(m[j] == init[j]);
                let k = choose|k: int| 0 <= k < before.len() && option_for_entry(before[k], init[j], accepts, current);
                assert(all[k] == before[k]);
            } else {
                assert(m[j] == m.last());
                assert(all[before.len() as int] == option_of(m.last(), current));
            }
        }
    }
}

/// What an asset dropdown shows.
pub struct DropdownModel {
    /// The entry chosen now, `unknown (id)` for an id the manifest lacks,
    /// or the placeholder.
    pub display: String,
    /// A "clear" choice is offered (something known is chosen).
    pub can_clear: bool,
    /// The manifest entries of an accepted extension.
    pub options: Vec<DropdownOption>,
}

/// The id a dropdown's value holds, if it reads as one.
pub open spec fn current_id_of(value: Option<Seq<char>>) -> Option<i16> {
    match value {
        Some(v) => i16_of(trim(v)),
        None => None,
    }
}

/// Index of the first entry with the id `id`.
pub open spec fn entry_with_id(m: Seq<ManifestEntryView>, id: i16, i: int) -> Option<int>
    decreases m.len() - i,
{
    if i < 0 || i >= m.len() {
        None
    } else if m[i].id == id {
        Some(i)
    } else {
        entry_with_id(m, id, i + 1)
    }
}

/// What the dropdown shows as chosen.
pub open spec fn display_of(value: Option<Seq<char>>, placeholder: Seq<char>, m: Seq<ManifestEntryView>) -> Seq<char> {
    match current_id_of(value) {
        Some(id) => match entry_with_id(m, id, 0) {
            Some(i) => m[i].name,
            None => "unknown ("@ + int_decimal(id as int) + ")"@,
        },
        None => placeholder,
    }
}

fn find_id(m: &Vec<ManifestEntry>, id: i16) -> (r: Option<usize>)
    ensures
        match r {
            Some(i) => entry_with_id(manifest_view(m@), id, 0) == Some(i as int) && i < m@.len(),
            None => entry_with_id(manifest_view(m@), id, 0) is None,
        },
{
    let ghost mv = manifest_view(m@);
    let mut i: usize = 0;
    while i < m.len()
        invariant
            i <= m@.len(),
            mv == manifest_view(m@),
            entry_with_id(mv, id, 0) == entry_with_id(mv, id, i as int),
        decreases m@.len() - i,
    {
        if m[i].id == id {
            assert(mv[i as int].id == id);
            return Some(i);
        }
        i += 1;
    }
    None
}

/// Whether an extension is among the accepted ones.
pub fn accepts_ext(accepts: &Vec<String>, ext: &str) -> (r: bool)
    ensures
        r == strings_view(accepts@).contains(ext@),
{
    let ghost av = strings_view(accepts@);
    let mut i: usize = 0;
    while i < accepts.len()
        invariant
            i <= accepts@.len(),
            av == strings_view(accepts@),
            forall|j: int| 0 <= j < i ==> av[j] != ext@,
        decreases accepts@.len() - i,
    {
        if str_eq(accepts[i].as_str(), ext) {
            assert(av[i as int] == ext@);
            return true;
        }
        i += 1;
    }
    false
}

/// What an asset dropdown shows for the stored `value`: the display text,
/// whether "clear" is offered, and one choice per manifest entry whose
/// `uri` has an accepted extension, in manifest order.
#[verifier::spinoff_prover]
#[verifier::rlimit(40)]
pub fn asset_dropdown_model(value: Option<&str>, accepts: &Vec<String>, placeholder: &str, entries: &Vec<ManifestEntry>) -> (r: DropdownModel)
    ensures
        r.display@ == display_of(match value { Some(v) => Some(v@), None => None }, placeholder@, manifest_view(entries@)),
        r.can_clear == match current_id_of(match value { Some(v) => Some(v@), None => None }) {
            Some(id) => entry_with_id(manifest_view(entries@), id, 0) is Some,
            None => false,
        },
        options_view(r.options@) == options_of(
            manifest_view(entries@),
            strings_view(accepts@),
            current_id_of(match value { Some(v) => Some(v@), None => None }),
        ),
{
    let ghost vv: Option<Seq<char>> = match value { Some(v) => Some(v@), None => None };
    let current_id = match value {
        Some(v) => {
            let t = trimmed(v);
            parse_i16(t.as_str())
        },
        None => None,
    };
    let current = match current_id {
        Some(id) => find_id(entries, id),
        None => None,
    };
    let display = match (current, current_id) {
        (Some(i), _) => {
            assert(manifest_view(entries@)[i as int] == entries@[i as int]@);
            entries[i].name.clone()
        },
        (None, Some(id)) => {
            let d = string_from_chars(&i16_decimal(id));
            let a = concat("unknown (", d.as_str());
            concat(a.as_str(), ")")
        },
        (None, None) => placeholder.to_string(),
    };
    let mut options: Vec<DropdownOption> = Vec::new();
    let mut i: usize = 0;
    while i < entries.len()
        invariant
            i <= entries@.len(),
            vv == (match value { Some(v) => Some(v@), None => None }),
            current_id == current_id_of(vv),
            options_view(options@) == options_of(manifest_view(entries@).take(i as int), strings_view(accepts@), current_id),
        decreases entries@.len() - i,
    {
        let e = &entries[i];
        let ext = file_ext(e.uri.as_str());
        let ghost mv = manifest_view(entries@);
        let ghost before = options_view(options@);
        proof {
            assert(mv.take(i + 1).drop_last() =~= mv.take(i as int));
            assert(mv[i as int] == e@);
        }
        if accepts_ext(accepts, ext.as_str()) {
            let file = segment_after_last(e.uri.as_str(), '/');
            let a = concat(e.name.as_str(), "  (");
            let b = concat(a.as_str(), file.as_str());
            let label = concat(b.as_str(), ")");
            let value_text = string_from_chars(&i16_decimal(e.id));
            let selected = match current_id {
                Some(id) => id == e.id,
                None => false,
            };
            let o = DropdownOption { label, value: value_text, selected };
            let ghost ov = o@;
            options.push(o);
            proof {
                assert(ov == option_of(e@, current_id));
                assert(options_view(options@) =~= before.push(ov));
                assert(options_view(options@) =~= options_of(mv.take(i + 1), strings_view(accepts@), current_id));
            }
        } else {
            proof {
                assert(options_view(options@) =~= options_of(mv.take(i + 1), strings_view(accepts@), current_id));
            }
        }
        i += 1;
    }
    proof {
        assert(manifest_view(entries@).take(entries@.len() as int) =~= manifest_view(entries@));
    }
    DropdownModel { display, can_clear: current.is_some(), options }
}

// ─── the viewport's gizmo ───────────────────────────────────────────────────

/// Index of an object's first `Transform3D` component, if it has one.
pub open spec fn transform3d_index(cs: Seq<ComponentView>, i: int) -> Option<int>
    decreases cs.len() - i,
{
    if i < 0 || i >= cs.len() {
        None
    } else if cs[i].kind == "Transform3D"@ {
        Some(i)
    } else {
        transform3d_index(cs, i + 1)
    }
}

/// Whether the selected object has a `Transform3D` of its own, and the
/// index where a dragged transform is written: that component's, or the
/// end of the list.
pub fn local_transform_slot(components: &Vec<PrefabComponentRaw>) -> (r: (bool, usize))
    ensures
        match transform3d_index(components_view(components@), 0) {
            Some(i) => r == (true, i as usize),
            None => r == (false, components@.len() as usize),
        },
{
    let ghost cv = components_view(components@);
    let mut i: usize = 0;
    while i < components.len()
        invariant
            i <= components@.len(),
            cv == components_view(components@),
            transform3d_index(cv, 0) == transform3d_index(cv, i as int),
        decreases components@.len() - i,
    {
        assert(cv[i as int] == components@[i as int]@);
        if str_eq(components[i].kind.as_str(), "Transform3D") {
            return (true, i);
        }
        i += 1;
    }
    (false, components.len())
}

/// The gizmo mode after a key press: `W` moves, `E` rotates, `R` scales;
/// other keys keep the mode.
pub fn gizmo_mode_for_key(key: char, current: crate::prefab_state::GizmoMode) -> (r: crate::prefab_state::GizmoMode)
    ensures
        r == if key == 'W' {
            crate::prefab_state::GizmoMode::Translate
        } else if key == 'E' {
            crate::prefab_state::GizmoMode::Rotate
        } else if key == 'R' {
            crate::prefab_state::GizmoMode::Scale
        } else {
            current
        },
{
    if key == 'W' {
        crate::prefab_state::GizmoMode::Translate
    } else if key == 'E' {
        crate::prefab_state::GizmoMode::Rotate
    } else if key == 'R' {
        crate::prefab_state::GizmoMode::Scale
    } else {
        current
    }
}

// ─── what a tree node's and a component's header ask for ───────────────────

/// Models of a sequence of actions.
pub open spec fn prefab_actions_view(s: Seq<PrefabAction>) -> Seq<PrefabActionView> {
    s.map_values(|a: PrefabAction| a@)
}

/// `seq![a]` when `b` holds, else nothing.
pub open spec fn only_if(b: bool, a: PrefabActionView) -> Seq<PrefabActionView> {
    if b {
        seq![a]
    } else {
        Seq::empty()
    }
}

/// What was clicked on a tree node's header row this frame.
#[derive(Clone, Copy)]
pub struct NodeRowEvents {
    pub chevron_clicked: bool,
    /// the enabled box was changed to this
    pub enabled_changed: Option<bool>,
    pub name_clicked: bool,
    pub delete_clicked: bool,
    pub duplicate_clicked: bool,
}

/// The actions of a node's header row at `path`, in order: toggling its
/// remembered-closed key, the enabled flag, selecting it (or clearing the
/// selection when it is selected), and, below the root, deleting and
/// duplicating it.
pub open spec fn node_row_actions_of(path: Seq<usize>, is_selected: bool, ev: NodeRowEvents) -> Seq<PrefabActionView> {
    only_if(ev.chevron_clicked, PrefabActionView::ToggleExpand("closed:"@ + path_text(path)))
        + match ev.enabled_changed {
        Some(e) => seq![PrefabActionView::SetEnabled(path, e)],
        None => Seq::empty(),
    } + only_if(ev.name_clicked, PrefabActionView::Select(if is_selected { None } else { Some(path) }))
        + only_if(path.len() > 0 && ev.delete_clicked, PrefabActionView::RemoveChild(path))
        + only_if(path.len() > 0 && ev.duplicate_clicked, PrefabActionView::DuplicateChild(path))
}

fn push_action(out: &mut Vec<PrefabAction>, a: PrefabAction)
    ensures
        prefab_actions_view(final(out)@) == prefab_actions_view(old(out)@).push(a@),
{
    let ghost before = out@;
    out.push(a);
    assert(prefab_actions_view(out@) =~= prefab_actions_view(before).push(a@));
}

fn copy_path(path: &Vec<usize>) -> (r: Vec<usize>)
    ensures
        r@ == path@,
{
    let mut r: Vec<usize> = Vec::new();
    let mut i: usize = 0;
    while i < path.len()
        invariant
            i <= path@.len(),
            r@ == path@.take(i as int),
        decreases path@.len() - i,
    {
        r.push(path[i]);
        assert(path@.take(i + 1) =~= path@.take(i as int).push(path@[i as int]));
        i += 1;
    }
    assert(path@.take(i as int) =~= path@);
    r
}

/// The actions of a node's header row (see [`node_row_actions_of`]).
pub fn node_row_actions(path: &Vec<usize>, is_selected: bool, ev: NodeRowEvents) -> (r: Vec<PrefabAction>)
    ensures
        prefab_actions_view(r@) == node_row_actions_of(path@, is_selected, ev),
{
    let mut out: Vec<PrefabAction> = Vec::new();
    let ghost mut want: Seq<PrefabActionView> = Seq::empty();
    assert(prefab_actions_view(out@) =~= want);
    if ev.chevron_clicked {
        push_action(&mut out, PrefabAction::ToggleExpand(node_closed_key(path.as_slice())));
    }
    proof {
        want = want + only_if(ev.chevron_clicked, PrefabActionView::ToggleExpand("closed:"@ + path_text(path@)));
        assert(prefab_actions_view(out@) =~= want);
    }
    match ev.enabled_changed {
        Some(e) => {
            push_action(&mut out, PrefabAction::SetEnabled(copy_path(path), e));
        },
        None => {},
    }
    proof {
        want = want + match ev.enabled_changed {
            Some(e) => seq![PrefabActionView::SetEnabled(path@, e)],
            None => Seq::empty(),
        };
        assert(prefab_actions_view(out@) =~= want);
    }
    if ev.name_clicked {
        let sel = if is_selected { None } else { Some(copy_path(path)) };
        push_action(&mut out, PrefabAction::Select(sel));
    }
    proof {
        want = want + only_if(ev.name_clicked, PrefabActionView::Select(if is_selected { None } else { Some(path@) }));
        assert(prefab_actions_view(out@) =~= want);
    }
    let below_root = path.len() > 0;
    if below_root && ev.delete_clicked {
        push_action(&mut out, PrefabAction::RemoveChild(copy_path(path)));
    }
    proof {
        want = want + only_if(path@.len() > 0 && ev.delete_clicked, PrefabActionView::RemoveChild(path@));
        assert(prefab_actions_view(out@) =~= want);
    }
    if below_root && ev.duplicate_clicked {
        push_action(&mut out, PrefabAction::DuplicateChild(copy_path(path)));
    }
    proof {
        want = want + only_if(path@.len() > 0 && ev.duplicate_clicked, PrefabActionView::DuplicateChild(path@));
        assert(prefab_actions_view(out@) =~= want);
    }
    out
}

/// What was clicked on a component block's header this frame.
#[derive(Clone, Copy)]
pub struct ComponentHeaderEvents {
    pub chevron_clicked: bool,
    pub remove_clicked: bool,
    pub down_clicked: bool,
    pub up_clicked: bool,
}

/// The actions of the header of component `index` of the node at `path`,
/// in order: toggling its remembered-closed key, removing it, moving it one
/// down, and (when it is not the first) one up.
pub open spec fn component_header_actions_of(path: Seq<usize>, index: usize, ev: ComponentHeaderEvents) -> Seq<
    PrefabActionView,
> {
    only_if(
        ev.chevron_clicked,
        PrefabActionView::ToggleComponentOpen("closed:"@ + path_text(path) + "#"@ + nat_decimal(index as nat)),
    ) + only_if(ev.remove_clicked, PrefabActionView::RemoveComponent(path, index)) + only_if(
        ev.down_clicked,
        PrefabActionView::MoveComponent(path, index, (index + 1) as usize),
    ) + only_if(index > 0 && ev.up_clicked, PrefabActionView::MoveComponent(path, index, (index - 1) as usize))
}

/// The actions of a component block's header (see
/// [`component_header_actions_of`]).
pub fn component_header_actions(path: &Vec<usize>, index: usize, ev: ComponentHeaderEvents) -> (r: Vec<PrefabAction>)
    requires
        index < usize::MAX,
    ensures
        prefab_actions_view(r@) == component_header_actions_of(path@, index, ev),
{
    let mut out: Vec<PrefabAction> = Vec::new();
    let ghost mut want: Seq<PrefabActionView> = Seq::empty();
    assert(prefab_actions_view(out@) =~= want);
    if ev.chevron_clicked {
        push_action(&mut out, PrefabAction::ToggleComponentOpen(component_closed_key(path.as_slice(), index)));
    }
    proof {
        want = want + only_if(
            ev.chevron_clicked,
            PrefabActionView::ToggleComponentOpen("closed:"@ + path_text(path@) + "#"@ + nat_decimal(index as nat)),
        );
        assert(prefab_actions_view(out@) =~= want);
    }
    if ev.remove_clicked {
        push_action(&mut out, PrefabAction::RemoveComponent(copy_path(path), index));
    }
    proof {
        want = want + only_if(ev.remove_clicked, PrefabActionView::RemoveComponent(path@, index));
        assert(prefab_actions_view(out@) =~= want);
    }
    if ev.down_clicked {
        push_action(&mut out, PrefabAction::MoveComponent(copy_path(path), index, index + 1));
    }
    proof {
        want = want + only_if(ev.down_clicked, PrefabActionView::MoveComponent(path@, index, (index + 1) as usize));
        assert(prefab_actions_view(out@) =~= want);
    }
    if index > 0 && ev.up_clicked {
        push_action(&mut out, PrefabAction::MoveComponent(copy_path(path), index, index - 1));
    }
    proof {
        want = want + only_if(index > 0 && ev.up_clicked, PrefabActionView::MoveComponent(path@, index, (index - 1) as usize));
        assert(prefab_actions_view(out@) =~= want);
    }
    out
}

// ─── field rows ────────────────────────────────────────────────────────────

/// The current value of field `name` of a component: the value of its
/// first field with that key, if any.
pub fn field_value(comp: &PrefabComponentRaw, name: &str) -> (r: Option<String>)
    ensures
        opt_string_view(r) == field_value_of(comp@.fields, name@),
{
    match position_of_key(&comp.fields, name) {
        Some(i) => Some(split_field(comp.fields[i].as_str()).1),
        None => None,
    }
}

/// A boolean field's box is ticked when its value is `true`.
pub fn field_is_checked(value: &Option<String>) -> (r: bool)
    ensures
        r == (value matches Some(v) && v@ == "true"@),
{
    match value {
        Some(v) => str_eq(v.as_str(), "true"),
        None => false,
    }
}

/// The axes of a vector field, by its arity.
pub open spec fn axes_of(kind: EntryTypeView) -> Seq<char> {
    match kind {
        EntryTypeView::Vector2 => seq!['x', 'y'],
        EntryTypeView::Vector3 => seq!['x', 'y', 'z'],
        _ => seq!['x', 'y', 'z', 'w'],
    }
}

/// The axes of a vector field, by its arity.
pub fn vector_axes(kind: &EntryType) -> (r: Vec<char>)
    ensures
        r@ == axes_of(kind@),
{
    match kind {
        EntryType::Vector2 => vec!['x', 'y'],
        EntryType::Vector3 => vec!['x', 'y', 'z'],
        _ => vec!['x', 'y', 'z', 'w'],
    }
}

/// Whether a vector field's `axis` gets a box: all do, except `z` of a
/// `Transform2D`'s position and scale.
pub open spec fn axis_shown_of(comp_kind: Seq<char>, field_name: Seq<char>, axis: char) -> bool {
    !(comp_kind == "Transform2D"@ && (field_name == "position"@ || field_name == "scale"@) && axis == 'z')
}

/// Whether a vector field's `axis` gets a box (see [`axis_shown_of`]).
pub fn axis_shown(comp_kind: &str, field_name: &str, axis: char) -> (r: bool)
    ensures
        r == axis_shown_of(comp_kind@, field_name@, axis),
{
    !(str_eq(comp_kind, "Transform2D") && (str_eq(field_name, "position") || str_eq(field_name, "scale")) && axis == 'z')
}

/// What was done to a field row this frame.
pub enum FieldEdit {
    /// the "set" button of an unset field
    SetDefault,
    /// the "x" button of a set field
    Clear,
    /// the box of a boolean field, now ticked or not
    Toggle(bool),
    /// the text typed into a number field, on leaving it
    Typed(String),
    /// a choice in an asset field's dropdown (`None`: the placeholder)
    AssetChosen(Option<String>),
}

/// The value an unset field of this kind gets from its "set" button (an
/// asset field has none).
pub open spec fn default_value_of(kind: EntryTypeView) -> Option<Seq<char>> {
    match kind {
        EntryTypeView::Bool => Some("false"@),
        EntryTypeView::Float | EntryTypeView::Int => Some("0"@),
        EntryTypeView::Vector2 => Some("(0.0,0.0)"@),
        EntryTypeView::Vector3 => Some("(0.0,0.0,0.0)"@),
        EntryTypeView::Vector4 => Some("(0.0,0.0,0.0,0.0)"@),
        EntryTypeView::Asset(_) => None,
    }
}

/// The action of an edit of field `name` (of kind `kind`) of component
/// `comp_index` of the node at `path`: writing `name: value`, or removing
/// the field; nothing for a blank typed text or a "set" on an asset field.
pub open spec fn field_action_of(path: Seq<usize>, comp_index: usize, name: Seq<char>, kind: EntryTypeView, edit: FieldEdit) -> Option<
    PrefabActionView,
> {
    let set = |v: Seq<char>| PrefabActionView::SetComponentField(path, comp_index, join_field_spec(name, v));
    match edit {
        FieldEdit::SetDefault => match default_value_of(kind) {
            Some(v) => Some(set(v)),
            None => None,
        },
        FieldEdit::Clear => Some(PrefabActionView::RemoveComponentField(path, comp_index, name)),
        FieldEdit::Toggle(b) => Some(set(if b { "true"@ } else { "false"@ })),
        FieldEdit::Typed(t) => if trim(t@).len() > 0 {
            Some(set(t@))
        } else {
            None
        },
        FieldEdit::AssetChosen(c) => match c {
            Some(id) => Some(set(id@)),
            None => Some(PrefabActionView::RemoveComponentField(path, comp_index, name)),
        },
    }
}

fn default_value(kind: &EntryType) -> (r: Option<&'static str>)
    ensures
        match r {
            Some(v) => default_value_of(kind@) == Some(v@),
            None => default_value_of(kind@) is None,
        },
{
    match kind {
        EntryType::Bool => Some("false"),
        EntryType::Float | EntryType::Int => Some("0"),
        EntryType::Vector2 => Some("(0.0,0.0)"),
        EntryType::Vector3 => Some("(0.0,0.0,0.0)"),
        EntryType::Vector4 => Some("(0.0,0.0,0.0,0.0)"),
        EntryType::Asset(_) => None,
    }
}

/// The action of an edit of a field row (see [`field_action_of`]).
pub fn field_action(path: &Vec<usize>, comp_index: usize, field: &FieldDescriptor, edit: FieldEdit) -> (r: Option<PrefabAction>)
    ensures
        match r {
            Some(a) => field_action_of(path@, comp_index, field.name@, field.kind@, edit) == Some(a@),
            None => field_action_of(path@, comp_index, field.name@, field.kind@, edit) is None,
        },
{
    let name = field.name.as_str();
    match edit {
        FieldEdit::SetDefault => match default_value(&field.kind) {
            Some(v) => Some(PrefabAction::SetComponentField(copy_path(path), comp_index, join_field(name, v))),
            None => None,
        },
        FieldEdit::Clear => Some(PrefabAction::RemoveComponentField(copy_path(path), comp_index, owned(name))),
        FieldEdit::Toggle(b) => {
            let v = if b { "true" } else { "false" };
            Some(PrefabAction::SetComponentField(copy_path(path), comp_index, join_field(name, v)))
        },
        FieldEdit::Typed(t) => {
            let tv = chars_of(trimmed(t.as_str()).as_str());
            if tv.len() > 0 {
                Some(PrefabAction::SetComponentField(copy_path(path), comp_index, join_field(name, t.as_str())))
            } else {
                None
            }
        },
        FieldEdit::AssetChosen(c) => match c {
            Some(id) => Some(PrefabAction::SetComponentField(copy_path(path), comp_index, join_field(name, id.as_str()))),
            None => Some(PrefabAction::RemoveComponentField(copy_path(path), comp_index, owned(name))),
        },
    }
}

} // verus!
