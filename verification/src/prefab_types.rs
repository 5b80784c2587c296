//! The raw `.comp` prefab shape, the `"key: value"` field convention, and
//! navigation/editing of the raw game-object tree.
use vstd::prelude::*;
use crate::text::{chars_of, push_char, string_from_range, owned, str_eq, is_ws, trim, trim_bounds, trimmed, first_index, find_char};
use crate::fs_ops::{EntryType, EntryTypeView};

verus! {

// ─── raw data ──────────────────────────────────────────────────────────────

/// One component of a game object: its type name and its raw
/// `"key: value"` field strings.
#[derive(Debug, PartialEq)]
pub struct PrefabComponentRaw {
    pub kind: String,
    pub fields: Vec<String>,
}

/// One game object of a `.comp` file, with its components and children.
#[derive(Debug, PartialEq)]
pub struct PrefabGameObjectRaw {
    pub enabled: bool,
    pub name: String,
    pub base: Option<String>,
    pub components: Vec<PrefabComponentRaw>,
    pub children: Vec<PrefabGameObjectRaw>,
}

/// Mathematical model of a component.
#[verifier::ext_equal]
pub struct ComponentView {
    pub kind: Seq<char>,
    pub fields: Seq<Seq<char>>,
}

/// Mathematical model of a game object tree.
#[verifier::ext_equal]
pub struct GameObjectView {
    pub enabled: bool,
    pub name: Seq<char>,
    pub base: Option<Seq<char>>,
    pub components: Seq<ComponentView>,
    pub children: Seq<GameObjectView>,
}

/// The characters of each string of a sequence.
pub open spec fn strings_view(s: Seq<String>) -> Seq<Seq<char>> {
    s.map_values(|x: String| x@)
}

/// The characters of an optional string.
pub open spec fn opt_string_view(o: Option<String>) -> Option<Seq<char>> {
    match o {
        Some(s) => Some(s@),
        None => None,
    }
}

impl View for PrefabComponentRaw {
    type V = ComponentView;

    open spec fn view(&self) -> ComponentView {
        ComponentView { kind: self.kind@, fields: strings_view(self.fields@) }
    }
}

/// Models of a sequence of components.
pub open spec fn components_view(s: Seq<PrefabComponentRaw>) -> Seq<ComponentView> {
    s.map_values(|c: PrefabComponentRaw| c@)
}

/// Model of a game object tree.
pub open spec fn object_view(o: PrefabGameObjectRaw) -> GameObjectView
    decreases o,
{
    GameObjectView {
        enabled: o.enabled,
        name: o.name@,
        base: opt_string_view(o.base),
        components: components_view(o.components@),
        children: objects_view(o.children@),
    }
}

/// Models of a sequence of game object trees.
pub open spec fn objects_view(s: Seq<PrefabGameObjectRaw>) -> Seq<GameObjectView>
    decreases s,
{
    if s.len() == 0 {
        Seq::empty()
    } else {
        objects_view(s.drop_last()).push(object_view(s.last()))
    }
}

impl View for PrefabGameObjectRaw {
    type V = GameObjectView;

    open spec fn view(&self) -> GameObjectView {
        object_view(*self)
    }
}

/// `objects_view` is taken element by element.
pub broadcast proof fn lemma_objects_view(s: Seq<PrefabGameObjectRaw>)
    ensures
        #[trigger] objects_view(s).len() == s.len(),
        forall|i: int| 0 <= i < s.len() ==> #[trigger] objects_view(s)[i] == s[i]@,
    decreases s.len(),
{
    if s.len() > 0 {
        lemma_objects_view(s.drop_last());
    }
}

/// Two sequences of trees with the same models element-wise have the same models.
pub proof fn lemma_objects_view_ext(a: Seq<PrefabGameObjectRaw>, b: Seq<PrefabGameObjectRaw>)
    requires
        a.len() == b.len(),
        forall|i: int| 0 <= i < a.len() ==> a[i]@ == b[i]@,
    ensures
        objects_view(a) == objects_view(b),
{
    lemma_objects_view(a);
    lemma_objects_view(b);
    assert(objects_view(a) =~= objects_view(b));
}

/// Replacing one tree of a sequence replaces its model.
pub proof fn lemma_objects_view_update(s: Seq<PrefabGameObjectRaw>, i: int, c: PrefabGameObjectRaw)
    requires
        0 <= i < s.len(),
    ensures
        objects_view(s.update(i, c)) == objects_view(s).update(i, c@),
{
    lemma_objects_view(s);
    lemma_objects_view(s.update(i, c));
    assert(objects_view(s.update(i, c)) =~= objects_view(s).update(i, c@));
}

/// A copy of a vector of strings.
pub fn clone_strings(v: &Vec<String>) -> (r: Vec<String>)
    ensures
        r@ == v@,
{
    let r = v.clone();
    proof {
        assert forall|j: int| 0 <= j < r.len() implies r@[j] == v@[j] by {
            assert(cloned::<String>(v[j], r[j]));
        }
        assert(r@ =~= v@);
    }
    r
}

/// A copy of an optional string.
pub fn clone_opt_string(o: &Option<String>) -> (r: Option<String>)
    ensures
        r == *o,
{
    match o {
        Some(s) => Some(s.clone()),
        None => None,
    }
}

impl Clone for PrefabComponentRaw {
    fn clone(&self) -> (r: Self)
        ensures
            r@ == self@,
    {
        PrefabComponentRaw { kind: self.kind.clone(), fields: clone_strings(&self.fields) }
    }
}

/// A copy of a vector of components.
pub fn clone_components(v: &Vec<PrefabComponentRaw>) -> (r: Vec<PrefabComponentRaw>)
    ensures
        components_view(r@) == components_view(v@),
{
    let mut out: Vec<PrefabComponentRaw> = Vec::new();
    let mut i: usize = 0;
    while i < v.len()
        invariant
            i <= v@.len(),
            out@.len() == i,
            forall|j: int| 0 <= j < i ==> #[trigger] out@[j]@ == v@[j]@,
        decreases v@.len() - i,
    {
        out.push(v[i].clone());
        i += 1;
    }
    assert(components_view(out@) =~= components_view(v@));
    out
}

impl Clone for PrefabGameObjectRaw {
    fn clone(&self) -> (r: Self)
        ensures
            r@ == self@,
        decreases self,
    {
        let mut kids: Vec<PrefabGameObjectRaw> = Vec::new();
        let mut i: usize = 0;
        while i < self.children.len()
            invariant
                i <= self.children@.len(),
                kids@.len() == i,
                forall|j: int| 0 <= j < i ==> #[trigger] kids@[j]@ == self.children@[j]@,
            decreases self.children@.len() - i,
        {
            let k = self.children[i].clone();
            kids.push(k);
            i += 1;
        }
        proof {
            lemma_objects_view_ext(kids@, self.children@);
        }
        PrefabGameObjectRaw {
            enabled: self.enabled,
            name: self.name.clone(),
            base: clone_opt_string(&self.base),
            components: clone_components(&self.components),
            children: kids,
        }
    }
}

/// Default of a missing `enabled:` key: objects are enabled.
pub fn default_true() -> (r: bool)
    ensures
        r,
{
    true
}

/// Default of a missing `name:` key.
pub fn default_name() -> (r: String)
    ensures
        r@ == "GameObject"@,
{
    owned("GameObject")
}

// ─── the "key: value" field convention ─────────────────────────────────────

/// Key of a raw field string: the trimmed text before the first `':'`, or
/// the whole trimmed string when there is none.
pub open spec fn field_key(f: Seq<char>) -> Seq<char> {
    match first_index(f, ':') {
        Some(i) => trim(f.take(i)),
        None => trim(f),
    }
}

/// Value of a raw field string: the trimmed text after the first `':'`,
/// or empty when there is none.
pub open spec fn field_value(f: Seq<char>) -> Seq<char> {
    match first_index(f, ':') {
        Some(i) => trim(f.skip(i + 1)),
        None => Seq::empty(),
    }
}

/// The raw field string for `key` and `value`.
pub open spec fn join_field_spec(key: Seq<char>, value: Seq<char>) -> Seq<char> {
    key + seq![':', ' '] + value
}

/// Splits a raw field string `"key: value"` / `"key:value"` into its
/// trimmed key and trimmed value.
pub fn split_field(field: &str) -> (r: (String, String))
    ensures
        r.0@ == field_key(field@),
        r.1@ == field_value(field@),
{
    let v = chars_of(field);
    match find_char(&v, ':') {
        Some(idx) => {
            let (a, b) = trim_bounds(&v, 0, idx);
            let (c, d) = trim_bounds(&v, idx + 1, v.len());
            proof {
                assert(v@.take(idx as int) =~= v@.subrange(0, idx as int));
                assert(v@.skip(idx + 1) =~= v@.subrange(idx + 1, v@.len() as int));
            }
            (string_from_range(&v, a, b), string_from_range(&v, c, d))
        },
        None => {
            let (a, b) = trim_bounds(&v, 0, v.len());
            proof {
                assert(v@.subrange(0, v@.len() as int) =~= v@);
            }
            (string_from_range(&v, a, b), String::new())
        },
    }
}

/// The key of a raw field string (the first half of [`split_field`]).
pub fn field_key_of(field: &str) -> (r: String)
    ensures
        r@ == field_key(field@),
{
    split_field(field).0
}

/// `"key: value"`.
pub fn join_field(key: &str, value: &str) -> (r: String)
    ensures
        r@ == join_field_spec(key@, value@),
{
    let mut r = key.to_owned();
    push_char(&mut r, ':');
    push_char(&mut r, ' ');
    r.append(value);
    proof {
        assert(r@ =~= join_field_spec(key@, value@));
    }
    r
}

proof fn lemma_trim_leading_space(v: Seq<char>)
    ensures
        trim(seq![' '] + v) == trim(v),
{
    let s = seq![' '] + v;
    assert(is_ws(s[0]));
    assert(s.drop_first() =~= v);
}

/// Splitting a joined field gives back its trimmed key and value, when the
/// key holds no `':'`.
pub proof fn lemma_split_join(key: Seq<char>, value: Seq<char>)
    requires
        !key.contains(':'),
    ensures
        field_key(join_field_spec(key, value)) == trim(key),
        field_value(join_field_spec(key, value)) == trim(value),
{
    let f = join_field_spec(key, value);
    let k = key.len() as int;
    assert(f[k] == ':');
    assert(f.contains(':'));
    let i = choose|i: int| 0 <= i < f.len() && f[i] == ':' && forall|j: int| 0 <= j < i ==> f[j] != ':';
    if i < k {
        assert(f[i] == key[i]);
        assert(key.contains(':'));
    } else if i > k {
        assert(f[k] != ':');
    }
    assert(f.take(k) =~= key);
    assert(f.skip(k + 1) =~= seq![' '] + value);
    lemma_trim_leading_space(value);
}

// ─── component type registry ───────────────────────────────────────────────

/// A field that a component type declares: its name and value kind.
#[derive(Debug)]
pub struct FieldDescriptor {
    pub name: String,
    pub kind: EntryType,
}

/// Model of a field descriptor.
pub struct FieldDescriptorView {
    pub name: Seq<char>,
    pub kind: EntryTypeView,
}

impl View for FieldDescriptor {
    type V = FieldDescriptorView;

    open spec fn view(&self) -> FieldDescriptorView {
        FieldDescriptorView { name: self.name@, kind: self.kind@ }
    }
}

/// Models of a sequence of field descriptors.
pub open spec fn descriptors_view(s: Seq<FieldDescriptor>) -> Seq<FieldDescriptorView> {
    s.map_values(|d: FieldDescriptor| d@)
}

/// `kind` names a transform component.
pub open spec fn is_transform_kind(kind: Seq<char>) -> bool {
    kind == "Transform2D"@ || kind == "Transform3D"@
}

/// `kind` names a renderer component.
pub open spec fn is_renderer_kind(kind: Seq<char>) -> bool {
    kind == "RendererStatic"@ || kind == "RendererDynamic"@
}

/// Is `kind` `Transform2D` or `Transform3D`?
pub fn is_transform(kind: &str) -> (r: bool)
    ensures
        r == is_transform_kind(kind@),
{
    str_eq(kind, "Transform2D") || str_eq(kind, "Transform3D")
}

/// Is `kind` `RendererStatic` or `RendererDynamic`?
pub fn is_renderer(kind: &str) -> (r: bool)
    ensures
        r == is_renderer_kind(kind@),
{
    str_eq(kind, "RendererStatic") || str_eq(kind, "RendererDynamic")
}

/// The builtin field list of a component type.
pub open spec fn builtin_fields(kind: Seq<char>) -> Seq<FieldDescriptorView> {
    if is_transform_kind(kind) {
        seq![
            FieldDescriptorView { name: "position"@, kind: EntryTypeView::Vector3 },
            FieldDescriptorView { name: "rotation"@, kind: EntryTypeView::Vector3 },
            FieldDescriptorView { name: "scale"@, kind: EntryTypeView::Vector3 },
        ]
    } else if kind == "RendererStatic"@ {
        seq![FieldDescriptorView { name: "asset"@, kind: EntryTypeView::Asset(".glb"@) }]
    } else if kind == "RendererDynamic"@ {
        seq![FieldDescriptorView { name: "asset"@, kind: EntryTypeView::Asset(".anim"@) }]
    } else {
        Seq::empty()
    }
}

/// Fallback field list for the transform and renderer components, used
/// when the facet manifest does not list them.
pub fn builtin_component_fields(kind: &str) -> (r: Vec<FieldDescriptor>)
    ensures
        descriptors_view(r@) == builtin_fields(kind@),
{
    let mut r: Vec<FieldDescriptor> = Vec::new();
    if is_transform(kind) {
        r.push(FieldDescriptor { name: owned("position"), kind: EntryType::Vector3 });
        r.push(FieldDescriptor { name: owned("rotation"), kind: EntryType::Vector3 });
        r.push(FieldDescriptor { name: owned("scale"), kind: EntryType::Vector3 });
    } else if str_eq(kind, "RendererStatic") {
        r.push(FieldDescriptor { name: owned("asset"), kind: EntryType::Asset(owned(".glb")) });
    } else if str_eq(kind, "RendererDynamic") {
        r.push(FieldDescriptor { name: owned("asset"), kind: EntryType::Asset(owned(".anim")) });
    }
    assert(descriptors_view(r@) =~= builtin_fields(kind@));
    r
}

// ─── field lookup and update ───────────────────────────────────────────────

/// Index of the first field whose key is `key`.
pub open spec fn first_field_with_key(fields: Seq<Seq<char>>, key: Seq<char>) -> Option<int> {
    if exists|i: int| 0 <= i < fields.len() && field_key(#[trigger] fields[i]) == key {
        Some(choose|i: int| 0 <= i < fields.len() && field_key(fields[i]) == key
            && forall|j: int| 0 <= j < i ==> field_key(#[trigger] fields[j]) != key)
    } else {
        None
    }
}

/// What [`first_field_with_key`] answers.
pub proof fn lemma_first_field_with_key(fields: Seq<Seq<char>>, key: Seq<char>)
    ensures
        first_field_with_key(fields, key) matches Some(i) ==> 0 <= i < fields.len()
            && field_key(fields[i]) == key
            && forall|j: int| 0 <= j < i ==> field_key(#[trigger] fields[j]) != key,
        first_field_with_key(fields, key) is None ==> forall|j: int|
            0 <= j < fields.len() ==> field_key(#[trigger] fields[j]) != key,
{
    if exists|i: int| 0 <= i < fields.len() && field_key(#[trigger] fields[i]) == key {
        let w = choose|i: int| 0 <= i < fields.len() && field_key(#[trigger] fields[i]) == key;
        // the least such index exists
        assert(exists|i: int| 0 <= i < fields.len() && field_key(fields[i]) == key
            && forall|j: int| 0 <= j < i ==> field_key(#[trigger] fields[j]) != key) by {
            lemma_least_key_index(fields, key, w);
        }
    }
}

proof fn lemma_least_key_index(fields: Seq<Seq<char>>, key: Seq<char>, w: int)
    requires
        0 <= w < fields.len(),
        field_key(fields[w]) == key,
    ensures
        exists|i: int| 0 <= i < fields.len() && field_key(fields[i]) == key
            && forall|j: int| 0 <= j < i ==> field_key(#[trigger] fields[j]) != key,
    decreases w,
{
    if exists|j: int| 0 <= j < w && field_key(#[trigger] fields[j]) == key {
        let j = choose|j: int| 0 <= j < w && field_key(#[trigger] fields[j]) == key;
        lemma_least_key_index(fields, key, j);
    } else {
        assert(forall|j: int| 0 <= j < w ==> field_key(#[trigger] fields[j]) != key);
    }
}

/// `fields` with the first field keyed `key` replaced by `entry`, or with
/// `entry` appended when there is none.
pub open spec fn set_or_append(fields: Seq<Seq<char>>, key: Seq<char>, entry: Seq<char>) -> Seq<Seq<char>> {
    match first_field_with_key(fields, key) {
        Some(i) => fields.update(i, entry),
        None => fields.push(entry),
    }
}

/// Position of the first field keyed `key`.
pub fn position_of_key(fields: &Vec<String>, key: &str) -> (r: Option<usize>)
    ensures
        r matches Some(i) ==> i < fields@.len()
            && first_field_with_key(strings_view(fields@), key@) == Some(i as int),
        r is None ==> first_field_with_key(strings_view(fields@), key@) is None,
{
    let ghost fv = strings_view(fields@);
    proof {
        lemma_first_field_with_key(fv, key@);
    }
    let mut i: usize = 0;
    while i < fields.len()
        invariant
            i <= fields@.len(),
            fv == strings_view(fields@),
            forall|j: int| 0 <= j < i ==> field_key(#[trigger] fv[j]) != key@,
        decreases fields@.len() - i,
    {
        let k = field_key_of(fields[i].as_str());
        if str_eq(k.as_str(), key) {
            proof {
                assert(field_key(fv[i as int]) == key@);
                let c = first_field_with_key(fv, key@).unwrap();
                if c < i {
                } else if c > i {
                    assert(field_key(fv[i as int]) != key@);
                }
            }
            return Some(i);
        }
        i += 1;
    }
    None
}

/// Replaces the first field keyed `key` by `entry`, or appends `entry`.
pub fn set_or_append_field(fields: &mut Vec<String>, key: &str, entry: String)
    ensures
        strings_view(final(fields)@) == set_or_append(strings_view(old(fields)@), key@, entry@),
{
    proof {
        lemma_first_field_with_key(strings_view(fields@), key@);
    }
    match position_of_key(fields, key) {
        Some(idx) => {
            fields.set(idx, entry);
        },
        None => {
            fields.push(entry);
        },
    }
    assert(strings_view(fields@) =~= set_or_append(strings_view(old(fields)@), key@, entry@));
}

/// Value of the first field keyed `key`.
pub open spec fn field_value_of(fields: Seq<Seq<char>>, key: Seq<char>) -> Option<Seq<char>> {
    match first_field_with_key(fields, key) {
        Some(i) => Some(field_value(fields[i])),
        None => None,
    }
}

/// The renderer's `asset` field value, if set.
pub fn read_renderer_asset(comp: &PrefabComponentRaw) -> (r: Option<String>)
    ensures
        opt_string_view(r) == field_value_of(comp@.fields, "asset"@),
{
    match position_of_key(&comp.fields, "asset") {
        Some(i) => Some(split_field(comp.fields[i].as_str()).1),
        None => None,
    }
}

/// The component with its `asset` field set to `asset_path`, in place of
/// the first existing one or appended.
pub fn write_renderer_asset(comp: &PrefabComponentRaw, asset_path: &str) -> (r: PrefabComponentRaw)
    ensures
        r@.kind == comp@.kind,
        r@.fields == set_or_append(comp@.fields, "asset"@, join_field_spec("asset"@, asset_path@)),
{
    let mut fields = clone_strings(&comp.fields);
    let entry = join_field("asset", asset_path);
    set_or_append_field(&mut fields, "asset", entry);
    PrefabComponentRaw { kind: comp.kind.clone(), fields }
}

/// Reading the renderer asset after writing it gives the trimmed path.
pub proof fn lemma_read_after_write_asset(fields: Seq<Seq<char>>, path: Seq<char>)
    ensures
        field_value_of(set_or_append(fields, "asset"@, join_field_spec("asset"@, path)), "asset"@)
            == Some(trim(path)),
{
    reveal_strlit("asset");
    let entry = join_field_spec("asset"@, path);
    assert(!"asset"@.contains(':')) by {
        assert forall|i: int| 0 <= i < "asset"@.len() implies "asset"@[i] != ':' by {}
    }
    lemma_split_join("asset"@, path);
    assert(trim("asset"@) == "asset"@) by {
        assert(!is_ws("asset"@[0]));
        assert(!is_ws("asset"@.last()));
    }
    let out = set_or_append(fields, "asset"@, entry);
    lemma_first_field_with_key(fields, "asset"@);
    lemma_first_field_with_key(out, "asset"@);
    let chosen = match first_field_with_key(fields, "asset"@) {
        Some(i0) => i0,
        None => fields.len() as int,
    };
    assert(out[chosen] == entry);
    assert forall|j: int| 0 <= j < chosen implies field_key(#[trigger] out[j]) != "asset"@ by {
        assert(out[j] == fields[j]);
    }
    let i = first_field_with_key(out, "asset"@).unwrap();
    if i < chosen {
        assert(field_key(out[i]) != "asset"@);
    } else if i > chosen {
        assert(field_key(out[chosen]) != "asset"@);
    }
}

/// `fields` without those keyed `key`, followed by `entry`.
pub open spec fn replace_field(fields: Seq<Seq<char>>, key: Seq<char>, entry: Seq<char>) -> Seq<Seq<char>> {
    fields.filter(|f: Seq<char>| field_key(f) != key).push(entry)
}

/// `fields` without those keyed `key`.
pub fn remove_fields_with_key(fields: &Vec<String>, key: &str) -> (r: Vec<String>)
    ensures
        strings_view(r@) == strings_view(fields@).filter(|f: Seq<char>| field_key(f) != key@),
{
    let ghost pred = |f: Seq<char>| field_key(f) != key@;
    let mut out: Vec<String> = Vec::new();
    let mut i: usize = 0;
    while i < fields.len()
        invariant
            i <= fields@.len(),
            pred == (|f: Seq<char>| field_key(f) != key@),
            strings_view(out@) == strings_view(fields@).take(i as int).filter(pred),
        decreases fields@.len() - i,
    {
        let k = field_key_of(fields[i].as_str());
        proof {
            reveal_with_fuel(Seq::filter, 1);
            assert(strings_view(fields@).take(i + 1).drop_last() =~= strings_view(fields@).take(i as int));
        }
        if !str_eq(k.as_str(), key) {
            let ghost before = out@;
            out.push(fields[i].clone());
            proof {
                assert(strings_view(out@) =~= strings_view(before).push(fields@[i as int]@));
            }
        }
        i += 1;
    }
    proof {
        assert(strings_view(fields@).take(fields@.len() as int) =~= strings_view(fields@));
    }
    out
}

/// Adds or replaces a field on a component by key: every field keyed `key`
/// is dropped and `"key: value"` is appended.
pub fn set_component_field(comp: &PrefabComponentRaw, key: &str, value: &str) -> (r: PrefabComponentRaw)
    ensures
        r@.kind == comp@.kind,
        r@.fields == replace_field(comp@.fields, key@, join_field_spec(key@, value@)),
{
    let mut fields = remove_fields_with_key(&comp.fields, key);
    let ghost kept = fields@;
    fields.push(join_field(key, value));
    proof {
        assert(strings_view(fields@) =~= strings_view(kept).push(join_field_spec(key@, value@)));
    }
    PrefabComponentRaw { kind: comp.kind.clone(), fields }
}

// ─── default factories ─────────────────────────────────────────────────────

/// A freshly added component: the given type with no fields set.
pub fn default_component(kind: &str) -> (r: PrefabComponentRaw)
    ensures
        r@ == (ComponentView { kind: kind@, fields: Seq::empty() }),
{
    let r = PrefabComponentRaw { kind: owned(kind), fields: Vec::new() };
    assert(r@.fields =~= Seq::<Seq<char>>::empty());
    r
}

/// The model of a fresh enabled game object with no base, components or children.
pub open spec fn fresh_object(name: Seq<char>) -> GameObjectView {
    GameObjectView {
        enabled: true,
        name,
        base: None,
        components: Seq::empty(),
        children: Seq::empty(),
    }
}

/// A fresh enabled game object with no base, components or children.
pub fn default_game_object(name: &str) -> (r: PrefabGameObjectRaw)
    ensures
        r@ == fresh_object(name@),
{
    let r = PrefabGameObjectRaw {
        enabled: true,
        name: owned(name),
        base: None,
        components: Vec::new(),
        children: Vec::new(),
    };
    assert(r@.components =~= Seq::<ComponentView>::empty());
    assert(r@.children =~= Seq::<GameObjectView>::empty());
    r
}

// ─── tree navigation ───────────────────────────────────────────────────────

/// The node reached from `n` by following the child indices of `path`.
pub open spec fn node_at(n: GameObjectView, path: Seq<usize>) -> Option<GameObjectView>
    decreases path.len(),
{
    if path.len() == 0 {
        Some(n)
    } else if path[0] < n.children.len() {
        node_at(n.children[path[0] as int], path.drop_first())
    } else {
        None
    }
}

/// `n` with the node at `path` replaced by `new` (unchanged when `path`
/// leads nowhere).
pub open spec fn replace_at(n: GameObjectView, path: Seq<usize>, new: GameObjectView) -> GameObjectView
    decreases path.len(),
{
    if path.len() == 0 {
        new
    } else if path[0] < n.children.len() {
        GameObjectView {
            children: n.children.update(
                path[0] as int,
                replace_at(n.children[path[0] as int], path.drop_first(), new),
            ),
            ..n
        }
    } else {
        n
    }
}

fn node_at_from<'a>(node: &'a PrefabGameObjectRaw, path: &[usize], k: usize) -> (r: Option<&'a PrefabGameObjectRaw>)
    requires
        k <= path@.len(),
    ensures
        r matches Some(n) ==> node_at(node@, path@.skip(k as int)) == Some(n@),
        r is None ==> node_at(node@, path@.skip(k as int)) is None,
    decreases path@.len() - k,
{
    if k == path.len() {
        return Some(node);
    }
    let idx = path[k];
    proof {
        lemma_objects_view(node.children@);
        assert(path@.skip(k as int).drop_first() =~= path@.skip(k + 1));
    }
    if idx < node.children.len() {
        node_at_from(&node.children[idx], path, k + 1)
    } else {
        None
    }
}

/// Walks a path of child indices down the raw tree.
pub fn get_node_at_path<'a>(root: &'a PrefabGameObjectRaw, path: &[usize]) -> (r: Option<&'a PrefabGameObjectRaw>)
    ensures
        r matches Some(n) ==> node_at(root@, path@) == Some(n@),
        r is None ==> node_at(root@, path@) is None,
{
    assert(path@.skip(0) =~= path@);
    node_at_from(root, path, 0)
}

fn node_at_from_mut<'a>(node: &'a mut PrefabGameObjectRaw, path: &[usize], k: usize) -> (r: Option<&'a mut PrefabGameObjectRaw>)
    requires
        k <= path@.len(),
    ensures
        node_at(old(node)@, path@.skip(k as int)) is None ==> r is None && final(node)@ == old(node)@,
        node_at(old(node)@, path@.skip(k as int)) is Some ==> {
            &&& r is Some
            &&& node_at(old(node)@, path@.skip(k as int)) == Some((*r.unwrap())@)
            &&& final(node)@ == replace_at(old(node)@, path@.skip(k as int), (*final(r.unwrap()))@)
        },
    decreases path@.len() - k,
{
    if k == path.len() {
        return Some(node);
    }
    let idx = path[k];
    proof {
        lemma_objects_view(node.children@);
        assert(path@.skip(k as int).drop_first() =~= path@.skip(k + 1));
    }
    if idx < node.children.len() {
        let child = &mut node.children[idx];
        proof {
            lemma_objects_view_update(old(node).children@, idx as int, *final(child));
            assert(objects_view(old(node).children@).update(idx as int, old(node).children@[idx as int]@)
                =~= objects_view(old(node).children@));
        }
        node_at_from_mut(child, path, k + 1)
    } else {
        None
    }
}

/// Walks a path of child indices down the raw tree, lending the node found
/// for mutation: whatever is written through it lands at `path` in `root`.
pub fn get_node_at_path_mut<'a>(root: &'a mut PrefabGameObjectRaw, path: &[usize]) -> (r: Option<&'a mut PrefabGameObjectRaw>)
    ensures
        node_at(old(root)@, path@) is None ==> r is None && final(root)@ == old(root)@,
        node_at(old(root)@, path@) is Some ==> {
            &&& r is Some
            &&& node_at(old(root)@, path@) == Some((*r.unwrap())@)
            &&& final(root)@ == replace_at(old(root)@, path@, (*final(r.unwrap()))@)
        },
{
    assert(path@.skip(0) =~= path@);
    node_at_from_mut(root, path, 0)
}

/// A new root with the node at `path` replaced by `next`.
pub fn set_node_at_path(root: &PrefabGameObjectRaw, path: &[usize], next: PrefabGameObjectRaw) -> (r: PrefabGameObjectRaw)
    ensures
        r@ == replace_at(root@, path@, next@),
{
    if path.len() == 0 {
        return next;
    }
    let mut new_root = root.clone();
    match get_node_at_path_mut(&mut new_root, path) {
        Some(target) => {
            *target = next;
        },
        None => {
            proof {
                lemma_replace_at_missing(root@, path@, next@);
            }
        },
    }
    new_root
}

/// Reading a node back after replacing it gives the replacement, and the
/// replacement path stays valid.
pub proof fn lemma_node_at_replace_at(n: GameObjectView, path: Seq<usize>, new: GameObjectView)
    requires
        node_at(n, path) is Some,
    ensures
        node_at(replace_at(n, path, new), path) == Some(new),
    decreases path.len(),
{
    if path.len() > 0 {
        lemma_node_at_replace_at(n.children[path[0] as int], path.drop_first(), new);
    }
}

/// Replacing along a path that leads nowhere leaves the tree unchanged.
pub proof fn lemma_replace_at_missing(n: GameObjectView, path: Seq<usize>, new: GameObjectView)
    requires
        node_at(n, path) is None,
    ensures
        replace_at(n, path, new) == n,
    decreases path.len(),
{
    if path.len() > 0 && path[0] < n.children.len() {
        lemma_replace_at_missing(n.children[path[0] as int], path.drop_first(), new);
        assert(n.children.update(path[0] as int, n.children[path[0] as int]) =~= n.children);
    }
}

} // verus!
