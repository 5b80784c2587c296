//! Resolution of a prefab's `base:` inheritance chain into a tree that
//! knows, per field, whether its value was inherited or overridden, and the
//! way back to what is saved on disk.
use vstd::prelude::*;
use crate::text::{str_eq, trimmed, trim, all_digits, vec_all_digits, chars_of, concat};
use crate::fs_ops::{ManifestEntry, ManifestEntryView, manifest_view, first_id_entry, find_first_id};
use crate::seqs::{first_match, lemma_first_match, lemma_first_match_at};
use crate::prefab_types::{
    PrefabComponentRaw, PrefabGameObjectRaw, ComponentView, GameObjectView, components_view,
    objects_view, lemma_objects_view, strings_view, opt_string_view, clone_opt_string,
    field_key, field_key_of, clone_strings, clone_components,
};

verus! {

// ─── resolved types ────────────────────────────────────────────────────────

/// A field value with whether the child set it itself.
#[derive(Debug)]
pub struct ResolvedField {
    pub raw: String,
    pub overridden: bool,
}

/// A component of the resolved tree.
#[derive(Debug)]
pub struct ResolvedComponent {
    pub kind: String,
    pub fields: Vec<ResolvedField>,
    /// true when the base does not have this component
    pub added_by_child: bool,
}

/// A game object of the resolved tree.
#[derive(Debug)]
pub struct ResolvedGameObject {
    pub enabled: bool,
    pub name: String,
    pub base: Option<String>,
    pub added_by_child: bool,
    pub components: Vec<ResolvedComponent>,
    pub children: Vec<ResolvedGameObject>,
}

/// Model of a resolved field.
#[verifier::ext_equal]
pub struct ResolvedFieldView {
    pub raw: Seq<char>,
    pub overridden: bool,
}

/// Model of a resolved component.
#[verifier::ext_equal]
pub struct ResolvedComponentView {
    pub kind: Seq<char>,
    pub fields: Seq<ResolvedFieldView>,
    pub added_by_child: bool,
}

/// Model of a resolved game object tree.
#[verifier::ext_equal]
pub struct ResolvedObjectView {
    pub enabled: bool,
    pub name: Seq<char>,
    pub base: Option<Seq<char>>,
    pub added_by_child: bool,
    pub components: Seq<ResolvedComponentView>,
    pub children: Seq<ResolvedObjectView>,
}

impl View for ResolvedField {
    type V = ResolvedFieldView;

    open spec fn view(&self) -> ResolvedFieldView {
        ResolvedFieldView { raw: self.raw@, overridden: self.overridden }
    }
}

/// Models of a sequence of resolved fields.
pub open spec fn rfields_view(s: Seq<ResolvedField>) -> Seq<ResolvedFieldView> {
    s.map_values(|f: ResolvedField| f@)
}

impl View for ResolvedComponent {
    type V = ResolvedComponentView;

    open spec fn view(&self) -> ResolvedComponentView {
        ResolvedComponentView {
            kind: self.kind@,
            fields: rfields_view(self.fields@),
            added_by_child: self.added_by_child,
        }
    }
}

/// Models of a sequence of resolved components.
pub open spec fn rcomponents_view(s: Seq<ResolvedComponent>) -> Seq<ResolvedComponentView> {
    s.map_values(|c: ResolvedComponent| c@)
}

/// Model of a resolved tree.
pub open spec fn robject_view(o: ResolvedGameObject) -> ResolvedObjectView
    decreases o,
{
    ResolvedObjectView {
        enabled: o.enabled,
        name: o.name@,
        base: opt_string_view(o.base),
        added_by_child: o.added_by_child,
        components: rcomponents_view(o.components@),
        children: robjects_view(o.children@),
    }
}

/// Models of a sequence of resolved trees.
pub open spec fn robjects_view(s: Seq<ResolvedGameObject>) -> Seq<ResolvedObjectView>
    decreases s,
{
    if s.len() == 0 {
        Seq::empty()
    } else {
        robjects_view(s.drop_last()).push(robject_view(s.last()))
    }
}

impl View for ResolvedGameObject {
    type V = ResolvedObjectView;

    open spec fn view(&self) -> ResolvedObjectView {
        robject_view(*self)
    }
}

/// `robjects_view` is taken element by element.
pub broadcast proof fn lemma_robjects_view(s: Seq<ResolvedGameObject>)
    ensures
        #[trigger] robjects_view(s).len() == s.len(),
        forall|i: int| 0 <= i < s.len() ==> #[trigger] robjects_view(s)[i] == s[i]@,
    decreases s.len(),
{
    if s.len() > 0 {
        lemma_robjects_view(s.drop_last());
    }
}

impl Clone for ResolvedField {
    fn clone(&self) -> (r: Self)
        ensures
            r@ == self@,
    {
        ResolvedField { raw: self.raw.clone(), overridden: self.overridden }
    }
}

impl Clone for ResolvedComponent {
    fn clone(&self) -> (r: Self)
        ensures
            r@ == self@,
    {
        let mut fields: Vec<ResolvedField> = Vec::new();
        let mut i: usize = 0;
        while i < self.fields.len()
            invariant
                i <= self.fields@.len(),
                fields@.len() == i,
                forall|j: int| 0 <= j < i ==> #[trigger] fields@[j]@ == self.fields@[j]@,
            decreases self.fields@.len() - i,
        {
            fields.push(self.fields[i].clone());
            i += 1;
        }
        assert(rfields_view(fields@) =~= rfields_view(self.fields@));
        ResolvedComponent { kind: self.kind.clone(), fields, added_by_child: self.added_by_child }
    }
}

/// A copy of a vector of resolved components.
pub fn clone_rcomponents(v: &Vec<ResolvedComponent>) -> (r: Vec<ResolvedComponent>)
    ensures
        rcomponents_view(r@) == rcomponents_view(v@),
{
    let mut out: Vec<ResolvedComponent> = Vec::new();
    let mut i: usize = 0;
    while i < v.len()
        invariant
            i <= v@.len(),
            out@.len() == i,
            forall|j: int| 0 <= j < i ==> #[trigger] out@[j]@ == v@[j]@,
        decreases v@.len() - i,
    {
        out.push(v[i].clone());
        i += 1;
    }
    assert(rcomponents_view(out@) =~= rcomponents_view(v@));
    out
}

impl Clone for ResolvedGameObject {
    fn clone(&self) -> (r: Self)
        ensures
            r@ == self@,
        decreases self,
    {
        let mut kids: Vec<ResolvedGameObject> = Vec::new();
        let mut i: usize = 0;
        while i < self.children.len()
            invariant
                i <= self.children@.len(),
                kids@.len() == i,
                forall|j: int| 0 <= j < i ==> #[trigger] kids@[j]@ == self.children@[j]@,
            decreases self.children@.len() - i,
        {
            let k = self.children[i].clone();
            kids.push(k);
            i += 1;
        }
        proof {
            lemma_robjects_view(kids@);
            lemma_robjects_view(self.children@);
            assert(robjects_view(kids@) =~= robjects_view(self.children@));
        }
        ResolvedGameObject {
            enabled: self.enabled,
            name: self.name.clone(),
            base: clone_opt_string(&self.base),
            added_by_child: self.added_by_child,
            components: clone_rcomponents(&self.components),
            children: kids,
        }
    }
}

// ─── resolution without a base ─────────────────────────────────────────────

/// Every field of a raw component, uniformly marked.
pub open spec fn fields_marked(fields: Seq<Seq<char>>, mark: bool) -> Seq<ResolvedFieldView> {
    fields.map_values(|f: Seq<char>| ResolvedFieldView { raw: f, overridden: mark })
}

/// A raw component with every field and itself uniformly marked.
pub open spec fn component_marked(c: ComponentView, mark: bool) -> ResolvedComponentView {
    ResolvedComponentView { kind: c.kind, fields: fields_marked(c.fields, mark), added_by_child: mark }
}

/// A raw tree resolved with nothing to merge against: every component and
/// field uniformly inherited (`mark == false`) or added (`mark == true`).
pub open spec fn no_base_view(n: GameObjectView, mark: bool) -> ResolvedObjectView
    decreases n,
{
    ResolvedObjectView {
        enabled: n.enabled,
        name: n.name,
        base: n.base,
        added_by_child: mark,
        components: n.components.map_values(|c: ComponentView| component_marked(c, mark)),
        children: no_base_all(n.children, mark),
    }
}

/// [`no_base_view`] of each tree of a sequence.
pub open spec fn no_base_all(s: Seq<GameObjectView>, mark: bool) -> Seq<ResolvedObjectView>
    decreases s,
{
    if s.len() == 0 {
        Seq::empty()
    } else {
        no_base_all(s.drop_last(), mark).push(no_base_view(s.last(), mark))
    }
}

/// `no_base_all` is taken element by element.
pub proof fn lemma_no_base_all(s: Seq<GameObjectView>, mark: bool)
    ensures
        no_base_all(s, mark).len() == s.len(),
        forall|i: int| 0 <= i < s.len() ==> #[trigger] no_base_all(s, mark)[i] == no_base_view(s[i], mark),
    decreases s.len(),
{
    if s.len() > 0 {
        lemma_no_base_all(s.drop_last(), mark);
    }
}

fn mark_component(c: &PrefabComponentRaw, mark: bool) -> (r: ResolvedComponent)
    ensures
        r@ == component_marked(c@, mark),
{
    let mut fields: Vec<ResolvedField> = Vec::new();
    let mut i: usize = 0;
    while i < c.fields.len()
        invariant
            i <= c.fields@.len(),
            fields@.len() == i,
            forall|j: int| 0 <= j < i ==> #[trigger] fields@[j]@ == (ResolvedFieldView { raw: c.fields@[j]@, overridden: mark }),
        decreases c.fields@.len() - i,
    {
        fields.push(ResolvedField { raw: c.fields[i].clone(), overridden: mark });
        i += 1;
    }
    assert(rfields_view(fields@) =~= fields_marked(c@.fields, mark));
    ResolvedComponent { kind: c.kind.clone(), fields, added_by_child: mark }
}

/// Resolves a node with no base to merge against: every component and field
/// is uniformly inherited (`from_child == false`) or added (`from_child == true`).
pub fn resolve_no_base(node: &PrefabGameObjectRaw, from_child: bool) -> (r: ResolvedGameObject)
    ensures
        r@ == no_base_view(node@, from_child),
    decreases node,
{
    let mut comps: Vec<ResolvedComponent> = Vec::new();
    let mut i: usize = 0;
    while i < node.components.len()
        invariant
            i <= node.components@.len(),
            comps@.len() == i,
            forall|j: int| 0 <= j < i ==> #[trigger] comps@[j]@ == component_marked(node.components@[j]@, from_child),
        decreases node.components@.len() - i,
    {
        comps.push(mark_component(&node.components[i], from_child));
        i += 1;
    }
    let mut kids: Vec<ResolvedGameObject> = Vec::new();
    let mut k: usize = 0;
    while k < node.children.len()
        invariant
            k <= node.children@.len(),
            kids@.len() == k,
            forall|j: int| 0 <= j < k ==> #[trigger] kids@[j]@ == no_base_view(node.children@[j]@, from_child),
        decreases node.children@.len() - k,
    {
        kids.push(resolve_no_base(&node.children[k], from_child));
        k += 1;
    }
    proof {
        lemma_robjects_view(kids@);
        lemma_objects_view(node.children@);
        lemma_no_base_all(node@.children, from_child);
        assert(robjects_view(kids@) =~= no_base_all(node@.children, from_child));
        assert(rcomponents_view(comps@) =~= node@.components.map_values(
            |c: ComponentView| component_marked(c, from_child),
        ));
    }
    ResolvedGameObject {
        enabled: node.enabled,
        name: node.name.clone(),
        base: clone_opt_string(&node.base),
        added_by_child: from_child,
        components: comps,
        children: kids,
    }
}


// ─── back to the raw shape ─────────────────────────────────────────────────

/// A component is saved when the child added it or overrides a field of it.
pub open spec fn component_saved(c: ResolvedComponentView) -> bool {
    c.added_by_child || exists|i: int| 0 <= i < c.fields.len() && (#[trigger] c.fields[i]).overridden
}

/// The saved form of a component: only its overridden fields.
pub open spec fn saved_component(c: ResolvedComponentView) -> ComponentView {
    ComponentView {
        kind: c.kind,
        fields: c.fields.filter(|f: ResolvedFieldView| f.overridden).map_values(|f: ResolvedFieldView| f.raw),
    }
}

/// The full form of a component: every field.
pub open spec fn full_component(c: ResolvedComponentView) -> ComponentView {
    ComponentView { kind: c.kind, fields: c.fields.map_values(|f: ResolvedFieldView| f.raw) }
}

/// What is saved of a resolved tree: the child's own overrides only.
pub open spec fn saved_view(r: ResolvedObjectView) -> GameObjectView
    decreases r,
{
    GameObjectView {
        enabled: r.enabled,
        name: r.name,
        base: r.base,
        components: r.components.filter(|c: ResolvedComponentView| component_saved(c)).map_values(
            |c: ResolvedComponentView| saved_component(c),
        ),
        children: saved_all(r.children),
    }
}

/// [`saved_view`] of each tree of a sequence.
pub open spec fn saved_all(s: Seq<ResolvedObjectView>) -> Seq<GameObjectView>
    decreases s,
{
    if s.len() == 0 {
        Seq::empty()
    } else {
        saved_all(s.drop_last()).push(saved_view(s.last()))
    }
}

/// Every field of a resolved tree, inherited or overridden.
pub open spec fn full_view(r: ResolvedObjectView) -> GameObjectView
    decreases r,
{
    GameObjectView {
        enabled: r.enabled,
        name: r.name,
        base: r.base,
        components: r.components.map_values(|c: ResolvedComponentView| full_component(c)),
        children: full_all(r.children),
    }
}

/// [`full_view`] of each tree of a sequence.
pub open spec fn full_all(s: Seq<ResolvedObjectView>) -> Seq<GameObjectView>
    decreases s,
{
    if s.len() == 0 {
        Seq::empty()
    } else {
        full_all(s.drop_last()).push(full_view(s.last()))
    }
}

proof fn lemma_saved_all(s: Seq<ResolvedObjectView>)
    ensures
        saved_all(s).len() == s.len(),
        forall|i: int| 0 <= i < s.len() ==> #[trigger] saved_all(s)[i] == saved_view(s[i]),
    decreases s.len(),
{
    if s.len() > 0 {
        lemma_saved_all(s.drop_last());
    }
}

proof fn lemma_full_all(s: Seq<ResolvedObjectView>)
    ensures
        full_all(s).len() == s.len(),
        forall|i: int| 0 <= i < s.len() ==> #[trigger] full_all(s)[i] == full_view(s[i]),
    decreases s.len(),
{
    if s.len() > 0 {
        lemma_full_all(s.drop_last());
    }
}

fn component_has_override(c: &ResolvedComponent) -> (r: bool)
    ensures
        r == component_saved(c@),
{
    if c.added_by_child {
        return true;
    }
    let mut i: usize = 0;
    while i < c.fields.len()
        invariant
            i <= c.fields@.len(),
            forall|j: int| 0 <= j < i ==> !c.fields@[j].overridden,
        decreases c.fields@.len() - i,
    {
        if c.fields[i].overridden {
            assert(c@.fields[i as int].overridden);
            return true;
        }
        i += 1;
    }
    assert forall|j: int| 0 <= j < c@.fields.len() implies !(#[trigger] c@.fields[j]).overridden by {
        assert(c@.fields[j] == c.fields@[j]@);
    }
    false
}

fn saved_component_of(c: &ResolvedComponent) -> (r: PrefabComponentRaw)
    ensures
        r@ == saved_component(c@),
{
    let ghost pred = |f: ResolvedFieldView| f.overridden;
    let ghost fv = c@.fields;
    let mut fields: Vec<String> = Vec::new();
    let mut i: usize = 0;
    while i < c.fields.len()
        invariant
            i <= c.fields@.len(),
            fv == rfields_view(c.fields@),
            pred == (|f: ResolvedFieldView| f.overridden),
            strings_view(fields@) == fv.take(i as int).filter(pred).map_values(|f: ResolvedFieldView| f.raw),
        decreases c.fields@.len() - i,
    {
        proof {
            reveal_with_fuel(Seq::filter, 1);
            assert(fv.take(i + 1).drop_last() =~= fv.take(i as int));
        }
        if c.fields[i].overridden {
            let ghost before = fields@;
            fields.push(c.fields[i].raw.clone());
            proof {
                assert(fv.take(i + 1).filter(pred) == fv.take(i as int).filter(pred).push(fv[i as int]));
                assert(strings_view(fields@) =~= strings_view(before).push(fv[i as int].raw));
                assert(fv.take(i as int).filter(pred).push(fv[i as int]).map_values(|f: ResolvedFieldView| f.raw)
                    =~= fv.take(i as int).filter(pred).map_values(|f: ResolvedFieldView| f.raw).push(fv[i as int].raw));
            }
        } else {
            proof {
                assert(fv.take(i + 1).filter(pred) == fv.take(i as int).filter(pred));
            }
        }
        i += 1;
    }
    proof {
        assert(fv.take(fv.len() as int) =~= fv);
    }
    PrefabComponentRaw { kind: c.kind.clone(), fields }
}

fn full_component_of(c: &ResolvedComponent) -> (r: PrefabComponentRaw)
    ensures
        r@ == full_component(c@),
{
    let mut fields: Vec<String> = Vec::new();
    let mut i: usize = 0;
    while i < c.fields.len()
        invariant
            i <= c.fields@.len(),
            fields@.len() == i,
            forall|j: int| 0 <= j < i ==> #[trigger] fields@[j]@ == c.fields@[j].raw@,
        decreases c.fields@.len() - i,
    {
        fields.push(c.fields[i].raw.clone());
        i += 1;
    }
    assert(strings_view(fields@) =~= c@.fields.map_values(|f: ResolvedFieldView| f.raw));
    PrefabComponentRaw { kind: c.kind.clone(), fields }
}

/// Only the child's own overrides, not the inherited base data: what gets
/// saved to disk.
pub fn resolved_to_raw(node: &ResolvedGameObject) -> (r: PrefabGameObjectRaw)
    ensures
        r@ == saved_view(node@),
    decreases node,
{
    let ghost pred = |c: ResolvedComponentView| component_saved(c);
    let ghost cv = node@.components;
    let mut comps: Vec<PrefabComponentRaw> = Vec::new();
    let mut i: usize = 0;
    while i < node.components.len()
        invariant
            i <= node.components@.len(),
            cv == rcomponents_view(node.components@),
            pred == (|c: ResolvedComponentView| component_saved(c)),
            components_view(comps@) == cv.take(i as int).filter(pred).map_values(
                |c: ResolvedComponentView| saved_component(c),
            ),
        decreases node.components@.len() - i,
    {
        proof {
            reveal_with_fuel(Seq::filter, 1);
            assert(cv.take(i + 1).drop_last() =~= cv.take(i as int));
        }
        if component_has_override(&node.components[i]) {
            let ghost before = comps@;
            comps.push(saved_component_of(&node.components[i]));
            proof {
                assert(cv.take(i + 1).filter(pred) == cv.take(i as int).filter(pred).push(cv[i as int]));
                assert(components_view(comps@) =~= components_view(before).push(saved_component(cv[i as int])));
                assert(cv.take(i as int).filter(pred).push(cv[i as int]).map_values(|c: ResolvedComponentView| saved_component(c))
                    =~= cv.take(i as int).filter(pred).map_values(|c: ResolvedComponentView| saved_component(c)).push(saved_component(cv[i as int])));
            }
        } else {
            proof {
                assert(cv.take(i + 1).filter(pred) == cv.take(i as int).filter(pred));
            }
        }
        i += 1;
    }
    let mut kids: Vec<PrefabGameObjectRaw> = Vec::new();
    let mut k: usize = 0;
    while k < node.children.len()
        invariant
            k <= node.children@.len(),
            kids@.len() == k,
            forall|j: int| 0 <= j < k ==> #[trigger] kids@[j]@ == saved_view(node.children@[j]@),
        decreases node.children@.len() - k,
    {
        kids.push(resolved_to_raw(&node.children[k]));
        k += 1;
    }
    proof {
        assert(cv.take(cv.len() as int) =~= cv);
        lemma_objects_view(kids@);
        lemma_robjects_view(node.children@);
        lemma_saved_all(node@.children);
        assert(objects_view(kids@) =~= saved_all(node@.children));
    }
    PrefabGameObjectRaw {
        enabled: node.enabled,
        name: node.name.clone(),
        base: clone_opt_string(&node.base),
        components: comps,
        children: kids,
    }
}

/// Every field, inherited or overridden, fully merged: the complete picture
/// the 3D viewport draws.
pub fn resolved_to_raw_full(node: &ResolvedGameObject) -> (r: PrefabGameObjectRaw)
    ensures
        r@ == full_view(node@),
    decreases node,
{
    let mut comps: Vec<PrefabComponentRaw> = Vec::new();
    let mut i: usize = 0;
    while i < node.components.len()
        invariant
            i <= node.components@.len(),
            comps@.len() == i,
            forall|j: int| 0 <= j < i ==> #[trigger] comps@[j]@ == full_component(node.components@[j]@),
        decreases node.components@.len() - i,
    {
        comps.push(full_component_of(&node.components[i]));
        i += 1;
    }
    let mut kids: Vec<PrefabGameObjectRaw> = Vec::new();
    let mut k: usize = 0;
    while k < node.children.len()
        invariant
            k <= node.children@.len(),
            kids@.len() == k,
            forall|j: int| 0 <= j < k ==> #[trigger] kids@[j]@ == full_view(node.children@[j]@),
        decreases node.children@.len() - k,
    {
        kids.push(resolved_to_raw_full(&node.children[k]));
        k += 1;
    }
    proof {
        assert(components_view(comps@) =~= node@.components.map_values(|c: ResolvedComponentView| full_component(c)));
        lemma_objects_view(kids@);
        lemma_robjects_view(node.children@);
        lemma_full_all(node@.children);
        assert(objects_view(kids@) =~= full_all(node@.children));
    }
    PrefabGameObjectRaw {
        enabled: node.enabled,
        name: node.name.clone(),
        base: clone_opt_string(&node.base),
        components: comps,
        children: kids,
    }
}

/// The full form of a tree resolved with no base is the tree itself.
pub proof fn lemma_full_view_no_base(n: GameObjectView, mark: bool)
    ensures
        full_view(no_base_view(n, mark)) == n,
    decreases n,
{
    let r = no_base_view(n, mark);
    lemma_no_base_all(n.children, mark);
    lemma_full_all(r.children);
    assert forall|i: int| 0 <= i < n.children.len() implies full_all(r.children)[i] == n.children[i] by {
        lemma_full_view_no_base(n.children[i], mark);
    }
    assert(full_all(r.children) =~= n.children);
    assert forall|i: int| 0 <= i < n.components.len() implies
        r.components.map_values(|c: ResolvedComponentView| full_component(c))[i] == n.components[i] by {
        let c = n.components[i];
        assert(full_component(component_marked(c, mark)).fields =~= c.fields);
    }
    assert(r.components.map_values(|c: ResolvedComponentView| full_component(c)) =~= n.components);
}

/// Saving a tree that was resolved as added by the child stores it whole.
pub proof fn lemma_saved_view_no_base(n: GameObjectView)
    ensures
        saved_view(no_base_view(n, true)) == n,
    decreases n,
{
    let r = no_base_view(n, true);
    lemma_no_base_all(n.children, true);
    lemma_saved_all(r.children);
    assert forall|i: int| 0 <= i < n.children.len() implies saved_all(r.children)[i] == n.children[i] by {
        lemma_saved_view_no_base(n.children[i]);
    }
    assert(saved_all(r.children) =~= n.children);
    let pred = |c: ResolvedComponentView| component_saved(c);
    assert forall|i: int| 0 <= i < r.components.len() implies pred(r.components[i]) by {}
    assert(r.components.filter(pred) =~= r.components) by {
        lemma_filter_all(r.components, pred);
    }
    assert forall|i: int| 0 <= i < n.components.len() implies
        r.components.map_values(|c: ResolvedComponentView| saved_component(c))[i] == n.components[i] by {
        let c = n.components[i];
        let fm = fields_marked(c.fields, true);
        let fp = |f: ResolvedFieldView| f.overridden;
        assert forall|j: int| 0 <= j < fm.len() implies fp(fm[j]) by {}
        lemma_filter_all(fm, fp);
        assert(saved_component(component_marked(c, true)).fields =~= c.fields);
    }
    assert(r.components.map_values(|c: ResolvedComponentView| saved_component(c)) =~= n.components);
}

proof fn lemma_filter_all<A>(s: Seq<A>, p: spec_fn(A) -> bool)
    requires
        forall|i: int| 0 <= i < s.len() ==> p(s[i]),
    ensures
        s.filter(p) == s,
    decreases s.len(),
{
    reveal_with_fuel(Seq::filter, 1);
    if s.len() > 0 {
        lemma_filter_all(s.drop_last(), p);
        assert(s.drop_last().push(s.last()) =~= s);
    } else {
        assert(s.filter(p) =~= s);
    }
}


// ─── merging a child's overrides onto a resolved base ─────────────────────

/// Index of the first raw field keyed `key`.
pub open spec fn key_index(rem: Seq<Seq<char>>, key: Seq<char>) -> Option<int> {
    first_match(rem, |f: Seq<char>| field_key(f) == key)
}

/// Index of the first raw component of type `kind`.
pub open spec fn kind_index(rem: Seq<ComponentView>, kind: Seq<char>) -> Option<int> {
    first_match(rem, |c: ComponentView| c.kind == kind)
}

/// Index of the first raw child named `name`.
pub open spec fn name_index(kids: Seq<GameObjectView>, name: Seq<char>) -> Option<int> {
    first_match(kids, |c: GameObjectView| c.name == name)
}

/// Base fields overridden by the child's remaining raw fields (each child
/// field used once, first match by key), then the child's unmatched fields
/// appended as overrides.
pub open spec fn merge_fields(bfs: Seq<ResolvedFieldView>, rem: Seq<Seq<char>>) -> Seq<ResolvedFieldView>
    decreases bfs.len(),
{
    if bfs.len() == 0 {
        fields_marked(rem, true)
    } else {
        match key_index(rem, field_key(bfs[0].raw)) {
            Some(p) => seq![ResolvedFieldView { raw: rem[p], overridden: true }] + merge_fields(
                bfs.drop_first(),
                rem.remove(p),
            ),
            None => seq![bfs[0]] + merge_fields(bfs.drop_first(), rem),
        }
    }
}

// ─── laws of merging ───────────────────────────────────────────────────────

/// Merging keeps every field the child sets: each of the child's raw
/// fields is among the merged fields, marked overridden, whether it
/// replaces a base field of its key or the base has none.
pub proof fn lemma_merge_keeps_child_fields(bfs: Seq<ResolvedFieldView>, rem: Seq<Seq<char>>)
    ensures
        forall|i: int| 0 <= i < rem.len() ==> merge_fields(bfs, rem).contains(
            ResolvedFieldView { raw: #[trigger] rem[i], overridden: true },
        ),
    decreases bfs.len(),
{
    let r = merge_fields(bfs, rem);
    if bfs.len() == 0 {
        assert forall|i: int| 0 <= i < rem.len() implies r.contains(ResolvedFieldView { raw: #[trigger] rem[i], overridden: true }) by {
            assert(r[i] == ResolvedFieldView { raw: rem[i], overridden: true });
        }
    } else {
        let key = field_key(bfs[0].raw);
        lemma_first_match(rem, |f: Seq<char>| field_key(f) == key);
        match key_index(rem, key) {
            Some(p) => {
                let rest = rem.remove(p);
                lemma_merge_keeps_child_fields(bfs.drop_first(), rest);
                let tail = merge_fields(bfs.drop_first(), rest);
                assert(r == seq![ResolvedFieldView { raw: rem[p], overridden: true }] + tail);
                assert forall|i: int| 0 <= i < rem.len() implies r.contains(ResolvedFieldView { raw: #[trigger] rem[i], overridden: true }) by {
                    if i == p {
                        assert(r[0] == ResolvedFieldView { raw: rem[i], overridden: true });
                    } else {
                        let j = if i < p { i } else { i - 1 };
                        assert(rest[j] == rem[i]);
                        assert(tail.contains(ResolvedFieldView { raw: rest[j], overridden: true }));
                        let w = choose|w: int| 0 <= w < tail.len() && tail[w] == ResolvedFieldView { raw: rest[j], overridden: true };
                        assert(r[w + 1] == tail[w]);
                    }
                }
            },
            None => {
                lemma_merge_keeps_child_fields(bfs.drop_first(), rem);
                let tail = merge_fields(bfs.drop_first(), rem);
                assert(r == seq![bfs[0]] + tail);
                assert forall|i: int| 0 <= i < rem.len() implies r.contains(ResolvedFieldView { raw: #[trigger] rem[i], overridden: true }) by {
                    assert(tail.contains(ResolvedFieldView { raw: rem[i], overridden: true }));
                    let w = choose|w: int| 0 <= w < tail.len() && tail[w] == ResolvedFieldView { raw: rem[i], overridden: true };
                    assert(r[w + 1] == tail[w]);
                }
            },
        }
    }
}

/// None of `fields` has the key `key`.
pub open spec fn no_field_keyed(fields: Seq<Seq<char>>, key: Seq<char>) -> bool {
    forall|i: int| 0 <= i < fields.len() ==> field_key(#[trigger] fields[i]) != key
}

/// Merging keeps what the child does not touch: a base field whose key
/// none of the child's raw fields has stays among the merged fields as the
/// base had it.
#[verifier::spinoff_prover]
pub proof fn lemma_merge_keeps_untouched_base_fields(bfs: Seq<ResolvedFieldView>, rem: Seq<Seq<char>>)
    ensures
        forall|j: int| 0 <= j < bfs.len() && no_field_keyed(rem, field_key(bfs[j].raw))
            ==> merge_fields(bfs, rem).contains(#[trigger] bfs[j]),
    decreases bfs.len(),
{
    if bfs.len() > 0 {
        let r = merge_fields(bfs, rem);
        let key = field_key(bfs[0].raw);
        let bt = bfs.drop_first();
        lemma_first_match(rem, |f: Seq<char>| field_key(f) == key);
        match key_index(rem, key) {
            Some(p) => {
                let rest = rem.remove(p);
                lemma_merge_keeps_untouched_base_fields(bt, rest);
                let tail = merge_fields(bt, rest);
                assert(r == seq![ResolvedFieldView { raw: rem[p], overridden: true }] + tail);
                assert forall|j: int| 0 <= j < bfs.len() && no_field_keyed(rem, field_key(bfs[j].raw))
                    implies r.contains(#[trigger] bfs[j]) by {
                    assert(field_key(rem[p]) == key);
                    if j == 0 {
                        assert(field_key(rem[p]) != field_key(bfs[0].raw));
                    }
                    assert(bt[j - 1] == bfs[j]);
                    assert forall|i: int| 0 <= i < rest.len() implies field_key(#[trigger] rest[i]) != field_key(bt[j - 1].raw) by {
                        if i < p {
                            assert(rest[i] == rem[i]);
                        } else {
                            assert(rest[i] == rem[i + 1]);
                        }
                    }
                    assert(no_field_keyed(rest, field_key(bt[j - 1].raw)));
                    assert(tail.contains(bt[j - 1]));
                    let w = choose|w: int| 0 <= w < tail.len() && tail[w] == bt[j - 1];
                    assert(r[w + 1] == tail[w]);
                }
            },
            None => {
                lemma_merge_keeps_untouched_base_fields(bt, rem);
                let tail = merge_fields(bt, rem);
                assert(r == seq![bfs[0]] + tail);
                assert forall|j: int| 0 <= j < bfs.len() && no_field_keyed(rem, field_key(bfs[j].raw))
                    implies r.contains(#[trigger] bfs[j]) by {
                    if j == 0 {
                        assert(r[0] == bfs[0]);
                    } else {
                        assert(bt[j - 1] == bfs[j]);
                        assert(tail.contains(bt[j - 1]));
                        let w = choose|w: int| 0 <= w < tail.len() && tail[w] == bt[j - 1];
                        assert(r[w + 1] == tail[w]);
                    }
                }
            },
        }
    }
}

/// Merging invents nothing: each merged field is a base field as the base
/// had it, or one of the child's raw fields marked overridden.
pub proof fn lemma_merge_invents_nothing(bfs: Seq<ResolvedFieldView>, rem: Seq<Seq<char>>)
    ensures
        forall|k: int| 0 <= k < merge_fields(bfs, rem).len() ==> bfs.contains(#[trigger] merge_fields(bfs, rem)[k])
            || (merge_fields(bfs, rem)[k].overridden && rem.contains(merge_fields(bfs, rem)[k].raw)),
    decreases bfs.len(),
{
    let r = merge_fields(bfs, rem);
    if bfs.len() == 0 {
        assert forall|k: int| 0 <= k < r.len() implies bfs.contains(#[trigger] r[k])
            || (r[k].overridden && rem.contains(r[k].raw)) by {
            assert(r[k] == ResolvedFieldView { raw: rem[k], overridden: true });
        }
    } else {
        let key = field_key(bfs[0].raw);
        lemma_first_match(rem, |f: Seq<char>| field_key(f) == key);
        let bt = bfs.drop_first();
        match key_index(rem, key) {
            Some(p) => {
                let rest = rem.remove(p);
                lemma_merge_invents_nothing(bt, rest);
                let tail = merge_fields(bt, rest);
                assert(r == seq![ResolvedFieldView { raw: rem[p], overridden: true }] + tail);
                assert forall|k: int| 0 <= k < r.len() implies bfs.contains(#[trigger] r[k])
                    || (r[k].overridden && rem.contains(r[k].raw)) by {
                    if k == 0 {
                        assert(rem.contains(rem[p]));
                    } else {
                        assert(r[k] == tail[k - 1]);
                        if bt.contains(tail[k - 1]) {
                            let w = choose|w: int| 0 <= w < bt.len() && bt[w] == tail[k - 1];
                            assert(bfs[w + 1] == bt[w]);
                        } else {
                            let w = choose|w: int| 0 <= w < rest.len() && rest[w] == tail[k - 1].raw;
                            if w < p {
                                assert(rem[w] == rest[w]);
                            } else {
                                assert(rem[w + 1] == rest[w]);
                            }
                        }
                    }
                }
            },
            None => {
                lemma_merge_invents_nothing(bt, rem);
                let tail = merge_fields(bt, rem);
                assert(r == seq![bfs[0]] + tail);
                assert forall|k: int| 0 <= k < r.len() implies bfs.contains(#[trigger] r[k])
                    || (r[k].overridden && rem.contains(r[k].raw)) by {
                    if k == 0 {
                        assert(bfs.contains(bfs[0]));
                    } else {
                        assert(r[k] == tail[k - 1]);
                        if bt.contains(tail[k - 1]) {
                            let w = choose|w: int| 0 <= w < bt.len() && bt[w] == tail[k - 1];
                            assert(bfs[w + 1] == bt[w]);
                        }
                    }
                }
            },
        }
    }
}

/// Base components merged with the child's remaining components of the same
/// type (first match), then the child's unmatched components appended as
/// added by the child.
pub open spec fn merge_components(bcs: Seq<ResolvedComponentView>, rem: Seq<ComponentView>) -> Seq<ResolvedComponentView>
    decreases bcs.len(),
{
    if bcs.len() == 0 {
        rem.map_values(|c: ComponentView| component_marked(c, true))
    } else {
        match kind_index(rem, bcs[0].kind) {
            Some(p) => seq![
                ResolvedComponentView {
                    kind: bcs[0].kind,
                    fields: merge_fields(bcs[0].fields, rem[p].fields),
                    added_by_child: false,
                },
            ] + merge_components(bcs.drop_first(), rem.remove(p)),
            None => seq![bcs[0]] + merge_components(bcs.drop_first(), rem),
        }
    }
}

/// `rc` is of `c`'s type and holds each of `c`'s raw fields, marked
/// overridden.
pub open spec fn holds_child_fields(rc: ResolvedComponentView, c: ComponentView) -> bool {
    &&& rc.kind == c.kind
    &&& forall|f: int| 0 <= f < c.fields.len() ==> rc.fields.contains(
        ResolvedFieldView { raw: #[trigger] c.fields[f], overridden: true },
    )
}

/// Some component of `r` is of `c`'s type and holds each of `c`'s raw
/// fields, marked overridden.
pub open spec fn some_holds_child_fields(r: Seq<ResolvedComponentView>, c: ComponentView) -> bool {
    exists|k: int| 0 <= k < r.len() && holds_child_fields(#[trigger] r[k], c)
}

/// No component the child sets loses a field: for each of the child's
/// components, merged onto the base component of its type or appended as
/// added, some merged component of that type holds every one of its raw
/// fields, marked overridden.
pub proof fn lemma_merge_keeps_child_components(bcs: Seq<ResolvedComponentView>, rem: Seq<ComponentView>)
    ensures
        forall|ci: int| 0 <= ci < rem.len() ==> some_holds_child_fields(merge_components(bcs, rem), #[trigger] rem[ci]),
    decreases bcs.len(),
{
    let r = merge_components(bcs, rem);
    if bcs.len() == 0 {
        assert forall|ci: int| 0 <= ci < rem.len() implies some_holds_child_fields(r, #[trigger] rem[ci]) by {
            let fm = fields_marked(rem[ci].fields, true);
            assert(r[ci] == component_marked(rem[ci], true));
            assert forall|f: int| 0 <= f < rem[ci].fields.len() implies fm.contains(
                ResolvedFieldView { raw: #[trigger] rem[ci].fields[f], overridden: true }) by {
                assert(fm[f] == ResolvedFieldView { raw: rem[ci].fields[f], overridden: true });
            }
            assert(holds_child_fields(r[ci], rem[ci]));
        }
    } else {
        let kind = bcs[0].kind;
        lemma_first_match(rem, |c: ComponentView| c.kind == kind);
        match kind_index(rem, kind) {
            Some(p) => {
                let rest = rem.remove(p);
                lemma_merge_keeps_child_components(bcs.drop_first(), rest);
                let tail = merge_components(bcs.drop_first(), rest);
                let head = ResolvedComponentView {
                    kind: bcs[0].kind,
                    fields: merge_fields(bcs[0].fields, rem[p].fields),
                    added_by_child: false,
                };
                assert(r == seq![head] + tail);
                assert forall|ci: int| 0 <= ci < rem.len() implies some_holds_child_fields(r, #[trigger] rem[ci]) by {
                    if ci == p {
                        lemma_merge_keeps_child_fields(bcs[0].fields, rem[p].fields);
                        assert(r[0] == head);
                        assert(holds_child_fields(r[0], rem[ci]));
                    } else {
                        let j = if ci < p { ci } else { ci - 1 };
                        assert(rest[j] == rem[ci]);
                        assert(some_holds_child_fields(tail, rest[j]));
                        let w = choose|w: int| 0 <= w < tail.len() && holds_child_fields(#[trigger] tail[w], rest[j]);
                        assert(r[w + 1] == tail[w]);
                        assert(holds_child_fields(r[w + 1], rem[ci]));
                    }
                }
            },
            None => {
                lemma_merge_keeps_child_components(bcs.drop_first(), rem);
                let tail = merge_components(bcs.drop_first(), rem);
                assert(r == seq![bcs[0]] + tail);
                assert forall|ci: int| 0 <= ci < rem.len() implies some_holds_child_fields(r, #[trigger] rem[ci]) by {
                    assert(some_holds_child_fields(tail, rem[ci]));
                    let w = choose|w: int| 0 <= w < tail.len() && holds_child_fields(#[trigger] tail[w], rem[ci]);
                    assert(r[w + 1] == tail[w]);
                    assert(holds_child_fields(r[w + 1], rem[ci]));
                }
            },
        }
    }
}

/// A raw child's overrides applied onto an already-resolved base.
pub open spec fn merge_view(base: ResolvedObjectView, child: GameObjectView) -> ResolvedObjectView
    decreases base,
{
    ResolvedObjectView {
        enabled: child.enabled,
        name: child.name,
        base: child.base,
        added_by_child: false,
        components: merge_components(base.components, child.components),
        children: merge_kids(base.children, child.children) + extra_kids(child.children, base.children),
    }
}

/// Each base child merged with the first raw child of the same name, or kept.
pub open spec fn merge_kids(bks: Seq<ResolvedObjectView>, cks: Seq<GameObjectView>) -> Seq<ResolvedObjectView>
    decreases bks,
{
    if bks.len() == 0 {
        Seq::empty()
    } else {
        merge_kids(bks.drop_last(), cks).push(
            match name_index(cks, bks.last().name) {
                Some(j) => merge_view(bks.last(), cks[j]),
                None => bks.last(),
            },
        )
    }
}

/// A raw child has no base child of its name.
pub open spec fn is_extra_kid(c: GameObjectView, bks: Seq<ResolvedObjectView>) -> bool {
    forall|i: int| 0 <= i < bks.len() ==> (#[trigger] bks[i]).name != c.name
}

/// The raw children that have no base child of their name, resolved as added.
pub open spec fn extra_kids(cks: Seq<GameObjectView>, bks: Seq<ResolvedObjectView>) -> Seq<ResolvedObjectView> {
    cks.filter(|c: GameObjectView| is_extra_kid(c, bks)).map_values(|c: GameObjectView| no_base_view(c, true))
}

#[verifier::spinoff_prover]
proof fn lemma_merge_kids(bks: Seq<ResolvedObjectView>, cks: Seq<GameObjectView>)
    ensures
        merge_kids(bks, cks).len() == bks.len(),
        forall|i: int| 0 <= i < bks.len() ==> #[trigger] merge_kids(bks, cks)[i] == match name_index(cks, bks[i].name) {
            Some(j) => merge_view(bks[i], cks[j]),
            None => bks[i],
        },
    decreases bks.len(),
{
    if bks.len() > 0 {
        lemma_merge_kids(bks.drop_last(), cks);
    }
}

fn first_key_index(rem: &Vec<String>, key: &str) -> (r: Option<usize>)
    ensures
        r matches Some(i) ==> i < rem@.len() && key_index(strings_view(rem@), key@) == Some(i as int),
        r is None ==> key_index(strings_view(rem@), key@) is None,
{
    let ghost p = |f: Seq<char>| field_key(f) == key@;
    let ghost sv = strings_view(rem@);
    proof {
        lemma_first_match(sv, p);
    }
    let mut i: usize = 0;
    while i < rem.len()
        invariant
            i <= rem@.len(),
            sv == strings_view(rem@),
            p == (|f: Seq<char>| field_key(f) == key@),
            forall|j: int| 0 <= j < i ==> !p(#[trigger] sv[j]),
        decreases rem@.len() - i,
    {
        let k = field_key_of(rem[i].as_str());
        if str_eq(k.as_str(), key) {
            proof {
                lemma_first_match_at(sv, p, i as int);
            }
            return Some(i);
        }
        i += 1;
    }
    None
}

fn first_kind_index(rem: &Vec<PrefabComponentRaw>, kind: &str) -> (r: Option<usize>)
    ensures
        r matches Some(i) ==> i < rem@.len() && kind_index(components_view(rem@), kind@) == Some(i as int),
        r is None ==> kind_index(components_view(rem@), kind@) is None,
{
    let ghost p = |c: ComponentView| c.kind == kind@;
    let ghost cv = components_view(rem@);
    proof {
        lemma_first_match(cv, p);
    }
    let mut i: usize = 0;
    while i < rem.len()
        invariant
            i <= rem@.len(),
            cv == components_view(rem@),
            p == (|c: ComponentView| c.kind == kind@),
            forall|j: int| 0 <= j < i ==> !p(#[trigger] cv[j]),
        decreases rem@.len() - i,
    {
        if str_eq(rem[i].kind.as_str(), kind) {
            proof {
                lemma_first_match_at(cv, p, i as int);
            }
            return Some(i);
        }
        i += 1;
    }
    None
}

fn first_name_index(kids: &Vec<PrefabGameObjectRaw>, name: &str) -> (r: Option<usize>)
    ensures
        r matches Some(i) ==> i < kids@.len() && name_index(objects_view(kids@), name@) == Some(i as int),
        r is None ==> name_index(objects_view(kids@), name@) is None,
{
    let ghost p = |c: GameObjectView| c.name == name@;
    let ghost ov = objects_view(kids@);
    proof {
        lemma_objects_view(kids@);
        lemma_first_match(ov, p);
    }
    let mut i: usize = 0;
    while i < kids.len()
        invariant
            i <= kids@.len(),
            ov == objects_view(kids@),
            ov.len() == kids@.len(),
            forall|j: int| 0 <= j < kids@.len() ==> #[trigger] ov[j] == kids@[j]@,
            p == (|c: GameObjectView| c.name == name@),
            forall|j: int| 0 <= j < i ==> !p(#[trigger] ov[j]),
        decreases kids@.len() - i,
    {
        if str_eq(kids[i].name.as_str(), name) {
            proof {
                lemma_first_match_at(ov, p, i as int);
            }
            return Some(i);
        }
        i += 1;
    }
    None
}

fn merge_field_list(bfs: &Vec<ResolvedField>, child_fields: &Vec<String>) -> (r: Vec<ResolvedField>)
    ensures
        rfields_view(r@) == merge_fields(rfields_view(bfs@), strings_view(child_fields@)),
{
    let ghost all = rfields_view(bfs@);
    let mut rem = clone_strings(child_fields);
    let mut out: Vec<ResolvedField> = Vec::new();
    proof {
        assert(all.skip(0) =~= all);
        assert(rfields_view(out@) =~= Seq::<ResolvedFieldView>::empty());
        assert(rfields_view(out@) + merge_fields(all, strings_view(rem@)) =~= merge_fields(all, strings_view(rem@)));
    }
    let mut i: usize = 0;
    while i < bfs.len()
        invariant
            i <= bfs@.len(),
            all == rfields_view(bfs@),
            rfields_view(out@) + merge_fields(all.skip(i as int), strings_view(rem@))
                == merge_fields(all, strings_view(child_fields@)),
        decreases bfs@.len() - i,
    {
        let ghost rest = all.skip(i as int);
        let ghost before = out@;
        let ghost rem_before = strings_view(rem@);
        proof {
            assert(rest[0] == bfs@[i as int]@);
            assert(rest.drop_first() =~= all.skip(i + 1));
        }
        let key = field_key_of(bfs[i].raw.as_str());
        match first_key_index(&rem, key.as_str()) {
            Some(p) => {
                let raw = rem.remove(p);
                out.push(ResolvedField { raw, overridden: true });
                proof {
                    assert(strings_view(rem@) =~= rem_before.remove(p as int));
                    assert(rfields_view(out@) =~= rfields_view(before).push(ResolvedFieldView { raw: rem_before[p as int], overridden: true }));
                    assert(rfields_view(before) + merge_fields(rest, rem_before) =~= rfields_view(out@) + merge_fields(all.skip(i + 1), strings_view(rem@)));
                }
            },
            None => {
                out.push(bfs[i].clone());
                proof {
                    assert(rfields_view(out@) =~= rfields_view(before).push(rest[0]));
                    assert(rfields_view(before) + merge_fields(rest, rem_before) =~= rfields_view(out@) + merge_fields(all.skip(i + 1), strings_view(rem@)));
                }
            },
        }
        i += 1;
    }
    let ghost before = out@;
    let mut k: usize = 0;
    while k < rem.len()
        invariant
            k <= rem@.len(),
            all.skip(bfs@.len() as int).len() == 0,
            rfields_view(before) + fields_marked(strings_view(rem@), true) == merge_fields(all, strings_view(child_fields@)),
            rfields_view(out@) == rfields_view(before) + fields_marked(strings_view(rem@), true).take(k as int),
        decreases rem@.len() - k,
    {
        let ghost prev = out@;
        out.push(ResolvedField { raw: rem[k].clone(), overridden: true });
        proof {
            assert(rfields_view(out@) =~= rfields_view(prev).push(ResolvedFieldView { raw: rem@[k as int]@, overridden: true }));
            assert(fields_marked(strings_view(rem@), true).take(k + 1) =~= fields_marked(strings_view(rem@), true).take(k as int).push(ResolvedFieldView { raw: rem@[k as int]@, overridden: true }));
            assert(rfields_view(out@) =~= rfields_view(before) + fields_marked(strings_view(rem@), true).take(k + 1));
        }
        k += 1;
    }
    proof {
        assert(fields_marked(strings_view(rem@), true).take(rem@.len() as int) =~= fields_marked(strings_view(rem@), true));
    }
    out
}


#[verifier::spinoff_prover]
#[verifier::rlimit(40)]
fn merge_component_list(bcs: &Vec<ResolvedComponent>, child_comps: &Vec<PrefabComponentRaw>) -> (r: Vec<ResolvedComponent>)
    ensures
        rcomponents_view(r@) == merge_components(rcomponents_view(bcs@), components_view(child_comps@)),
{
    let ghost all = rcomponents_view(bcs@);
    let mut rem = clone_components(child_comps);
    let mut out: Vec<ResolvedComponent> = Vec::new();
    proof {
        assert(all.skip(0) =~= all);
        assert(rcomponents_view(out@) + merge_components(all, components_view(rem@)) =~= merge_components(all, components_view(rem@)));
    }
    let mut i: usize = 0;
    while i < bcs.len()
        invariant
            i <= bcs@.len(),
            all == rcomponents_view(bcs@),
            rcomponents_view(out@) + merge_components(all.skip(i as int), components_view(rem@))
                == merge_components(all, components_view(child_comps@)),
        decreases bcs@.len() - i,
    {
        let ghost rest = all.skip(i as int);
        let ghost before = out@;
        let ghost rem_before = components_view(rem@);
        proof {
            assert(rest[0] == bcs@[i as int]@);
            assert(rest.drop_first() =~= all.skip(i + 1));
        }
        match first_kind_index(&rem, bcs[i].kind.as_str()) {
            Some(p) => {
                let cc = rem.remove(p);
                let fields = merge_field_list(&bcs[i].fields, &cc.fields);
                out.push(ResolvedComponent { kind: bcs[i].kind.clone(), fields, added_by_child: false });
                proof {
                    assert(components_view(rem@) =~= rem_before.remove(p as int));
                    assert(cc@ == rem_before[p as int]);
                    assert(rcomponents_view(out@) =~= rcomponents_view(before).push(ResolvedComponentView {
                        kind: rest[0].kind,
                        fields: merge_fields(rest[0].fields, rem_before[p as int].fields),
                        added_by_child: false,
                    }));
                    assert(rcomponents_view(before) + merge_components(rest, rem_before) =~= rcomponents_view(out@) + merge_components(all.skip(i + 1), components_view(rem@)));
                }
            },
            None => {
                out.push(bcs[i].clone());
                proof {
                    assert(rcomponents_view(out@) =~= rcomponents_view(before).push(rest[0]));
                    assert(rcomponents_view(before) + merge_components(rest, rem_before) =~= rcomponents_view(out@) + merge_components(all.skip(i + 1), components_view(rem@)));
                }
            },
        }
        i += 1;
    }
    let ghost before = out@;
    let ghost tail = components_view(rem@).map_values(|c: ComponentView| component_marked(c, true));
    let mut k: usize = 0;
    while k < rem.len()
        invariant
            k <= rem@.len(),
            all.skip(bcs@.len() as int).len() == 0,
            tail == components_view(rem@).map_values(|c: ComponentView| component_marked(c, true)),
            rcomponents_view(before) + tail == merge_components(all, components_view(child_comps@)),
            rcomponents_view(out@) == rcomponents_view(before) + tail.take(k as int),
        decreases rem@.len() - k,
    {
        let ghost prev = out@;
        out.push(mark_component(&rem[k], true));
        proof {
            assert(rcomponents_view(out@) =~= rcomponents_view(prev).push(tail[k as int]));
            assert(tail.take(k + 1) =~= tail.take(k as int).push(tail[k as int]));
            assert(rcomponents_view(out@) =~= rcomponents_view(before) + tail.take(k + 1));
        }
        k += 1;
    }
    proof {
        assert(tail.take(rem@.len() as int) =~= tail);
    }
    out
}

fn has_base_child_named(bks: &Vec<ResolvedGameObject>, name: &str) -> (r: bool)
    ensures
        r == exists|j: int| 0 <= j < bks@.len() && (#[trigger] robjects_view(bks@)[j]).name == name@,
{
    let ghost bv = robjects_view(bks@);
    proof {
        lemma_robjects_view(bks@);
    }
    let mut i: usize = 0;
    while i < bks.len()
        invariant
            i <= bks@.len(),
            bv == robjects_view(bks@),
            bv.len() == bks@.len(),
            forall|j: int| 0 <= j < bks@.len() ==> #[trigger] bv[j] == bks@[j]@,
            forall|j: int| 0 <= j < i ==> (#[trigger] bv[j]).name != name@,
        decreases bks@.len() - i,
    {
        if str_eq(bks[i].name.as_str(), name) {
            assert(bv[i as int].name == name@);
            return true;
        }
        i += 1;
    }
    false
}

proof fn lemma_merge_kids_at(bks: Seq<ResolvedObjectView>, cks: Seq<GameObjectView>, i: int)
    requires
        0 <= i < bks.len(),
    ensures
        merge_kids(bks, cks).len() == bks.len(),
        merge_kids(bks, cks)[i] == match name_index(cks, bks[i].name) {
            Some(j) => merge_view(bks[i], cks[j]),
            None => bks[i],
        },
{
    lemma_merge_kids(bks, cks);
}

fn extra_kid_list(bks: &Vec<ResolvedGameObject>, cks_raw: &Vec<PrefabGameObjectRaw>) -> (r: Vec<ResolvedGameObject>)
    ensures
        robjects_view(r@) == extra_kids(objects_view(cks_raw@), robjects_view(bks@)),
{
    let ghost bv = robjects_view(bks@);
    let ghost cks = objects_view(cks_raw@);
    let ghost pred = |c: GameObjectView| is_extra_kid(c, bv);
    proof {
        lemma_objects_view(cks_raw@);
    }
    let mut out: Vec<ResolvedGameObject> = Vec::new();
    let mut k: usize = 0;
    while k < cks_raw.len()
        invariant
            k <= cks_raw@.len(),
            bv == robjects_view(bks@),
            cks == objects_view(cks_raw@),
            cks.len() == cks_raw@.len(),
            pred == (|c: GameObjectView| is_extra_kid(c, bv)),
            robjects_view(out@) == cks.take(k as int).filter(pred).map_values(|c: GameObjectView| no_base_view(c, true)),
        decreases cks_raw@.len() - k,
    {
        proof {
            reveal_with_fuel(Seq::filter, 1);
            lemma_objects_view(cks_raw@);
            lemma_robjects_view(bks@);
            assert(cks.take(k + 1).drop_last() =~= cks.take(k as int));
            assert(cks[k as int] == cks_raw@[k as int]@);
        }
        let ghost prev = out@;
        let found = has_base_child_named(bks, cks_raw[k].name.as_str());
        if !found {
            out.push(resolve_no_base(&cks_raw[k], true));
            proof {
                assert(pred(cks[k as int]));
                lemma_robjects_view(out@);
                lemma_robjects_view(prev);
                assert(robjects_view(out@) =~= robjects_view(prev).push(no_base_view(cks[k as int], true)));
                assert(cks.take(k + 1).filter(pred) == cks.take(k as int).filter(pred).push(cks[k as int]));
                assert(cks.take(k as int).filter(pred).push(cks[k as int]).map_values(|c: GameObjectView| no_base_view(c, true))
                    =~= cks.take(k as int).filter(pred).map_values(|c: GameObjectView| no_base_view(c, true)).push(no_base_view(cks[k as int], true)));
            }
        } else {
            proof {
                let j = choose|j: int| 0 <= j < bks@.len() && (#[trigger] robjects_view(bks@)[j]).name == cks_raw@[k as int].name@;
                assert(bv[j].name == cks[k as int].name);
                assert(!pred(cks[k as int]));
                assert(cks.take(k + 1).filter(pred) == cks.take(k as int).filter(pred));
            }
        }
        k += 1;
    }
    proof {
        assert(cks.take(cks.len() as int) =~= cks);
    }
    out
}

fn merge_kid_list(bks: &Vec<ResolvedGameObject>, cks_raw: &Vec<PrefabGameObjectRaw>) -> (r: Vec<ResolvedGameObject>)
    ensures
        robjects_view(r@) == merge_kids(robjects_view(bks@), objects_view(cks_raw@)),
    decreases bks,
{
    let ghost bv = robjects_view(bks@);
    let ghost cks = objects_view(cks_raw@);
    proof {
        lemma_robjects_view(bks@);
        lemma_objects_view(cks_raw@);
    }
    let mut out: Vec<ResolvedGameObject> = Vec::new();
    let mut i: usize = 0;
    while i < bks.len()
        invariant
            i <= bks@.len(),
            bv == robjects_view(bks@),
            cks == objects_view(cks_raw@),
            bv.len() == bks@.len(),
            cks.len() == cks_raw@.len(),
            out@.len() == i,
            forall|j: int| 0 <= j < i ==> #[trigger] out@[j]@ == merge_kids(bv, cks)[j],
        decreases bks@.len() - i,
    {
        proof {
            lemma_robjects_view(bks@);
            lemma_objects_view(cks_raw@);
            lemma_merge_kids_at(bv, cks, i as int);
            assert(bv[i as int] == bks@[i as int]@);
        }
        match first_name_index(cks_raw, bks[i].name.as_str()) {
            Some(j) => {
                proof {
                    assert(cks[j as int] == cks_raw@[j as int]@);
                }
                let m = merge_resolved_with_child(&bks[i], &cks_raw[j]);
                out.push(m);
            },
            None => {
                out.push(bks[i].clone());
            },
        }
        i += 1;
    }
    proof {
        lemma_robjects_view(out@);
        lemma_merge_kids(bv, cks);
        assert(robjects_view(out@) =~= merge_kids(bv, cks));
    }
    out
}

/// Applies a raw child node's overrides onto an already-resolved base:
/// fields overridden by key, components matched by type, children matched by
/// name, and whatever the child adds appended as added by the child.
#[verifier::spinoff_prover]
#[verifier::rlimit(40)]
pub fn merge_resolved_with_child(base: &ResolvedGameObject, child: &PrefabGameObjectRaw) -> (r: ResolvedGameObject)
    ensures
        r@ == merge_view(base@, child@),
    decreases base,
{
    let components = merge_component_list(&base.components, &child.components);
    let mut kids = merge_kid_list(&base.children, &child.children);
    let mut extra = extra_kid_list(&base.children, &child.children);
    let ghost a = kids@;
    let ghost b = extra@;
    kids.append(&mut extra);
    proof {
        lemma_robjects_view(a);
        lemma_robjects_view(b);
        lemma_robjects_view(kids@);
        assert(robjects_view(kids@) =~= robjects_view(a) + robjects_view(b));
    }
    ResolvedGameObject {
        enabled: child.enabled,
        name: child.name.clone(),
        base: clone_opt_string(&child.base),
        added_by_child: false,
        components,
        children: kids,
    }
}


// ─── resolving the base chain ──────────────────────────────────────────────

/// A base prefab looked up by its trimmed `base:` reference: `raw` is
/// `None` when it could not be loaded.
#[derive(Debug)]
pub struct BaseEntry {
    pub key: String,
    pub raw: Option<PrefabGameObjectRaw>,
}

/// The base prefabs available to a resolution.
#[derive(Debug)]
pub struct BaseLibrary {
    pub entries: Vec<BaseEntry>,
}

/// Model of a base entry.
pub struct BaseEntryView {
    pub key: Seq<char>,
    pub raw: Option<GameObjectView>,
}

impl View for BaseEntry {
    type V = BaseEntryView;

    open spec fn view(&self) -> BaseEntryView {
        BaseEntryView {
            key: self.key@,
            raw: match self.raw {
                Some(r) => Some(r@),
                None => None,
            },
        }
    }
}

impl View for BaseLibrary {
    type V = Seq<BaseEntryView>;

    open spec fn view(&self) -> Seq<BaseEntryView> {
        self.entries@.map_values(|e: BaseEntry| e@)
    }
}

/// The base a node refers to: its trimmed `base:` text, when not empty.
pub open spec fn base_key(n: GameObjectView) -> Option<Seq<char>> {
    match n.base {
        Some(b) => if trim(b).len() > 0 {
            Some(trim(b))
        } else {
            None
        },
        None => None,
    }
}

/// What the library holds for `key`: `None` when it has no entry for it,
/// `Some(None)` when loading it failed.
pub open spec fn lookup(t: Seq<BaseEntryView>, key: Seq<char>) -> Option<Option<GameObjectView>> {
    match first_match(t, |e: BaseEntryView| e.key == key) {
        Some(i) => Some(t[i].raw),
        None => None,
    }
}

/// How many library entries the resolution may still enter.
pub open spec fn unvisited(t: Seq<BaseEntryView>, v: Seq<Seq<char>>) -> nat {
    t.filter(|e: BaseEntryView| !v.contains(e.key)).len()
}

/// Visiting one more key never lets the resolution enter more entries, and
/// strictly fewer when the key is in the library and was not visited.
pub proof fn lemma_unvisited_push(t: Seq<BaseEntryView>, v: Seq<Seq<char>>, k: Seq<char>)
    ensures
        unvisited(t, v.push(k)) <= unvisited(t, v),
        !v.contains(k) && (exists|i: int| 0 <= i < t.len() && t[i].key == k) ==> unvisited(t, v.push(k)) < unvisited(t, v),
    decreases t.len(),
{
    reveal_with_fuel(Seq::filter, 1);
    let p = |e: BaseEntryView| !v.contains(e.key);
    let q = |e: BaseEntryView| !v.push(k).contains(e.key);
    if t.len() > 0 {
        let u = t.drop_last();
        lemma_unvisited_push(u, v, k);
        assert(v.push(k).contains(t.last().key) <== v.contains(t.last().key)) by {
            if v.contains(t.last().key) {
                let j = choose|j: int| 0 <= j < v.len() && v[j] == t.last().key;
                assert(v.push(k)[j] == t.last().key);
            }
        }
        assert(v.push(k)[v.len() as int] == k);
        if !v.contains(k) && (exists|i: int| 0 <= i < t.len() && t[i].key == k) {
            let i = choose|i: int| 0 <= i < t.len() && t[i].key == k;
            if i == t.len() - 1 {
                assert(v.push(k).contains(k));
            } else {
                assert(u[i].key == k);
            }
        }
    }
}

/// A tree resolved as if it had no base: its own components and fields as
/// added, its children each resolved through their own bases. `keep_base`
/// says whether the resolved node keeps the `base:` text it has.
pub open spec fn plain_view(t: Seq<BaseEntryView>, n: GameObjectView, keep_base: bool, v: Seq<Seq<char>>) -> ResolvedObjectView
    decreases unvisited(t, v), n, 0nat, 0nat,
{
    ResolvedObjectView {
        enabled: n.enabled,
        name: n.name,
        base: if keep_base { n.base } else { None },
        added_by_child: true,
        components: n.components.map_values(|c: ComponentView| component_marked(c, true)),
        children: resolve_all(t, n.children, v),
    }
}

/// [`resolve_view`] of each tree of a sequence.
pub open spec fn resolve_all(t: Seq<BaseEntryView>, s: Seq<GameObjectView>, v: Seq<Seq<char>>) -> Seq<ResolvedObjectView>
    decreases unvisited(t, v), s, 2nat, 0nat,
{
    if s.len() == 0 {
        Seq::empty()
    } else {
        resolve_all(t, s.drop_last(), v).push(resolve_view(t, s.last(), v))
    }
}

/// Merged children whose raw counterpart (first of the same name) names a
/// base of its own, resolved again through that base.
pub open spec fn rechild(t: Seq<BaseEntryView>, ms: Seq<ResolvedObjectView>, raws: Seq<GameObjectView>, v: Seq<Seq<char>>) -> Seq<ResolvedObjectView>
    decreases unvisited(t, v), raws, 3nat, ms.len(),
{
    if ms.len() == 0 {
        Seq::empty()
    } else {
        proof {
            lemma_first_match(raws, |c: GameObjectView| c.name == ms.last().name);
        }
        rechild(t, ms.drop_last(), raws, v).push(
            match name_index(raws, ms.last().name) {
                Some(j) => if raws[j].base is Some {
                    resolve_view(t, raws[j], v)
                } else {
                    ms.last()
                },
                None => ms.last(),
            },
        )
    }
}

/// A node resolved through its `base:` chain: the base resolved first (with
/// the base's key added to the visited keys), then the node's overrides
/// merged onto it, then each merged child whose raw counterpart names a base
/// resolved again, with the visited keys the node itself was given: a child
/// that shares its parent's base is no cycle. A cycle, or a base the library
/// cannot give, is treated as no base at all.
pub open spec fn resolve_view(t: Seq<BaseEntryView>, n: GameObjectView, v: Seq<Seq<char>>) -> ResolvedObjectView
    decreases unvisited(t, v), n, 1nat, 0nat,
{
    match base_key(n) {
        None => plain_view(t, n, true, v),
        Some(k) => if v.contains(k) {
            plain_view(t, n, false, v)
        } else {
            match lookup(t, k) {
                Some(Some(b)) => {
                    proof {
                        lemma_first_match(t, |e: BaseEntryView| e.key == k);
                        lemma_unvisited_push(t, v, k);
                    }
                    let nv = v.push(k);
                    let rb = resolve_view(t, b, nv);
                    let m = merge_view(rb, n);
                    ResolvedObjectView { children: rechild(t, m.children, n.children, v), ..m }
                },
                _ => plain_view(t, n, false, v),
            }
        },
    }
}


/// Resolving a prefab whose base is found keeps every field the prefab
/// sets itself: for each of its components, the resolved tree has a
/// component of that type holding each of its raw fields, marked
/// overridden (a field the base lacks is appended, never dropped).
pub proof fn lemma_resolved_keeps_child_fields(
    t: Seq<BaseEntryView>,
    n: GameObjectView,
    v: Seq<Seq<char>>,
    k: Seq<char>,
    b: GameObjectView,
)
    requires
        base_key(n) == Some(k),
        !v.contains(k),
        lookup(t, k) == Some(Some(b)),
    ensures
        forall|ci: int| 0 <= ci < n.components.len() ==> some_holds_child_fields(
            resolve_view(t, n, v).components,
            #[trigger] n.components[ci],
        ),
{
    let rb = resolve_view(t, b, v.push(k));
    lemma_merge_keeps_child_components(rb.components, n.components);
    assert(resolve_view(t, n, v).components == merge_view(rb, n).components);
}


proof fn lemma_resolve_all(t: Seq<BaseEntryView>, s: Seq<GameObjectView>, v: Seq<Seq<char>>)
    ensures
        resolve_all(t, s, v).len() == s.len(),
        forall|i: int| 0 <= i < s.len() ==> #[trigger] resolve_all(t, s, v)[i] == resolve_view(t, s[i], v),
    decreases s.len(),
{
    if s.len() > 0 {
        lemma_resolve_all(t, s.drop_last(), v);
    }
}

#[verifier::spinoff_prover]
#[verifier::rlimit(40)]
proof fn lemma_rechild(t: Seq<BaseEntryView>, ms: Seq<ResolvedObjectView>, raws: Seq<GameObjectView>, v: Seq<Seq<char>>)
    ensures
        rechild(t, ms, raws, v).len() == ms.len(),
        forall|i: int| 0 <= i < ms.len() ==> #[trigger] rechild(t, ms, raws, v)[i] == rechild_one(t, ms[i], raws, v),
    decreases ms.len(),
{
    if ms.len() > 0 {
        lemma_rechild(t, ms.drop_last(), raws, v);
        let prev = rechild(t, ms.drop_last(), raws, v);
        let whole = rechild(t, ms, raws, v);
        assert(whole == prev.push(rechild_one(t, ms.last(), raws, v)));
        assert forall|i: int| 0 <= i < ms.len() implies #[trigger] whole[i] == rechild_one(t, ms[i], raws, v) by {
            if i < ms.len() - 1 {
                assert(ms.drop_last()[i] == ms[i]);
                assert(whole[i] == prev[i]);
            }
        }
    }
}

/// What `rechild` makes of one merged child.
spec fn rechild_one(t: Seq<BaseEntryView>, m: ResolvedObjectView, raws: Seq<GameObjectView>, v: Seq<Seq<char>>) -> ResolvedObjectView {
    match name_index(raws, m.name) {
        Some(j) => if raws[j].base is Some {
            resolve_view(t, raws[j], v)
        } else {
            m
        },
        None => m,
    }
}

fn base_key_of(node: &PrefabGameObjectRaw) -> (r: Option<String>)
    ensures
        opt_string_view(r) == base_key(node@),
{
    match &node.base {
        Some(b) => {
            let k = trimmed(b.as_str());
            if !k.as_str().is_empty() {
                Some(k)
            } else {
                None
            }
        },
        None => None,
    }
}

fn visited_contains(v: &Vec<String>, k: &str) -> (r: bool)
    ensures
        r == strings_view(v@).contains(k@),
{
    let ghost sv = strings_view(v@);
    let mut i: usize = 0;
    while i < v.len()
        invariant
            i <= v@.len(),
            sv == strings_view(v@),
            forall|j: int| 0 <= j < i ==> sv[j] != k@,
        decreases v@.len() - i,
    {
        if str_eq(v[i].as_str(), k) {
            assert(sv[i as int] == k@);
            return true;
        }
        i += 1;
    }
    false
}

fn lookup_index(lib: &BaseLibrary, key: &str) -> (r: Option<usize>)
    ensures
        r matches Some(i) ==> i < lib.entries@.len() && first_match(lib@, |e: BaseEntryView| e.key == key@) == Some(i as int),
        r is None ==> first_match(lib@, |e: BaseEntryView| e.key == key@) is None,
{
    let ghost p = |e: BaseEntryView| e.key == key@;
    let ghost t = lib@;
    proof {
        lemma_first_match(t, p);
    }
    let mut i: usize = 0;
    while i < lib.entries.len()
        invariant
            i <= lib.entries@.len(),
            t == lib@,
            p == (|e: BaseEntryView| e.key == key@),
            forall|j: int| 0 <= j < i ==> !p(#[trigger] t[j]),
        decreases lib.entries@.len() - i,
    {
        if str_eq(lib.entries[i].key.as_str(), key) {
            proof {
                assert(p(t[i as int]));
                lemma_first_match_at(t, p, i as int);
            }
            return Some(i);
        }
        i += 1;
    }
    None
}

impl BaseLibrary {
    /// Whether the library has an entry (loaded or missing) for `key`.
    pub fn has(&self, key: &str) -> (r: bool)
        ensures
            r == (lookup(self@, key@) is Some),
    {
        lookup_index(self, key).is_some()
    }
}

fn resolve_plain(lib: &BaseLibrary, node: &PrefabGameObjectRaw, keep_base: bool, visited: &Vec<String>) -> (r: ResolvedGameObject)
    ensures
        r@ == plain_view(lib@, node@, keep_base, strings_view(visited@)),
    decreases unvisited(lib@, strings_view(visited@)), node, 0nat,
{
    let ghost t = lib@;
    let ghost v = strings_view(visited@);
    let mut comps: Vec<ResolvedComponent> = Vec::new();
    let mut i: usize = 0;
    while i < node.components.len()
        invariant
            i <= node.components@.len(),
            comps@.len() == i,
            forall|j: int| 0 <= j < i ==> #[trigger] comps@[j]@ == component_marked(node.components@[j]@, true),
        decreases node.components@.len() - i,
    {
        comps.push(mark_component(&node.components[i], true));
        i += 1;
    }
    let mut kids: Vec<ResolvedGameObject> = Vec::new();
    let mut k: usize = 0;
    while k < node.children.len()
        invariant
            k <= node.children@.len(),
            t == lib@,
            v == strings_view(visited@),
            kids@.len() == k,
            forall|j: int| 0 <= j < k ==> #[trigger] kids@[j]@ == resolve_view(t, node.children@[j]@, v),
        decreases node.children@.len() - k,
    {
        kids.push(resolve_node(lib, &node.children[k], visited));
        k += 1;
    }
    proof {
        lemma_robjects_view(kids@);
        lemma_objects_view(node.children@);
        lemma_resolve_all(t, node@.children, v);
        assert(robjects_view(kids@) =~= resolve_all(t, node@.children, v));
        assert(rcomponents_view(comps@) =~= node@.components.map_values(
            |c: ComponentView| component_marked(c, true),
        ));
    }
    ResolvedGameObject {
        enabled: node.enabled,
        name: node.name.clone(),
        base: if keep_base { clone_opt_string(&node.base) } else { None },
        added_by_child: true,
        components: comps,
        children: kids,
    }
}

/// Resolves `node`'s `base:` chain, merged bottom-up (the base's base
/// first, then each level's overrides on top), with the bases taken from
/// `bases`. `visited_paths` guards against `base:` cycles only: a cycle, or a
/// base the library cannot give, is treated as if `base` were empty, while
/// children are resolved with the keys the node was given, so a child may
/// use its parent's base.
#[verifier::spinoff_prover]
#[verifier::rlimit(40)]
pub fn resolve_node(bases: &BaseLibrary, node: &PrefabGameObjectRaw, visited_paths: &Vec<String>) -> (r: ResolvedGameObject)
    ensures
        r@ == resolve_view(bases@, node@, strings_view(visited_paths@)),
    decreases unvisited(bases@, strings_view(visited_paths@)), node, 1nat,
{
    let ghost t = bases@;
    let ghost v = strings_view(visited_paths@);
    let key = match base_key_of(node) {
        Some(k) => k,
        None => {
            return resolve_plain(bases, node, true, visited_paths);
        },
    };
    if visited_contains(visited_paths, key.as_str()) {
        return resolve_plain(bases, node, false, visited_paths);
    }
    let idx = match lookup_index(bases, key.as_str()) {
        Some(i) => i,
        None => {
            return resolve_plain(bases, node, false, visited_paths);
        },
    };
    let base_raw = match &bases.entries[idx].raw {
        Some(b) => b,
        None => {
            proof {
                assert(t[idx as int] == bases.entries@[idx as int]@);
            }
            return resolve_plain(bases, node, false, visited_paths);
        },
    };
    proof {
        assert(t[idx as int] == bases.entries@[idx as int]@);
        lemma_first_match(t, |e: BaseEntryView| e.key == key@);
        lemma_unvisited_push(t, v, key@);
    }
    let mut next_visited = clone_strings(visited_paths);
    next_visited.push(key);
    let ghost nv = strings_view(next_visited@);
    proof {
        assert(nv =~= v.push(key@));
    }
    let resolved_base = resolve_node(bases, base_raw, &next_visited);
    let merged = merge_resolved_with_child(&resolved_base, node);
    let ghost ms = merged@.children;
    let ghost raws = node@.children;
    let mut kids: Vec<ResolvedGameObject> = Vec::new();
    let mut i: usize = 0;
    while i < merged.children.len()
        invariant
            i <= merged.children@.len(),
            t == bases@,
            v == strings_view(visited_paths@),
            ms == robjects_view(merged.children@),
            raws == objects_view(node.children@),
            kids@.len() == i,
            forall|j: int| 0 <= j < i ==> #[trigger] kids@[j]@ == rechild(t, ms, raws, v)[j],
        decreases merged.children@.len() - i,
    {
        proof {
            lemma_robjects_view(merged.children@);
            lemma_objects_view(node.children@);
            lemma_rechild(t, ms, raws, v);
            assert(ms[i as int] == merged.children@[i as int]@);
        }
        match first_name_index(&node.children, merged.children[i].name.as_str()) {
            Some(j) => {
                proof {
                    assert(raws[j as int] == node.children@[j as int]@);
                }
                if node.children[j].base.is_some() {
                    kids.push(resolve_node(bases, &node.children[j], visited_paths));
                } else {
                    kids.push(merged.children[i].clone());
                }
            },
            None => {
                kids.push(merged.children[i].clone());
            },
        }
        i += 1;
    }
    proof {
        lemma_robjects_view(kids@);
        lemma_robjects_view(merged.children@);
        lemma_rechild(t, ms, raws, v);
        assert(robjects_view(kids@) =~= rechild(t, ms, raws, v));
    }
    ResolvedGameObject {
        enabled: merged.enabled,
        name: merged.name,
        base: merged.base,
        added_by_child: merged.added_by_child,
        components: merged.components,
        children: kids,
    }
}


// ─── laws of resolution ────────────────────────────────────────────────────

/// No node of the tree refers to a base.
pub open spec fn base_free(n: GameObjectView) -> bool
    decreases n,
{
    base_key(n) is None && all_base_free(n.children)
}

/// No tree of the sequence refers to a base.
pub open spec fn all_base_free(s: Seq<GameObjectView>) -> bool
    decreases s,
{
    s.len() == 0 || (all_base_free(s.drop_last()) && base_free(s.last()))
}

proof fn lemma_all_base_free(s: Seq<GameObjectView>)
    ensures
        all_base_free(s) <==> forall|i: int| 0 <= i < s.len() ==> base_free(#[trigger] s[i]),
    decreases s.len(),
{
    if s.len() > 0 {
        lemma_all_base_free(s.drop_last());
        if forall|i: int| 0 <= i < s.len() ==> base_free(#[trigger] s[i]) {
            assert forall|i: int| 0 <= i < s.drop_last().len() implies base_free(#[trigger] s.drop_last()[i]) by {
                assert(s.drop_last()[i] == s[i]);
            }
        }
        if all_base_free(s) {
            assert forall|i: int| 0 <= i < s.len() implies base_free(#[trigger] s[i]) by {
                if i < s.len() - 1 {
                    assert(s.drop_last()[i] == s[i]);
                }
            }
        }
    }
}

/// A prefab that refers to no base anywhere resolves as wholly added by
/// the child, whatever the library holds and whatever was visited.
pub proof fn lemma_resolve_base_free(t: Seq<BaseEntryView>, n: GameObjectView, v: Seq<Seq<char>>)
    requires
        base_free(n),
    ensures
        resolve_view(t, n, v) == no_base_view(n, true),
    decreases n,
{
    lemma_all_base_free(n.children);
    lemma_resolve_all(t, n.children, v);
    lemma_no_base_all(n.children, true);
    assert forall|i: int| 0 <= i < n.children.len() implies resolve_all(t, n.children, v)[i] == no_base_all(n.children, true)[i] by {
        lemma_resolve_base_free(t, n.children[i], v);
    }
    assert(resolve_all(t, n.children, v) =~= no_base_all(n.children, true));
    assert(base_key(n) is None);
    assert(resolve_view(t, n, v) == plain_view(t, n, true, v));
    assert(plain_view(t, n, true, v) =~= no_base_view(n, true));
}

/// Saving what a base-free prefab resolves to writes the prefab back
/// unchanged.
pub proof fn lemma_save_base_free_round_trip(t: Seq<BaseEntryView>, n: GameObjectView, v: Seq<Seq<char>>)
    requires
        base_free(n),
    ensures
        saved_view(resolve_view(t, n, v)) == n,
        full_view(resolve_view(t, n, v)) == n,
{
    lemma_resolve_base_free(t, n, v);
    lemma_saved_view_no_base(n);
    lemma_full_view_no_base(n, true);
}

// ─── which bases a resolution needs ────────────────────────────────────────

/// The base keys named anywhere in a tree, in pre-order.
pub open spec fn base_refs(n: GameObjectView) -> Seq<Seq<char>>
    decreases n,
{
    (match base_key(n) {
        Some(k) => seq![k],
        None => Seq::empty(),
    }) + base_refs_all(n.children)
}

/// [`base_refs`] of each tree of a sequence, concatenated.
pub open spec fn base_refs_all(s: Seq<GameObjectView>) -> Seq<Seq<char>>
    decreases s,
{
    if s.len() == 0 {
        Seq::empty()
    } else {
        base_refs_all(s.drop_last()) + base_refs(s.last())
    }
}

/// The trimmed, non-empty `base:` references of a tree, in pre-order: the
/// keys a resolution may look up in its base library.
pub fn base_references(node: &PrefabGameObjectRaw) -> (r: Vec<String>)
    ensures
        strings_view(r@) == base_refs(node@),
    decreases node,
{
    let mut out: Vec<String> = Vec::new();
    match base_key_of(node) {
        Some(k) => out.push(k),
        None => {},
    }
    proof {
        assert(strings_view(out@) =~= match base_key(node@) {
            Some(k) => seq![k],
            None => Seq::<Seq<char>>::empty(),
        });
    }
    let ghost head = strings_view(out@);
    let ghost kids = node@.children;
    let mut i: usize = 0;
    while i < node.children.len()
        invariant
            i <= node.children@.len(),
            kids == objects_view(node.children@),
            strings_view(out@) == head + base_refs_all(kids.take(i as int)),
        decreases node.children@.len() - i,
    {
        proof {
            lemma_objects_view(node.children@);
            assert(kids.take(i + 1).drop_last() =~= kids.take(i as int));
            assert(kids.take(i + 1).last() == node.children@[i as int]@);
        }
        let mut more = base_references(&node.children[i]);
        let ghost before = strings_view(out@);
        let ghost extra = strings_view(more@);
        out.append(&mut more);
        proof {
            assert(strings_view(out@) =~= before + extra);
            assert(base_refs_all(kids.take(i + 1)) == base_refs_all(kids.take(i as int)) + base_refs(kids.take(i + 1).last()));
            assert(strings_view(out@) =~= head + base_refs_all(kids.take(i + 1)));
        }
        i += 1;
    }
    proof {
        lemma_objects_view(node.children@);
        assert(kids.take(kids.len() as int) =~= kids);
    }
    out
}

// ─── where a base prefab is read from ──────────────────────────────────────

/// The file a `base:` value names: a manifest id (all digits) names the
/// first entry with that id, anything else is a path relative to the
/// project root; an unknown id is an error.
pub open spec fn base_file_of(root: Seq<char>, id_or_path: Seq<char>, m: Seq<ManifestEntryView>) -> Result<Seq<char>, Seq<char>> {
    let t = trim(id_or_path);
    if t.len() > 0 && all_digits(t) {
        match first_id_entry(m, t, 0) {
            Some(i) => Ok(root + "/"@ + m[i].uri),
            None => Err("No manifest entry for ID "@ + t),
        }
    } else {
        Ok(root + "/"@ + t)
    }
}

/// The path of the file a `base:` value names, given the project's
/// manifest.
pub fn base_file_path(project_root: &str, id_or_path: &str, manifest: &Vec<ManifestEntry>) -> (r: Result<String, String>)
    ensures
        match r {
            Ok(p) => base_file_of(project_root@, id_or_path@, manifest_view(manifest@)) == Ok::<Seq<char>, Seq<char>>(p@),
            Err(e) => base_file_of(project_root@, id_or_path@, manifest_view(manifest@)) == Err::<Seq<char>, Seq<char>>(e@),
        },
{
    let t = trimmed(id_or_path);
    let tv = chars_of(t.as_str());
    let with_sep = concat(project_root, "/");
    if tv.len() > 0 && vec_all_digits(&tv) {
        match find_first_id(manifest, &tv) {
            Some(i) => {
                assert(manifest_view(manifest@)[i as int] == manifest@[i as int]@);
                Ok(concat(with_sep.as_str(), manifest[i].uri.as_str()))
            },
            None => Err(concat("No manifest entry for ID ", t.as_str())),
        }
    } else {
        Ok(concat(with_sep.as_str(), t.as_str()))
    }
}

// ─── loading the bases a resolution needs ──────────────────────────────────

/// The bases read so far for a resolution, and the keys still to look at
/// (the last one first).
pub struct BaseLoader {
    pub library: BaseLibrary,
    pub pending: Vec<String>,
}

impl BaseLoader {
    /// Nothing read yet; every base key named in `root` still to look at.
    pub fn new(root: &PrefabGameObjectRaw) -> (r: Self)
        ensures
            r.library@ == Seq::<BaseEntryView>::empty(),
            strings_view(r.pending@) == base_refs(root@),
    {
        let r = BaseLoader { library: BaseLibrary { entries: Vec::new() }, pending: base_references(root) };
        assert(r.library@ =~= Seq::<BaseEntryView>::empty());
        r
    }

    /// The next base to read: keys at the end of `pending` that the library
    /// already has are dropped, and the first one it lacks is taken off and
    /// answered; nothing when every pending key is in the library.
    pub fn next_key(&mut self) -> (r: Option<String>)
        ensures
            final(self).library@ == old(self).library@,
            strings_view(final(self).pending@) == strings_view(old(self).pending@).take(final(self).pending@.len() as int),
            match r {
                Some(k) => {
                    &&& final(self).pending@.len() < old(self).pending@.len()
                    &&& k@ == old(self).pending@[final(self).pending@.len() as int]@
                    &&& lookup(old(self).library@, k@) is None
                    &&& forall|j: int| final(self).pending@.len() < j < old(self).pending@.len()
                        ==> lookup(old(self).library@, #[trigger] old(self).pending@[j]@) is Some
                },
                None => {
                    &&& final(self).pending@.len() == 0
                    &&& forall|j: int| 0 <= j < old(self).pending@.len()
                        ==> lookup(old(self).library@, #[trigger] old(self).pending@[j]@) is Some
                },
            },
    {
        let ghost old_pending = self.pending@;
        loop
            invariant
                self.library@ == old(self).library@,
                self.pending@.len() <= old_pending.len(),
                old_pending == old(self).pending@,
                self.pending@ == old_pending.take(self.pending@.len() as int),
                forall|j: int| self.pending@.len() <= j < old_pending.len()
                    ==> lookup(old(self).library@, #[trigger] old_pending[j]@) is Some,
            decreases self.pending@.len(),
        {
            match self.pending.pop() {
                Some(k) => {
                    proof {
                        assert(self.pending@ =~= old_pending.take(self.pending@.len() as int));
                        assert(k == old_pending[self.pending@.len() as int]);
                        assert(strings_view(self.pending@) =~= strings_view(old_pending).take(self.pending@.len() as int));
                    }
                    if !self.library.has(k.as_str()) {
                        return Some(k);
                    }
                },
                None => {
                    proof {
                        assert(strings_view(self.pending@) =~= strings_view(old_pending).take(0));
                    }
                    return None;
                },
            }
        }
    }

    /// Records what reading `key` gave: the tree, whose own base keys are
    /// then also to be looked at, or nothing when it could not be read.
    pub fn loaded(&mut self, key: String, raw: Option<PrefabGameObjectRaw>)
        ensures
            final(self).library@ == old(self).library@.push(BaseEntryView {
                key: key@,
                raw: match raw {
                    Some(t) => Some(t@),
                    None => None,
                },
            }),
            strings_view(final(self).pending@) == strings_view(old(self).pending@) + match raw {
                Some(t) => base_refs(t@),
                None => Seq::empty(),
            },
    {
        let ghost old_lib = self.library@;
        let ghost old_pending = strings_view(self.pending@);
        let more = match &raw {
            Some(t) => base_references(t),
            None => Vec::new(),
        };
        let ghost more_view = strings_view(more@);
        let entry = BaseEntry { key, raw };
        let ghost ev = entry@;
        self.library.entries.push(entry);
        proof {
            assert(self.library@ =~= old_lib.push(ev));
        }
        let mut i: usize = 0;
        while i < more.len()
            invariant
                i <= more@.len(),
                more_view == strings_view(more@),
                self.library@ == old_lib.push(ev),
                strings_view(self.pending@) == old_pending + more_view.take(i as int),
            decreases more@.len() - i,
        {
            let ghost before = strings_view(self.pending@);
            self.pending.push(more[i].clone());
            proof {
                assert(strings_view(self.pending@) =~= before.push(more_view[i as int]));
                assert(more_view.take(i + 1) =~= more_view.take(i as int).push(more_view[i as int]));
                assert(old_pending + more_view.take(i + 1) =~= (old_pending + more_view.take(i as int)).push(more_view[i as int]));
            }
            i += 1;
        }
        proof {
            assert(more_view.take(more@.len() as int) =~= more_view);
            if raw is None {
                assert(old_pending + more_view =~= old_pending);
            }
        }
    }
}

} // verus!

