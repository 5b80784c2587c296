//! What the prefab preview draws: one entry per renderer component of an
//! enabled object, with the absolute path of the asset it shows. World
//! matrices are composed by the preview along the same index paths.
use vstd::prelude::*;
use crate::fs_ops::{
    ManifestEntry, ManifestEntryView, manifest_view, last_id_entry, find_last_id, assets_root,
};
use crate::prefab_types::{
    ComponentView, GameObjectView, PrefabComponentRaw, PrefabGameObjectRaw, field_value_of, is_renderer,
    is_renderer_kind, read_renderer_asset, lemma_objects_view, components_view, opt_string_view, node_at,
};
use crate::text::{all_digits, chars_of, concat, str_eq, trim, trimmed, vec_all_digits};

verus! {

/// How a renderer draws its asset.
#[derive(Debug, Clone, Copy, PartialEq, Eq, Structural)]
pub enum RendererKind {
    /// A `.glb` model.
    Static,
    /// A `.anim` (Spine) animation.
    Dynamic,
}

/// The kind of a renderer component type.
pub open spec fn renderer_kind_of(kind: Seq<char>) -> RendererKind {
    if kind == "RendererStatic"@ {
        RendererKind::Static
    } else {
        RendererKind::Dynamic
    }
}

/// `Static` for `RendererStatic`, `Dynamic` otherwise.
pub fn renderer_kind(kind: &str) -> (r: RendererKind)
    ensures
        r == renderer_kind_of(kind@),
{
    if str_eq(kind, "RendererStatic") {
        RendererKind::Static
    } else {
        RendererKind::Dynamic
    }
}

/// Where a renderer's `asset` value points: a manifest id (all digits)
/// names the entry with that id (the last one, when ids repeat) under the
/// project root; anything else is a path under `assets/`. Nothing for an
/// empty value or an unknown id.
pub open spec fn asset_path_of(root: Seq<char>, raw: Seq<char>, m: Seq<ManifestEntryView>) -> Option<Seq<char>> {
    let t = trim(raw);
    if t.len() == 0 {
        None
    } else if all_digits(t) {
        match last_id_entry(m, t, m.len() as int) {
            Some(i) => Some(root + "/"@ + m[i].uri),
            None => None,
        }
    } else {
        Some(root + "/assets"@ + "/"@ + t)
    }
}

/// The absolute path of a renderer's asset.
#[verifier::spinoff_prover]
#[verifier::rlimit(40)]
pub fn renderer_asset_path(project_root: &str, raw: &str, manifest: &Vec<ManifestEntry>) -> (r: Option<String>)
    ensures
        opt_string_view(r) == asset_path_of(project_root@, raw@, manifest_view(manifest@)),
{
    let t = trimmed(raw);
    let tv = chars_of(t.as_str());
    if tv.len() == 0 {
        return None;
    }
    if vec_all_digits(&tv) {
        match find_last_id(manifest, &tv) {
            Some(i) => {
                let with_sep = concat(project_root, "/");
                let r = concat(with_sep.as_str(), manifest[i].uri.as_str());
                assert(manifest_view(manifest@)[i as int] == manifest@[i as int]@);
                Some(r)
            },
            None => None,
        }
    } else {
        let base = assets_root(project_root);
        let with_sep = concat(base.as_str(), "/");
        Some(concat(with_sep.as_str(), t.as_str()))
    }
}

// ─── render targets ────────────────────────────────────────────────────────

/// One thing the preview draws.
#[derive(Debug)]
pub struct RenderTarget {
    /// Child indices from the root to the object.
    pub path: Vec<usize>,
    pub name: String,
    pub renderer_kind: RendererKind,
    pub asset_abs_path: String,
}

/// Model of a render target.
pub struct RenderTargetView {
    pub path: Seq<usize>,
    pub name: Seq<char>,
    pub renderer_kind: RendererKind,
    pub asset_abs_path: Seq<char>,
}

impl View for RenderTarget {
    type V = RenderTargetView;

    open spec fn view(&self) -> RenderTargetView {
        RenderTargetView {
            path: self.path@,
            name: self.name@,
            renderer_kind: self.renderer_kind,
            asset_abs_path: self.asset_abs_path@,
        }
    }
}

/// Models of render targets.
pub open spec fn targets_view(s: Seq<RenderTarget>) -> Seq<RenderTargetView> {
    s.map_values(|t: RenderTarget| t@)
}

/// The target of one component of the object `name` at `path`: present for
/// a renderer whose asset resolves.
pub open spec fn component_target(
    c: ComponentView,
    name: Seq<char>,
    path: Seq<usize>,
    root: Seq<char>,
    m: Seq<ManifestEntryView>,
) -> Seq<RenderTargetView> {
    if is_renderer_kind(c.kind) {
        match field_value_of(c.fields, "asset"@) {
            Some(raw) => match asset_path_of(root, raw, m) {
                Some(a) => seq![
                    RenderTargetView { path, name, renderer_kind: renderer_kind_of(c.kind), asset_abs_path: a },
                ],
                None => Seq::empty(),
            },
            None => Seq::empty(),
        }
    } else {
        Seq::empty()
    }
}

/// The targets of an object's components, in order.
pub open spec fn components_targets(
    cs: Seq<ComponentView>,
    name: Seq<char>,
    path: Seq<usize>,
    root: Seq<char>,
    m: Seq<ManifestEntryView>,
) -> Seq<RenderTargetView>
    decreases cs.len(),
{
    if cs.len() == 0 {
        Seq::empty()
    } else {
        components_targets(cs.drop_last(), name, path, root, m) + component_target(cs.last(), name, path, root, m)
    }
}

/// The targets of a tree whose root is at `path`: none below a disabled
/// object; else its components' targets, then its children's.
pub open spec fn tree_targets(n: GameObjectView, path: Seq<usize>, root: Seq<char>, m: Seq<ManifestEntryView>) -> Seq<RenderTargetView>
    decreases n, 0int,
{
    if !n.enabled {
        Seq::empty()
    } else {
        components_targets(n.components, n.name, path, root, m) + children_targets(n.children, path, root, m, 0)
    }
}

/// The targets of the children `cs[i..]` of the object at `path`.
pub open spec fn children_targets(
    cs: Seq<GameObjectView>,
    path: Seq<usize>,
    root: Seq<char>,
    m: Seq<ManifestEntryView>,
    i: int,
) -> Seq<RenderTargetView>
    decreases cs, cs.len() - i,
{
    if i < 0 || i >= cs.len() || i > usize::MAX {
        Seq::empty()
    } else {
        tree_targets(cs[i], path.push(i as usize), root, m) + children_targets(cs, path, root, m, i + 1)
    }
}

fn copy_path(path: &Vec<usize>) -> (r: Vec<usize>)
    ensures
        r@ == path@,
{
    let mut out: Vec<usize> = Vec::new();
    let mut i: usize = 0;
    while i < path.len()
        invariant
            i <= path@.len(),
            out@ == path@.take(i as int),
        decreases path@.len() - i,
    {
        out.push(path[i]);
        assert(path@.take(i + 1) =~= path@.take(i as int).push(path@[i as int]));
        i += 1;
    }
    assert(path@.take(path@.len() as int) =~= path@);
    out
}

fn push_component_target(
    c: &PrefabComponentRaw,
    name: &String,
    path: &Vec<usize>,
    root: &str,
    manifest: &Vec<ManifestEntry>,
    out: &mut Vec<RenderTarget>,
)
    ensures
        targets_view(final(out)@) == targets_view(old(out)@) + component_target(c@, name@, path@, root@, manifest_view(manifest@)),
{
    let ghost start = targets_view(out@);
    if !is_renderer(c.kind.as_str()) {
        assert(targets_view(out@) =~= start + Seq::<RenderTargetView>::empty());
        return;
    }
    match read_renderer_asset(c) {
        Some(raw) => match renderer_asset_path(root, raw.as_str(), manifest) {
            Some(a) => {
                let t = RenderTarget {
                    path: copy_path(path),
                    name: name.clone(),
                    renderer_kind: renderer_kind(c.kind.as_str()),
                    asset_abs_path: a,
                };
                let ghost tv = t@;
                out.push(t);
                assert(targets_view(out@) =~= start + seq![tv]);
            },
            None => {
                assert(targets_view(out@) =~= start + Seq::<RenderTargetView>::empty());
            },
        },
        None => {
            assert(targets_view(out@) =~= start + Seq::<RenderTargetView>::empty());
        },
    }
}

#[verifier::spinoff_prover]
#[verifier::rlimit(40)]
fn walk(
    node: &PrefabGameObjectRaw,
    path: &Vec<usize>,
    root: &str,
    manifest: &Vec<ManifestEntry>,
    out: &mut Vec<RenderTarget>,
)
    ensures
        targets_view(final(out)@) == targets_view(old(out)@) + tree_targets(node@, path@, root@, manifest_view(manifest@)),
    decreases node,
{
    let ghost start = targets_view(out@);
    let ghost m = manifest_view(manifest@);
    if !node.enabled {
        assert(targets_view(out@) =~= start + Seq::<RenderTargetView>::empty());
        return;
    }
    let ghost cs = components_view(node.components@);
    let mut i: usize = 0;
    while i < node.components.len()
        invariant
            i <= node.components@.len(),
            cs == components_view(node.components@),
            m == manifest_view(manifest@),
            targets_view(out@) == start + components_targets(cs.take(i as int), node.name@, path@, root@, m),
        decreases node.components@.len() - i,
    {
        let ghost before = targets_view(out@);
        push_component_target(&node.components[i], &node.name, path, root, manifest, out);
        proof {
            assert(cs.take(i + 1).drop_last() =~= cs.take(i as int));
            assert(cs[i as int] == node.components@[i as int]@);
            assert(start + components_targets(cs.take(i as int), node.name@, path@, root@, m) + component_target(
                cs[i as int],
                node.name@,
                path@,
                root@,
                m,
            ) =~= start + components_targets(cs.take(i + 1), node.name@, path@, root@, m));
        }
        i += 1;
    }
    proof {
        assert(cs.take(node.components@.len() as int) =~= cs);
    }
    let ghost after_comps = targets_view(out@);
    let ghost kids = node@.children;
    proof {
        lemma_objects_view(node.children@);
        assert(after_comps + children_targets(kids, path@, root@, m, 0) =~= start + tree_targets(node@, path@, root@, m));
    }
    let mut k: usize = 0;
    while k < node.children.len()
        invariant
            k <= node.children@.len(),
            kids == node@.children,
            kids.len() == node.children@.len(),
            forall|j: int| 0 <= j < kids.len() ==> #[trigger] kids[j] == node.children@[j]@,
            m == manifest_view(manifest@),
            targets_view(out@) + children_targets(kids, path@, root@, m, k as int) == start + tree_targets(node@, path@, root@, m),
        decreases node.children@.len() - k,
    {
        let mut child_path = copy_path(path);
        child_path.push(k);
        let ghost before = targets_view(out@);
        walk(&node.children[k], &child_path, root, manifest, out);
        proof {
            assert(child_path@ == path@.push(k));
            let t = tree_targets(kids[k as int], path@.push(k), root@, m);
            let rest = children_targets(kids, path@, root@, m, k + 1);
            assert(children_targets(kids, path@, root@, m, k as int) == t + rest);
            assert(before + (t + rest) =~= (before + t) + rest);
        }
        k += 1;
    }
    proof {
        assert(children_targets(kids, path@, root@, m, kids.len() as int) =~= Seq::<RenderTargetView>::empty());
        assert(targets_view(out@) + Seq::<RenderTargetView>::empty() =~= targets_view(out@));
    }
}

/// Everything the preview draws for a resolved prefab: the renderer
/// components of enabled objects (a disabled object hides its subtree),
/// in pre-order, with the absolute paths of their assets.
pub fn collect_render_targets(project_root: &str, root: &PrefabGameObjectRaw, manifest: &Vec<ManifestEntry>) -> (r: Vec<RenderTarget>)
    ensures
        targets_view(r@) == tree_targets(root@, Seq::empty(), project_root@, manifest_view(manifest@)),
{
    let mut out: Vec<RenderTarget> = Vec::new();
    let path: Vec<usize> = Vec::new();
    walk(root, &path, project_root, manifest, &mut out);
    assert(targets_view(Seq::<RenderTarget>::empty()) + tree_targets(root@, path@, project_root@, manifest_view(manifest@))
        =~= tree_targets(root@, Seq::empty(), project_root@, manifest_view(manifest@)));
    out
}

// ─── where each target comes from ──────────────────────────────────────────

/// `c` is a renderer component that draws `t`: its kind gives `t`'s kind
/// and its `asset` value resolves to `t`'s absolute path.
pub open spec fn draws(c: ComponentView, t: RenderTargetView, root: Seq<char>, m: Seq<ManifestEntryView>) -> bool {
    &&& is_renderer_kind(c.kind)
    &&& renderer_kind_of(c.kind) == t.renderer_kind
    &&& match field_value_of(c.fields, "asset"@) {
        Some(raw) => asset_path_of(root, raw, m) == Some(t.asset_abs_path),
        None => false,
    }
}

/// `x` is an enabled object named as `t` with a component that draws `t`.
pub open spec fn object_draws(x: GameObjectView, t: RenderTargetView, root: Seq<char>, m: Seq<ManifestEntryView>) -> bool {
    &&& x.enabled
    &&& x.name == t.name
    &&& exists|c: int| 0 <= c < x.components.len() && draws(#[trigger] x.components[c], t, root, m)
}

proof fn lemma_components_targets_drawn(
    cs: Seq<ComponentView>,
    name: Seq<char>,
    path: Seq<usize>,
    root: Seq<char>,
    m: Seq<ManifestEntryView>,
)
    ensures
        forall|k: int| 0 <= k < components_targets(cs, name, path, root, m).len() ==> {
            let t = #[trigger] components_targets(cs, name, path, root, m)[k];
            &&& t.path == path
            &&& t.name == name
            &&& exists|c: int| 0 <= c < cs.len() && draws(#[trigger] cs[c], t, root, m)
        },
    decreases cs.len(),
{
    if cs.len() > 0 {
        let init = cs.drop_last();
        lemma_components_targets_drawn(init, name, path, root, m);
        let a = components_targets(init, name, path, root, m);
        let b = component_target(cs.last(), name, path, root, m);
        let all = components_targets(cs, name, path, root, m);
        assert(all == a + b);
        assert forall|k: int| 0 <= k < all.len() implies {
            let t = #[trigger] all[k];
            &&& t.path == path
            &&& t.name == name
            &&& exists|c: int| 0 <= c < cs.len() && draws(#[trigger] cs[c], t, root, m)
        } by {
            if k < a.len() {
                assert(all[k] == a[k]);
                let c = choose|c: int| 0 <= c < init.len() && draws(#[trigger] init[c], a[k], root, m);
                assert(cs[c] == init[c]);
            } else {
                assert(all[k] == b[k - a.len()]);
                assert(cs[cs.len() - 1] == cs.last());
                assert(draws(cs[cs.len() - 1], all[k], root, m));
            }
        }
    }
}

/// The targets of the tree `n` found at `path`: each lies under `path`, at
/// an enabled object of `n` that has a component drawing it.
proof fn lemma_tree_targets_drawn(n: GameObjectView, path: Seq<usize>, root: Seq<char>, m: Seq<ManifestEntryView>)
    ensures
        forall|k: int| 0 <= k < tree_targets(n, path, root, m).len() ==> {
            let t = #[trigger] tree_targets(n, path, root, m)[k];
            &&& t.path.len() >= path.len()
            &&& t.path.take(path.len() as int) == path
            &&& match node_at(n, t.path.skip(path.len() as int)) {
                Some(x) => object_draws(x, t, root, m),
                None => false,
            }
        },
    decreases n, 0int,
{
    if n.enabled {
        let a = components_targets(n.components, n.name, path, root, m);
        let b = children_targets(n.children, path, root, m, 0);
        let all = tree_targets(n, path, root, m);
        assert(all == a + b);
        lemma_components_targets_drawn(n.components, n.name, path, root, m);
        lemma_children_targets_drawn(n.children, path, root, m, 0);
        assert forall|k: int| 0 <= k < all.len() implies {
            let t = #[trigger] all[k];
            &&& t.path.len() >= path.len()
            &&& t.path.take(path.len() as int) == path
            &&& match node_at(n, t.path.skip(path.len() as int)) {
                Some(x) => object_draws(x, t, root, m),
                None => false,
            }
        } by {
            let t = all[k];
            if k < a.len() {
                assert(t == a[k]);
                assert(t.path.take(path.len() as int) =~= path);
                assert(t.path.skip(path.len() as int) =~= Seq::<usize>::empty());
            } else {
                assert(t == b[k - a.len()]);
                let q = t.path.skip(path.len() as int);
                let c = t.path[path.len() as int];
                assert(q[0] == c);
                assert(q.drop_first() =~= t.path.skip(path.len() as int + 1));
            }
        }
    }
}

/// The targets of the children `cs[i..]` of the object at `path`: each lies
/// under one of those children, at an enabled object that draws it.
proof fn lemma_children_targets_drawn(cs: Seq<GameObjectView>, path: Seq<usize>, root: Seq<char>, m: Seq<ManifestEntryView>, i: int)
    ensures
        forall|k: int| 0 <= k < children_targets(cs, path, root, m, i).len() ==> {
            let t = #[trigger] children_targets(cs, path, root, m, i)[k];
            &&& t.path.len() > path.len()
            &&& t.path.take(path.len() as int) == path
            &&& i <= t.path[path.len() as int] < cs.len()
            &&& match node_at(cs[t.path[path.len() as int] as int], t.path.skip(path.len() as int + 1)) {
                Some(x) => object_draws(x, t, root, m),
                None => false,
            }
        },
    decreases cs, cs.len() - i,
{
    if !(i < 0 || i >= cs.len() || i > usize::MAX) {
        let p2 = path.push(i as usize);
        let a = tree_targets(cs[i], p2, root, m);
        let b = children_targets(cs, path, root, m, i + 1);
        let all = children_targets(cs, path, root, m, i);
        assert(all == a + b);
        lemma_tree_targets_drawn(cs[i], p2, root, m);
        lemma_children_targets_drawn(cs, path, root, m, i + 1);
        assert forall|k: int| 0 <= k < all.len() implies {
            let t = #[trigger] all[k];
            &&& t.path.len() > path.len()
            &&& t.path.take(path.len() as int) == path
            &&& i <= t.path[path.len() as int] < cs.len()
            &&& match node_at(cs[t.path[path.len() as int] as int], t.path.skip(path.len() as int + 1)) {
                Some(x) => object_draws(x, t, root, m),
                None => false,
            }
        } by {
            let t = all[k];
            if k < a.len() {
                assert(t == a[k]);
                assert(t.path.take(p2.len() as int) == p2);
                assert(t.path.take(path.len() as int) =~= p2.take(path.len() as int));
                assert(p2.take(path.len() as int) =~= path);
                assert(t.path[path.len() as int] == t.path.take(p2.len() as int)[path.len() as int]);
            } else {
                assert(t == b[k - a.len()]);
            }
        }
    }
}

/// Every target the preview draws leads back to what it draws: following
/// its path from the root reaches an enabled object with the target's name
/// that has a renderer component of the target's kind whose `asset`
/// resolves to the target's absolute path.
pub proof fn lemma_targets_lead_to_their_objects(root_obj: GameObjectView, root: Seq<char>, m: Seq<ManifestEntryView>)
    ensures
        forall|k: int| 0 <= k < tree_targets(root_obj, Seq::empty(), root, m).len() ==> {
            let t = #[trigger] tree_targets(root_obj, Seq::empty(), root, m)[k];
            match node_at(root_obj, t.path) {
                Some(x) => object_draws(x, t, root, m),
                None => false,
            }
        },
{
    lemma_tree_targets_drawn(root_obj, Seq::empty(), root, m);
    assert forall|k: int| 0 <= k < tree_targets(root_obj, Seq::empty(), root, m).len() implies {
        let t = #[trigger] tree_targets(root_obj, Seq::empty(), root, m)[k];
        match node_at(root_obj, t.path) {
            Some(x) => object_draws(x, t, root, m),
            None => false,
        }
    } by {
        let t = tree_targets(root_obj, Seq::empty(), root, m)[k];
        assert(t.path.skip(0) =~= t.path);
    }
}

// ─── every drawable renderer is drawn ──────────────────────────────────────

/// Every object on the path `q` from `n`, `n` included, is enabled.
pub open spec fn enabled_along(n: GameObjectView, q: Seq<usize>) -> bool
    decreases q.len(),
{
    &&& n.enabled
    &&& (q.len() == 0 || (q[0] < n.children.len() && enabled_along(n.children[q[0] as int], q.drop_first())))
}

proof fn lemma_concat_contains<A>(a: Seq<A>, b: Seq<A>, x: A)
    requires
        a.contains(x) || b.contains(x),
    ensures
        (a + b).contains(x),
{
    if a.contains(x) {
        let w = choose|w: int| 0 <= w < a.len() && a[w] == x;
        assert((a + b)[w] == x);
    } else {
        let w = choose|w: int| 0 <= w < b.len() && b[w] == x;
        assert((a + b)[a.len() + w] == x);
    }
}

proof fn lemma_components_target_present(
    cs: Seq<ComponentView>,
    name: Seq<char>,
    path: Seq<usize>,
    root: Seq<char>,
    m: Seq<ManifestEntryView>,
    c: int,
    a: Seq<char>,
)
    requires
        0 <= c < cs.len(),
        is_renderer_kind(cs[c].kind),
        field_value_of(cs[c].fields, "asset"@) matches Some(raw) && asset_path_of(root, raw, m) == Some(a),
    ensures
        components_targets(cs, name, path, root, m).contains(
            RenderTargetView { path, name, renderer_kind: renderer_kind_of(cs[c].kind), asset_abs_path: a },
        ),
    decreases cs.len(),
{
    let tv = RenderTargetView { path, name, renderer_kind: renderer_kind_of(cs[c].kind), asset_abs_path: a };
    let init = cs.drop_last();
    if c == cs.len() - 1 {
        assert(component_target(cs.last(), name, path, root, m) == seq![tv]);
        assert(seq![tv][0] == tv);
        lemma_concat_contains(components_targets(init, name, path, root, m), seq![tv], tv);
    } else {
        assert(init[c] == cs[c]);
        lemma_components_target_present(init, name, path, root, m, c, a);
        lemma_concat_contains(
            components_targets(init, name, path, root, m),
            component_target(cs.last(), name, path, root, m),
            tv,
        );
    }
}

proof fn lemma_children_target_present(
    cs: Seq<GameObjectView>,
    path: Seq<usize>,
    root: Seq<char>,
    m: Seq<ManifestEntryView>,
    j: int,
    i: int,
    tv: RenderTargetView,
)
    requires
        0 <= j <= i < cs.len(),
        i <= usize::MAX,
        tree_targets(cs[i], path.push(i as usize), root, m).contains(tv),
    ensures
        children_targets(cs, path, root, m, j).contains(tv),
    decreases i - j,
{
    let head = tree_targets(cs[j], path.push(j as usize), root, m);
    let rest = children_targets(cs, path, root, m, j + 1);
    assert(children_targets(cs, path, root, m, j) == head + rest);
    if j < i {
        lemma_children_target_present(cs, path, root, m, j + 1, i, tv);
    }
    lemma_concat_contains(head, rest, tv);
}

proof fn lemma_tree_target_present(
    n: GameObjectView,
    path: Seq<usize>,
    q: Seq<usize>,
    root: Seq<char>,
    m: Seq<ManifestEntryView>,
    c: int,
    a: Seq<char>,
)
    requires
        enabled_along(n, q),
        node_at(n, q) is Some,
        0 <= c < node_at(n, q).unwrap().components.len(),
        is_renderer_kind(node_at(n, q).unwrap().components[c].kind),
        field_value_of(node_at(n, q).unwrap().components[c].fields, "asset"@) matches Some(raw)
            && asset_path_of(root, raw, m) == Some(a),
    ensures
        tree_targets(n, path, root, m).contains(RenderTargetView {
            path: path + q,
            name: node_at(n, q).unwrap().name,
            renderer_kind: renderer_kind_of(node_at(n, q).unwrap().components[c].kind),
            asset_abs_path: a,
        }),
    decreases q.len(),
{
    let x = node_at(n, q).unwrap();
    let tv = RenderTargetView { path: path + q, name: x.name, renderer_kind: renderer_kind_of(x.components[c].kind), asset_abs_path: a };
    let comps = components_targets(n.components, n.name, path, root, m);
    let kids = children_targets(n.children, path, root, m, 0);
    assert(tree_targets(n, path, root, m) == comps + kids);
    if q.len() == 0 {
        assert(path + q =~= path);
        lemma_components_target_present(n.components, n.name, path, root, m, c, a);
        lemma_concat_contains(comps, kids, tv);
    } else {
        let i = q[0];
        let p2 = path.push(i);
        lemma_tree_target_present(n.children[i as int], p2, q.drop_first(), root, m, c, a);
        assert(p2 + q.drop_first() =~= path + q);
        lemma_children_target_present(n.children, path, root, m, 0, i as int, tv);
        lemma_concat_contains(comps, kids, tv);
    }
}

/// Nothing drawable is left out: for an object reached from the root along
/// enabled objects, each renderer component whose `asset` resolves gives a
/// target with that object's path and name, the component's kind and the
/// resolved absolute path.
pub proof fn lemma_drawable_renderers_are_targets(
    root_obj: GameObjectView,
    q: Seq<usize>,
    root: Seq<char>,
    m: Seq<ManifestEntryView>,
    c: int,
    a: Seq<char>,
)
    requires
        enabled_along(root_obj, q),
        node_at(root_obj, q) is Some,
        0 <= c < node_at(root_obj, q).unwrap().components.len(),
        is_renderer_kind(node_at(root_obj, q).unwrap().components[c].kind),
        field_value_of(node_at(root_obj, q).unwrap().components[c].fields, "asset"@) matches Some(raw)
            && asset_path_of(root, raw, m) == Some(a),
    ensures
        tree_targets(root_obj, Seq::empty(), root, m).contains(RenderTargetView {
            path: q,
            name: node_at(root_obj, q).unwrap().name,
            renderer_kind: renderer_kind_of(node_at(root_obj, q).unwrap().components[c].kind),
            asset_abs_path: a,
        }),
{
    lemma_tree_target_present(root_obj, Seq::empty(), q, root, m, c, a);
    assert(Seq::<usize>::empty() + q =~= q);
}

} // verus!
