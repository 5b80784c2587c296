//! The running game's object tree as the editor reads it: the objects of
//! each tab of each game instance, the object counts of the status bar,
//! index paths into a tab's objects, and the keys, selection and expansion
//! of the tree's rows.
use vstd::prelude::*;
use crate::text::{concat, str_eq, string_from_chars, u64_decimal, nat_decimal};

verus! {

// ─── data ──────────────────────────────────────────────────────────────────

/// One object of a game tab, as far as the editor reads it: its name, how
/// many components it carries, and its child objects.
pub struct ObjectNode {
    pub object_name: String,
    pub component_count: usize,
    pub children: Vec<ObjectNode>,
}

/// One tab of a game instance: its title and its root objects.
pub struct ObjectTab {
    pub tab_name: String,
    pub objects: Vec<ObjectNode>,
}

/// One game instance, by its key, with its tabs.
pub struct InstanceTabs {
    pub instance: String,
    pub tabs: Vec<ObjectTab>,
}

// ─── counting ──────────────────────────────────────────────────────────────

/// Number of objects in a tree: the object itself and all below it.
pub open spec fn tree_size(n: ObjectNode) -> nat
    decreases n,
{
    1 + forest_size(n.children@)
}

/// Number of objects in a sequence of trees.
pub open spec fn forest_size(s: Seq<ObjectNode>) -> nat
    decreases s,
{
    if s.len() == 0 {
        0
    } else {
        forest_size(s.drop_last()) + tree_size(s.last())
    }
}

/// The trees of a prefix are counted in the whole, one tree at a time.
pub proof fn lemma_forest_prefix(s: Seq<ObjectNode>, i: int)
    requires
        0 <= i <= s.len(),
    ensures
        forest_size(s.take(i)) <= forest_size(s),
        i < s.len() ==> forest_size(s.take(i + 1)) == forest_size(s.take(i)) + tree_size(s[i]),
    decreases s.len() - i,
{
    if i < s.len() {
        assert(s.take(i + 1).drop_last() =~= s.take(i));
        lemma_forest_prefix(s, i + 1);
    } else {
        assert(s.take(i) =~= s);
    }
}

/// Counts the objects of a sequence of trees, each object once.
pub fn count_objects(objects: &[ObjectNode]) -> (r: usize)
    requires
        forest_size(objects@) <= usize::MAX,
    ensures
        r == forest_size(objects@),
    decreases forest_size(objects@),
{
    let mut total: usize = 0;
    let mut i: usize = 0;
    while i < objects.len()
        invariant
            i <= objects@.len(),
            forest_size(objects@) <= usize::MAX,
            total == forest_size(objects@.take(i as int)),
        decreases objects@.len() - i,
    {
        proof {
            lemma_forest_prefix(objects@, i as int);
            lemma_forest_prefix(objects@, i + 1);
        }
        let below = count_objects(objects[i].children.as_slice());
        total = total + 1 + below;
        i += 1;
    }
    proof {
        assert(objects@.take(objects@.len() as int) =~= objects@);
    }
    total
}

/// Sum of `f` over a sequence.
pub open spec fn sum_of<A>(s: Seq<A>, f: spec_fn(A) -> nat) -> nat
    decreases s.len(),
{
    if s.len() == 0 {
        0
    } else {
        sum_of(s.drop_last(), f) + f(s.last())
    }
}

/// A prefix sums to no more than the whole, one element at a time.
pub proof fn lemma_sum_prefix<A>(s: Seq<A>, f: spec_fn(A) -> nat, i: int)
    requires
        0 <= i <= s.len(),
    ensures
        sum_of(s.take(i), f) <= sum_of(s, f),
        i < s.len() ==> sum_of(s.take(i + 1), f) == sum_of(s.take(i), f) + f(s[i]),
    decreases s.len() - i,
{
    if i < s.len() {
        assert(s.take(i + 1).drop_last() =~= s.take(i));
        lemma_sum_prefix(s, f, i + 1);
    } else {
        assert(s.take(i) =~= s);
    }
}

/// Number of objects in all tabs of one instance.
pub open spec fn tabs_size(tabs: Seq<ObjectTab>) -> nat {
    sum_of(tabs, |t: ObjectTab| forest_size(t.objects@))
}

/// Number of objects in all tabs of all instances.
pub open spec fn instances_size(instances: Seq<InstanceTabs>) -> nat {
    sum_of(instances, |g: InstanceTabs| tabs_size(g.tabs@))
}

fn count_in_tabs(tabs: &Vec<ObjectTab>) -> (r: usize)
    requires
        tabs_size(tabs@) <= usize::MAX,
    ensures
        r == tabs_size(tabs@),
{
    let ghost f = |t: ObjectTab| forest_size(t.objects@);
    let mut total: usize = 0;
    let mut i: usize = 0;
    while i < tabs.len()
        invariant
            i <= tabs@.len(),
            f == (|t: ObjectTab| forest_size(t.objects@)),
            sum_of(tabs@, f) <= usize::MAX,
            total == sum_of(tabs@.take(i as int), f),
        decreases tabs@.len() - i,
    {
        proof {
            lemma_sum_prefix(tabs@, f, i as int);
            lemma_sum_prefix(tabs@, f, i + 1);
        }
        let n = count_objects(tabs[i].objects.as_slice());
        total = total + n;
        i += 1;
    }
    proof {
        assert(tabs@.take(tabs@.len() as int) =~= tabs@);
    }
    total
}

/// The status bar's object count: every object of every tab of every game
/// instance.
pub fn total_object_count(instances: &Vec<InstanceTabs>) -> (r: usize)
    requires
        instances_size(instances@) <= usize::MAX,
    ensures
        r == instances_size(instances@),
{
    let ghost f = |g: InstanceTabs| tabs_size(g.tabs@);
    let mut total: usize = 0;
    let mut i: usize = 0;
    while i < instances.len()
        invariant
            i <= instances@.len(),
            f == (|g: InstanceTabs| tabs_size(g.tabs@)),
            sum_of(instances@, f) <= usize::MAX,
            total == sum_of(instances@.take(i as int), f),
        decreases instances@.len() - i,
    {
        proof {
            lemma_sum_prefix(instances@, f, i as int);
            lemma_sum_prefix(instances@, f, i + 1);
        }
        let n = count_in_tabs(&instances[i].tabs);
        total = total + n;
        i += 1;
    }
    proof {
        assert(instances@.take(instances@.len() as int) =~= instances@);
    }
    total
}

/// The status bar's text for an object count.
pub fn object_count_label(n: usize) -> (r: String)
    ensures
        r@ == nat_decimal(n as nat) + " objects"@,
{
    let digits = string_from_chars(&u64_decimal(n as u64));
    concat(digits.as_str(), " objects")
}

// ─── finding an object ─────────────────────────────────────────────────────

/// The tabs of the instance with key `key` (instance keys do not repeat).
pub open spec fn instance_tabs(s: Seq<InstanceTabs>, key: Seq<char>) -> Option<Seq<ObjectTab>>
    decreases s.len(),
{
    if s.len() == 0 {
        None
    } else if s[0].instance@ == key {
        Some(s[0].tabs@)
    } else {
        instance_tabs(s.drop_first(), key)
    }
}

/// The object reached by following the child indices of `path` from the
/// root objects `nodes`; nothing for an empty path or an index out of range.
pub open spec fn object_at(nodes: Seq<ObjectNode>, path: Seq<usize>) -> Option<ObjectNode>
    decreases path.len(),
{
    if path.len() == 0 || path[0] >= nodes.len() {
        None
    } else if path.len() == 1 {
        Some(nodes[path[0] as int])
    } else {
        object_at(nodes[path[0] as int].children@, path.drop_first())
    }
}

/// The object at `path` in tab `tab` of instance `key`.
pub open spec fn resolved_object(s: Seq<InstanceTabs>, key: Seq<char>, tab: int, path: Seq<usize>) -> Option<ObjectNode> {
    match instance_tabs(s, key) {
        Some(tabs) => if 0 <= tab < tabs.len() {
            object_at(tabs[tab].objects@, path)
        } else {
            None
        },
        None => None,
    }
}

fn find_instance<'a>(instances: &'a Vec<InstanceTabs>, key: &str, k: usize) -> (r: Option<&'a Vec<ObjectTab>>)
    requires
        k <= instances@.len(),
    ensures
        r matches Some(t) ==> instance_tabs(instances@.skip(k as int), key@) == Some(t@),
        r is None ==> instance_tabs(instances@.skip(k as int), key@) is None,
    decreases instances@.len() - k,
{
    if k == instances.len() {
        return None;
    }
    proof {
        assert(instances@.skip(k as int).drop_first() =~= instances@.skip(k + 1));
    }
    if str_eq(instances[k].instance.as_str(), key) {
        Some(&instances[k].tabs)
    } else {
        find_instance(instances, key, k + 1)
    }
}

fn object_from<'a>(nodes: &'a Vec<ObjectNode>, path: &[usize], k: usize) -> (r: Option<&'a ObjectNode>)
    requires
        k <= path@.len(),
    ensures
        r matches Some(n) ==> object_at(nodes@, path@.skip(k as int)) == Some(*n),
        r is None ==> object_at(nodes@, path@.skip(k as int)) is None,
    decreases path@.len() - k,
{
    if k == path.len() {
        return None;
    }
    let idx = path[k];
    if idx >= nodes.len() {
        return None;
    }
    proof {
        assert(path@.skip(k as int).drop_first() =~= path@.skip(k + 1));
    }
    if k + 1 == path.len() {
        Some(&nodes[idx])
    } else {
        object_from(&nodes[idx].children, path, k + 1)
    }
}

/// The object at index path `path` in tab `active_left_tab` of the game
/// instance `selected_instance`; nothing when the instance, the tab or the
/// path does not lead to one.
pub fn resolve_object<'a>(
    instances: &'a Vec<InstanceTabs>,
    selected_instance: &str,
    active_left_tab: usize,
    path: &[usize],
) -> (r: Option<&'a ObjectNode>)
    ensures
        r matches Some(n) ==> resolved_object(instances@, selected_instance@, active_left_tab as int, path@)
            == Some(*n),
        r is None ==> resolved_object(instances@, selected_instance@, active_left_tab as int, path@) is None,
{
    assert(instances@.skip(0) =~= instances@);
    assert(path@.skip(0) =~= path@);
    let tabs = match find_instance(instances, selected_instance, 0) {
        Some(t) => t,
        None => {
            return None;
        },
    };
    if active_left_tab >= tabs.len() {
        return None;
    }
    object_from(&tabs[active_left_tab].objects, path, 0)
}

// ─── the tree's rows ───────────────────────────────────────────────────────

/// Key of a tree row: the parent's key, a slash, the object's name and its
/// index among its siblings. The roots' parent key is `"root"`.
pub open spec fn object_key_of(parent: Seq<char>, name: Seq<char>, index: nat) -> Seq<char> {
    parent + "/"@ + name + nat_decimal(index)
}

/// The key of a tree row, under which its expansion is remembered.
pub fn object_key(parent: &str, name: &str, index: usize) -> (r: String)
    ensures
        r@ == object_key_of(parent@, name@, index as nat),
{
    let a = concat(parent, "/");
    let b = concat(a.as_str(), name);
    let digits = string_from_chars(&u64_decimal(index as u64));
    concat(b.as_str(), digits.as_str())
}

/// What one row of the tree shows.
pub struct ObjectRow {
    /// a chevron is drawn
    pub has_children: bool,
    /// the row is highlighted
    pub is_selected: bool,
    /// the children are listed below
    pub is_expanded: bool,
    /// the component count shown beside the name, when there are components
    pub badge: Option<usize>,
}

/// The row of `obj`, reached by `index_path`, keyed `key`, given the
/// selected path and the keys of the expanded rows.
pub fn object_row(obj: &ObjectNode, key: &str, index_path: &Vec<usize>, selected: &Option<Vec<usize>>, expanded: &Vec<String>) -> (r: ObjectRow)
    ensures
        r.has_children == (obj.children@.len() > 0),
        r.is_selected == (selected matches Some(p) && p@ == index_path@),
        r.is_expanded == (exists|j: int| 0 <= j < expanded@.len() && #[trigger] expanded@[j]@ == key@),
        r.badge == (if obj.component_count > 0 { Some(obj.component_count) } else { None::<usize> }),
{
    let is_selected = match selected {
        Some(p) => same_path(p, index_path),
        None => false,
    };
    let mut is_expanded = false;
    let mut j: usize = 0;
    while j < expanded.len()
        invariant
            j <= expanded@.len(),
            is_expanded == (exists|i: int| 0 <= i < j && #[trigger] expanded@[i]@ == key@),
        decreases expanded@.len() - j,
    {
        if str_eq(expanded[j].as_str(), key) {
            is_expanded = true;
        }
        j += 1;
    }
    ObjectRow {
        has_children: obj.children.len() > 0,
        is_selected,
        is_expanded,
        badge: if obj.component_count > 0 { Some(obj.component_count) } else { None },
    }
}

fn same_path(a: &Vec<usize>, b: &Vec<usize>) -> (r: bool)
    ensures
        r == (a@ == b@),
{
    if a.len() != b.len() {
        return false;
    }
    let mut i: usize = 0;
    while i < a.len()
        invariant
            i <= a@.len(),
            a@.len() == b@.len(),
            forall|k: int| 0 <= k < i ==> a@[k] == b@[k],
        decreases a@.len() - i,
    {
        if a[i] != b[i] {
            return false;
        }
        i += 1;
    }
    assert(a@ =~= b@);
    true
}

/// The selection after a click on a row's name: the row, or nothing when
/// the row was the selection already.
pub fn selection_after_click(is_selected: bool, index_path: &Vec<usize>) -> (r: Option<Vec<usize>>)
    ensures
        is_selected ==> r is None,
        !is_selected ==> (r matches Some(p) && p@ == index_path@),
{
    if is_selected {
        None
    } else {
        Some(index_path.clone())
    }
}

/// The index path of the `i`-th child of the row at `index_path`.
pub fn child_index_path(index_path: &Vec<usize>, i: usize) -> (r: Vec<usize>)
    ensures
        r@ == index_path@.push(i),
{
    let mut r = index_path.clone();
    r.push(i);
    r
}

} // verus!
