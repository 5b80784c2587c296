//! Which component types the prefab inspector offers and which fields each
//! one has: the project's facet manifest first, the built-in transform and
//! renderer components as a fallback.
use vstd::prelude::*;
use crate::fs_ops::{
    FacetComponent, FacetField, FacetManifest, chars_lt, name_lt, lemma_chars_lt_irreflexive,
    lemma_chars_lt_transitive,
};
use crate::prefab_types::{
    FieldDescriptor, FieldDescriptorView, builtin_component_fields, builtin_fields, descriptors_view, strings_view,
};
use crate::seqs::{first_match, lemma_first_match_at, lemma_first_match};
use crate::text::{chars_of, str_eq};

verus! {

/// The names of the facets, in manifest order.
pub open spec fn facet_names(s: Seq<FacetComponent>) -> Seq<Seq<char>> {
    s.map_values(|c: FacetComponent| c.name@)
}

/// The fields a facet declares, as descriptors.
pub open spec fn facet_fields(c: FacetComponent) -> Seq<FieldDescriptorView> {
    c.data@.map_values(|f: FacetField| FieldDescriptorView { name: f.name@, kind: f.data@ })
}

/// The fields of a component type: those of the first facet of that name,
/// else the built-in ones.
pub open spec fn component_fields_of(facets: Seq<FacetComponent>, kind: Seq<char>) -> Seq<FieldDescriptorView> {
    match first_match(facet_names(facets), |n: Seq<char>| n == kind) {
        Some(i) => facet_fields(facets[i]),
        None => builtin_fields(kind),
    }
}

fn facet_descriptors(c: &FacetComponent) -> (r: Vec<FieldDescriptor>)
    ensures
        descriptors_view(r@) == facet_fields(*c),
{
    let mut out: Vec<FieldDescriptor> = Vec::new();
    let mut i: usize = 0;
    while i < c.data.len()
        invariant
            i <= c.data@.len(),
            descriptors_view(out@) == facet_fields(*c).take(i as int),
        decreases c.data@.len() - i,
    {
        let f = &c.data[i];
        let d = FieldDescriptor { name: f.name.clone(), kind: f.data.clone() };
        let ghost before = out@;
        out.push(d);
        proof {
            assert(descriptors_view(out@) =~= descriptors_view(before).push(d@));
            assert(facet_fields(*c).take(i + 1) =~= facet_fields(*c).take(i as int).push(facet_fields(*c)[i as int]));
        }
        i += 1;
    }
    proof {
        assert(facet_fields(*c).take(c.data@.len() as int) =~= facet_fields(*c));
    }
    out
}

/// The fields the inspector shows for a component type: from the facet
/// manifest when it declares the type, else the built-in list.
#[verifier::spinoff_prover]
#[verifier::rlimit(40)]
pub fn component_fields(facets: &FacetManifest, kind: &str) -> (r: Vec<FieldDescriptor>)
    ensures
        descriptors_view(r@) == component_fields_of(facets.manifest@, kind@),
{
    let ghost names = facet_names(facets.manifest@);
    let ghost p = |n: Seq<char>| n == kind@;
    let mut i: usize = 0;
    while i < facets.manifest.len()
        invariant
            i <= facets.manifest@.len(),
            names == facet_names(facets.manifest@),
            p == (|n: Seq<char>| n == kind@),
            forall|j: int| 0 <= j < i ==> !p(#[trigger] names[j]),
        decreases facets.manifest@.len() - i,
    {
        if str_eq(facets.manifest[i].name.as_str(), kind) {
            proof {
                lemma_first_match_at(names, p, i as int);
            }
            return facet_descriptors(&facets.manifest[i]);
        }
        i += 1;
    }
    proof {
        lemma_first_match(names, p);
        if first_match(names, p) is Some {
            let k = first_match(names, p).unwrap();
            assert(!p(names[k]));
        }
    }
    builtin_component_fields(kind)
}

/// When the facet manifest declares a component type (its first facet of
/// that name is `facets[i]`), the inspector's fields for the type are that
/// facet's declared fields, in order, each with the declared name and kind.
pub proof fn lemma_declared_fields_shown(facets: Seq<FacetComponent>, kind: Seq<char>, i: int)
    requires
        0 <= i < facets.len(),
        facets[i].name@ == kind,
        forall|j: int| 0 <= j < i ==> facets[j].name@ != kind,
    ensures
        component_fields_of(facets, kind).len() == facets[i].data@.len(),
        forall|j: int| 0 <= j < facets[i].data@.len() ==> {
            &&& (#[trigger] component_fields_of(facets, kind)[j]).name == facets[i].data@[j].name@
            &&& component_fields_of(facets, kind)[j].kind == facets[i].data@[j].data@
        },
{
    let names = facet_names(facets);
    let p = |n: Seq<char>| n == kind;
    assert forall|j: int| 0 <= j < i implies !p(#[trigger] names[j]) by {
        assert(names[j] == facets[j].name@);
    }
    assert(p(names[i]));
    lemma_first_match_at(names, p, i);
}

// ─── the "add facet" menu ──────────────────────────────────────────────────

/// `names` with `n` appended unless it is already there.
pub open spec fn add_missing(names: Seq<Seq<char>>, n: Seq<char>) -> Seq<Seq<char>> {
    if names.contains(n) {
        names
    } else {
        names.push(n)
    }
}

/// No name comes strictly before an earlier one.
pub open spec fn names_sorted(s: Seq<Seq<char>>) -> bool {
    forall|i: int, j: int| 0 <= i < j < s.len() ==> !chars_lt(#[trigger] s[j], #[trigger] s[i])
}

fn push_missing(names: &mut Vec<String>, n: &str)
    ensures
        strings_view(final(names)@) == add_missing(strings_view(old(names)@), n@),
{
    let ghost sv = strings_view(names@);
    let mut i: usize = 0;
    while i < names.len()
        invariant
            i <= names@.len(),
            sv == strings_view(names@),
            names@ == old(names)@,
            forall|j: int| 0 <= j < i ==> sv[j] != n@,
        decreases names@.len() - i,
    {
        if str_eq(names[i].as_str(), n) {
            proof {
                assert(sv[i as int] == n@);
                assert(sv.contains(n@));
            }
            return;
        }
        i += 1;
    }
    proof {
        assert(!sv.contains(n@)) by {
            if sv.contains(n@) {
                let j = choose|j: int| 0 <= j < sv.len() && sv[j] == n@;
                assert(sv[j] != n@);
            }
        }
    }
    let ghost before = names@;
    names.push(n.to_string());
    proof {
        assert(strings_view(names@) =~= strings_view(before).push(n@));
    }
}

/// Sorts names by `str` order, keeping equal names in their order.
#[verifier::spinoff_prover]
#[verifier::rlimit(40)]
pub fn sort_names(v: Vec<String>) -> (r: Vec<String>)
    ensures
        strings_view(r@).to_multiset() == strings_view(v@).to_multiset(),
        names_sorted(strings_view(r@)),
{
    broadcast use vstd::seq_lib::group_to_multiset_ensures;
    let ghost sv = strings_view(v@);
    let mut out: Vec<String> = Vec::new();
    let mut i: usize = 0;
    while i < v.len()
        invariant
            i <= v@.len(),
            sv == strings_view(v@),
            strings_view(out@).to_multiset() == sv.take(i as int).to_multiset(),
            names_sorted(strings_view(out@)),
        decreases v@.len() - i,
    {
        let e = v[i].clone();
        let en = chars_of(e.as_str());
        let ghost before = strings_view(out@);
        let mut p: usize = 0;
        while p < out.len()
            invariant
                p <= out@.len(),
                en@ == e@,
                before == strings_view(out@),
                forall|k: int| 0 <= k < p ==> !chars_lt(e@, #[trigger] before[k]),
            ensures
                p <= out@.len(),
                before == strings_view(out@),
                forall|k: int| 0 <= k < p ==> !chars_lt(e@, #[trigger] before[k]),
                p < out@.len() ==> chars_lt(e@, before[p as int]),
            decreases out@.len() - p,
        {
            let on = chars_of(out[p].as_str());
            if name_lt(&en, &on) {
                break;
            }
            p += 1;
        }
        let ghost ins = e@;
        out.insert(p, e);
        proof {
            assert(strings_view(out@) =~= before.insert(p as int, ins));
            vstd::seq_lib::to_multiset_insert(before, p as int, ins);
            assert(sv.take(i + 1) =~= sv.take(i as int).push(ins));
            vstd::seq_lib::to_multiset_build(sv.take(i as int), ins);
            assert forall|a: int, b: int| 0 <= a < b < strings_view(out@).len() implies
                !chars_lt(#[trigger] strings_view(out@)[b], #[trigger] strings_view(out@)[a]) by {
                let s = strings_view(out@);
                if b < p {
                    assert(s[a] == before[a] && s[b] == before[b]);
                } else if b == p {
                    assert(s[a] == before[a]);
                } else if a == p {
                    assert(s[b] == before[b - 1]);
                    if chars_lt(s[b], ins) {
                        lemma_chars_lt_transitive(s[b], ins, before[p as int]);
                        if b - 1 == p {
                            lemma_chars_lt_irreflexive(before[p as int]);
                        }
                    }
                } else if a < p {
                    assert(s[a] == before[a] && s[b] == before[b - 1]);
                } else {
                    assert(s[a] == before[a - 1] && s[b] == before[b - 1]);
                }
            }
        }
        i += 1;
    }
    proof {
        assert(sv.take(v@.len() as int) =~= sv);
    }
    out
}

/// The built-in component types.
pub open spec fn builtin_types() -> Set<Seq<char>> {
    set!["Transform2D"@, "Transform3D"@, "RendererStatic"@, "RendererDynamic"@]
}

proof fn lemma_add_missing(names: Seq<Seq<char>>, n: Seq<char>)
    requires
        names.no_duplicates(),
    ensures
        add_missing(names, n).no_duplicates(),
        add_missing(names, n).to_set() == names.to_set().insert(n),
{
    if names.contains(n) {
        assert(names.to_set().contains(n));
        assert(names.to_set().insert(n) =~= names.to_set());
    } else {
        names.lemma_push_to_set_commute(n);
        assert forall|i: int, j: int| 0 <= i < j < names.push(n).len() implies names.push(n)[i] != names.push(n)[j] by {
            if j == names.len() {
                assert(names[i] == names.push(n)[i]);
            }
        }
    }
}

proof fn lemma_same_multiset(a: Seq<Seq<char>>, b: Seq<Seq<char>>)
    requires
        a.to_multiset() == b.to_multiset(),
    ensures
        a.no_duplicates() ==> b.no_duplicates(),
        a.to_set() == b.to_set(),
{
    broadcast use vstd::seq_lib::to_multiset_contains;
    if a.no_duplicates() {
        a.lemma_multiset_has_no_duplicates();
        b.lemma_multiset_has_no_duplicates_conv();
    }
    assert forall|x: Seq<char>| a.to_set().contains(x) <==> b.to_set().contains(x) by {
        assert(a.contains(x) <==> a.to_multiset().count(x) > 0);
        assert(b.contains(x) <==> b.to_multiset().count(x) > 0);
    }
    assert(a.to_set() =~= b.to_set());
}

/// Every component type the "add facet" menu offers: the facet names and
/// the built-in types, each once, sorted.
#[verifier::spinoff_prover]
#[verifier::rlimit(40)]
pub fn all_component_types(facets: &FacetManifest) -> (r: Vec<String>)
    ensures
        strings_view(r@).no_duplicates(),
        strings_view(r@).to_set() == facet_names(facets.manifest@).to_set().union(builtin_types()),
        names_sorted(strings_view(r@)),
{
    let ghost fn_names = facet_names(facets.manifest@);
    let mut names: Vec<String> = Vec::new();
    let mut i: usize = 0;
    proof {
        assert(strings_view(names@) =~= Seq::<Seq<char>>::empty());
        assert(fn_names.take(0) =~= Seq::<Seq<char>>::empty());
        assert(Seq::<Seq<char>>::empty().to_set() =~= Set::<Seq<char>>::empty());
    }
    while i < facets.manifest.len()
        invariant
            i <= facets.manifest@.len(),
            fn_names == facet_names(facets.manifest@),
            strings_view(names@).no_duplicates(),
            strings_view(names@).to_set() == fn_names.take(i as int).to_set(),
        decreases facets.manifest@.len() - i,
    {
        let ghost before = strings_view(names@);
        push_missing(&mut names, facets.manifest[i].name.as_str());
        proof {
            let x = facets.manifest@[i as int].name@;
            lemma_add_missing(before, x);
            assert(fn_names[i as int] == x);
            assert(fn_names.take(i + 1) =~= fn_names.take(i as int).push(x));
            fn_names.take(i as int).lemma_push_to_set_commute(x);
        }
        i += 1;
    }
    proof {
        assert(fn_names.take(facets.manifest@.len() as int) =~= fn_names);
    }
    let ghost s0 = strings_view(names@);
    push_missing(&mut names, "Transform2D");
    let ghost s1 = strings_view(names@);
    push_missing(&mut names, "Transform3D");
    let ghost s2 = strings_view(names@);
    push_missing(&mut names, "RendererStatic");
    let ghost s3 = strings_view(names@);
    push_missing(&mut names, "RendererDynamic");
    proof {
        lemma_add_missing(s0, "Transform2D"@);
        lemma_add_missing(s1, "Transform3D"@);
        lemma_add_missing(s2, "RendererStatic"@);
        lemma_add_missing(s3, "RendererDynamic"@);
        assert(strings_view(names@).to_set() =~= fn_names.to_set().union(builtin_types()));
    }
    let ghost before_sort = strings_view(names@);
    let r = sort_names(names);
    proof {
        lemma_same_multiset(before_sort, strings_view(r@));
    }
    r
}

} // verus!
