//! Asset folder conventions: directory listings, `.meta` sidecars, the
//! asset manifest text, file-name conflicts and the facet manifest types.
use vstd::prelude::*;
use crate::text::{
    chars_of, string_from_range, string_from_chars, concat, last_index, first_index, rfind_char,
    ends_with, vec_ends_with, lemma_first_index, lemma_first_index_at, starts_with,
    vec_starts_with, trimmed, str_eq, lowercase, to_lowercase, int_decimal, i16_decimal, trim,
    is_digit, all_digits,
};

use crate::prefab_types::strings_view;

verus! {

// ─── types ─────────────────────────────────────────────────────────────────

/// One entry of a directory listing.
#[derive(Debug, PartialEq, Eq)]
pub struct DirEntry {
    pub name: String,
    pub path: String,
    pub is_dir: bool,
}

/// Model of a directory entry.
pub struct DirEntryView {
    pub name: Seq<char>,
    pub path: Seq<char>,
    pub is_dir: bool,
}

impl View for DirEntry {
    type V = DirEntryView;

    open spec fn view(&self) -> DirEntryView {
        DirEntryView { name: self.name@, path: self.path@, is_dir: self.is_dir }
    }
}

impl Clone for DirEntry {
    fn clone(&self) -> (r: Self)
        ensures
            r@ == self@,
    {
        DirEntry { name: self.name.clone(), path: self.path.clone(), is_dir: self.is_dir }
    }
}

/// Models of a sequence of directory entries.
pub open spec fn entries_view(s: Seq<DirEntry>) -> Seq<DirEntryView> {
    s.map_values(|e: DirEntry| e@)
}

/// The `.meta` sidecar of an asset: its manifest id and whether it is
/// included in the manifest.
#[derive(Debug, Clone, Copy, PartialEq, Eq)]
pub struct MetaFile {
    pub id: i16,
    pub included: bool,
}

/// One entry of `asset.manifest`.
#[derive(Debug, PartialEq, Eq)]
pub struct ManifestEntry {
    pub id: i16,
    pub name: String,
    pub kind: String,
    pub uri: String,
}

/// Model of a manifest entry.
pub struct ManifestEntryView {
    pub id: i16,
    pub name: Seq<char>,
    pub kind: Seq<char>,
    pub uri: Seq<char>,
}

impl View for ManifestEntry {
    type V = ManifestEntryView;

    open spec fn view(&self) -> ManifestEntryView {
        ManifestEntryView { id: self.id, name: self.name@, kind: self.kind@, uri: self.uri@ }
    }
}

impl Clone for ManifestEntry {
    fn clone(&self) -> (r: Self)
        ensures
            r@ == self@,
    {
        ManifestEntry { id: self.id, name: self.name.clone(), kind: self.kind.clone(), uri: self.uri.clone() }
    }
}

/// Models of a sequence of manifest entries.
pub open spec fn manifest_view(s: Seq<ManifestEntry>) -> Seq<ManifestEntryView> {
    s.map_values(|e: ManifestEntry| e@)
}

/// The whole `asset.manifest` file.
#[derive(Debug)]
pub struct AssetManifest {
    pub manifest: Vec<ManifestEntry>,
}

/// The value kind of a facet field.
#[derive(Debug)]
pub enum EntryType {
    Asset(String),
    Float,
    Int,
    Bool,
    Vector2,
    Vector3,
    Vector4,
}

/// Model of a value kind.
pub enum EntryTypeView {
    Asset(Seq<char>),
    Float,
    Int,
    Bool,
    Vector2,
    Vector3,
    Vector4,
}

impl View for EntryType {
    type V = EntryTypeView;

    open spec fn view(&self) -> EntryTypeView {
        match self {
            EntryType::Asset(s) => EntryTypeView::Asset(s@),
            EntryType::Float => EntryTypeView::Float,
            EntryType::Int => EntryTypeView::Int,
            EntryType::Bool => EntryTypeView::Bool,
            EntryType::Vector2 => EntryTypeView::Vector2,
            EntryType::Vector3 => EntryTypeView::Vector3,
            EntryType::Vector4 => EntryTypeView::Vector4,
        }
    }
}

impl Clone for EntryType {
    fn clone(&self) -> (r: Self)
        ensures
            r@ == self@,
    {
        match self {
            EntryType::Asset(s) => EntryType::Asset(s.clone()),
            EntryType::Float => EntryType::Float,
            EntryType::Int => EntryType::Int,
            EntryType::Bool => EntryType::Bool,
            EntryType::Vector2 => EntryType::Vector2,
            EntryType::Vector3 => EntryType::Vector3,
            EntryType::Vector4 => EntryType::Vector4,
        }
    }
}

/// One field of a facet (component type) in `facet.manifest`.
#[derive(Debug)]
pub struct FacetField {
    pub name: String,
    pub data: EntryType,
}

/// One facet (component type) of `facet.manifest`.
#[derive(Debug)]
pub struct FacetComponent {
    pub name: String,
    pub data: Vec<FacetField>,
}

/// The whole `facet.manifest` file.
#[derive(Debug)]
pub struct FacetManifest {
    pub manifest: Vec<FacetComponent>,
}

impl Default for FacetManifest {
    fn default() -> (r: Self)
        ensures
            r.manifest@.len() == 0,
    {
        FacetManifest { manifest: Vec::new() }
    }
}

// ─── paths and names ───────────────────────────────────────────────────────

/// `"{project_root}/assets"`.
pub fn assets_root(project_root: &str) -> (r: String)
    ensures
        r@ == project_root@ + "/assets"@,
{
    concat(project_root, "/assets")
}

/// `"{project_root}/asset.manifest"`, where the manifest is kept.
pub fn manifest_path(project_root: &str) -> (r: String)
    ensures
        r@ == project_root@ + "/asset.manifest"@,
{
    concat(project_root, "/asset.manifest")
}

/// `"{asset_path}.meta"`, the sidecar of an asset.
pub fn meta_path(asset_path: &str) -> (r: String)
    ensures
        r@ == asset_path@ + ".meta"@,
{
    concat(asset_path, ".meta")
}

/// The sidecar name suffix.
pub open spec fn is_meta_name(name: Seq<char>) -> bool {
    ends_with(name, ".meta"@)
}

/// Is this the name of a `.meta` sidecar?
pub fn is_meta(name: &str) -> (r: bool)
    ensures
        r == is_meta_name(name@),
{
    let v = chars_of(name);
    let suffix = chars_of(".meta");
    vec_ends_with(&v, &suffix)
}

/// Extension of a file name: from its last `'.'` on, lowercased; empty
/// when the name has no `'.'`.
pub open spec fn ext_of(name: Seq<char>) -> Seq<char> {
    match last_index(name, '.') {
        Some(i) => lowercase(name.skip(i)),
        None => Seq::empty(),
    }
}

/// The lowercased extension of a file name, `'.'` included.
pub fn file_ext(name: &str) -> (r: String)
    ensures
        r@ == ext_of(name@),
{
    let v = chars_of(name);
    match rfind_char(&v, '.') {
        Some(i) => {
            let tail = string_from_range(&v, i, v.len());
            assert(v@.subrange(i as int, v@.len() as int) =~= v@.skip(i as int));
            to_lowercase(tail.as_str())
        },
        None => String::new(),
    }
}


// ─── listing order ─────────────────────────────────────────────────────────

/// Lexicographic order of character sequences (the order of `str::cmp`,
/// since UTF-8 keeps the order of code points).
pub open spec fn chars_lt(a: Seq<char>, b: Seq<char>) -> bool
    decreases a.len(),
{
    if a.len() == 0 {
        b.len() > 0
    } else if b.len() == 0 {
        false
    } else if a[0] == b[0] {
        chars_lt(a.drop_first(), b.drop_first())
    } else {
        (a[0] as u32) < (b[0] as u32)
    }
}

/// No name comes before itself.
pub proof fn lemma_chars_lt_irreflexive(a: Seq<char>)
    ensures
        !chars_lt(a, a),
    decreases a.len(),
{
    if a.len() > 0 {
        lemma_chars_lt_irreflexive(a.drop_first());
    }
}

/// The order of names is transitive.
pub proof fn lemma_chars_lt_transitive(a: Seq<char>, b: Seq<char>, c: Seq<char>)
    requires
        chars_lt(a, b),
        chars_lt(b, c),
    ensures
        chars_lt(a, c),
    decreases a.len(),
{
    if a.len() > 0 {
        if a[0] == b[0] && b[0] == c[0] {
            lemma_chars_lt_transitive(a.drop_first(), b.drop_first(), c.drop_first());
        }
    }
}

/// `a` comes strictly before `b` in a listing: folders first, then by name.
pub open spec fn entry_before(a: DirEntryView, b: DirEntryView) -> bool {
    (a.is_dir && !b.is_dir) || (a.is_dir == b.is_dir && chars_lt(a.name, b.name))
}

/// No entry comes strictly before an earlier one.
pub open spec fn listing_sorted(s: Seq<DirEntryView>) -> bool {
    forall|i: int, j: int| 0 <= i < j < s.len() ==> !entry_before(#[trigger] s[j], #[trigger] s[i])
}

proof fn lemma_entry_before_transitive(a: DirEntryView, b: DirEntryView, c: DirEntryView)
    requires
        entry_before(a, b),
        entry_before(b, c),
    ensures
        entry_before(a, c),
{
    if a.is_dir == b.is_dir && b.is_dir == c.is_dir {
        lemma_chars_lt_transitive(a.name, b.name, c.name);
    }
}

proof fn lemma_entry_before_irreflexive(a: DirEntryView)
    ensures
        !entry_before(a, a),
{
    lemma_chars_lt_irreflexive(a.name);
}

/// Executable form of [`chars_lt`].
pub fn name_lt(a: &Vec<char>, b: &Vec<char>) -> (r: bool)
    ensures
        r == chars_lt(a@, b@),
{
    let mut i: usize = 0;
    proof {
        assert(a@.skip(0) =~= a@);
        assert(b@.skip(0) =~= b@);
    }
    while i < a.len() && i < b.len()
        invariant
            i <= a@.len(),
            i <= b@.len(),
            a@.take(i as int) == b@.take(i as int),
            chars_lt(a@, b@) == chars_lt(a@.skip(i as int), b@.skip(i as int)),
        decreases a@.len() - i,
    {
        let x = a[i];
        let y = b[i];
        proof {
            assert(a@.skip(i as int)[0] == x);
            assert(b@.skip(i as int)[0] == y);
            assert(a@.skip(i as int).drop_first() =~= a@.skip(i + 1));
            assert(b@.skip(i as int).drop_first() =~= b@.skip(i + 1));
        }
        if x != y {
            return (x as u32) < (y as u32);
        }
        proof {
            assert(a@.take(i + 1) =~= a@.take(i as int).push(x));
            assert(b@.take(i + 1) =~= b@.take(i as int).push(y));
        }
        i += 1;
    }
    i < b.len()
}

fn entry_lt(a: &DirEntry, b: &DirEntry, an: &Vec<char>, bn: &Vec<char>) -> (r: bool)
    requires
        an@ == a.name@,
        bn@ == b.name@,
    ensures
        r == entry_before(a@, b@),
{
    if a.is_dir && !b.is_dir {
        return true;
    }
    if a.is_dir != b.is_dir {
        return false;
    }
    name_lt(an, bn)
}

/// A listing: the entries (without `.meta` sidecars when `hide_meta`) put
/// in order, folders first, then by name.
pub open spec fn listing_of(entries: Seq<DirEntryView>, hide_meta: bool) -> Seq<DirEntryView> {
    if hide_meta {
        entries.filter(|e: DirEntryView| !is_meta_name(e.name))
    } else {
        entries
    }
}

/// Puts raw directory entries in listing order, folders first and then by
/// name, leaving out `.meta` sidecars when `hide_meta` is set.
#[verifier::spinoff_prover]
#[verifier::rlimit(40)]
pub fn arrange_listing(entries: Vec<DirEntry>, hide_meta: bool) -> (r: Vec<DirEntry>)
    ensures
        entries_view(r@).to_multiset() == listing_of(entries_view(entries@), hide_meta).to_multiset(),
        listing_sorted(entries_view(r@)),
{
    broadcast use vstd::seq_lib::group_to_multiset_ensures;
    let ghost ev = entries_view(entries@);
    let ghost pred = |e: DirEntryView| !is_meta_name(e.name);
    let mut out: Vec<DirEntry> = Vec::new();
    let mut i: usize = 0;
    while i < entries.len()
        invariant
            i <= entries@.len(),
            ev == entries_view(entries@),
            pred == (|e: DirEntryView| !is_meta_name(e.name)),
            entries_view(out@).to_multiset() == listing_of(ev.take(i as int), hide_meta).to_multiset(),
            listing_sorted(entries_view(out@)),
        decreases entries@.len() - i,
    {
        proof {
            reveal_with_fuel(Seq::filter, 1);
            assert(ev.take(i + 1).drop_last() =~= ev.take(i as int));
            assert(ev.take(i + 1) =~= ev.take(i as int).push(ev[i as int]));
        }
        let e = entries[i].clone();
        let skip = hide_meta && is_meta(e.name.as_str());
        if !skip {
            let en = chars_of(e.name.as_str());
            let ghost before = entries_view(out@);
            // first position whose entry the new one comes strictly before
            let mut p: usize = 0;
            while p < out.len()
                invariant
                    p <= out@.len(),
                    en@ == e.name@,
                    before == entries_view(out@),
                    forall|k: int| 0 <= k < p ==> !entry_before(e@, #[trigger] before[k]),
                ensures
                    p <= out@.len(),
                    before == entries_view(out@),
                    forall|k: int| 0 <= k < p ==> !entry_before(e@, #[trigger] before[k]),
                    p < out@.len() ==> entry_before(e@, before[p as int]),
                decreases out@.len() - p,
            {
                let on = chars_of(out[p].name.as_str());
                if entry_lt(&e, &out[p], &en, &on) {
                    break;
                }
                p += 1;
            }
            let ghost ins = e@;
            out.insert(p, e);
            proof {
                assert(entries_view(out@) =~= before.insert(p as int, ins));
                vstd::seq_lib::to_multiset_insert(before, p as int, ins);
                assert forall|a: int, b: int| 0 <= a < b < entries_view(out@).len() implies
                    !entry_before(#[trigger] entries_view(out@)[b], #[trigger] entries_view(out@)[a]) by {
                    let s = entries_view(out@);
                    if b < p {
                        assert(s[a] == before[a] && s[b] == before[b]);
                    } else if b == p {
                        assert(s[a] == before[a]);
                    } else if a == p {
                        assert(s[b] == before[b - 1]);
                        if p < before.len() {
                            assert(p < out@.len() - 1);
                        }
                        if entry_before(s[b], ins) {
                            // ins comes before before[p], and before is sorted
                            assert(entry_before(ins, before[p as int]));
                            lemma_entry_before_transitive(s[b], ins, before[p as int]);
                            if b - 1 == p {
                                lemma_entry_before_irreflexive(before[p as int]);
                            }
                        }
                    } else if a < p {
                        assert(s[a] == before[a] && s[b] == before[b - 1]);
                    } else {
                        assert(s[a] == before[a - 1] && s[b] == before[b - 1]);
                    }
                }
                assert(ins == ev[i as int]);
                if hide_meta {
                    assert(pred(ev[i as int]));
                    assert(ev.take(i + 1).filter(pred) == ev.take(i as int).filter(pred).push(ev[i as int]));
                }
                assert(listing_of(ev.take(i + 1), hide_meta) == listing_of(ev.take(i as int), hide_meta).push(ins));
                vstd::seq_lib::to_multiset_build(listing_of(ev.take(i as int), hide_meta), ins);
            }
        } else {
            proof {
                assert(e@ == ev[i as int]);
                assert(!pred(ev[i as int]));
                assert(ev.take(i + 1).filter(pred) == ev.take(i as int).filter(pred));
            }
        }
        i += 1;
    }
    proof {
        assert(ev.take(ev.len() as int) =~= ev);
    }
    out
}


// ─── the asset manifest ────────────────────────────────────────────────────

/// `Path::file_stem` of a file name: the name up to its last `'.'`, or the
/// whole name when it has no `'.'` but a leading one (and for `..`).
pub open spec fn stem_of(name: Seq<char>) -> Seq<char> {
    if name == ".."@ {
        name
    } else {
        match last_index(name, '.') {
            Some(i) => if i == 0 { name } else { name.take(i) },
            None => name,
        }
    }
}

/// The stem of a file name (`Path::file_stem`).
pub fn file_stem(name: &str) -> (r: String)
    ensures
        r@ == stem_of(name@),
{
    let v = chars_of(name);
    let dots = chars_of("..");
    proof {
        reveal_strlit("..");
    }
    if v.len() == 2 && v[0] == '.' && v[1] == '.' {
        assert(v@ =~= dots@);
        return string_from_chars(&v);
    }
    assert(v@ != ".."@) by {
        if v@ == ".."@ {
            assert(v@.len() == 2 && v@[0] == '.' && v@[1] == '.');
        }
    }
    match rfind_char(&v, '.') {
        Some(i) => {
            if i == 0 {
                string_from_chars(&v)
            } else {
                string_from_range(&v, 0, i)
            }
        },
        None => string_from_chars(&v),
    }
}

/// The manifest entry for an asset file: present when the asset has a
/// `.meta` that includes it; named by the file's stem, of the kind
/// `Embedded`, at `uri` (the path relative to the project root).
pub open spec fn manifest_entry_of(meta: Option<MetaFile>, file_name: Seq<char>, uri: Seq<char>) -> Option<ManifestEntryView> {
    match meta {
        Some(m) => if m.included {
            Some(ManifestEntryView { id: m.id, name: stem_of(file_name), kind: "Embedded"@, uri })
        } else {
            None
        },
        None => None,
    }
}

/// The manifest entry of one asset file, given its `.meta` (if it has one).
pub fn manifest_entry(meta: Option<MetaFile>, file_name: &str, uri: &str) -> (r: Option<ManifestEntry>)
    ensures
        match r {
            Some(e) => manifest_entry_of(meta, file_name@, uri@) == Some(e@),
            None => manifest_entry_of(meta, file_name@, uri@) is None,
        },
{
    match meta {
        Some(m) => {
            if m.included {
                Some(ManifestEntry { id: m.id, name: file_stem(file_name), kind: "Embedded".to_string(), uri: uri.to_string() })
            } else {
                None
            }
        },
        None => None,
    }
}

/// The lines `asset.manifest` holds for one entry.
pub open spec fn manifest_lines(e: ManifestEntryView) -> Seq<char> {
    "  - id: "@ + int_decimal(e.id as int) + "\n    name: \""@ + e.name + "\"\n    type: "@ + e.kind
        + "\n    uri: \""@ + e.uri + "\"\n"@
}

/// The lines of all entries, in order.
pub open spec fn manifest_body(s: Seq<ManifestEntryView>) -> Seq<char>
    decreases s.len(),
{
    if s.len() == 0 {
        Seq::empty()
    } else {
        manifest_body(s.drop_last()) + manifest_lines(s.last())
    }
}

/// The text of `asset.manifest` for these entries.
pub open spec fn manifest_text_of(s: Seq<ManifestEntryView>) -> Seq<char> {
    "manifest:\n"@ + manifest_body(s)
}

/// Writes out `asset.manifest` for these entries.
#[verifier::spinoff_prover]
#[verifier::rlimit(40)]
pub fn manifest_text(entries: &Vec<ManifestEntry>) -> (r: String)
    ensures
        r@ == manifest_text_of(manifest_view(entries@)),
{
    let ghost ev = manifest_view(entries@);
    let mut out = "manifest:\n".to_string();
    let mut i: usize = 0;
    while i < entries.len()
        invariant
            ev == manifest_view(entries@),
            i <= entries@.len(),
            out@ == "manifest:\n"@ + manifest_body(ev.take(i as int)),
        decreases entries@.len() - i,
    {
        let e = &entries[i];
        let id = string_from_chars(&i16_decimal(e.id));
        let ghost before = out@;
        out.append("  - id: ");
        out.append(id.as_str());
        out.append("\n    name: \"");
        out.append(e.name.as_str());
        out.append("\"\n    type: ");
        out.append(e.kind.as_str());
        out.append("\n    uri: \"");
        out.append(e.uri.as_str());
        out.append("\"\n");
        proof {
            assert(ev.take(i + 1).drop_last() =~= ev.take(i as int));
            assert(ev[i as int] == e@);
            assert(out@ =~= before + manifest_lines(e@));
        }
        i += 1;
    }
    proof {
        assert(ev.take(entries@.len() as int) =~= ev);
    }
    out
}

// ─── `.meta` text read line by line ────────────────────────────────────────

/// `str::lines`: split at `'\n'`, a `'\r'` just before it dropped, no
/// empty line after a final line break.
pub open spec fn lines_of(s: Seq<char>) -> Seq<Seq<char>>
    decreases s.len(),
{
    if s.len() == 0 {
        Seq::empty()
    } else {
        match first_index(s, '\n') {
            Some(i) => {
                proof {
                    lemma_first_index(s, '\n');
                }
                let line = s.take(i);
                let line = if line.len() > 0 && line.last() == '\r' { line.drop_last() } else { line };
                seq![line] + lines_of(s.skip(i + 1))
            },
            None => seq![s],
        }
    }
}

/// Decimal value of a string of digits.
pub open spec fn digits_value(s: Seq<char>) -> nat
    decreases s.len(),
{
    if s.len() == 0 {
        0
    } else {
        digits_value(s.drop_last()) * 10 + ((s.last() as int - '0' as int) as nat)
    }
}

/// `s` without its leading sign, if it has one.
pub open spec fn unsigned_part(s: Seq<char>) -> Seq<char> {
    if s.len() > 0 && (s[0] == '-' || s[0] == '+') {
        s.drop_first()
    } else {
        s
    }
}

/// `str::parse::<i16>`: an optional sign, then at least one decimal digit,
/// with a value that fits.
pub open spec fn i16_of(s: Seq<char>) -> Option<i16> {
    let neg = s.len() > 0 && s[0] == '-';
    let digits = unsigned_part(s);
    if digits.len() == 0 || !all_digits(digits) {
        None
    } else if neg {
        if digits_value(digits) <= 32768 { Some((-(digits_value(digits) as int)) as i16) } else { None }
    } else {
        if digits_value(digits) <= 32767 { Some(digits_value(digits) as i16) } else { None }
    }
}

/// Parses an `i16` the way `str::parse` does.
#[verifier::spinoff_prover]
#[verifier::rlimit(40)]
pub fn parse_i16(s: &str) -> (r: Option<i16>)
    ensures
        r == i16_of(s@),
{
    let v = chars_of(s);
    let n = v.len();
    if n == 0 {
        return None;
    }
    let neg = v[0] == '-';
    let start: usize = if v[0] == '-' || v[0] == '+' { 1 } else { 0 };
    let ghost digits = v@.skip(start as int);
    proof {
        if start == 1 {
            assert(v@.drop_first() =~= digits);
        } else {
            assert(v@ =~= digits);
        }
    }
    if start == n {
        proof {
            assert(digits.len() == 0);
        }
        return None;
    }
    // value of the digits so far, capped at 40000
    let mut acc: u32 = 0;
    let mut k: usize = start;
    while k < n
        invariant
            n == v@.len(),
            v@ == s@,
            start <= k <= n,
            digits == v@.skip(start as int),
            digits == unsigned_part(s@),
            forall|j: int| 0 <= j < k - start ==> is_digit(#[trigger] digits[j]),
            acc as nat == if digits_value(digits.take(k - start)) > 40000 { 40000 } else { digits_value(digits.take(k - start)) },
        decreases n - k,
    {
        let c = v[k];
        if !('0' <= c && c <= '9') {
            proof {
                assert(!is_digit(digits[k - start]));
            }
            return None;
        }
        let d = (c as u32) - 48;
        proof {
            assert(digits.take(k - start + 1).drop_last() =~= digits.take(k - start));
            assert(digits.take(k - start + 1).last() == c);
        }
        if acc >= 40000 {
            acc = 40000;
        } else {
            let next = acc * 10 + d;
            acc = if next > 40000 { 40000 } else { next };
        }
        k += 1;
    }
    proof {
        assert(digits.take(n - start) =~= digits);
    }
    if neg {
        if acc <= 32768 {
            Some((-(acc as i32)) as i16)
        } else {
            None
        }
    } else {
        if acc <= 32767 {
            Some(acc as i16)
        } else {
            None
        }
    }
}

/// What one line of a `.meta` file changes: an `id:` line sets the id
/// (to nothing when its value is no `i16`), an `included:` line sets the
/// flag (anything but `false` includes).
pub open spec fn meta_line_step(acc: (Option<i16>, bool), line: Seq<char>) -> (Option<i16>, bool) {
    let id = if starts_with(line, "id:"@) {
        i16_of(trim(line.skip("id:"@.len() as int)))
    } else {
        acc.0
    };
    let included = if starts_with(line, "included:"@) {
        trim(line.skip("included:"@.len() as int)) != "false"@
    } else {
        acc.1
    };
    (id, included)
}

/// The id and flag after reading these lines, in order.
pub open spec fn meta_fold(lines: Seq<Seq<char>>) -> (Option<i16>, bool)
    decreases lines.len(),
{
    if lines.len() == 0 {
        (None, true)
    } else {
        meta_line_step(meta_fold(lines.drop_last()), lines.last())
    }
}

/// The `.meta` that a text describes, read line by line: present when an
/// id was read.
pub open spec fn meta_of_text(text: Seq<char>) -> Option<MetaFile> {
    let (id, included) = meta_fold(lines_of(text));
    match id {
        Some(i) => Some(MetaFile { id: i, included }),
        None => None,
    }
}

#[verifier::spinoff_prover]
#[verifier::rlimit(40)]
proof fn lemma_lines_step(v: Seq<char>, start: int, i: int, end: int)
    requires
        0 <= start <= i < v.len(),
        v[i] == '\n',
        forall|j: int| start <= j < i ==> v[j] != '\n',
        end == if i > start && v[i - 1] == '\r' { i - 1 } else { i },
    ensures
        lines_of(v.skip(start)) == seq![v.subrange(start, end)] + lines_of(v.skip(i + 1)),
{
    let rest = v.skip(start);
    lemma_first_index_at(rest, '\n', i - start);
    assert(rest.take(i - start) =~= v.subrange(start, i));
    if end < i {
        assert(v.subrange(start, i).drop_last() =~= v.subrange(start, end));
    }
    assert(rest.skip(i - start + 1) =~= v.skip(i + 1));
}

proof fn lemma_append_line(done: Seq<Seq<char>>, line: Seq<char>, later: Seq<Seq<char>>)
    ensures
        done + (seq![line] + later) == done.push(line) + later,
        done.push(line).drop_last() == done,
{
    assert(done + (seq![line] + later) =~= done.push(line) + later);
    assert(done.push(line).drop_last() =~= done);
}

fn meta_line(acc: (Option<i16>, bool), line: &Vec<char>) -> (r: (Option<i16>, bool))
    ensures
        r == meta_line_step(acc, line@),
{
    let id_key = chars_of("id:");
    let inc_key = chars_of("included:");
    let mut id = acc.0;
    let mut included = acc.1;
    if vec_starts_with(line, &id_key) {
        let rest = string_from_range(line, id_key.len(), line.len());
        assert(line@.subrange(id_key@.len() as int, line@.len() as int) =~= line@.skip(id_key@.len() as int));
        let t = trimmed(rest.as_str());
        id = parse_i16(t.as_str());
    }
    if vec_starts_with(line, &inc_key) {
        let rest = string_from_range(line, inc_key.len(), line.len());
        assert(line@.subrange(inc_key@.len() as int, line@.len() as int) =~= line@.skip(inc_key@.len() as int));
        let t = trimmed(rest.as_str());
        included = !str_eq(t.as_str(), "false");
    }
    (id, included)
}

/// Reads a `.meta` text line by line: the last `id:` line gives the id,
/// the last `included:` line the flag; no id, no `.meta`.
#[verifier::spinoff_prover]
#[verifier::rlimit(40)]
pub fn meta_from_lines(text: &str) -> (r: Option<MetaFile>)
    ensures
        r == meta_of_text(text@),
{
    let v = chars_of(text);
    let n = v.len();
    let mut acc: (Option<i16>, bool) = (None, true);
    let ghost mut done: Seq<Seq<char>> = Seq::empty();
    let mut start: usize = 0;
    let mut i: usize = 0;
    proof {
        assert(v@.skip(0) =~= v@);
    }
    while i < n
        invariant
            n == v@.len(),
            v@ == text@,
            start <= i <= n,
            lines_of(v@) == done + lines_of(v@.skip(start as int)),
            acc == meta_fold(done),
            forall|j: int| start <= j < i ==> v@[j] != '\n',
        decreases n - i,
    {
        if v[i] == '\n' {
            let ghost rest = v@.skip(start as int);
            let mut end = i;
            if end > start && v[end - 1] == '\r' {
                end = end - 1;
            }
            let line = chars_of(string_from_range(&v, start, end).as_str());
            proof {
                lemma_lines_step(v@, start as int, i as int, end as int);
                lemma_append_line(done, line@, lines_of(v@.skip(i + 1)));
            }
            acc = meta_line(acc, &line);
            proof {
                done = done.push(line@);
            }
            start = i + 1;
        }
        i += 1;
    }
    if start < n {
        let line = chars_of(string_from_range(&v, start, n).as_str());
        proof {
            let rest = v@.skip(start as int);
            assert(rest =~= line@);
            assert(!rest.contains('\n'));
            lemma_first_index(rest, '\n');
            assert(lines_of(rest) == seq![rest]);
            assert(done + lines_of(rest) =~= done.push(line@));
            assert(done.push(line@).drop_last() =~= done);
        }
        acc = meta_line(acc, &line);
        proof {
            done = done.push(line@);
        }
    } else {
        proof {
            assert(v@.skip(start as int) =~= Seq::<char>::empty());
            assert(done + Seq::<Seq<char>>::empty() =~= done);
        }
    }
    match acc.0 {
        Some(id) => Some(MetaFile { id, included: acc.1 }),
        None => None,
    }
}

// ─── fresh `.meta` files ───────────────────────────────────────────────────

/// The id minted from a nanosecond reading: always in `1..=32767`.
pub fn meta_id_from_nanos(nanos: u32) -> (r: i16)
    ensures
        r == nanos % 32767 + 1,
        1 <= r <= 32767,
{
    (nanos % 32767 + 1) as i16
}

/// A fresh `.meta`: included, with an id in `1..=32767` taken from the
/// clock.
pub fn fresh_meta() -> (m: MetaFile)
    ensures
        1 <= m.id <= 32767,
        m.included,
{
    let nanos = crate::clock::now_subsec_nanos();
    MetaFile { id: meta_id_from_nanos(nanos), included: true }
}

/// The `.meta` of an asset: the one it has, or a fresh one (included, id in
/// `1..=32767`) that the caller must write; the flag says which.
pub fn get_or_create_meta(existing: Option<MetaFile>) -> (r: (MetaFile, bool))
    ensures
        match existing {
            Some(m) => r == (m, false),
            None => r.1 && r.0.included && 1 <= r.0.id <= 32767,
        },
{
    match existing {
        Some(m) => (m, false),
        None => (fresh_meta(), true),
    }
}

// ─── free names ────────────────────────────────────────────────────────────

/// Bytes of a character in UTF-8.
pub open spec fn char_bytes(c: char) -> nat {
    if (c as u32) < 0x80 {
        1
    } else if (c as u32) < 0x800 {
        2
    } else if (c as u32) < 0x10000 {
        3
    } else {
        4
    }
}

/// Bytes of a text in UTF-8.
pub open spec fn utf8_len(s: Seq<char>) -> nat
    decreases s.len(),
{
    if s.len() == 0 {
        0
    } else {
        utf8_len(s.drop_last()) + char_bytes(s.last())
    }
}

/// The number of leading characters of `s` that take `b` bytes, if a
/// character boundary falls there.
pub open spec fn boundary_at(s: Seq<char>, b: nat) -> Option<int> {
    if exists|i: int| 0 <= i <= s.len() && #[trigger] utf8_len(s.take(i)) == b {
        Some(choose|i: int| 0 <= i <= s.len() && #[trigger] utf8_len(s.take(i)) == b)
    } else {
        None
    }
}

/// The name splits into a base and its lowercased extension as
/// `&name[..name.len() - ext.len()]` does (in bytes): the extension is
/// empty, or it is not longer than the name and a character boundary falls
/// where it would start.
pub open spec fn base_defined(name: Seq<char>) -> bool {
    ext_of(name).len() == 0 || (utf8_len(ext_of(name)) <= utf8_len(name) && boundary_at(
        name,
        (utf8_len(name) - utf8_len(ext_of(name))) as nat,
    ) is Some)
}

/// The part of a file name before its extension: the whole name when it
/// has none, else the name without as many trailing bytes as its lowercased
/// extension takes.
pub open spec fn base_of(name: Seq<char>) -> Seq<char> {
    if ext_of(name).len() == 0 {
        name
    } else {
        match boundary_at(name, (utf8_len(name) - utf8_len(ext_of(name))) as nat) {
            Some(i) => name.take(i),
            None => name,
        }
    }
}

proof fn lemma_utf8_prefix(s: Seq<char>, i: int)
    requires
        0 <= i < s.len(),
    ensures
        utf8_len(s.take(i + 1)) == utf8_len(s.take(i)) + char_bytes(s[i]),
{
    assert(s.take(i + 1).drop_last() =~= s.take(i));
}

proof fn lemma_utf8_increasing(s: Seq<char>, i: int, j: int)
    requires
        0 <= i < j <= s.len(),
    ensures
        utf8_len(s.take(i)) < utf8_len(s.take(j)),
    decreases j - i,
{
    lemma_utf8_prefix(s, j - 1);
    if i < j - 1 {
        lemma_utf8_increasing(s, i, j - 1);
    }
}

fn bytes_of(c: char) -> (r: u128)
    ensures
        r == char_bytes(c),
{
    let u = c as u32;
    if u < 0x80 {
        1
    } else if u < 0x800 {
        2
    } else if u < 0x10000 {
        3
    } else {
        4
    }
}

fn utf8_count(v: &Vec<char>) -> (r: u128)
    ensures
        r == utf8_len(v@),
        r <= 4 * v@.len(),
{
    let mut acc: u128 = 0;
    let mut i: usize = 0;
    while i < v.len()
        invariant
            i <= v@.len(),
            acc == utf8_len(v@.take(i as int)),
            acc <= 4 * i,
        decreases v@.len() - i,
    {
        proof {
            lemma_utf8_prefix(v@, i as int);
        }
        acc = acc + bytes_of(v[i]);
        i += 1;
    }
    assert(v@.take(v@.len() as int) =~= v@);
    acc
}

/// Whether a name splits into a base and its extension (see
/// [`base_defined`]).
pub fn name_splits(name: &str) -> (r: bool)
    ensures
        r == base_defined(name@),
{
    let ext = file_ext(name);
    let e = chars_of(ext.as_str());
    if e.len() == 0 {
        return true;
    }
    let v = chars_of(name);
    let total = utf8_count(&v);
    let ext_bytes = utf8_count(&e);
    if ext_bytes > total {
        return false;
    }
    prefix_with_bytes(&v, total - ext_bytes).is_some()
}

fn prefix_with_bytes(v: &Vec<char>, target: u128) -> (r: Option<usize>)
    ensures
        match r {
            Some(i) => boundary_at(v@, target as nat) == Some(i as int),
            None => boundary_at(v@, target as nat) is None,
        },
{
    let mut acc: u128 = 0;
    let mut i: usize = 0;
    while i < v.len() && acc < target
        invariant
            i <= v@.len(),
            acc == utf8_len(v@.take(i as int)),
            acc <= 4 * i,
            forall|j: int| 0 <= j < i ==> #[trigger] utf8_len(v@.take(j)) < target,
        decreases v@.len() - i,
    {
        proof {
            lemma_utf8_prefix(v@, i as int);
        }
        acc = acc + bytes_of(v[i]);
        i += 1;
    }
    if acc == target {
        proof {
            assert(utf8_len(v@.take(i as int)) == target as nat);
            let c = choose|j: int| 0 <= j <= v@.len() && #[trigger] utf8_len(v@.take(j)) == target as nat;
            if c < i {
                assert(utf8_len(v@.take(c)) < target);
            } else if c > i {
                lemma_utf8_increasing(v@, i as int, c);
            }
        }
        Some(i)
    } else {
        proof {
            assert forall|j: int| 0 <= j <= v@.len() implies #[trigger] utf8_len(v@.take(j)) != target as nat by {
                if j > i {
                    lemma_utf8_increasing(v@, i as int, j);
                } else if j == i {
                } else {
                }
            }
        }
        None
    }
}

fn base_name(name: &str) -> (r: String)
    requires
        base_defined(name@),
    ensures
        r@ == base_of(name@),
{
    let ext = file_ext(name);
    let e = chars_of(ext.as_str());
    let v = chars_of(name);
    if e.len() == 0 {
        return string_from_chars(&v);
    }
    let total = utf8_count(&v);
    let ext_bytes = utf8_count(&e);
    match prefix_with_bytes(&v, total - ext_bytes) {
        Some(i) => {
            proof {
                assert(v@.subrange(0, i as int) =~= v@.take(i as int));
            }
            string_from_range(&v, 0, i)
        },
        None => string_from_chars(&v),
    }
}

/// The `k`-th name tried for `name` in `dir`: `dir/name`, then
/// `dir/{base}_{k}{ext}` with the lowercased extension.
pub open spec fn conflict_candidate(dir: Seq<char>, name: Seq<char>, k: nat) -> Seq<char> {
    if k == 0 {
        dir + seq!['/'] + name
    } else {
        dir + seq!['/'] + base_of(name) + seq!['_'] + int_decimal(k as int) + ext_of(name)
    }
}

fn candidate(dir: &str, name: &str, base: &str, ext: &str, k: u32) -> (r: String)
    requires
        base@ == base_of(name@),
        ext@ == ext_of(name@),
    ensures
        r@ == conflict_candidate(dir@, name@, k as nat),
{
    let with_sep = concat(dir, "/");
    proof {
        reveal_strlit("/");
    }
    if k == 0 {
        let r = concat(with_sep.as_str(), name);
        assert(r@ =~= conflict_candidate(dir@, name@, 0));
        return r;
    }
    let with_base = concat(with_sep.as_str(), base);
    let with_us = concat(with_base.as_str(), "_");
    proof {
        reveal_strlit("_");
    }
    let digits = string_from_chars(&crate::text::u64_decimal(k as u64));
    let with_k = concat(with_us.as_str(), digits.as_str());
    let r = concat(with_k.as_str(), ext);
    assert(int_decimal(k as int) == crate::text::nat_decimal(k as nat));
    assert(r@ =~= conflict_candidate(dir@, name@, k as nat));
    r
}

proof fn lemma_decimal_value(n: nat)
    ensures
        digits_value(crate::text::nat_decimal(n)) == n,
    decreases n,
{
    let s = crate::text::nat_decimal(n);
    if n < 10 {
        assert(s.drop_last() =~= Seq::<char>::empty());
        assert(((n + 48) as u8) as char as int == n + 48);
        assert(s.last() == crate::text::digit_char(n));
        assert(digits_value(s) == digits_value(s.drop_last()) * 10 + ((s.last() as int - '0' as int) as nat));
    } else {
        lemma_decimal_value(n / 10);
        assert(s.drop_last() =~= crate::text::nat_decimal(n / 10));
        let d = (n % 10) as nat;
        assert(((d + 48) as u8) as char as int == d + 48);
        assert(s.last() == crate::text::digit_char(d));
        assert(n == (n / 10) * 10 + d) by (nonlinear_arith)
            requires
                d == n % 10,
        ;
        assert(digits_value(s) == digits_value(s.drop_last()) * 10 + ((s.last() as int - '0' as int) as nat));
    }
}

/// Two numbered candidates for the same name are different.
proof fn lemma_candidates_distinct(dir: Seq<char>, name: Seq<char>, k: nat, j: nat)
    requires
        1 <= k,
        1 <= j,
        conflict_candidate(dir, name, k) == conflict_candidate(dir, name, j),
    ensures
        k == j,
{
    let p = dir + seq!['/'] + base_of(name) + seq!['_'];
    let e = ext_of(name);
    let a = crate::text::nat_decimal(k);
    let b = crate::text::nat_decimal(j);
    assert(conflict_candidate(dir, name, k) =~= p + a + e);
    assert(conflict_candidate(dir, name, j) =~= p + b + e);
    assert(a.len() == b.len());
    assert(a =~= (p + a + e).subrange(p.len() as int, (p.len() + a.len()) as int));
    assert(b =~= (p + b + e).subrange(p.len() as int, (p.len() + b.len()) as int));
    lemma_decimal_value(k);
    lemma_decimal_value(j);
}

/// Among the numbered candidates `1..=taken.len() + 1`, one is not taken.
proof fn lemma_some_candidate_free(dir: Seq<char>, name: Seq<char>, taken: Seq<Seq<char>>)
    ensures
        exists|k: nat| 1 <= k <= taken.len() + 1 && !taken.contains(#[trigger] conflict_candidate(dir, name, k)),
{
    if forall|k: nat| 1 <= k <= taken.len() + 1 ==> taken.contains(#[trigger] conflict_candidate(dir, name, k)) {
        let n = taken.len() + 1;
        let cs = Seq::new(n as nat, |i: int| conflict_candidate(dir, name, (i + 1) as nat));
        assert forall|a: int, b: int| 0 <= a < cs.len() && 0 <= b < cs.len() && a != b implies cs[a] != cs[b] by {
            if cs[a] == cs[b] {
                lemma_candidates_distinct(dir, name, (a + 1) as nat, (b + 1) as nat);
            }
        }
        assert(cs.no_duplicates());
        cs.unique_seq_to_set();
        assert forall|x: Seq<char>| cs.to_set().contains(x) implies taken.to_set().contains(x) by {
            let i = choose|i: int| 0 <= i < cs.len() && cs[i] == x;
            assert(taken.contains(conflict_candidate(dir, name, (i + 1) as nat)));
        }
        taken.lemma_cardinality_of_set();
        vstd::set_lib::lemma_len_subset(cs.to_set(), taken.to_set());
        assert(false);
    }
}

/// `k` is the first candidate that `taken` does not hold.
pub open spec fn first_free(dir: Seq<char>, name: Seq<char>, taken: Seq<Seq<char>>, k: nat) -> bool {
    &&& !taken.contains(conflict_candidate(dir, name, k))
    &&& forall|j: nat| j < k ==> taken.contains(#[trigger] conflict_candidate(dir, name, j))
}

fn holds_path(taken: &Vec<String>, c: &str) -> (r: bool)
    ensures
        r == strings_view(taken@).contains(c@),
{
    let ghost tv = strings_view(taken@);
    let mut i: usize = 0;
    while i < taken.len()
        invariant
            i <= taken@.len(),
            tv == strings_view(taken@),
            forall|j: int| 0 <= j < i ==> tv[j] != c@,
        decreases taken@.len() - i,
    {
        if str_eq(taken[i].as_str(), c) {
            assert(tv[i as int] == c@);
            return true;
        }
        i += 1;
    }
    false
}

/// The free path for `name` in `dir`, given the paths that exist: `dir/name`
/// when it is free, else `dir/{base}_{k}{ext}` for the least `k >= 1` whose
/// path is free.
#[verifier::spinoff_prover]
#[verifier::rlimit(40)]
pub fn free_candidate(dir: &str, name: &str, taken: &Vec<String>) -> (r: String)
    requires
        base_defined(name@),
        taken@.len() < u32::MAX,
    ensures
        exists|k: nat| #[trigger] first_free(dir@, name@, strings_view(taken@), k) && r@ == conflict_candidate(dir@, name@, k),
{
    let ghost tv = strings_view(taken@);
    let ext = file_ext(name);
    let base = base_name(name);
    let mut k: u32 = 0;
    loop
        invariant
            base@ == base_of(name@),
            ext@ == ext_of(name@),
            tv == strings_view(taken@),
            taken@.len() < u32::MAX,
            k <= taken@.len() + 1,
            forall|j: nat| j < k ==> tv.contains(#[trigger] conflict_candidate(dir@, name@, j)),
        decreases taken@.len() + 1 - k,
    {
        let c = candidate(dir, name, base.as_str(), ext.as_str(), k);
        if !holds_path(taken, c.as_str()) {
            assert(first_free(dir@, name@, tv, k as nat));
            return c;
        }
        proof {
            if k == taken@.len() + 1 {
                lemma_some_candidate_free(dir@, name@, tv);
                let w = choose|w: nat| 1 <= w <= tv.len() + 1 && !tv.contains(#[trigger] conflict_candidate(dir@, name@, w));
                if w < k {
                    assert(tv.contains(conflict_candidate(dir@, name@, w)));
                }
                assert(false);
            }
        }
        k += 1;
    }
}

/// Whether a file or folder exists at a path (`Path::exists`). It reads
/// the disk, so nothing is claimed of the answer.
#[verifier::external_body]
fn path_exists(path: &str) -> bool {
    std::path::Path::new(path).exists()
}

/// A free path for `name` in `dir`: `dir/name`, or else the first of
/// `dir/{base}_1{ext}`, `dir/{base}_2{ext}`, ... that does not exist yet.
/// Each candidate found on disk is added to the paths taken, and the next
/// is [`free_candidate`] of them; the disk's answers are not claimed, so
/// what is promised is that the answer is the first candidate not found.
#[verifier::spinoff_prover]
#[verifier::rlimit(40)]
pub fn resolve_conflict(dir: &str, name: &str) -> (r: String)
    requires
        base_defined(name@),
    ensures
        exists|found: Seq<Seq<char>>, k: nat| #[trigger] first_free(dir@, name@, found, k)
            && r@ == conflict_candidate(dir@, name@, k),
{
    let mut found: Vec<String> = Vec::new();
    let mut c = free_candidate(dir, name, &found);
    while found.len() < 0x7fff_fffe && path_exists(c.as_str())
        invariant
            base_defined(name@),
            found@.len() <= 0x7fff_fffe,
            exists|k: nat| #[trigger] first_free(dir@, name@, strings_view(found@), k) && c@ == conflict_candidate(dir@, name@, k),
        decreases 0x7fff_fffe - found@.len(),
    {
        found.push(c);
        c = free_candidate(dir, name, &found);
    }
    c
}

// ─── looking ids up in the manifest ───────────────────────────────────────

/// Index of the first entry whose id is written `t`.
pub open spec fn first_id_entry(m: Seq<ManifestEntryView>, t: Seq<char>, i: int) -> Option<int>
    decreases m.len() - i,
{
    if i < 0 || i >= m.len() {
        None
    } else if int_decimal(m[i].id as int) == t {
        Some(i)
    } else {
        first_id_entry(m, t, i + 1)
    }
}

/// Index of the last entry among the first `n` whose id is written `t`.
pub open spec fn last_id_entry(m: Seq<ManifestEntryView>, t: Seq<char>, n: int) -> Option<int>
    decreases n,
{
    if n <= 0 || n > m.len() {
        None
    } else if int_decimal(m[n - 1].id as int) == t {
        Some(n - 1)
    } else {
        last_id_entry(m, t, n - 1)
    }
}

fn id_written(e: &ManifestEntry, t: &Vec<char>) -> (r: bool)
    ensures
        r == (int_decimal(e.id as int) == t@),
{
    crate::text::chars_eq(&i16_decimal(e.id), t)
}

/// The first entry whose id is written `t`.
pub fn find_first_id(m: &Vec<ManifestEntry>, t: &Vec<char>) -> (r: Option<usize>)
    ensures
        match r {
            Some(i) => first_id_entry(manifest_view(m@), t@, 0) == Some(i as int) && i < m@.len(),
            None => first_id_entry(manifest_view(m@), t@, 0) is None,
        },
{
    let ghost mv = manifest_view(m@);
    let mut i: usize = 0;
    while i < m.len()
        invariant
            mv == manifest_view(m@),
            i <= m@.len(),
            first_id_entry(mv, t@, 0) == first_id_entry(mv, t@, i as int),
        decreases m@.len() - i,
    {
        if id_written(&m[i], t) {
            return Some(i);
        }
        i += 1;
    }
    None
}

/// The last entry whose id is written `t`.
pub fn find_last_id(m: &Vec<ManifestEntry>, t: &Vec<char>) -> (r: Option<usize>)
    ensures
        match r {
            Some(i) => last_id_entry(manifest_view(m@), t@, m@.len() as int) == Some(i as int) && i < m@.len(),
            None => last_id_entry(manifest_view(m@), t@, m@.len() as int) is None,
        },
{
    let ghost mv = manifest_view(m@);
    let mut n: usize = m.len();
    while n > 0
        invariant
            mv == manifest_view(m@),
            n <= m@.len(),
            last_id_entry(mv, t@, m@.len() as int) == last_id_entry(mv, t@, n as int),
        decreases n,
    {
        if id_written(&m[n - 1], t) {
            return Some(n - 1);
        }
        n -= 1;
    }
    None
}

} // verus!
