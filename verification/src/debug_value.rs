//! The live inspector's reading of a field's `{:?}` text into a small value
//! tree: numbers, booleans, strings, 2–4 element numeric vectors, lists and
//! nested structs, whatever the field's real type is. Type names around a
//! value (`Vector3 { .. }`, `Some(x)`) are dropped. A number is kept as its
//! text, which reads as an `f64`.
use vstd::prelude::*;
use crate::text::{
    chars_of, is_digit, trim, trim_bounds, trimmed, push_char, owned, lowercase, to_lowercase, alphabetic,
    is_alphabetic, str_eq,
};
use crate::inspector::{Parser, ws_end, ident_end, number_end, raw_end, unquote, lemma_scan_bounds, lemma_unquote_bounds};
use crate::prefab_types::strings_view;
use crate::json::{
    JsonValue, JsonView, json_of, json_items_view, json_members_view, lemma_json_items_view, lemma_json_members_view,
    items_shorter, members_shorter, parse_json, strings_shorter,
};

verus! {

// ─── the float grammar ─────────────────────────────────────────────────────

/// Where a run of ASCII digits starting at `i` ends.
pub open spec fn digits_end(s: Seq<char>, i: int) -> int
    decreases s.len() - i,
{
    if 0 <= i < s.len() && is_digit(s[i]) {
        digits_end(s, i + 1)
    } else {
        i
    }
}

/// `s` spells a word given in lowercase and in uppercase, each letter in
/// either case.
pub open spec fn spells(s: Seq<char>, lower: Seq<char>, upper: Seq<char>) -> bool {
    &&& s.len() == lower.len()
    &&& s.len() == upper.len()
    &&& forall|i: int| 0 <= i < s.len() ==> #[trigger] s[i] == lower[i] || s[i] == upper[i]
}

/// A decimal number: digits with at most one point among them and at least
/// one digit, then optionally `e` or `E`, an optional sign and digits.
pub open spec fn decimal_text(b: Seq<char>) -> bool {
    let i = digits_end(b, 0);
    let k = if i < b.len() && b[i] == '.' { digits_end(b, i + 1) } else { i };
    &&& (i > 0 || k > i + 1)
    &&& (k == b.len() || ((b[k] == 'e' || b[k] == 'E') && {
        let m = if k + 1 < b.len() && (b[k + 1] == '+' || b[k + 1] == '-') { k + 2 } else { k + 1 };
        digits_end(b, m) > m && digits_end(b, m) == b.len()
    }))
}

/// Text that `f64::from_str` accepts, by the grammar its documentation
/// gives: an optional sign, then `inf`, `infinity` or `nan` in any case, or
/// a decimal number.
pub open spec fn float_text(s: Seq<char>) -> bool {
    let b = if s.len() > 0 && (s[0] == '+' || s[0] == '-') { s.drop_first() } else { s };
    ||| spells(b, seq!['i', 'n', 'f'], seq!['I', 'N', 'F'])
    ||| spells(b, seq!['i', 'n', 'f', 'i', 'n', 'i', 't', 'y'], seq!['I', 'N', 'F', 'I', 'N', 'I', 'T', 'Y'])
    ||| spells(b, seq!['n', 'a', 'n'], seq!['N', 'A', 'N'])
    ||| decimal_text(b)
}

fn digits_end_at(v: &Vec<char>, i: usize) -> (r: usize)
    requires
        i <= v@.len(),
    ensures
        r == digits_end(v@, i as int),
        i <= r <= v@.len(),
{
    let mut j = i;
    while j < v.len() && '0' <= v[j] && v[j] <= '9'
        invariant
            i <= j <= v@.len(),
            digits_end(v@, i as int) == digits_end(v@, j as int),
        decreases v@.len() - j,
    {
        j += 1;
    }
    j
}

fn spells_word(b: &Vec<char>, lower: &Vec<char>, upper: &Vec<char>) -> (r: bool)
    ensures
        r == spells(b@, lower@, upper@),
{
    if b.len() != lower.len() || b.len() != upper.len() {
        return false;
    }
    let mut i: usize = 0;
    while i < b.len()
        invariant
            b@.len() == lower@.len(),
            b@.len() == upper@.len(),
            i <= b@.len(),
            forall|j: int| 0 <= j < i ==> #[trigger] b@[j] == lower@[j] || b@[j] == upper@[j],
        decreases b@.len() - i,
    {
        if !(b[i] == lower[i] || b[i] == upper[i]) {
            return false;
        }
        i += 1;
    }
    true
}

fn decimal(b: &Vec<char>) -> (r: bool)
    ensures
        r == decimal_text(b@),
{
    let i = digits_end_at(b, 0);
    let k = if i < b.len() && b[i] == '.' { digits_end_at(b, i + 1) } else { i };
    if !(i > 0 || k > i + 1) {
        return false;
    }
    if k == b.len() {
        return true;
    }
    if !(b[k] == 'e' || b[k] == 'E') {
        return false;
    }
    let m = if k + 1 < b.len() && (b[k + 1] == '+' || b[k + 1] == '-') { k + 2 } else { k + 1 };
    let e = digits_end_at(b, m);
    e > m && e == b.len()
}

/// Whether `text` reads as an `f64` (see [`float_text`]).
pub fn reads_as_float(text: &str) -> (r: bool)
    ensures
        r == float_text(text@),
{
    let v = chars_of(text);
    let signed = v.len() > 0 && (v[0] == '+' || v[0] == '-');
    let mut b: Vec<char> = Vec::new();
    let mut i: usize = if signed { 1 } else { 0 };
    let start = i;
    while i < v.len()
        invariant
            start <= i <= v@.len(),
            b@ == v@.subrange(start as int, i as int),
        decreases v@.len() - i,
    {
        b.push(v[i]);
        assert(v@.subrange(start as int, i + 1) =~= v@.subrange(start as int, i as int).push(v@[i as int]));
        i += 1;
    }
    proof {
        if signed {
            assert(b@ =~= text@.drop_first());
        } else {
            assert(b@ =~= text@);
        }
    }
    spells_word(&b, &vec!['i', 'n', 'f'], &vec!['I', 'N', 'F'])
        || spells_word(&b, &vec!['i', 'n', 'f', 'i', 'n', 'i', 't', 'y'], &vec!['I', 'N', 'F', 'I', 'N', 'I', 'T', 'Y'])
        || spells_word(&b, &vec!['n', 'a', 'n'], &vec!['N', 'A', 'N']) || decimal(&b)
}

// ─── `"(x, y, z)"` strings ─────────────────────────────────────────────────

/// The pieces of `s` between commas, the current piece `cur` and the
/// pieces `done` already cut being carried along (`str::split(',')`).
pub open spec fn split_from(s: Seq<char>, cur: Seq<char>, done: Seq<Seq<char>>) -> Seq<Seq<char>>
    decreases s.len(),
{
    if s.len() == 0 {
        done.push(cur)
    } else if s[0] == ',' {
        split_from(s.drop_first(), Seq::empty(), done.push(cur))
    } else {
        split_from(s.drop_first(), cur.push(s[0]), done)
    }
}

/// The pieces of `s` between commas.
pub open spec fn split_commas(s: Seq<char>) -> Seq<Seq<char>> {
    split_from(s, Seq::empty(), Seq::empty())
}

/// The numbers of a `"(x, y, z)"` string: the trimmed text in parentheses,
/// not blank, cut at commas into 2 to 4 pieces that each read, trimmed, as
/// an `f64`.
pub open spec fn tuple_numbers(s: Seq<char>) -> Option<Seq<Seq<char>>> {
    let t = trim(s);
    if t.len() >= 2 && t[0] == '(' && t[t.len() - 1] == ')' && trim(t.subrange(1, t.len() - 1)).len() > 0 {
        let parts = split_commas(t.subrange(1, t.len() - 1)).map_values(|p: Seq<char>| trim(p));
        if 2 <= parts.len() <= 4 && forall|i: int| 0 <= i < parts.len() ==> float_text(#[trigger] parts[i]) {
            Some(parts)
        } else {
            None
        }
    } else {
        None
    }
}

fn split_range(v: &Vec<char>, from: usize, to: usize) -> (r: Vec<String>)
    requires
        from <= to <= v@.len(),
    ensures
        strings_view(r@) == split_commas(v@.subrange(from as int, to as int)),
{
    let ghost s = v@.subrange(from as int, to as int);
    let mut done: Vec<String> = Vec::new();
    let mut cur = String::new();
    let mut i = from;
    proof {
        assert(s.skip(0) =~= s);
        assert(strings_view(done@) =~= Seq::<Seq<char>>::empty());
    }
    while i < to
        invariant
            from <= i <= to <= v@.len(),
            s == v@.subrange(from as int, to as int),
            split_commas(s) == split_from(s.skip(i - from), cur@, strings_view(done@)),
        decreases to - i,
    {
        let ghost rest = s.skip(i - from);
        proof {
            assert(rest[0] == v@[i as int]);
            assert(rest.drop_first() =~= s.skip(i + 1 - from));
        }
        if v[i] == ',' {
            let piece = cur;
            cur = String::new();
            let ghost before = strings_view(done@);
            done.push(piece);
            proof {
                assert(strings_view(done@) =~= before.push(piece@));
            }
        } else {
            push_char(&mut cur, v[i]);
        }
        i += 1;
    }
    proof {
        assert(s.skip(to - from) =~= Seq::<char>::empty());
    }
    let ghost before = strings_view(done@);
    let last = cur;
    done.push(last);
    proof {
        assert(strings_view(done@) =~= before.push(last@));
    }
    done
}

/// The numbers of a `"(x, y, z)"` string, as their texts (see
/// [`tuple_numbers`]).
pub fn parse_tuple_string(s: &str) -> (r: Option<Vec<String>>)
    ensures
        r matches Some(v) ==> tuple_numbers(s@) == Some(strings_view(v@)),
        r is None ==> tuple_numbers(s@) is None,
{
    let t = chars_of(trimmed(s).as_str());
    let n = t.len();
    if n < 2 || t[0] != '(' || t[n - 1] != ')' {
        return None;
    }
    let (a, b) = trim_bounds(&t, 1, n - 1);
    if a == b {
        return None;
    }
    let pieces = split_range(&t, 1, n - 1);
    let ghost parts = split_commas(t@.subrange(1, n - 1)).map_values(|p: Seq<char>| trim(p));
    if pieces.len() < 2 || pieces.len() > 4 {
        return None;
    }
    proof {
        assert forall|j: int| 0 <= j < pieces@.len() implies #[trigger] parts[j] == trim(pieces@[j]@) by {
            assert(strings_view(pieces@)[j] == pieces@[j]@);
        }
    }
    assert(tuple_numbers(s@) == (if forall|j: int| 0 <= j < parts.len() ==> float_text(#[trigger] parts[j]) {
        Some(parts)
    } else {
        None::<Seq<Seq<char>>>
    }));
    let mut out: Vec<String> = Vec::new();
    let mut i: usize = 0;
    while i < pieces.len()
        invariant
            i <= pieces@.len(),
            parts.len() == pieces@.len(),
            forall|j: int| 0 <= j < pieces@.len() ==> #[trigger] parts[j] == trim(pieces@[j]@),
            strings_view(out@) == parts.take(i as int),
            forall|j: int| 0 <= j < i ==> float_text(#[trigger] parts[j]),
            tuple_numbers(s@) == (if forall|j: int| 0 <= j < parts.len() ==> float_text(#[trigger] parts[j]) {
                Some(parts)
            } else {
                None::<Seq<Seq<char>>>
            }),
        decreases pieces@.len() - i,
    {
        let p = trimmed(pieces[i].as_str());
        if !reads_as_float(p.as_str()) {
            assert(!float_text(parts[i as int]));
            return None;
        }
        let ghost before = strings_view(out@);
        out.push(p);
        proof {
            assert(strings_view(out@) =~= before.push(p@));
            assert(parts.take(i + 1) =~= parts.take(i as int).push(parts[i as int]));
        }
        i += 1;
    }
    proof {
        assert(parts.take(i as int) =~= parts);
    }
    Some(out)
}

// ─── values ────────────────────────────────────────────────────────────────

/// A value read from a field's text.
#[derive(Debug, PartialEq)]
pub enum DebugValue {
    Null,
    Bool(bool),
    /// a number, as its text
    Number(String),
    Str(String),
    /// 2 to 4 numbers; `true` when they came from `r`, `g`, `b`(, `a`)
    /// fields, a colour
    Vector(Vec<String>, bool),
    List(Vec<DebugValue>),
    /// named fields, in their order
    Fields(Vec<(String, DebugValue)>),
    /// text that fits no other shape
    Raw(String),
}

/// Mathematical model of a value.
pub enum ValueView {
    Null,
    Bool(bool),
    Number(Seq<char>),
    Str(Seq<char>),
    Vector(Seq<Seq<char>>, bool),
    List(Seq<ValueView>),
    Fields(Seq<(Seq<char>, ValueView)>),
    Raw(Seq<char>),
}

/// Model of a value.
pub open spec fn value_view(v: DebugValue) -> ValueView
    decreases v,
{
    match v {
        DebugValue::Null => ValueView::Null,
        DebugValue::Bool(b) => ValueView::Bool(b),
        DebugValue::Number(t) => ValueView::Number(t@),
        DebugValue::Str(t) => ValueView::Str(t@),
        DebugValue::Vector(nums, c) => ValueView::Vector(strings_view(nums@), c),
        DebugValue::List(items) => ValueView::List(values_view(items@)),
        DebugValue::Fields(fields) => ValueView::Fields(fields_view(fields@)),
        DebugValue::Raw(t) => ValueView::Raw(t@),
    }
}

/// Models of a sequence of values.
pub open spec fn values_view(s: Seq<DebugValue>) -> Seq<ValueView>
    decreases s,
{
    if s.len() == 0 {
        Seq::empty()
    } else {
        values_view(s.drop_last()).push(value_view(s.last()))
    }
}

/// Models of a sequence of named fields.
pub open spec fn fields_view(s: Seq<(String, DebugValue)>) -> Seq<(Seq<char>, ValueView)>
    decreases s,
{
    if s.len() == 0 {
        Seq::empty()
    } else {
        fields_view(s.drop_last()).push((s.last().0@, value_view(s.last().1)))
    }
}

impl View for DebugValue {
    type V = ValueView;

    open spec fn view(&self) -> ValueView {
        value_view(*self)
    }
}

/// `values_view` is taken element by element.
pub broadcast proof fn lemma_values_view(s: Seq<DebugValue>)
    ensures
        #[trigger] values_view(s).len() == s.len(),
        forall|i: int| 0 <= i < s.len() ==> #[trigger] values_view(s)[i] == s[i]@,
    decreases s.len(),
{
    if s.len() > 0 {
        lemma_values_view(s.drop_last());
    }
}

/// `fields_view` is taken element by element.
pub broadcast proof fn lemma_fields_view(s: Seq<(String, DebugValue)>)
    ensures
        #[trigger] fields_view(s).len() == s.len(),
        forall|i: int| 0 <= i < s.len() ==> #[trigger] fields_view(s)[i] == (s[i].0@, s[i].1@),
    decreases s.len(),
{
    if s.len() > 0 {
        lemma_fields_view(s.drop_last());
    }
}

/// The text of a number (empty for anything else).
pub open spec fn number_of(v: ValueView) -> Seq<char> {
    match v {
        ValueView::Number(t) => t,
        _ => Seq::empty(),
    }
}

/// The numbers of a list of 2 to 4 numbers.
pub open spec fn items_vector(items: Seq<ValueView>) -> Option<Seq<Seq<char>>> {
    if 2 <= items.len() <= 4 && forall|i: int| 0 <= i < items.len() ==> #[trigger] items[i] is Number {
        Some(items.map_values(|v: ValueView| number_of(v)))
    } else {
        None
    }
}

/// What a bracketed or parenthesised sequence reads as: a vector when it
/// holds 2 to 4 numbers, its only item when it holds one (`Some(x)` is
/// `x`), else a list.
pub open spec fn sequence_of(items: Seq<ValueView>) -> ValueView {
    match items_vector(items) {
        Some(nums) => ValueView::Vector(nums, false),
        None => if items.len() == 1 {
            items[0]
        } else {
            ValueView::List(items)
        },
    }
}

/// A wrapper around one value (`Some(x)`, `Ok(x)`, a one-field tuple
/// struct) reads as the value itself.
pub proof fn lemma_single_item_unwrapped(v: ValueView)
    ensures
        sequence_of(seq![v]) == v,
{
}

/// The keys are the one-letter names `names`, in order.
pub open spec fn keys_are(keys: Seq<Seq<char>>, names: Seq<char>) -> bool {
    keys.len() == names.len() && forall|i: int| 0 <= i < keys.len() ==> #[trigger] keys[i] == seq![names[i]]
}

/// The numbers of named fields `x, y(, z(, w))` or `r, g, b(, a)` (keys in
/// any case) that all hold numbers, and whether they are a colour.
pub open spec fn fields_vector(fields: Seq<(Seq<char>, ValueView)>) -> Option<(Seq<Seq<char>>, bool)> {
    let keys = fields.map_values(|f: (Seq<char>, ValueView)| lowercase(f.0));
    let is_axis = keys_are(keys, seq!['x', 'y']) || keys_are(keys, seq!['x', 'y', 'z'])
        || keys_are(keys, seq!['x', 'y', 'z', 'w']);
    let is_color = keys_are(keys, seq!['r', 'g', 'b']) || keys_are(keys, seq!['r', 'g', 'b', 'a']);
    if (is_axis || is_color) && forall|i: int| 0 <= i < fields.len() ==> #[trigger] fields[i].1 is Number {
        Some((fields.map_values(|f: (Seq<char>, ValueView)| number_of(f.1)), is_color))
    } else {
        None
    }
}

/// What a braced list of fields reads as: a vector or colour (see
/// [`fields_vector`]), else the fields themselves.
pub open spec fn braced_of(fields: Seq<(Seq<char>, ValueView)>) -> ValueView {
    match fields_vector(fields) {
        Some((nums, is_color)) => ValueView::Vector(nums, is_color),
        None => ValueView::Fields(fields),
    }
}


fn number_texts(items: &Vec<DebugValue>) -> (r: Option<Vec<String>>)
    ensures
        r matches Some(v) ==> (forall|i: int| 0 <= i < items@.len() ==> #[trigger] items@[i]@ is Number)
            && strings_view(v@) == values_view(items@).map_values(|v: ValueView| number_of(v)),
        r is None ==> exists|i: int| 0 <= i < items@.len() && !(#[trigger] items@[i]@ is Number),
{
    let ghost want = values_view(items@).map_values(|v: ValueView| number_of(v));
    proof {
        lemma_values_view(items@);
    }
    let mut out: Vec<String> = Vec::new();
    let mut i: usize = 0;
    while i < items.len()
        invariant
            i <= items@.len(),
            want.len() == items@.len(),
            forall|j: int| 0 <= j < items@.len() ==> #[trigger] want[j] == number_of(items@[j]@),
            forall|j: int| 0 <= j < i ==> #[trigger] items@[j]@ is Number,
            strings_view(out@) == want.take(i as int),
        decreases items@.len() - i,
    {
        match &items[i] {
            DebugValue::Number(t) => {
                let ghost before = strings_view(out@);
                out.push(owned(t.as_str()));
                proof {
                    assert(strings_view(out@) =~= before.push(t@));
                    assert(want[i as int] == t@);
                    assert(want.take(i + 1) =~= before.push(t@));
                }
            },
            _ => {
                assert(!(items@[i as int]@ is Number));
                return None;
            },
        }
        i += 1;
    }
    proof {
        assert(want.take(i as int) =~= want);
    }
    Some(out)
}

/// Reads a bracketed or parenthesised sequence (see [`sequence_of`]).
pub fn finish_sequence(items: Vec<DebugValue>) -> (r: DebugValue)
    ensures
        r@ == sequence_of(values_view(items@)),
{
    broadcast use lemma_values_view;
    let ghost vv = values_view(items@);
    let n = items.len();
    if 2 <= n && n <= 4 {
        match number_texts(&items) {
            Some(nums) => {
                proof {
                    assert forall|i: int| 0 <= i < vv.len() implies #[trigger] vv[i] is Number by {
                        assert(vv[i] == items@[i]@);
                    }
                }
                return DebugValue::Vector(nums, false);
            },
            None => {
                proof {
                    let i = choose|i: int| 0 <= i < items@.len() && !(#[trigger] items@[i]@ is Number);
                    assert(vv[i] == items@[i]@);
                    assert(items_vector(vv) is None);
                }
            },
        }
    }
    if n == 1 {
        let mut items = items;
        let only = items.pop();
        match only {
            Some(v) => v,
            None => DebugValue::List(items),
        }
    } else {
        DebugValue::List(items)
    }
}

/// What the items of a JSON array read as: a vector when they are 2 to 4
/// numbers, else a list (one item stays a list).
pub open spec fn array_of(items: Seq<ValueView>) -> ValueView {
    match items_vector(items) {
        Some(nums) => ValueView::Vector(nums, false),
        None => ValueView::List(items),
    }
}

/// Reads the items of a JSON array (see [`array_of`]).
pub fn vector_or_list(items: Vec<DebugValue>) -> (r: DebugValue)
    ensures
        r@ == array_of(values_view(items@)),
{
    broadcast use lemma_values_view;
    let ghost vv = values_view(items@);
    let n = items.len();
    if 2 <= n && n <= 4 {
        match number_texts(&items) {
            Some(nums) => {
                proof {
                    assert forall|i: int| 0 <= i < vv.len() implies #[trigger] vv[i] is Number by {
                        assert(vv[i] == items@[i]@);
                    }
                }
                return DebugValue::Vector(nums, false);
            },
            None => {
                proof {
                    let i = choose|i: int| 0 <= i < items@.len() && !(#[trigger] items@[i]@ is Number);
                    assert(vv[i] == items@[i]@);
                    assert(items_vector(vv) is None);
                }
            },
        }
    }
    DebugValue::List(items)
}

fn single_letter(key: &String, name: char) -> (r: bool)
    ensures
        r == (key@ == seq![name]),
{
    let v = chars_of(key.as_str());
    if v.len() == 1 && v[0] == name {
        assert(v@ =~= seq![name]);
        true
    } else {
        false
    }
}

fn keys_match(keys: &Vec<String>, names: &Vec<char>) -> (r: bool)
    ensures
        r == keys_are(strings_view(keys@), names@),
{
    if keys.len() != names.len() {
        return false;
    }
    let mut i: usize = 0;
    while i < keys.len()
        invariant
            keys@.len() == names@.len(),
            i <= keys@.len(),
            forall|j: int| 0 <= j < i ==> #[trigger] strings_view(keys@)[j] == seq![names@[j]],
        decreases keys@.len() - i,
    {
        if !single_letter(&keys[i], names[i]) {
            assert(strings_view(keys@)[i as int] != seq![names@[i as int]]);
            return false;
        }
        i += 1;
    }
    true
}

/// Reads a braced list of fields (see [`braced_of`]).
#[verifier::spinoff_prover]
#[verifier::rlimit(40)]
pub fn finish_braced(fields: Vec<(String, DebugValue)>) -> (r: DebugValue)
    ensures
        r@ == braced_of(fields_view(fields@)),
{
    let ghost fv = fields_view(fields@);
    let ghost kv = fv.map_values(|f: (Seq<char>, ValueView)| lowercase(f.0));
    proof {
        lemma_fields_view(fields@);
    }
    let mut keys: Vec<String> = Vec::new();
    let mut i: usize = 0;
    while i < fields.len()
        invariant
            i <= fields@.len(),
            fv == fields_view(fields@),
            kv == fv.map_values(|f: (Seq<char>, ValueView)| lowercase(f.0)),
            fv.len() == fields@.len(),
            kv.len() == fields@.len(),
            forall|m: int| 0 <= m < fields@.len() ==> #[trigger] kv[m] == lowercase(fields@[m].0@),
            strings_view(keys@) == kv.take(i as int),
        decreases fields@.len() - i,
    {
        let k = to_lowercase(fields[i].0.as_str());
        let ghost before = strings_view(keys@);
        keys.push(k);
        proof {
            assert(strings_view(keys@) =~= before.push(k@));
            assert(kv.take(i + 1) =~= before.push(k@));
        }
        i += 1;
    }
    proof {
        assert(kv.take(i as int) =~= kv);
    }
    let is_axis = keys_match(&keys, &vec!['x', 'y']) || keys_match(&keys, &vec!['x', 'y', 'z'])
        || keys_match(&keys, &vec!['x', 'y', 'z', 'w']);
    let is_color = keys_match(&keys, &vec!['r', 'g', 'b']) || keys_match(&keys, &vec!['r', 'g', 'b', 'a']);
    if !is_axis && !is_color {
        return DebugValue::Fields(fields);
    }
    let ghost nv = fv.map_values(|f: (Seq<char>, ValueView)| number_of(f.1));
    let mut nums: Vec<String> = Vec::new();
    let mut j: usize = 0;
    while j < fields.len()
        invariant
            j <= fields@.len(),
            fv == fields_view(fields@),
            nv == fv.map_values(|f: (Seq<char>, ValueView)| number_of(f.1)),
            is_axis || is_color,
            is_axis == (keys_are(kv, seq!['x', 'y']) || keys_are(kv, seq!['x', 'y', 'z'])
                || keys_are(kv, seq!['x', 'y', 'z', 'w'])),
            is_color == (keys_are(kv, seq!['r', 'g', 'b']) || keys_are(kv, seq!['r', 'g', 'b', 'a'])),
            kv == fv.map_values(|f: (Seq<char>, ValueView)| lowercase(f.0)),
            fv.len() == fields@.len(),
            nv.len() == fields@.len(),
            forall|m: int| 0 <= m < fields@.len() ==> #[trigger] fv[m] == (fields@[m].0@, fields@[m].1@),
            forall|m: int| 0 <= m < fields@.len() ==> #[trigger] nv[m] == number_of(fields@[m].1@),
            forall|m: int| 0 <= m < j ==> #[trigger] fv[m].1 is Number,
            strings_view(nums@) == nv.take(j as int),
        decreases fields@.len() - j,
    {
        match &fields[j].1 {
            DebugValue::Number(t) => {
                let ghost before = strings_view(nums@);
                nums.push(owned(t.as_str()));
                proof {
                    assert(strings_view(nums@) =~= before.push(t@));
                    assert(nv[j as int] == t@);
                    assert(nv.take(j + 1) =~= before.push(t@));
                }
            },
            _ => {
                assert(!(fv[j as int].1 is Number));
                return DebugValue::Fields(fields);
            },
        }
        j += 1;
    }
    proof {
        assert(nv.take(j as int) =~= nv);
    }
    DebugValue::Vector(nums, is_color)
}

// ─── quoted strings ────────────────────────────────────────────────────────

/// What a quoted string reads as: the numbers of a `"(x, y, z)"` string;
/// else, when the text is a JSON array or object, the value it holds (see
/// [`json_read`]); else the string.
pub open spec fn quoted_of(text: Seq<char>) -> ValueView
    decreases text.len(), 1int, text, 0int,
{
    match tuple_numbers(text) {
        Some(nums) => ValueView::Vector(nums, false),
        None => match json_of(text) {
            Some(JsonView::Array(items)) => array_of(json_items_read(items, text.len())),
            Some(JsonView::Object(members)) => braced_of(json_members_read(members, text.len())),
            _ => ValueView::Str(text),
        },
    }
}

/// What a JSON value found in a text of `n` characters reads as: `null`,
/// booleans and numbers as themselves, a string read again as a quoted
/// string (see [`quoted_of`]), an array as by [`array_of`] and an object as
/// by [`braced_of`]. (A string inside is always shorter than the text.)
pub open spec fn json_read(j: JsonView, n: nat) -> ValueView
    decreases n, 0int, j, 0int,
{
    match j {
        JsonView::Null => ValueView::Null,
        JsonView::Bool(b) => ValueView::Bool(b),
        JsonView::Number(t) => ValueView::Number(t),
        JsonView::Str(s) => if s.len() < n {
            quoted_of(s)
        } else {
            ValueView::Str(s)
        },
        JsonView::Array(items) => array_of(json_items_read(items, n)),
        JsonView::Object(members) => braced_of(json_members_read(members, n)),
    }
}

/// [`json_read`] of each item.
pub open spec fn json_items_read(items: Seq<JsonView>, n: nat) -> Seq<ValueView>
    decreases n, 0int, items, 1int,
{
    if items.len() == 0 {
        Seq::empty()
    } else {
        json_items_read(items.drop_last(), n).push(json_read(items.last(), n))
    }
}

/// Each member's key with [`json_read`] of its value.
pub open spec fn json_members_read(members: Seq<(Seq<char>, JsonView)>, n: nat) -> Seq<(Seq<char>, ValueView)>
    decreases n, 0int, members, 1int,
{
    if members.len() == 0 {
        Seq::empty()
    } else {
        json_members_read(members.drop_last(), n).push((members.last().0, json_read(members.last().1, n)))
    }
}

proof fn lemma_json_items_read(items: Seq<JsonView>, n: nat)
    ensures
        json_items_read(items, n).len() == items.len(),
        forall|i: int| 0 <= i < items.len() ==> #[trigger] json_items_read(items, n)[i] == json_read(items[i], n),
    decreases items.len(),
{
    if items.len() > 0 {
        lemma_json_items_read(items.drop_last(), n);
    }
}

proof fn lemma_json_members_read(members: Seq<(Seq<char>, JsonView)>, n: nat)
    ensures
        json_members_read(members, n).len() == members.len(),
        forall|i: int| 0 <= i < members.len() ==> #[trigger] json_members_read(members, n)[i]
            == (members[i].0, json_read(members[i].1, n)),
    decreases members.len(),
{
    if members.len() > 0 {
        lemma_json_members_read(members.drop_last(), n);
    }
}

proof fn lemma_items_shorter(items: Seq<JsonView>, n: nat)
    requires
        items_shorter(items, n),
    ensures
        forall|i: int| 0 <= i < items.len() ==> strings_shorter(#[trigger] items[i], n),
    decreases items.len(),
{
    if items.len() > 0 {
        lemma_items_shorter(items.drop_last(), n);
        assert forall|i: int| 0 <= i < items.len() implies strings_shorter(#[trigger] items[i], n) by {
            if i < items.len() - 1 {
                assert(items[i] == items.drop_last()[i]);
            }
        }
    }
}

proof fn lemma_members_shorter(members: Seq<(Seq<char>, JsonView)>, n: nat)
    requires
        members_shorter(members, n),
    ensures
        forall|i: int| 0 <= i < members.len() ==> strings_shorter(#[trigger] members[i].1, n),
    decreases members.len(),
{
    if members.len() > 0 {
        lemma_members_shorter(members.drop_last(), n);
        assert forall|i: int| 0 <= i < members.len() implies strings_shorter(#[trigger] members[i].1, n) by {
            if i < members.len() - 1 {
                assert(members[i] == members.drop_last()[i]);
            }
        }
    }
}

/// Reads a quoted string's text (see [`quoted_of`]).
pub fn refine_text(text: String) -> (r: DebugValue)
    ensures
        r@ == quoted_of(text@),
    decreases text@.len(), 1int, text@, 0int,
{
    match parse_tuple_string(text.as_str()) {
        Some(nums) => {
            return DebugValue::Vector(nums, false);
        },
        None => {},
    }
    let ghost n = text@.len();
    match parse_json(text.as_str()) {
        Some(JsonValue::Array(items)) => {
            proof {
                assert(strings_shorter(JsonView::Array(json_items_view(items@)), n));
            }
            let values = read_json_items(&items, Ghost(n));
            vector_or_list(values)
        },
        Some(JsonValue::Object(members)) => {
            proof {
                assert(strings_shorter(JsonView::Object(json_members_view(members@)), n));
            }
            let fields = read_json_members(&members, Ghost(n));
            finish_braced(fields)
        },
        _ => DebugValue::Str(text),
    }
}

/// Reads a JSON value found in a text of `n` characters (see [`json_read`]).
fn read_json(j: &JsonValue, Ghost(n): Ghost<nat>) -> (r: DebugValue)
    requires
        strings_shorter(j@, n),
    ensures
        r@ == json_read(j@, n),
    decreases n, 0int, j@, 0int,
{
    match j {
        JsonValue::Null => DebugValue::Null,
        JsonValue::Bool(b) => DebugValue::Bool(*b),
        JsonValue::Number(t) => DebugValue::Number(owned(t.as_str())),
        JsonValue::Str(s) => refine_text(owned(s.as_str())),
        JsonValue::Array(items) => {
            let values = read_json_items(items, Ghost(n));
            vector_or_list(values)
        },
        JsonValue::Object(members) => {
            let fields = read_json_members(members, Ghost(n));
            finish_braced(fields)
        },
    }
}

/// Reads the items of a JSON array (see [`json_items_read`]).
fn read_json_items(items: &Vec<JsonValue>, Ghost(n): Ghost<nat>) -> (r: Vec<DebugValue>)
    requires
        items_shorter(json_items_view(items@), n),
    ensures
        values_view(r@) == json_items_read(json_items_view(items@), n),
    decreases n, 0int, json_items_view(items@), 1int,
{
    broadcast use lemma_values_view, lemma_json_items_view;
    let ghost iv = json_items_view(items@);
    proof {
        lemma_items_shorter(iv, n);
        lemma_json_items_read(iv, n);
    }
    let mut out: Vec<DebugValue> = Vec::new();
    let mut i: usize = 0;
    while i < items.len()
        invariant
            i <= items@.len(),
            iv == json_items_view(items@),
            iv.len() == items@.len(),
            forall|k: int| 0 <= k < iv.len() ==> strings_shorter(#[trigger] iv[k], n),
            forall|k: int| 0 <= k < iv.len() ==> #[trigger] json_items_read(iv, n)[k] == json_read(iv[k], n),
            json_items_read(iv, n).len() == iv.len(),
            values_view(out@) == json_items_read(iv, n).take(i as int),
        decreases items@.len() - i,
    {
        proof {
            lemma_json_items_view(items@);
        }
        assert(json_items_view(items@)[i as int] == items@[i as int]@);
        assert(iv[i as int] == items@[i as int]@);
        let v = read_json(&items[i], Ghost(n));
        let ghost before = out@;
        out.push(v);
        proof {
            lemma_values_view_push(before, v);
            assert(json_items_read(iv, n).take(i + 1) =~= json_items_read(iv, n).take(i as int).push(v@));
        }
        i += 1;
    }
    proof {
        assert(json_items_read(iv, n).take(i as int) =~= json_items_read(iv, n));
    }
    out
}

/// Reads the members of a JSON object (see [`json_members_read`]).
fn read_json_members(members: &Vec<(String, JsonValue)>, Ghost(n): Ghost<nat>) -> (r: Vec<(String, DebugValue)>)
    requires
        members_shorter(json_members_view(members@), n),
    ensures
        fields_view(r@) == json_members_read(json_members_view(members@), n),
    decreases n, 0int, json_members_view(members@), 1int,
{
    broadcast use lemma_fields_view, lemma_json_members_view;
    let ghost mv = json_members_view(members@);
    proof {
        lemma_members_shorter(mv, n);
        lemma_json_members_read(mv, n);
    }
    let mut out: Vec<(String, DebugValue)> = Vec::new();
    let mut i: usize = 0;
    while i < members.len()
        invariant
            i <= members@.len(),
            mv == json_members_view(members@),
            mv.len() == members@.len(),
            forall|k: int| 0 <= k < mv.len() ==> strings_shorter(#[trigger] mv[k].1, n),
            forall|k: int| 0 <= k < mv.len() ==> #[trigger] json_members_read(mv, n)[k] == (mv[k].0, json_read(mv[k].1, n)),
            json_members_read(mv, n).len() == mv.len(),
            fields_view(out@) == json_members_read(mv, n).take(i as int),
        decreases members@.len() - i,
    {
        proof {
            lemma_json_members_view(members@);
        }
        assert(json_members_view(members@)[i as int] == (members@[i as int].0@, members@[i as int].1@));
        assert(mv[i as int] == (members@[i as int].0@, members@[i as int].1@));
        assert(decreases_to!(mv => mv[i as int]));
        assert(decreases_to!(mv[i as int] => mv[i as int].1));
        let v = read_json(&members[i].1, Ghost(n));
        let f = (owned(members[i].0.as_str()), v);
        let ghost before = out@;
        out.push(f);
        proof {
            lemma_fields_view_push(before, f);
            assert(json_members_read(mv, n).take(i + 1) =~= json_members_read(mv, n).take(i as int).push((f.0@, v@)));
        }
        i += 1;
    }
    proof {
        assert(json_members_read(mv, n).take(i as int) =~= json_members_read(mv, n));
    }
    out
}

// ─── reading the text ──────────────────────────────────────────────────────

/// What a word that no bracket follows reads as: `true`, `false`, `None`,
/// a number such as `inf` or `NaN`, or raw text.
pub open spec fn word_of(ident: Seq<char>) -> ValueView {
    if ident == seq!['t', 'r', 'u', 'e'] {
        ValueView::Bool(true)
    } else if ident == seq!['f', 'a', 'l', 's', 'e'] {
        ValueView::Bool(false)
    } else if ident == seq!['N', 'o', 'n', 'e'] {
        ValueView::Null
    } else if float_text(ident) {
        ValueView::Number(ident)
    } else {
        ValueView::Raw(ident)
    }
}

/// A character that starts a number token.
pub open spec fn starts_number(c: char) -> bool {
    is_digit(c) || c == '-' || c == '+'
}

/// The value read from `s` at `p`, and where reading stops. After
/// whitespace: a quoted string, a bracketed, braced or parenthesised
/// sequence, a number token, a word (with what brackets follow it), or raw
/// text up to the next separator.
pub open spec fn value_at(s: Seq<char>, p: int) -> (ValueView, int)
    decreases s.len() - p, 2int,
{
    if p < 0 || p > s.len() {
        (ValueView::Raw(Seq::empty()), p)
    } else {
        proof {
            lemma_scan_bounds(s, p);
        }
        let q = ws_end(s, p);
        if q == s.len() {
            (ValueView::Raw(Seq::empty()), q)
        } else {
            proof {
                lemma_scan_bounds(s, q);
            }
            let c = s[q];
            if c == '"' {
                let t = unquote(s, q + 1, Seq::empty());
                (quoted_of(t.0), t.1)
            } else if c == '[' {
                let x = items_at(s, q + 1, ']', Seq::empty());
                (sequence_of(x.0), x.1)
            } else if c == '{' {
                braced_at(s, q)
            } else if c == '(' {
                let x = items_at(s, q + 1, ')', Seq::empty());
                (sequence_of(x.0), x.1)
            } else if starts_number(c) {
                let e = number_end(s, q);
                let text = s.subrange(q, e);
                (if float_text(text) { ValueView::Number(text) } else { ValueView::Raw(text) }, e)
            } else if alphabetic(c) || c == '_' {
                word_led_at(s, q)
            } else {
                let e = raw_end(s, q);
                (ValueView::Raw(trim(s.subrange(q, e))), e)
            }
        }
    }
}

/// A word at `q`: the name before a bracketed, braced or parenthesised
/// value is dropped; a word alone reads by [`word_of`].
pub open spec fn word_led_at(s: Seq<char>, q: int) -> (ValueView, int)
    decreases s.len() - q, 1int,
{
    if q < 0 || q > s.len() {
        (ValueView::Raw(Seq::empty()), q)
    } else {
        proof {
            lemma_scan_bounds(s, q);
        }
        let e = ident_end(s, q);
        proof {
            lemma_scan_bounds(s, e);
        }
        let r = ws_end(s, e);
        if r < s.len() && s[r] == '(' {
            let x = items_at(s, r + 1, ')', Seq::empty());
            (sequence_of(x.0), x.1)
        } else if r < s.len() && s[r] == '{' {
            braced_at(s, r)
        } else if r < s.len() && s[r] == '[' {
            let x = items_at(s, r + 1, ']', Seq::empty());
            (sequence_of(x.0), x.1)
        } else {
            (word_of(s.subrange(q, e)), r)
        }
    }
}

/// The braced fields whose `{` is at `p`.
pub open spec fn braced_at(s: Seq<char>, p: int) -> (ValueView, int)
    decreases s.len() - p, 0int,
{
    if p < 0 || p >= s.len() {
        (braced_of(Seq::empty()), p)
    } else {
        let x = fields_at(s, p + 1, Seq::empty());
        (braced_of(x.0), x.1)
    }
}

/// The fields `key: value` read from `p` on, after `acc`, up to `}`, the
/// end, or anything but a comma after a value. A key is a quoted string or
/// a word; the colon may be missing.
pub open spec fn fields_at(s: Seq<char>, p: int, acc: Seq<(Seq<char>, ValueView)>) -> (
    Seq<(Seq<char>, ValueView)>,
    int,
)
    decreases s.len() - p, 3int,
{
    if p < 0 || p > s.len() {
        (acc, p)
    } else {
        proof {
            lemma_scan_bounds(s, p);
        }
        let q = ws_end(s, p);
        if q == s.len() {
            (acc, q)
        } else if s[q] == '}' {
            (acc, q + 1)
        } else {
            proof {
                lemma_scan_bounds(s, q);
                lemma_unquote_bounds(s, q + 1, Seq::empty());
            }
            let key: (Seq<char>, int) = if s[q] == '"' {
                unquote(s, q + 1, Seq::empty())
            } else {
                (s.subrange(q, ident_end(s, q)), ident_end(s, q))
            };
            proof {
                lemma_scan_bounds(s, key.1);
            }
            let r0 = ws_end(s, key.1);
            let vstart = if r0 < s.len() && s[r0] == ':' { r0 + 1 } else { r0 };
            let v = value_at(s, vstart);
            let acc2 = acc.push((key.0, v.0));
            if v.1 < vstart || v.1 > s.len() {
                (acc2, v.1)
            } else {
                proof {
                    lemma_scan_bounds(s, v.1);
                }
                let r = ws_end(s, v.1);
                if r < s.len() && s[r] == ',' {
                    fields_at(s, r + 1, acc2)
                } else if r < s.len() && s[r] == '}' {
                    (acc2, r + 1)
                } else {
                    (acc2, r)
                }
            }
        }
    }
}

/// The comma-separated values read from `p` on, after `acc`, up to `close`,
/// the end, or anything but a comma after a value.
pub open spec fn items_at(s: Seq<char>, p: int, close: char, acc: Seq<ValueView>) -> (Seq<ValueView>, int)
    decreases s.len() - p, 3int,
{
    if p < 0 || p > s.len() {
        (acc, p)
    } else {
        proof {
            lemma_scan_bounds(s, p);
        }
        let q = ws_end(s, p);
        if q == s.len() {
            (acc, q)
        } else if s[q] == close {
            (acc, q + 1)
        } else {
            let v = value_at(s, q);
            let acc2 = acc.push(v.0);
            if v.1 < q || v.1 > s.len() {
                (acc2, v.1)
            } else {
                proof {
                    lemma_scan_bounds(s, v.1);
                }
                let r = ws_end(s, v.1);
                if r < s.len() && s[r] == ',' {
                    items_at(s, r + 1, close, acc2)
                } else if r < s.len() && s[r] == close {
                    (acc2, r + 1)
                } else {
                    (acc2, r)
                }
            }
        }
    }
}

/// The value a field's `{:?}` text reads as.
pub open spec fn debug_value_of(s: Seq<char>) -> ValueView {
    value_at(s, 0).0
}

/// Reads a word that no bracket follows (see [`word_of`]).
pub fn word_value(ident: String) -> (r: DebugValue)
    ensures
        r@ == word_of(ident@),
{
    proof {
        reveal_strlit("true");
        reveal_strlit("false");
        reveal_strlit("None");
        assert("true"@ =~= seq!['t', 'r', 'u', 'e']);
        assert("false"@ =~= seq!['f', 'a', 'l', 's', 'e']);
        assert("None"@ =~= seq!['N', 'o', 'n', 'e']);
    }
    if str_eq(ident.as_str(), "true") {
        DebugValue::Bool(true)
    } else if str_eq(ident.as_str(), "false") {
        DebugValue::Bool(false)
    } else if str_eq(ident.as_str(), "None") {
        DebugValue::Null
    } else if reads_as_float(ident.as_str()) {
        DebugValue::Number(ident)
    } else {
        DebugValue::Raw(ident)
    }
}

proof fn lemma_values_view_push(s: Seq<DebugValue>, v: DebugValue)
    ensures
        values_view(s.push(v)) == values_view(s).push(v@),
{
    assert(s.push(v).drop_last() =~= s);
}

proof fn lemma_fields_view_push(s: Seq<(String, DebugValue)>, f: (String, DebugValue))
    ensures
        fields_view(s.push(f)) == fields_view(s).push((f.0@, f.1@)),
{
    assert(s.push(f).drop_last() =~= s);
}

impl Parser {
    /// Reads one value (see [`value_at`]).
    pub fn parse_value(&mut self) -> (r: DebugValue)
        requires
            old(self).pos <= old(self).chars@.len(),
        ensures
            final(self).chars == old(self).chars,
            old(self).pos <= final(self).pos <= final(self).chars@.len(),
            (r@, final(self).pos as int) == value_at(old(self).chars@, old(self).pos as int),
        decreases old(self).chars@.len() - old(self).pos, 2int,
    {
        let ghost s = self.chars@;
        let ghost p = self.pos as int;
        proof {
            lemma_scan_bounds(s, p);
        }
        self.skip_ws();
        let ghost q = self.pos as int;
        proof {
            lemma_scan_bounds(s, q);
        }
        let c = match self.peek() {
            Some(c) => c,
            None => {
                return DebugValue::Raw(String::new());
            },
        };
        if c == '"' {
            proof {
                lemma_unquote_bounds(s, q + 1, Seq::empty());
            }
            let text = self.parse_quoted_string();
            refine_text(text)
        } else if c == '[' {
            self.next_char();
            let items = self.parse_items(']');
            finish_sequence(items)
        } else if c == '{' {
            self.parse_braced()
        } else if c == '(' {
            self.next_char();
            let items = self.parse_items(')');
            finish_sequence(items)
        } else if ('0' <= c && c <= '9') || c == '-' || c == '+' {
            let text = self.scan_number();
            if reads_as_float(text.as_str()) {
                DebugValue::Number(text)
            } else {
                DebugValue::Raw(text)
            }
        } else if is_alphabetic(c) || c == '_' {
            self.parse_word_led()
        } else {
            let text = self.consume_raw();
            DebugValue::Raw(text)
        }
    }

    fn parse_word_led(&mut self) -> (r: DebugValue)
        requires
            old(self).pos <= old(self).chars@.len(),
        ensures
            final(self).chars == old(self).chars,
            old(self).pos <= final(self).pos <= final(self).chars@.len(),
            (r@, final(self).pos as int) == word_led_at(old(self).chars@, old(self).pos as int),
        decreases old(self).chars@.len() - old(self).pos, 1int,
    {
        let ghost s = self.chars@;
        let ghost q = self.pos as int;
        proof {
            lemma_scan_bounds(s, q);
        }
        let ident = self.parse_ident();
        proof {
            lemma_scan_bounds(s, self.pos as int);
        }
        self.skip_ws();
        let c = match self.peek() {
            Some(c) => c,
            None => {
                return word_value(ident);
            },
        };
        if c == '(' {
            self.next_char();
            let items = self.parse_items(')');
            finish_sequence(items)
        } else if c == '{' {
            self.parse_braced()
        } else if c == '[' {
            self.next_char();
            let items = self.parse_items(']');
            finish_sequence(items)
        } else {
            word_value(ident)
        }
    }

    fn parse_items(&mut self, close: char) -> (r: Vec<DebugValue>)
        requires
            old(self).pos <= old(self).chars@.len(),
        ensures
            final(self).chars == old(self).chars,
            old(self).pos <= final(self).pos <= final(self).chars@.len(),
            (values_view(r@), final(self).pos as int) == items_at(old(self).chars@, old(self).pos as int, close, Seq::empty()),
        decreases old(self).chars@.len() - old(self).pos, 3int,
    {
        let ghost s = self.chars@;
        let ghost p0 = self.pos as int;
        let mut items: Vec<DebugValue> = Vec::new();
        assert(values_view(items@) =~= Seq::<ValueView>::empty());
        loop
            invariant_except_break
                self.chars == old(self).chars,
                s == self.chars@,
                p0 == old(self).pos,
                p0 <= self.pos <= s.len(),
                items_at(s, p0, close, Seq::empty()) == items_at(s, self.pos as int, close, values_view(items@)),
            ensures
                self.chars == old(self).chars,
                p0 <= self.pos <= s.len(),
                items_at(s, p0, close, Seq::empty()) == (values_view(items@), self.pos as int),
            decreases s.len() - self.pos,
        {
            let ghost here = self.pos as int;
            proof {
                lemma_scan_bounds(s, here);
            }
            self.skip_ws();
            let c = match self.peek() {
                Some(c) => c,
                None => {
                    break;
                },
            };
            if c == close {
                self.next_char();
                break;
            }
            let v = self.parse_value();
            let ghost before = items@;
            items.push(v);
            proof {
                lemma_values_view_push(before, v);
                lemma_scan_bounds(s, self.pos as int);
            }
            self.skip_ws();
            let d = match self.peek() {
                Some(d) => d,
                None => {
                    break;
                },
            };
            if d == ',' {
                self.next_char();
            } else if d == close {
                self.next_char();
                break;
            } else {
                break;
            }
        }
        items
    }

    fn parse_braced(&mut self) -> (r: DebugValue)
        requires
            old(self).pos < old(self).chars@.len(),
        ensures
            final(self).chars == old(self).chars,
            old(self).pos <= final(self).pos <= final(self).chars@.len(),
            (r@, final(self).pos as int) == braced_at(old(self).chars@, old(self).pos as int),
        decreases old(self).chars@.len() - old(self).pos, 0int,
    {
        let ghost s = self.chars@;
        let ghost p0 = self.pos as int + 1;
        self.next_char();
        let mut fields: Vec<(String, DebugValue)> = Vec::new();
        assert(fields_view(fields@) =~= Seq::<(Seq<char>, ValueView)>::empty());
        loop
            invariant_except_break
                self.chars == old(self).chars,
                s == self.chars@,
                p0 == old(self).pos + 1,
                p0 <= self.pos <= s.len(),
                fields_at(s, p0, Seq::empty()) == fields_at(s, self.pos as int, fields_view(fields@)),
            ensures
                self.chars == old(self).chars,
                p0 <= self.pos <= s.len(),
                fields_at(s, p0, Seq::empty()) == (fields_view(fields@), self.pos as int),
            decreases s.len() - self.pos,
        {
            let ghost here = self.pos as int;
            proof {
                lemma_scan_bounds(s, here);
            }
            self.skip_ws();
            let ghost q = self.pos as int;
            let c = match self.peek() {
                Some(c) => c,
                None => {
                    break;
                },
            };
            if c == '}' {
                self.next_char();
                break;
            }
            proof {
                lemma_scan_bounds(s, q);
                lemma_unquote_bounds(s, q + 1, Seq::empty());
            }
            let key = if c == '"' { self.parse_quoted_string() } else { self.parse_ident() };
            proof {
                lemma_scan_bounds(s, self.pos as int);
            }
            self.skip_ws();
            match self.peek() {
                Some(d) => {
                    if d == ':' {
                        self.next_char();
                    }
                },
                None => {},
            }
            let value = self.parse_value();
            let ghost before = fields@;
            let ghost entry = (key, value);
            fields.push((key, value));
            proof {
                lemma_fields_view_push(before, entry);
                lemma_scan_bounds(s, self.pos as int);
            }
            self.skip_ws();
            let d = match self.peek() {
                Some(d) => d,
                None => {
                    break;
                },
            };
            if d == ',' {
                self.next_char();
            } else if d == '}' {
                self.next_char();
                break;
            } else {
                break;
            }
        }
        finish_braced(fields)
    }
}

/// Reads a field's `{:?}` text into a value (see [`value_at`]).
pub fn parse_debug_value(s: &str) -> (r: DebugValue)
    ensures
        r@ == debug_value_of(s@),
{
    let mut p = Parser::new(s);
    p.parse_value()
}

} // verus!
