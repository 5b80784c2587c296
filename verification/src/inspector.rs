//! Scanning the `{:?}` text of a live component field: the character-level
//! pieces of the inspector's value reader (whitespace, identifiers, quoted
//! strings, number tokens and raw leftovers), which `debug_value` builds
//! on; and the console's stripping of colour codes.
use vstd::prelude::*;
use crate::text::{alphanumeric, is_alphanumeric, is_whitespace, is_ws, trim, trimmed, string_from_range, push_char};

verus! {

/// Where a run of whitespace starting at `i` ends.
pub open spec fn ws_end(s: Seq<char>, i: int) -> int
    decreases s.len() - i,
{
    if 0 <= i < s.len() && is_ws(s[i]) {
        ws_end(s, i + 1)
    } else {
        i
    }
}

/// A character that continues an identifier.
pub open spec fn is_ident_char(c: char) -> bool {
    alphanumeric(c) || c == '_'
}

/// Where a run of identifier characters starting at `i` ends.
pub open spec fn ident_end(s: Seq<char>, i: int) -> int
    decreases s.len() - i,
{
    if 0 <= i < s.len() && is_ident_char(s[i]) {
        ident_end(s, i + 1)
    } else {
        i
    }
}

/// A character that may appear in a number token.
pub open spec fn is_number_char(c: char) -> bool {
    ('0' <= c && c <= '9') || c == '-' || c == '+' || c == '.' || c == 'e' || c == 'E'
}

/// Where a run of number-token characters starting at `i` ends.
pub open spec fn number_end(s: Seq<char>, i: int) -> int
    decreases s.len() - i,
{
    if 0 <= i < s.len() && is_number_char(s[i]) {
        number_end(s, i + 1)
    } else {
        i
    }
}

/// A character that ends a raw leftover: a separator or a closing bracket.
pub open spec fn is_boundary(c: char) -> bool {
    c == ',' || c == ')' || c == '}' || c == ']'
}

/// Where raw text starting at `i` ends: at the next boundary or the end.
pub open spec fn raw_end(s: Seq<char>, i: int) -> int
    decreases s.len() - i,
{
    if 0 <= i < s.len() && !is_boundary(s[i]) {
        raw_end(s, i + 1)
    } else {
        i
    }
}

/// The character an escape `\c` stands for.
pub open spec fn unescaped(c: char) -> char {
    if c == 'n' {
        '\n'
    } else if c == 'r' {
        '\r'
    } else if c == 't' {
        '\t'
    } else {
        c
    }
}

/// The text of a quoted string whose body starts at `j`, added to `acc`,
/// and where reading stops: after the closing quote, or at the end.
pub open spec fn unquote(s: Seq<char>, j: int, acc: Seq<char>) -> (Seq<char>, int)
    decreases s.len() - j,
{
    if j < 0 || j >= s.len() {
        (acc, j)
    } else if s[j] == '"' {
        (acc, j + 1)
    } else if s[j] == '\\' {
        if j + 1 >= s.len() {
            (acc, j + 1)
        } else {
            unquote(s, j + 2, acc.push(unescaped(s[j + 1])))
        }
    } else {
        unquote(s, j + 1, acc.push(s[j]))
    }
}

/// The scans stay within the text and do not move backwards.
pub proof fn lemma_scan_bounds(s: Seq<char>, i: int)
    requires
        0 <= i <= s.len(),
    ensures
        i <= ws_end(s, i) <= s.len(),
        i <= ident_end(s, i) <= s.len(),
        i <= number_end(s, i) <= s.len(),
        i <= raw_end(s, i) <= s.len(),
    decreases s.len() - i,
{
    if i < s.len() {
        lemma_scan_bounds(s, i + 1);
    }
}

/// Reading a quoted string stays within the text and does not move
/// backwards.
pub proof fn lemma_unquote_bounds(s: Seq<char>, j: int, acc: Seq<char>)
    requires
        0 <= j <= s.len(),
    ensures
        j <= unquote(s, j, acc).1 <= s.len(),
    decreases s.len() - j,
{
    if j < s.len() && s[j] != '"' {
        if s[j] == '\\' {
            if j + 1 < s.len() {
                lemma_unquote_bounds(s, j + 2, acc.push(unescaped(s[j + 1])));
            }
        } else {
            lemma_unquote_bounds(s, j + 1, acc.push(s[j]));
        }
    }
}

fn number_char(c: char) -> (r: bool)
    ensures
        r == is_number_char(c),
{
    ('0' <= c && c <= '9') || c == '-' || c == '+' || c == '.' || c == 'e' || c == 'E'
}

fn boundary_char(c: char) -> (r: bool)
    ensures
        r == is_boundary(c),
{
    c == ',' || c == ')' || c == '}' || c == ']'
}

/// A reading position in the characters of a field's text.
pub struct Parser {
    pub chars: Vec<char>,
    pub pos: usize,
}

impl Parser {
    /// A parser at the start of `s`.
    pub fn new(s: &str) -> (r: Self)
        ensures
            r.chars@ == s@,
            r.pos == 0,
    {
        Parser { chars: crate::text::chars_of(s), pos: 0 }
    }

    /// The next character, if any, without reading it.
    pub fn peek(&self) -> (r: Option<char>)
        requires
            self.pos <= self.chars@.len(),
        ensures
            r == if self.pos < self.chars@.len() { Some(self.chars@[self.pos as int]) } else { None },
    {
        if self.pos < self.chars.len() {
            Some(self.chars[self.pos])
        } else {
            None
        }
    }

    /// Reads the next character, if any.
    pub fn next_char(&mut self) -> (r: Option<char>)
        requires
            old(self).pos <= old(self).chars@.len(),
        ensures
            final(self).chars == old(self).chars,
            r == if old(self).pos < old(self).chars@.len() { Some(old(self).chars@[old(self).pos as int]) } else { None },
            final(self).pos == if old(self).pos < old(self).chars@.len() { old(self).pos + 1 } else { old(self).pos as int },
    {
        if self.pos < self.chars.len() {
            let c = self.chars[self.pos];
            self.pos += 1;
            Some(c)
        } else {
            None
        }
    }

    /// Skips whitespace.
    pub fn skip_ws(&mut self)
        requires
            old(self).pos <= old(self).chars@.len(),
        ensures
            final(self).chars == old(self).chars,
            final(self).pos == ws_end(old(self).chars@, old(self).pos as int),
            final(self).pos <= final(self).chars@.len(),
    {
        while self.pos < self.chars.len() && is_whitespace(self.chars[self.pos])
            invariant
                self.chars == old(self).chars,
                old(self).pos <= self.pos <= self.chars@.len(),
                ws_end(self.chars@, old(self).pos as int) == ws_end(self.chars@, self.pos as int),
            decreases self.chars@.len() - self.pos,
        {
            self.pos += 1;
        }
    }

    /// Reads an identifier (letters, digits, `_`); empty when none starts
    /// here.
    pub fn parse_ident(&mut self) -> (r: String)
        requires
            old(self).pos <= old(self).chars@.len(),
        ensures
            final(self).chars == old(self).chars,
            final(self).pos == ident_end(old(self).chars@, old(self).pos as int),
            r@ == old(self).chars@.subrange(old(self).pos as int, final(self).pos as int),
    {
        let start = self.pos;
        while self.pos < self.chars.len() && (is_alphanumeric(self.chars[self.pos]) || self.chars[self.pos] == '_')
            invariant
                self.chars == old(self).chars,
                start == old(self).pos,
                start <= self.pos <= self.chars@.len(),
                ident_end(self.chars@, start as int) == ident_end(self.chars@, self.pos as int),
            decreases self.chars@.len() - self.pos,
        {
            self.pos += 1;
        }
        string_from_range(&self.chars, start, self.pos)
    }

    /// Reads a number token (digits, signs, `.`, exponents) as text.
    pub fn scan_number(&mut self) -> (r: String)
        requires
            old(self).pos <= old(self).chars@.len(),
        ensures
            final(self).chars == old(self).chars,
            final(self).pos == number_end(old(self).chars@, old(self).pos as int),
            r@ == old(self).chars@.subrange(old(self).pos as int, final(self).pos as int),
    {
        let start = self.pos;
        while self.pos < self.chars.len() && number_char(self.chars[self.pos])
            invariant
                self.chars == old(self).chars,
                start == old(self).pos,
                start <= self.pos <= self.chars@.len(),
                number_end(self.chars@, start as int) == number_end(self.chars@, self.pos as int),
            decreases self.chars@.len() - self.pos,
        {
            self.pos += 1;
        }
        string_from_range(&self.chars, start, self.pos)
    }

    /// Reads a quoted string: skips the opening quote, then reads up to the
    /// closing one, turning `\n`, `\r` and `\t` into their characters and
    /// any other escaped character into itself.
    #[verifier::spinoff_prover]
    #[verifier::rlimit(40)]
    pub fn parse_quoted_string(&mut self) -> (r: String)
        requires
            old(self).pos <= old(self).chars@.len(),
        ensures
            final(self).chars == old(self).chars,
            ({
                let start = if old(self).pos < old(self).chars@.len() { old(self).pos + 1 } else { old(self).pos as int };
                (r@, final(self).pos as int) == unquote(old(self).chars@, start, Seq::empty())
            }),
            final(self).pos <= final(self).chars@.len(),
    {
        let ghost s = self.chars@;
        if self.pos < self.chars.len() {
            self.pos += 1;
        }
        let ghost start = self.pos as int;
        let mut out = String::new();
        while self.pos < self.chars.len()
            invariant_except_break
                self.chars == old(self).chars,
                s == self.chars@,
                self.pos <= s.len(),
                unquote(s, start, Seq::empty()) == unquote(s, self.pos as int, out@),
            ensures
                self.chars == old(self).chars,
                self.pos <= s.len(),
                unquote(s, start, Seq::empty()) == (out@, self.pos as int),
            decreases s.len() - self.pos,
        {
            let c = self.chars[self.pos];
            if c == '"' {
                self.pos += 1;
                break;
            }
            if c == '\\' {
                if self.pos + 1 >= self.chars.len() {
                    self.pos += 1;
                    break;
                }
                let e = self.chars[self.pos + 1];
                let u = if e == 'n' {
                    '\n'
                } else if e == 'r' {
                    '\r'
                } else if e == 't' {
                    '\t'
                } else {
                    e
                };
                push_char(&mut out, u);
                self.pos += 2;
            } else {
                push_char(&mut out, c);
                self.pos += 1;
            }
        }
        out
    }

    /// Reads whatever is left up to the next separator or closing bracket,
    /// trimmed.
    pub fn consume_raw(&mut self) -> (r: String)
        requires
            old(self).pos <= old(self).chars@.len(),
        ensures
            final(self).chars == old(self).chars,
            final(self).pos == raw_end(old(self).chars@, old(self).pos as int),
            r@ == trim(old(self).chars@.subrange(old(self).pos as int, final(self).pos as int)),
    {
        let start = self.pos;
        while self.pos < self.chars.len() && !boundary_char(self.chars[self.pos])
            invariant
                self.chars == old(self).chars,
                start == old(self).pos,
                start <= self.pos <= self.chars@.len(),
                raw_end(self.chars@, start as int) == raw_end(self.chars@, self.pos as int),
            decreases self.chars@.len() - self.pos,
        {
            self.pos += 1;
        }
        let raw = string_from_range(&self.chars, start, self.pos);
        trimmed(raw.as_str())
    }
}

// ─── console text ──────────────────────────────────────────────────────────

/// `s` without its ANSI colour sequences: an escape followed by `[` drops
/// everything up to and including the next `m` (or the rest of the text).
pub open spec fn strip_ansi_of(s: Seq<char>) -> Seq<char>
    decreases s.len(),
{
    if s.len() == 0 {
        Seq::empty()
    } else if s[0] == '\u{1b}' && s.len() > 1 && s[1] == '[' {
        skip_to_m(s.skip(2))
    } else {
        seq![s[0]] + strip_ansi_of(s.drop_first())
    }
}

/// What follows the first `m` of `s`, stripped in turn (nothing when there
/// is no `m`).
pub open spec fn skip_to_m(s: Seq<char>) -> Seq<char>
    decreases s.len(),
{
    if s.len() == 0 {
        Seq::empty()
    } else if s[0] == 'm' {
        strip_ansi_of(s.drop_first())
    } else {
        skip_to_m(s.drop_first())
    }
}

/// Removes ANSI colour sequences from a console line.
#[verifier::spinoff_prover]
#[verifier::rlimit(40)]
pub fn strip_ansi(raw: &str) -> (r: String)
    ensures
        r@ == strip_ansi_of(raw@),
{
    let v = crate::text::chars_of(raw);
    let n = v.len();
    let mut out = String::new();
    let mut i: usize = 0;
    let mut in_escape = false;
    proof {
        assert(v@.skip(0) =~= v@);
    }
    while i < n
        invariant
            n == v@.len(),
            v@ == raw@,
            i <= n,
            strip_ansi_of(raw@) == out@ + if in_escape { skip_to_m(v@.skip(i as int)) } else { strip_ansi_of(v@.skip(i as int)) },
        decreases n - i,
    {
        let c = v[i];
        let ghost rest = v@.skip(i as int);
        if in_escape {
            proof {
                assert(rest.drop_first() =~= v@.skip(i + 1));
            }
            if c == 'm' {
                in_escape = false;
            }
            i += 1;
        } else if c == '\u{1b}' && i + 1 < n && v[i + 1] == '[' {
            proof {
                assert(rest.skip(2) =~= v@.skip(i + 2));
            }
            in_escape = true;
            i += 2;
        } else {
            proof {
                assert(rest.drop_first() =~= v@.skip(i + 1));
            }
            let ghost before = out@;
            push_char(&mut out, c);
            proof {
                assert(before + (seq![c] + strip_ansi_of(v@.skip(i + 1))) =~= out@ + strip_ansi_of(v@.skip(i + 1)));
            }
            i += 1;
        }
    }
    proof {
        assert(v@.skip(n as int) =~= Seq::<char>::empty());
        assert(out@ + Seq::<char>::empty() =~= out@);
    }
    out
}

} // verus!
