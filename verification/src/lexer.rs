//! The tokenizer: recognizers for the atomic lexical patterns.  Each one
//! either recognizes its pattern at the start of the given text and
//! reports what it consumed, or rejects; none consumes past its own
//! delimiter and none backtracks.

use vstd::prelude::*;
use crate::text::{
    begins_with, byte_is_alnum, find_sub, is_alnum, is_digit, is_line_ws, lemma_find_props,
    matches_at, spec_find, spec_parse_u32, parse_u32, starts_with, subv, trim, do_trim,
};

verus! {

/// A list-item marker.
#[derive(Debug, Clone, Copy, PartialEq, Eq)]
pub enum ListMarker {
    Unordered,
    Ordered(u32),
    Checkbox(bool),
}

/// A citation key with an optional locator.
#[derive(Debug, Clone, PartialEq, Eq)]
pub struct CitationToken {
    pub key: Vec<u8>,
    pub locator: Option<Vec<u8>>,
}

/// A token recognized by the tokenizer.
#[derive(Debug)]
pub enum Token {
    Heading(u8, Vec<u8>),
    FencedCodeStart(Vec<u8>),
    FencedCodeEnd,
    ThematicBreak,
    BlockQuoteMarker,
    ListItemMarker(ListMarker),
    EnvironmentStart(Vec<u8>, Option<Vec<u8>>),
    EnvironmentEnd,
    TableOfContents,
    InlineCode(Vec<u8>),
    InlineMath(Vec<u8>),
    DisplayMath(Vec<u8>),
    Citation(Vec<CitationToken>),
    Reference(Vec<u8>),
    FootnoteInline(Vec<u8>),
    FootnoteRef(Vec<u8>),
    Label(Vec<u8>),
    Emphasis(Vec<u8>),
    Strong(Vec<u8>),
}

// ---------------------------------------------------------------------------
// Scanning helpers
// ---------------------------------------------------------------------------

/// First index at or after `i` whose byte is not `b`.
pub open spec fn scan_while_byte(s: Seq<u8>, i: int, b: u8) -> int
    decreases s.len() - i,
{
    if i < 0 || i >= s.len() {
        if i < 0 {
            0
        } else {
            s.len() as int
        }
    } else if s[i] == b {
        scan_while_byte(s, i + 1, b)
    } else {
        i
    }
}

fn scan_byte(s: &[u8], from: usize, b: u8) -> (r: usize)
    requires
        from <= s@.len(),
    ensures
        r == scan_while_byte(s@, from as int, b),
        from <= r <= s@.len(),
    decreases s@.len() - from,
{
    if from >= s.len() {
        return from;
    }
    if s[from] == b {
        scan_byte(s, from + 1, b)
    } else {
        from
    }
}

/// First index at or after `i` whose byte is not a space or tab.
pub open spec fn scan_ws(s: Seq<u8>, i: int) -> int
    decreases s.len() - i,
{
    if i < 0 || i >= s.len() {
        if i < 0 {
            0
        } else {
            s.len() as int
        }
    } else if is_line_ws(s[i]) {
        scan_ws(s, i + 1)
    } else {
        i
    }
}

pub proof fn lemma_scan_ws_bounds(s: Seq<u8>, i: int)
    requires
        0 <= i,
    ensures
        i <= scan_ws(s, i) && scan_ws(s, i) <= s.len() || (i >= s.len() && scan_ws(s, i)
            == s.len()),
        i <= s.len() ==> i <= scan_ws(s, i) <= s.len(),
    decreases s.len() - i,
{
    if 0 <= i < s.len() && is_line_ws(s[i]) {
        lemma_scan_ws_bounds(s, i + 1);
    }
}

fn scan_spaces(s: &[u8], from: usize) -> (r: usize)
    requires
        from <= s@.len(),
    ensures
        r == scan_ws(s@, from as int),
        from <= r <= s@.len(),
    decreases s@.len() - from,
{
    if from >= s.len() {
        return from;
    }
    let b = s[from];
    if b == 32 || b == 9 {
        scan_spaces(s, from + 1)
    } else {
        from
    }
}

/// First index at or after `i` whose byte is not a word byte (letters,
/// digits, `-`, `_`).
pub open spec fn is_word_byte(b: u8) -> bool {
    is_alnum(b) || b == 45 || b == 95
}

pub open spec fn scan_word(s: Seq<u8>, i: int) -> int
    decreases s.len() - i,
{
    if i < 0 || i >= s.len() {
        if i < 0 {
            0
        } else {
            s.len() as int
        }
    } else if is_word_byte(s[i]) {
        scan_word(s, i + 1)
    } else {
        i
    }
}

pub proof fn lemma_scan_word_bounds(s: Seq<u8>, i: int)
    requires
        0 <= i <= s.len(),
    ensures
        i <= scan_word(s, i) <= s.len(),
    decreases s.len() - i,
{
    if i < s.len() && is_word_byte(s[i]) {
        lemma_scan_word_bounds(s, i + 1);
    }
}

fn scan_word_exec(s: &[u8], from: usize) -> (r: usize)
    requires
        from <= s@.len(),
    ensures
        r == scan_word(s@, from as int),
        from <= r <= s@.len(),
    decreases s@.len() - from,
{
    if from >= s.len() {
        return from;
    }
    let b = s[from];
    if byte_is_alnum(b) || b == 45 || b == 95 {
        scan_word_exec(s, from + 1)
    } else {
        from
    }
}

/// Label bytes: letters, digits, `:`, `-`, `_`.
pub open spec fn is_label_byte(b: u8) -> bool {
    is_alnum(b) || b == 58 || b == 45 || b == 95
}

pub open spec fn scan_label(s: Seq<u8>, i: int) -> int
    decreases s.len() - i,
{
    if i < 0 || i >= s.len() {
        if i < 0 {
            0
        } else {
            s.len() as int
        }
    } else if is_label_byte(s[i]) {
        scan_label(s, i + 1)
    } else {
        i
    }
}

pub proof fn lemma_scan_label_bounds(s: Seq<u8>, i: int)
    requires
        0 <= i <= s.len(),
    ensures
        i <= scan_label(s, i) <= s.len(),
    decreases s.len() - i,
{
    if i < s.len() && is_label_byte(s[i]) {
        lemma_scan_label_bounds(s, i + 1);
    }
}

fn scan_label_exec(s: &[u8], from: usize) -> (r: usize)
    requires
        from <= s@.len(),
    ensures
        r == scan_label(s@, from as int),
        from <= r <= s@.len(),
    decreases s@.len() - from,
{
    if from >= s.len() {
        return from;
    }
    let b = s[from];
    if byte_is_alnum(b) || b == 58 || b == 45 || b == 95 {
        scan_label_exec(s, from + 1)
    } else {
        from
    }
}

pub open spec fn scan_digits(s: Seq<u8>, i: int) -> int
    decreases s.len() - i,
{
    if i < 0 || i >= s.len() {
        if i < 0 {
            0
        } else {
            s.len() as int
        }
    } else if is_digit(s[i]) {
        scan_digits(s, i + 1)
    } else {
        i
    }
}

pub proof fn lemma_scan_digits_bounds(s: Seq<u8>, i: int)
    requires
        0 <= i <= s.len(),
    ensures
        i <= scan_digits(s, i) <= s.len(),
    decreases s.len() - i,
{
    if i < s.len() && is_digit(s[i]) {
        lemma_scan_digits_bounds(s, i + 1);
    }
}

fn scan_digits_exec(s: &[u8], from: usize) -> (r: usize)
    requires
        from <= s@.len(),
    ensures
        r == scan_digits(s@, from as int),
        from <= r <= s@.len(),
    decreases s@.len() - from,
{
    if from >= s.len() {
        return from;
    }
    let b = s[from];
    if 48 <= b && b <= 57 {
        scan_digits_exec(s, from + 1)
    } else {
        from
    }
}

/// Strip trailing `#` and space bytes, as ATX headings do.
pub open spec fn scan_heading_end(s: Seq<u8>, i: int) -> int
    decreases i,
{
    if i <= 0 || i > s.len() {
        if i <= 0 {
            0
        } else {
            s.len() as int
        }
    } else if s[i - 1] == 35 || s[i - 1] == 32 {
        scan_heading_end(s, i - 1)
    } else {
        i
    }
}

fn scan_heading_end_exec(s: &[u8], from: usize) -> (r: usize)
    requires
        from <= s@.len(),
    ensures
        r == scan_heading_end(s@, from as int),
        r <= from,
    decreases from,
{
    if from == 0 {
        return 0;
    }
    let b = s[from - 1];
    if b == 35 || b == 32 {
        scan_heading_end_exec(s, from - 1)
    } else {
        from
    }
}

// ---------------------------------------------------------------------------
// Line-level recognizers
// ---------------------------------------------------------------------------

/// An ATX heading: 1..6 `#`s (more clamp to 6), at least one space or
/// tab, then the text with trailing `#`s and spaces stripped.
pub open spec fn spec_heading(s: Seq<u8>) -> Option<(u8, Seq<u8>)> {
    let h = scan_while_byte(s, 0, 35);
    if h == 0 || h >= s.len() || !is_line_ws(s[h]) {
        Option::None
    } else {
        let level: u8 = if h >= 6 {
            6
        } else {
            h as u8
        };
        let start = scan_ws(s, h);
        let content_end = scan_heading_end(s, s.len() as int);
        let content = if content_end <= start {
            Seq::<u8>::empty()
        } else {
            s.subrange(start, content_end)
        };
        Option::Some((level, content))
    }
}

/// Recognize an ATX heading.
pub fn heading(s: &[u8]) -> (r: Option<Token>)
    ensures
        match r {
            Option::Some(t) => t matches Token::Heading(level, content) && spec_heading(s@)
                matches Option::Some(p) && p.0 == level && p.1 == content@,
            Option::None => spec_heading(s@) is None,
        },
{
    let h = scan_byte(s, 0, 35);
    if h == 0 || h >= s.len() {
        return Option::None;
    }
    let b = s[h];
    if !(b == 32 || b == 9) {
        return Option::None;
    }
    let level: u8 = if h >= 6 {
        6
    } else {
        h as u8
    };
    let start = scan_spaces(s, h);
    let content_end = scan_heading_end_exec(s, s.len());
    let content = if content_end <= start {
        Vec::new()
    } else {
        subv(s, start, content_end)
    };
    proof {
        assert(content@ =~= spec_heading(s@)->Some_0.1);
    }
    Option::Some(Token::Heading(level, content))
}

/// A thematic break: the line starts with `---`, `***` or `___`.
pub open spec fn spec_thematic(s: Seq<u8>) -> bool {
    starts_with(s, crate::lits::lit_dashes3()) || starts_with(s, crate::lits::lit_stars3())
        || starts_with(s, crate::lits::lit_unders3())
}

/// Recognize a thematic break.
pub fn thematic_break(s: &[u8]) -> (r: Option<Token>)
    ensures
        r is Some <==> spec_thematic(s@),
{
    if begins_with(s, crate::lits::bytes_dashes3().as_slice()) || begins_with(
        s,
        crate::lits::bytes_stars3().as_slice(),
    ) || begins_with(s, crate::lits::bytes_unders3().as_slice()) {
        Option::Some(Token::ThematicBreak)
    } else {
        Option::None
    }
}

/// A code-fence opener: ``` or ~~~, then an optional language word.
pub open spec fn spec_fence_start(s: Seq<u8>) -> Option<Seq<u8>> {
    if starts_with(s, crate::lits::lit_backticks3()) || starts_with(
        s,
        crate::lits::lit_tildes3(),
    ) {
        Option::Some(s.subrange(3, scan_word(s, 3)))
    } else {
        Option::None
    }
}

/// Recognize a code-fence opener.
pub fn fenced_code_start(s: &[u8]) -> (r: Option<Token>)
    ensures
        match r {
            Option::Some(t) => t matches Token::FencedCodeStart(lang) && spec_fence_start(s@)
                matches Option::Some(sl) && sl == lang@,
            Option::None => spec_fence_start(s@) is None,
        },
{
    if begins_with(s, crate::lits::bytes_backticks3().as_slice()) || begins_with(
        s,
        crate::lits::bytes_tildes3().as_slice(),
    ) {
        let end = scan_word_exec(s, 3);
        Option::Some(Token::FencedCodeStart(subv(s, 3, end)))
    } else {
        Option::None
    }
}

/// An environment opener: `:::`, optional spaces, a keyword, optional
/// spaces, and an optional `{#label}`.
pub open spec fn spec_env_start(s: Seq<u8>) -> Option<(Seq<u8>, Option<Seq<u8>>)> {
    if !starts_with(s, crate::lits::lit_colons3()) {
        Option::None
    } else {
        let k0 = scan_ws(s, 3);
        let k1 = scan_word(s, k0);
        if k1 == k0 {
            Option::None
        } else {
            let kind = s.subrange(k0, k1);
            let l0 = scan_ws(s, k1);
            let label = if matches_at(s, crate::lits::lit_label_open(), l0) {
                let l1 = scan_while_not_rbrace(s, l0 + 2);
                if l1 > l0 + 2 && l1 < s.len() && s[l1] == 125 {
                    Option::Some(s.subrange(l0 + 2, l1))
                } else {
                    Option::None
                }
            } else {
                Option::None
            };
            Option::Some((kind, label))
        }
    }
}

/// First index at or after `i` whose byte is `}`.
pub open spec fn scan_while_not_rbrace(s: Seq<u8>, i: int) -> int
    decreases s.len() - i,
{
    if i < 0 || i >= s.len() {
        if i < 0 {
            0
        } else {
            s.len() as int
        }
    } else if s[i] != 125 {
        scan_while_not_rbrace(s, i + 1)
    } else {
        i
    }
}

pub proof fn lemma_scan_not_rbrace_bounds(s: Seq<u8>, i: int)
    requires
        0 <= i <= s.len(),
    ensures
        i <= scan_while_not_rbrace(s, i) <= s.len(),
    decreases s.len() - i,
{
    if i < s.len() && s[i] != 125 {
        lemma_scan_not_rbrace_bounds(s, i + 1);
    }
}

fn scan_not_rbrace(s: &[u8], from: usize) -> (r: usize)
    requires
        from <= s@.len(),
    ensures
        r == scan_while_not_rbrace(s@, from as int),
        from <= r <= s@.len(),
    decreases s@.len() - from,
{
    if from >= s.len() {
        return from;
    }
    if s[from] != 125 {
        scan_not_rbrace(s, from + 1)
    } else {
        from
    }
}

/// Recognize an environment opener.
pub fn environment_start(s: &[u8]) -> (r: Option<Token>)
    ensures
        match r {
            Option::Some(t) => t matches Token::EnvironmentStart(kind, label) && spec_env_start(s@)
                matches Option::Some(p) && p.0 == kind@ && p.1 == crate::ast::opt_bytes(label),
            Option::None => spec_env_start(s@) is None,
        },
{
    if !begins_with(s, crate::lits::bytes_colons3().as_slice()) {
        return Option::None;
    }
    let k0 = scan_spaces(s, 3);
    let k1 = scan_word_exec(s, k0);
    if k1 == k0 {
        return Option::None;
    }
    let kind = subv(s, k0, k1);
    let l0 = scan_spaces(s, k1);
    let lbl_open = crate::lits::bytes_label_open();
    let label: Option<Vec<u8>> = if s.len() >= 2 && l0 <= s.len() - 2 && crate::text::eq_bytes(
        vstd::slice::slice_subrange(s, l0, l0 + 2),
        lbl_open.as_slice(),
    ) {
        proof {
            assert(matches_at(s@, crate::lits::lit_label_open(), l0 as int));
        }
        let l1 = scan_not_rbrace(s, l0 + 2);
        if l1 > l0 + 2 && l1 < s.len() && s[l1] == 125 {
            Option::Some(subv(s, l0 + 2, l1))
        } else {
            Option::None
        }
    } else {
        proof {
            if matches_at(s@, crate::lits::lit_label_open(), l0 as int) {
                assert(s@.subrange(l0 as int, l0 + 2) == crate::lits::lit_label_open());
            }
        }
        Option::None
    };
    Option::Some(Token::EnvironmentStart(kind, label))
}

/// A list-item marker: a checkbox, an unordered bullet, or an ordered
/// `N.`/`N)` marker; returns the marker and how many bytes it consumed.
pub open spec fn spec_list_marker(s: Seq<u8>) -> Option<(ListMarker, int)> {
    if s.len() >= 1 && (s[0] == 45 || s[0] == 42 || s[0] == 43) {
        let w = scan_ws(s, 1);
        if w == 1 {
            Option::None
        } else if w + 2 < s.len() && s[w] == 91 && (s[w + 1] == 120 || s[w + 1] == 88 || s[w + 1]
            == 32) && s[w + 2] == 93 {
            let checked = s[w + 1] == 120 || s[w + 1] == 88;
            Option::Some((ListMarker::Checkbox(checked), scan_ws(s, w + 3)))
        } else if w + 2 == s.len() && s[w] == 91 && (s[w + 1] == 120 || s[w + 1] == 88 || s[w + 1]
            == 32) {
            Option::Some((ListMarker::Unordered, w))
        } else {
            Option::Some((ListMarker::Unordered, w))
        }
    } else {
        let d = scan_digits(s, 0);
        if d == 0 || d >= s.len() || !(s[d] == 46 || s[d] == 41) {
            Option::None
        } else {
            let w = scan_ws(s, d + 1);
            if w == d + 1 {
                Option::None
            } else {
                Option::Some((ListMarker::Ordered(spec_parse_u32(s.subrange(0, d))), w))
            }
        }
    }
}

/// Recognize a list-item marker.
pub fn list_item_marker(s: &[u8]) -> (r: Option<(Token, usize)>)
    ensures
        match r {
            Option::Some(p) => p.0 matches Token::ListItemMarker(m) && spec_list_marker(s@)
                matches Option::Some(q) && q.0 == m && q.1 == p.1,
            Option::None => spec_list_marker(s@) is None,
        },
{
    if s.len() >= 1 && (s[0] == 45 || s[0] == 42 || s[0] == 43) {
        let w = scan_spaces(s, 1);
        if w == 1 {
            return Option::None;
        }
        if s.len() >= 3 && w < s.len() - 2 && s[w] == 91 && (s[w + 1] == 120 || s[w + 1] == 88
            || s[w + 1] == 32) && s[w + 2] == 93 {
            let checked = s[w + 1] == 120 || s[w + 1] == 88;
            let after = scan_spaces(s, w + 3);
            return Option::Some((Token::ListItemMarker(ListMarker::Checkbox(checked)), after));
        }
        return Option::Some((Token::ListItemMarker(ListMarker::Unordered), w));
    }
    let d = scan_digits_exec(s, 0);
    if d == 0 || d >= s.len() {
        return Option::None;
    }
    let b = s[d];
    if !(b == 46 || b == 41) {
        return Option::None;
    }
    let w = scan_spaces(s, d + 1);
    if w == d + 1 {
        return Option::None;
    }
    let n = parse_u32(vstd::slice::slice_subrange(s, 0, d));
    Option::Some((Token::ListItemMarker(ListMarker::Ordered(n)), w))
}

// ---------------------------------------------------------------------------
// Splitting
// ---------------------------------------------------------------------------

/// Split on a separator byte; empty pieces are kept and the result is
/// never empty.
pub open spec fn spec_split(s: Seq<u8>, sep: u8) -> Seq<Seq<u8>>
    decreases s.len(),
{
    match spec_find(s, seq![sep], 0) {
        Option::Some(i) => if 0 <= i < s.len() {
            seq![s.subrange(0, i)] + spec_split(s.subrange(i + 1, s.len() as int), sep)
        } else {
            seq![s]
        },
        Option::None => seq![s],
    }
}

pub fn split_bytes(s: &[u8], sep: u8) -> (r: Vec<Vec<u8>>)
    ensures
        crate::ast::bytes_list(r@) == spec_split(s@, sep),
    decreases s@.len(),
{
    let pat: [u8; 1] = [sep];
    proof {
        assert(pat@ =~= seq![sep]);
        lemma_find_props(s@, seq![sep], 0);
    }
    let mut r: Vec<Vec<u8>> = Vec::new();
    match find_sub(s, pat.as_slice(), 0) {
        Option::Some(i) => {
            let n = s.len();
            assert(i + 1 <= n);
            r.push(subv(s, 0, i));
            let rest = vstd::slice::slice_subrange(s, i + 1, n);
            let mut tail = split_bytes(rest, sep);
            r.append(&mut tail);
            proof {
                assert(crate::ast::bytes_list(r@) =~= spec_split(s@, sep));
            }
        },
        Option::None => {
            r.push(subv(s, 0, s.len()));
            proof {
                assert(s@.subrange(0, s@.len() as int) =~= s@);
                assert(crate::ast::bytes_list(r@) =~= spec_split(s@, sep));
            }
        },
    }
    r
}

/// Split on a multi-byte separator; empty pieces are kept and the
/// result is never empty.
pub open spec fn spec_split_str(s: Seq<u8>, sep: Seq<u8>) -> Seq<Seq<u8>>
    decreases s.len(),
{
    if sep.len() == 0 {
        seq![s]
    } else {
        match spec_find(s, sep, 0) {
            Option::Some(i) => if 0 <= i && i + sep.len() <= s.len() && sep.len() >= 1 {
                seq![s.subrange(0, i)] + spec_split_str(
                    s.subrange(i + sep.len(), s.len() as int),
                    sep,
                )
            } else {
                seq![s]
            },
            Option::None => seq![s],
        }
    }
}

pub fn split_str(s: &[u8], sep: &[u8]) -> (r: Vec<Vec<u8>>)
    requires
        sep@.len() >= 1,
    ensures
        crate::ast::bytes_list(r@) == spec_split_str(s@, sep@),
    decreases s@.len(),
{
    proof {
        lemma_find_props(s@, sep@, 0);
    }
    let mut r: Vec<Vec<u8>> = Vec::new();
    match find_sub(s, sep, 0) {
        Option::Some(i) => {
            let n = s.len();
            assert(i + sep@.len() <= n);
            r.push(subv(s, 0, i));
            let rest = vstd::slice::slice_subrange(s, i + sep.len(), n);
            let mut tail = split_str(rest, sep);
            r.append(&mut tail);
            proof {
                assert(crate::ast::bytes_list(r@) =~= spec_split_str(s@, sep@));
            }
        },
        Option::None => {
            r.push(subv(s, 0, s.len()));
            proof {
                assert(s@.subrange(0, s@.len() as int) =~= s@);
                assert(crate::ast::bytes_list(r@) =~= spec_split_str(s@, sep@));
            }
        },
    }
    r
}

/// Split at the first occurrence of a separator byte, if any.
pub open spec fn spec_split_once(s: Seq<u8>, sep: u8) -> Option<(Seq<u8>, Seq<u8>)> {
    match spec_find(s, seq![sep], 0) {
        Option::Some(i) => if 0 <= i < s.len() {
            Option::Some((s.subrange(0, i), s.subrange(i + 1, s.len() as int)))
        } else {
            Option::None
        },
        Option::None => Option::None,
    }
}

// ---------------------------------------------------------------------------
// Inline-token recognizers
// ---------------------------------------------------------------------------

/// The parsed pieces of a bracketed citation: `key1; key2, locator`.
pub open spec fn spec_cite_parts(content: Seq<u8>) -> Seq<(Seq<u8>, Option<Seq<u8>>)> {
    let raw = spec_split(content, 59);
    Seq::new(
        raw.len(),
        |i: int| if 0 <= i < raw.len() {
            let t = trim(raw[i]);
            match spec_split_once(t, 44) {
                Option::Some((k, loc)) => (trim(k), Option::Some(trim(loc))),
                Option::None => (t, Option::<Seq<u8>>::None),
            }
        } else {
            arbitrary()
        },
    )
}

/// A citation: `[@` ... `]`, keys separated by `;`, an optional locator
/// after `,`.  Returns the parts and the consumed length.
pub open spec fn spec_citation(s: Seq<u8>) -> Option<(Seq<(Seq<u8>, Option<Seq<u8>>)>, int)> {
    if !starts_with(s, crate::lits::lit_cite_open()) {
        Option::None
    } else {
        match spec_find(s, seq![93u8], 2) {
            Option::Some(e) => Option::Some((spec_cite_parts(s.subrange(2, e)), e + 1)),
            Option::None => Option::None,
        }
    }
}

/// The model of a citation-token list.
pub open spec fn cite_tokens_dv(v: Seq<CitationToken>) -> Seq<(Seq<u8>, Option<Seq<u8>>)> {
    Seq::new(
        v.len(),
        |i: int| if 0 <= i < v.len() {
            (v[i].key@, crate::ast::opt_bytes(v[i].locator))
        } else {
            arbitrary()
        },
    )
}

/// Recognize a citation.
pub fn citation(s: &[u8]) -> (r: Option<(Token, usize)>)
    ensures
        match r {
            Option::Some(p) => p.0 matches Token::Citation(toks) && spec_citation(s@)
                matches Option::Some(q) && q.0 == cite_tokens_dv(toks@) && q.1 == p.1,
            Option::None => spec_citation(s@) is None,
        },
{
    if !begins_with(s, crate::lits::bytes_cite_open().as_slice()) {
        return Option::None;
    }
    let close: [u8; 1] = [93];
    proof {
        assert(close@ =~= seq![93u8]);
    }
    match find_sub(s, close.as_slice(), 2) {
        Option::None => Option::None,
        Option::Some(e) => {
            let n = s.len();
            assert(e + 1 <= n);
            let content = vstd::slice::slice_subrange(s, 2, e);
            let raw = split_bytes(content, 59);
            let comma: [u8; 1] = [44];
            proof {
                assert(comma@ =~= seq![44u8]);
            }
            let mut toks: Vec<CitationToken> = Vec::new();
            let ghost model = spec_cite_parts(content@);
            proof {
                assert(model.len() == crate::ast::bytes_list(raw@).len());
            }
            let mut i: usize = 0;
            while i < raw.len()
                invariant
                    comma@ == seq![44u8],
                    0 <= i <= raw@.len(),
                    crate::ast::bytes_list(raw@) == spec_split(content@, 59),
                    model == spec_cite_parts(content@),
                    model.len() == raw@.len(),
                    toks@.len() == i,
                    forall|j: int|
                        0 <= j < i ==> (#[trigger] toks@[j].key@, crate::ast::opt_bytes(
                            toks@[j].locator,
                        )) == model[j],
                decreases raw@.len() - i,
            {
                let part = do_trim(raw[i].as_slice());
                proof {
                    assert(raw@[i as int]@ == crate::ast::bytes_list(raw@)[i as int]);
                    lemma_find_props(part@, seq![44u8], 0);
                }
                let tok = match find_sub(part, comma.as_slice(), 0) {
                    Option::Some(c) => {
                        let pn = part.len();
                        assert(c + 1 <= pn);
                        let k = do_trim(vstd::slice::slice_subrange(part, 0, c));
                        let loc = do_trim(
                            vstd::slice::slice_subrange(part, c + 1, pn),
                        );
                        CitationToken {
                            key: vstd::slice::slice_to_vec(k),
                            locator: Option::Some(vstd::slice::slice_to_vec(loc)),
                        }
                    },
                    Option::None => CitationToken {
                        key: vstd::slice::slice_to_vec(part),
                        locator: Option::None,
                    },
                };
                toks.push(tok);
                proof {
                    assert((toks@[i as int].key@, crate::ast::opt_bytes(toks@[i as int].locator))
                        == model[i as int]);
                }
                i += 1;
            }
            proof {
                assert(cite_tokens_dv(toks@) =~= model);
            }
            Option::Some((Token::Citation(toks), e + 1))
        },
    }
}

/// A bare cross-reference: `@` not followed by `[`, then at least one
/// label byte.
pub open spec fn spec_reference(s: Seq<u8>) -> Option<(Seq<u8>, int)> {
    if s.len() < 2 || s[0] != 64 || s[1] == 91 {
        Option::None
    } else {
        let e = scan_label(s, 1);
        if e == 1 {
            Option::None
        } else {
            Option::Some((s.subrange(1, e), e))
        }
    }
}

/// Recognize a bare cross-reference.
pub fn reference(s: &[u8]) -> (r: Option<(Token, usize)>)
    ensures
        match r {
            Option::Some(p) => p.0 matches Token::Reference(lab) && spec_reference(s@)
                matches Option::Some(q) && q.0 == lab@ && q.1 == p.1,
            Option::None => spec_reference(s@) is None,
        },
{
    if s.len() < 2 || s[0] != 64 || s[1] == 91 {
        return Option::None;
    }
    let e = scan_label_exec(s, 1);
    if e == 1 {
        return Option::None;
    }
    Option::Some((Token::Reference(subv(s, 1, e)), e))
}

/// An inline footnote: `^[` ... `]`.
pub open spec fn spec_footnote_inline(s: Seq<u8>) -> Option<(Seq<u8>, int)> {
    if !starts_with(s, crate::lits::lit_foot_inline_open()) {
        Option::None
    } else {
        match spec_find(s, seq![93u8], 2) {
            Option::Some(e) => Option::Some((s.subrange(2, e), e + 1)),
            Option::None => Option::None,
        }
    }
}

/// Recognize an inline footnote.
pub fn footnote_inline(s: &[u8]) -> (r: Option<(Token, usize)>)
    ensures
        match r {
            Option::Some(p) => p.0 matches Token::FootnoteInline(c) && spec_footnote_inline(s@)
                matches Option::Some(q) && q.0 == c@ && q.1 == p.1,
            Option::None => spec_footnote_inline(s@) is None,
        },
{
    if !begins_with(s, crate::lits::bytes_foot_inline_open().as_slice()) {
        return Option::None;
    }
    let close: [u8; 1] = [93];
    proof {
        assert(close@ =~= seq![93u8]);
    }
    let n = s.len();
    match find_sub(s, close.as_slice(), 2) {
        Option::Some(e) => {
            assert(e + 1 <= n);
            Option::Some((Token::FootnoteInline(subv(s, 2, e)), e + 1))
        },
        Option::None => Option::None,
    }
}

/// A footnote reference: `[^` id `]` with a word id.
pub open spec fn spec_footnote_ref(s: Seq<u8>) -> Option<(Seq<u8>, int)> {
    if !starts_with(s, crate::lits::lit_foot_ref_open()) {
        Option::None
    } else {
        let e = scan_word(s, 2);
        if e == 2 || e >= s.len() || s[e] != 93 {
            Option::None
        } else {
            Option::Some((s.subrange(2, e), e + 1))
        }
    }
}

/// Recognize a footnote reference.
pub fn footnote_ref(s: &[u8]) -> (r: Option<(Token, usize)>)
    ensures
        match r {
            Option::Some(p) => p.0 matches Token::FootnoteRef(id) && spec_footnote_ref(s@)
                matches Option::Some(q) && q.0 == id@ && q.1 == p.1,
            Option::None => spec_footnote_ref(s@) is None,
        },
{
    if !begins_with(s, crate::lits::bytes_foot_ref_open().as_slice()) {
        return Option::None;
    }
    let e = scan_word_exec(s, 2);
    if e == 2 || e >= s.len() {
        return Option::None;
    }
    if s[e] != 93 {
        return Option::None;
    }
    Option::Some((Token::FootnoteRef(subv(s, 2, e)), e + 1))
}

/// A label annotation: `{#` id `}` with a nonempty id free of `}`.
pub open spec fn spec_label_tok(s: Seq<u8>) -> Option<(Seq<u8>, int)> {
    if !starts_with(s, crate::lits::lit_label_open()) {
        Option::None
    } else {
        let e = scan_while_not_rbrace(s, 2);
        if e == 2 || e >= s.len() {
            Option::None
        } else {
            Option::Some((s.subrange(2, e), e + 1))
        }
    }
}

/// Recognize a label annotation.
pub fn label(s: &[u8]) -> (r: Option<(Token, usize)>)
    ensures
        match r {
            Option::Some(p) => p.0 matches Token::Label(id) && spec_label_tok(s@)
                matches Option::Some(q) && q.0 == id@ && q.1 == p.1,
            Option::None => spec_label_tok(s@) is None,
        },
{
    if !begins_with(s, crate::lits::bytes_label_open().as_slice()) {
        return Option::None;
    }
    let e = scan_not_rbrace(s, 2);
    if e == 2 || e >= s.len() {
        return Option::None;
    }
    Option::Some((Token::Label(subv(s, 2, e)), e + 1))
}

/// A delimited span: an opening delimiter, content up to the next
/// occurrence of the closing delimiter, and that closer.
pub open spec fn spec_delimited(s: Seq<u8>, open: Seq<u8>, close: Seq<u8>) -> Option<
    (Seq<u8>, int),
> {
    if !starts_with(s, open) {
        Option::None
    } else {
        match spec_find(s, close, open.len() as int) {
            Option::Some(e) => Option::Some(
                (s.subrange(open.len() as int, e), e + close.len()),
            ),
            Option::None => Option::None,
        }
    }
}

pub(crate) fn delimited(s: &[u8], open: &[u8], close: &[u8]) -> (r: Option<(Vec<u8>, usize)>)
    requires
        close@.len() >= 1,
    ensures
        match r {
            Option::Some(p) => spec_delimited(s@, open@, close@) matches Option::Some(q) && q.0
                == p.0@ && q.1 == p.1,
            Option::None => spec_delimited(s@, open@, close@) is None,
        },
{
    if !begins_with(s, open) {
        return Option::None;
    }
    let n = s.len();
    match find_sub(s, close, open.len()) {
        Option::Some(e) => {
            assert(e + close@.len() <= n);
            Option::Some((subv(s, open.len(), e), e + close.len()))
        },
        Option::None => Option::None,
    }
}

/// Inline code: `` ` `` content `` ` ``, with a non-backtick first byte.
pub open spec fn spec_inline_code(s: Seq<u8>) -> Option<(Seq<u8>, int)> {
    if s.len() < 2 || s[0] != 96 || s[1] == 96 {
        Option::None
    } else {
        match spec_find(s, seq![96u8], 1) {
            Option::Some(e) => Option::Some((s.subrange(1, e), e + 1)),
            Option::None => Option::None,
        }
    }
}

/// Recognize inline code.
pub fn inline_code(s: &[u8]) -> (r: Option<(Token, usize)>)
    ensures
        match r {
            Option::Some(p) => p.0 matches Token::InlineCode(c) && spec_inline_code(s@)
                matches Option::Some(q) && q.0 == c@ && q.1 == p.1,
            Option::None => spec_inline_code(s@) is None,
        },
{
    if s.len() < 2 || s[0] != 96 || s[1] == 96 {
        return Option::None;
    }
    let tick: [u8; 1] = [96];
    proof {
        assert(tick@ =~= seq![96u8]);
    }
    let n = s.len();
    match find_sub(s, tick.as_slice(), 1) {
        Option::Some(e) => {
            assert(e + 1 <= n);
            Option::Some((Token::InlineCode(subv(s, 1, e)), e + 1))
        },
        Option::None => Option::None,
    }
}

/// Inline math: `$` content `$`, where the first byte after the opener
/// is not another `$`.
pub open spec fn spec_inline_math(s: Seq<u8>) -> Option<(Seq<u8>, int)> {
    if s.len() < 1 || s[0] != 36 || (s.len() >= 2 && s[1] == 36) {
        Option::None
    } else {
        match spec_find(s, seq![36u8], 1) {
            Option::Some(e) => Option::Some((s.subrange(1, e), e + 1)),
            Option::None => Option::None,
        }
    }
}

/// Recognize inline math.
pub fn inline_math(s: &[u8]) -> (r: Option<(Token, usize)>)
    ensures
        match r {
            Option::Some(p) => p.0 matches Token::InlineMath(c) && spec_inline_math(s@)
                matches Option::Some(q) && q.0 == c@ && q.1 == p.1,
            Option::None => spec_inline_math(s@) is None,
        },
{
    if s.len() < 1 || s[0] != 36 {
        return Option::None;
    }
    if s.len() >= 2 && s[1] == 36 {
        return Option::None;
    }
    let dollar: [u8; 1] = [36];
    proof {
        assert(dollar@ =~= seq![36u8]);
    }
    let n = s.len();
    match find_sub(s, dollar.as_slice(), 1) {
        Option::Some(e) => {
            assert(e + 1 <= n);
            Option::Some((Token::InlineMath(subv(s, 1, e)), e + 1))
        },
        Option::None => Option::None,
    }
}

/// Display math in inline position: `$$` content `$$`.
pub open spec fn spec_display_math_tok(s: Seq<u8>) -> Option<(Seq<u8>, int)> {
    spec_delimited(s, crate::lits::lit_dollars2(), crate::lits::lit_dollars2())
}

/// Recognize display math.
pub fn display_math(s: &[u8]) -> (r: Option<(Token, usize)>)
    ensures
        match r {
            Option::Some(p) => p.0 matches Token::DisplayMath(c) && spec_display_math_tok(s@)
                matches Option::Some(q) && q.0 == c@ && q.1 == p.1,
            Option::None => spec_display_math_tok(s@) is None,
        },
{
    let d2 = crate::lits::bytes_dollars2();
    match delimited(s, d2.as_slice(), d2.as_slice()) {
        Option::Some(p) => Option::Some((Token::DisplayMath(p.0), p.1)),
        Option::None => Option::None,
    }
}

/// Strong emphasis: `**` content `**` or `__` content `__`.
pub open spec fn spec_strong(s: Seq<u8>) -> Option<(Seq<u8>, int)> {
    match spec_delimited(s, crate::lits::lit_stars2(), crate::lits::lit_stars2()) {
        Option::Some(p) => Option::Some(p),
        Option::None => spec_delimited(s, crate::lits::lit_unders2(), crate::lits::lit_unders2()),
    }
}

/// Recognize strong emphasis.
pub fn strong(s: &[u8]) -> (r: Option<(Token, usize)>)
    ensures
        match r {
            Option::Some(p) => p.0 matches Token::Strong(c) && spec_strong(s@)
                matches Option::Some(q) && q.0 == c@ && q.1 == p.1,
            Option::None => spec_strong(s@) is None,
        },
{
    let s2 = crate::lits::bytes_stars2();
    match delimited(s, s2.as_slice(), s2.as_slice()) {
        Option::Some(p) => Option::Some((Token::Strong(p.0), p.1)),
        Option::None => {
            let u2 = crate::lits::bytes_unders2();
            match delimited(s, u2.as_slice(), u2.as_slice()) {
                Option::Some(p) => Option::Some((Token::Strong(p.0), p.1)),
                Option::None => Option::None,
            }
        },
    }
}

/// Emphasis: `*` content `*` or `_` content `_`, where the byte after
/// the opener is not the opener repeated.
pub open spec fn spec_emphasis_one(s: Seq<u8>, d: u8) -> Option<(Seq<u8>, int)> {
    if s.len() < 2 || s[0] != d || s[1] == d {
        Option::None
    } else {
        match spec_find(s, seq![d], 1) {
            Option::Some(e) => Option::Some((s.subrange(1, e), e + 1)),
            Option::None => Option::None,
        }
    }
}

pub open spec fn spec_emphasis(s: Seq<u8>) -> Option<(Seq<u8>, int)> {
    match spec_emphasis_one(s, 42) {
        Option::Some(p) => Option::Some(p),
        Option::None => spec_emphasis_one(s, 95),
    }
}

fn emphasis_one(s: &[u8], d: u8) -> (r: Option<(Vec<u8>, usize)>)
    ensures
        match r {
            Option::Some(p) => spec_emphasis_one(s@, d) matches Option::Some(q) && q.0 == p.0@
                && q.1 == p.1,
            Option::None => spec_emphasis_one(s@, d) is None,
        },
{
    if s.len() < 2 || s[0] != d || s[1] == d {
        return Option::None;
    }
    let pat: [u8; 1] = [d];
    proof {
        assert(pat@ =~= seq![d]);
    }
    let n = s.len();
    match find_sub(s, pat.as_slice(), 1) {
        Option::Some(e) => {
            assert(e + 1 <= n);
            Option::Some((subv(s, 1, e), e + 1))
        },
        Option::None => Option::None,
    }
}

/// Recognize emphasis.
pub fn emphasis(s: &[u8]) -> (r: Option<(Token, usize)>)
    ensures
        match r {
            Option::Some(p) => p.0 matches Token::Emphasis(c) && spec_emphasis(s@)
                matches Option::Some(q) && q.0 == c@ && q.1 == p.1,
            Option::None => spec_emphasis(s@) is None,
        },
{
    match emphasis_one(s, 42) {
        Option::Some(p) => Option::Some((Token::Emphasis(p.0), p.1)),
        Option::None => {
            match emphasis_one(s, 95) {
                Option::Some(p) => Option::Some((Token::Emphasis(p.0), p.1)),
                Option::None => Option::None,
            }
        },
    }
}

} // verus!
