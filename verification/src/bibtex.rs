//! The bibliography parser: reads entries of the form
//! `@type{key, field = value, ...}`, with brace-, quote- or
//! number-valued fields, comments, and recovery past malformed entries.

use vstd::prelude::*;
use crate::ast::{BibEntry, SpecBibEntry, bytes_list, opt_bytes};
use crate::error::ParseError;
use crate::strmap::StrMap;
use crate::text::{
    do_trim, eq_bytes, find_sub, is_alnum, is_digit, is_ws, lemma_find_props, matches_at,
    spec_find, subv, to_lower, lower, trim,
};

verus! {

// ---------------------------------------------------------------------------
// Scanning
// ---------------------------------------------------------------------------

/// Skip whitespace and `%`-to-end-of-line comments.
pub open spec fn spec_skip_wsc(s: Seq<u8>, i: int) -> int
    decreases s.len() - i, 1int,
{
    if i < 0 || i >= s.len() {
        if i < 0 {
            0
        } else {
            s.len() as int
        }
    } else if is_ws(s[i]) {
        spec_skip_wsc(s, i + 1)
    } else if s[i] == 37 {
        match spec_find(s, seq![10u8], i) {
            Option::Some(nl) => if i < nl + 1 <= s.len() {
                spec_skip_wsc(s, nl + 1)
            } else {
                s.len() as int
            },
            Option::None => s.len() as int,
        }
    } else {
        i
    }
}

fn skip_wsc(s: &[u8], i: usize) -> (r: usize)
    requires
        i <= s@.len(),
    ensures
        r == spec_skip_wsc(s@, i as int),
        i <= r <= s@.len(),
    decreases s@.len() - i,
{
    proof {
        lemma_skip_wsc_bounds(s@, i as int);
    }
    if i >= s.len() {
        return i;
    }
    let b = s[i];
    if crate::text::byte_is_ws(b) {
        return skip_wsc(s, i + 1);
    }
    if b == 37 {
        let nl: [u8; 1] = [10];
        proof {
            assert(nl@ =~= seq![10u8]);
            lemma_find_props(s@, seq![10u8], i as int);
        }
        match find_sub(s, nl.as_slice(), i) {
            Option::Some(p) => {
                let n = s.len();
                assert(p + 1 <= n);
                return skip_wsc(s, p + 1);
            },
            Option::None => {
                return s.len();
            },
        }
    }
    i
}

pub proof fn lemma_skip_wsc_bounds(s: Seq<u8>, i: int)
    requires
        0 <= i <= s.len(),
    ensures
        i <= spec_skip_wsc(s, i) <= s.len(),
    decreases s.len() - i,
{
    if i < s.len() {
        if is_ws(s[i]) {
            lemma_skip_wsc_bounds(s, i + 1);
        } else if s[i] == 37 {
            lemma_find_props(s, seq![10u8], i);
            match spec_find(s, seq![10u8], i) {
                Option::Some(nl) => {
                    if i < nl + 1 <= s.len() {
                        lemma_skip_wsc_bounds(s, nl + 1);
                    }
                },
                Option::None => {},
            }
        }
    }
}

/// Skip spaces at or after `i` (any ASCII whitespace).
pub open spec fn spec_skip_ws(s: Seq<u8>, i: int) -> int
    decreases s.len() - i,
{
    if i < 0 || i >= s.len() {
        if i < 0 {
            0
        } else {
            s.len() as int
        }
    } else if is_ws(s[i]) {
        spec_skip_ws(s, i + 1)
    } else {
        i
    }
}

fn skip_ws(s: &[u8], i: usize) -> (r: usize)
    requires
        i <= s@.len(),
    ensures
        r == spec_skip_ws(s@, i as int),
        i <= r <= s@.len(),
    decreases s@.len() - i,
{
    if i >= s.len() {
        return i;
    }
    if crate::text::byte_is_ws(s[i]) {
        skip_ws(s, i + 1)
    } else {
        i
    }
}

pub open spec fn spec_scan_alnum(s: Seq<u8>, i: int) -> int
    decreases s.len() - i,
{
    if i < 0 || i >= s.len() {
        if i < 0 {
            0
        } else {
            s.len() as int
        }
    } else if is_alnum(s[i]) {
        spec_scan_alnum(s, i + 1)
    } else {
        i
    }
}

fn scan_alnum(s: &[u8], i: usize) -> (r: usize)
    requires
        i <= s@.len(),
    ensures
        r == spec_scan_alnum(s@, i as int),
        i <= r <= s@.len(),
    decreases s@.len() - i,
{
    if i >= s.len() {
        return i;
    }
    if crate::text::byte_is_alnum(s[i]) {
        scan_alnum(s, i + 1)
    } else {
        i
    }
}

/// Citation-key bytes: letters, digits, `_`, `-`, `:`, `.`.
pub open spec fn is_key_byte(b: u8) -> bool {
    is_alnum(b) || b == 95 || b == 45 || b == 58 || b == 46
}

pub open spec fn spec_scan_key(s: Seq<u8>, i: int) -> int
    decreases s.len() - i,
{
    if i < 0 || i >= s.len() {
        if i < 0 {
            0
        } else {
            s.len() as int
        }
    } else if is_key_byte(s[i]) {
        spec_scan_key(s, i + 1)
    } else {
        i
    }
}

fn scan_key(s: &[u8], i: usize) -> (r: usize)
    requires
        i <= s@.len(),
    ensures
        r == spec_scan_key(s@, i as int),
        i <= r <= s@.len(),
    decreases s@.len() - i,
{
    if i >= s.len() {
        return i;
    }
    let b = s[i];
    if crate::text::byte_is_alnum(b) || b == 95 || b == 45 || b == 58 || b == 46 {
        scan_key(s, i + 1)
    } else {
        i
    }
}

/// Field-name bytes: letters, digits, `_`, `-`.
pub open spec fn spec_scan_name(s: Seq<u8>, i: int) -> int
    decreases s.len() - i,
{
    if i < 0 || i >= s.len() {
        if i < 0 {
            0
        } else {
            s.len() as int
        }
    } else if is_alnum(s[i]) || s[i] == 95 || s[i] == 45 {
        spec_scan_name(s, i + 1)
    } else {
        i
    }
}

fn scan_name(s: &[u8], i: usize) -> (r: usize)
    requires
        i <= s@.len(),
    ensures
        r == spec_scan_name(s@, i as int),
        i <= r <= s@.len(),
    decreases s@.len() - i,
{
    if i >= s.len() {
        return i;
    }
    let b = s[i];
    if crate::text::byte_is_alnum(b) || b == 95 || b == 45 {
        scan_name(s, i + 1)
    } else {
        i
    }
}

pub open spec fn spec_scan_digits(s: Seq<u8>, i: int) -> int
    decreases s.len() - i,
{
    if i < 0 || i >= s.len() {
        if i < 0 {
            0
        } else {
            s.len() as int
        }
    } else if is_digit(s[i]) {
        spec_scan_digits(s, i + 1)
    } else {
        i
    }
}

fn scan_digits(s: &[u8], i: usize) -> (r: usize)
    requires
        i <= s@.len(),
    ensures
        r == spec_scan_digits(s@, i as int),
        i <= r <= s@.len(),
    decreases s@.len() - i,
{
    if i >= s.len() {
        return i;
    }
    let b = s[i];
    if 48 <= b && b <= 57 {
        scan_digits(s, i + 1)
    } else {
        i
    }
}

/// The position after the brace that closes a group opened before `i`
/// with current depth `depth`, or the length if unmatched.
pub open spec fn spec_brace_end(s: Seq<u8>, i: int, depth: int) -> Option<int>
    decreases s.len() - i,
{
    if i < 0 || i >= s.len() {
        Option::None
    } else if s[i] == 123 {
        spec_brace_end(s, i + 1, depth + 1)
    } else if s[i] == 125 {
        if depth == 1 {
            Option::Some(i)
        } else {
            spec_brace_end(s, i + 1, depth - 1)
        }
    } else {
        spec_brace_end(s, i + 1, depth)
    }
}

fn brace_end(s: &[u8], i: usize, depth: usize) -> (r: Option<usize>)
    requires
        1 <= depth <= i,
        i <= s@.len(),
    ensures
        match r {
            Option::Some(j) => spec_brace_end(s@, i as int, depth as int) == Option::Some(
                j as int,
            ) && i <= j < s@.len(),
            Option::None => spec_brace_end(s@, i as int, depth as int) is None,
        },
    decreases s@.len() - i,
{
    let n = s.len();
    if i >= n {
        return Option::None;
    }
    let b = s[i];
    if b == 123 {
        assert(depth + 1 <= n);
        brace_end(s, i + 1, depth + 1)
    } else if b == 125 {
        if depth == 1 {
            Option::Some(i)
        } else {
            brace_end(s, i + 1, depth - 1)
        }
    } else {
        brace_end(s, i + 1, depth)
    }
}

/// The closing `"` of a quoted value, honouring backslash escapes, from
/// `i`; `esc` says whether the previous byte was an unconsumed escape.
pub open spec fn spec_quote_end(s: Seq<u8>, i: int, esc: bool) -> Option<int>
    decreases s.len() - i,
{
    if i < 0 || i >= s.len() {
        Option::None
    } else if esc {
        spec_quote_end(s, i + 1, false)
    } else if s[i] == 92 {
        spec_quote_end(s, i + 1, true)
    } else if s[i] == 34 {
        Option::Some(i)
    } else {
        spec_quote_end(s, i + 1, false)
    }
}

fn quote_end(s: &[u8], i: usize, esc: bool) -> (r: Option<usize>)
    requires
        i <= s@.len(),
    ensures
        match r {
            Option::Some(j) => spec_quote_end(s@, i as int, esc) == Option::Some(j as int) && i
                <= j < s@.len(),
            Option::None => spec_quote_end(s@, i as int, esc) is None,
        },
    decreases s@.len() - i,
{
    if i >= s.len() {
        return Option::None;
    }
    if esc {
        return quote_end(s, i + 1, false);
    }
    let b = s[i];
    if b == 92 {
        quote_end(s, i + 1, true)
    } else if b == 34 {
        Option::Some(i)
    } else {
        quote_end(s, i + 1, false)
    }
}

// ---------------------------------------------------------------------------
// Value cleaning
// ---------------------------------------------------------------------------

/// Strip the braces used to preserve capitalization, keeping braces that
/// open a command (`{\\`) and their closers.
pub open spec fn spec_strip_braces(v: Seq<u8>, i: int, depth: int) -> Seq<u8>
    decreases v.len() - i,
{
    if i < 0 || i >= v.len() {
        Seq::empty()
    } else if v[i] == 123 {
        if i + 1 < v.len() && v[i + 1] == 92 {
            seq![123u8] + spec_strip_braces(v, i + 1, depth + 1)
        } else {
            spec_strip_braces(v, i + 1, depth)
        }
    } else if v[i] == 125 {
        if depth > 0 {
            seq![125u8] + spec_strip_braces(v, i + 1, depth - 1)
        } else {
            spec_strip_braces(v, i + 1, depth)
        }
    } else {
        seq![v[i]] + spec_strip_braces(v, i + 1, depth)
    }
}

fn strip_braces(v: &[u8], i: usize, depth: usize) -> (r: Vec<u8>)
    requires
        i <= v@.len(),
        depth <= i,
    ensures
        r@ == spec_strip_braces(v@, i as int, depth as int),
    decreases v@.len() - i,
{
    let n = v.len();
    let mut out: Vec<u8> = Vec::new();
    if i >= n {
        proof {
            assert(out@ =~= spec_strip_braces(v@, i as int, depth as int));
        }
        return out;
    }
    let b = v[i];
    if b == 123 {
        if i + 1 < n && v[i + 1] == 92 {
            assert(depth + 1 <= i + 1);
            let mut tail = strip_braces(v, i + 1, depth + 1);
            out.push(123);
            out.append(&mut tail);
            proof {
                assert(out@ =~= spec_strip_braces(v@, i as int, depth as int));
            }
            out
        } else {
            strip_braces(v, i + 1, depth)
        }
    } else if b == 125 {
        if depth > 0 {
            let mut tail = strip_braces(v, i + 1, depth - 1);
            out.push(125);
            out.append(&mut tail);
            proof {
                assert(out@ =~= spec_strip_braces(v@, i as int, depth as int));
            }
            out
        } else {
            strip_braces(v, i + 1, depth)
        }
    } else {
        let mut tail = strip_braces(v, i + 1, depth);
        out.push(b);
        out.append(&mut tail);
        proof {
            assert(out@ =~= spec_strip_braces(v@, i as int, depth as int));
        }
        out
    }
}

/// Collapse whitespace runs to single spaces and drop leading and
/// trailing whitespace.
pub open spec fn spec_norm_ws(v: Seq<u8>, i: int, pending: bool) -> Seq<u8>
    decreases v.len() - i,
{
    if i < 0 || i >= v.len() {
        Seq::empty()
    } else if is_ws(v[i]) {
        spec_norm_ws(v, i + 1, true)
    } else if pending {
        seq![32u8, v[i]] + spec_norm_ws(v, i + 1, false)
    } else {
        seq![v[i]] + spec_norm_ws(v, i + 1, false)
    }
}

fn norm_ws(v: &[u8], i: usize, pending: bool) -> (r: Vec<u8>)
    requires
        i <= v@.len(),
    ensures
        r@ == spec_norm_ws(v@, i as int, pending),
    decreases v@.len() - i,
{
    let mut out: Vec<u8> = Vec::new();
    if i >= v.len() {
        proof {
            assert(out@ =~= spec_norm_ws(v@, i as int, pending));
        }
        return out;
    }
    let b = v[i];
    if crate::text::byte_is_ws(b) {
        norm_ws(v, i + 1, true)
    } else {
        let mut tail = norm_ws(v, i + 1, false);
        if pending {
            out.push(32);
        }
        out.push(b);
        out.append(&mut tail);
        proof {
            assert(out@ =~= spec_norm_ws(v@, i as int, pending));
        }
        out
    }
}

/// Clean a field value: strip capitalization braces, then normalize the
/// whitespace.  The first non-whitespace byte never gets a leading
/// space, so the result starts with text.
pub open spec fn spec_clean_value(v: Seq<u8>) -> Seq<u8> {
    spec_norm_ws(spec_strip_braces(v, 0, 0), 0, false)
}

/// Clean a raw field value.
pub fn clean_bibtex_value(v: &[u8]) -> (r: Vec<u8>)
    ensures
        r@ == spec_clean_value(v@),
{
    let stripped = strip_braces(v, 0, 0);
    norm_ws(stripped.as_slice(), 0, false)
}

/// Authors separated by the word `and`, trimmed, empties dropped.
pub open spec fn spec_authors(v: Seq<u8>) -> Seq<Seq<u8>> {
    let parts = crate::lexer::spec_split_str(v, crate::lits::lit_sp_and_sp());
    Seq::new(parts.len(), |i: int| if 0 <= i < parts.len() {
        trim(parts[i])
    } else {
        arbitrary()
    }).filter(|a: Seq<u8>| a.len() > 0)
}

/// Split an author list on `" and "`.
pub fn parse_authors(v: &[u8]) -> (r: Vec<Vec<u8>>)
    ensures
        bytes_list(r@) == spec_authors(v@),
{
    let sep = crate::lits::bytes_sp_and_sp();
    let parts = crate::lexer::split_str(v, sep.as_slice());
    let ghost trimmed = Seq::new(
        crate::lexer::spec_split_str(v@, crate::lits::lit_sp_and_sp()).len(),
        |i: int| if 0 <= i < crate::lexer::spec_split_str(
            v@,
            crate::lits::lit_sp_and_sp(),
        ).len() {
            trim(crate::lexer::spec_split_str(v@, crate::lits::lit_sp_and_sp())[i])
        } else {
            arbitrary()
        },
    );
    let mut out: Vec<Vec<u8>> = Vec::new();
    let mut i: usize = 0;
    proof {
        assert(trimmed.subrange(0, 0).filter(|a: Seq<u8>| a.len() > 0) =~= Seq::<Seq<u8>>::empty())
            by {
            reveal_with_fuel(Seq::filter, 2);
            assert(trimmed.subrange(0, 0) =~= Seq::<Seq<u8>>::empty());
        }
        assert(bytes_list(out@) =~= trimmed.subrange(0, 0).filter(|a: Seq<u8>| a.len() > 0));
    }
    while i < parts.len()
        invariant
            0 <= i <= parts@.len(),
            bytes_list(parts@) == crate::lexer::spec_split_str(v@, crate::lits::lit_sp_and_sp()),
            trimmed.len() == parts@.len(),
            forall|j: int| 0 <= j < parts@.len() ==> trimmed[j] == trim(#[trigger] parts@[j]@),
            bytes_list(out@) == trimmed.subrange(0, i as int).filter(|a: Seq<u8>| a.len() > 0),
        decreases parts@.len() - i,
    {
        let a = do_trim(parts[i].as_slice());
        proof {
            assert(parts@[i as int]@ == bytes_list(parts@)[i as int]);
            assert(trimmed.subrange(0, i + 1).drop_last() =~= trimmed.subrange(0, i as int));
            assert(trimmed.subrange(0, i + 1).last() == trimmed[i as int]);
            reveal_with_fuel(Seq::filter, 2);
        }
        if a.len() > 0 {
            out.push(vstd::slice::slice_to_vec(a));
            proof {
                assert(bytes_list(out@) =~= trimmed.subrange(0, i as int).filter(
                    |x: Seq<u8>| x.len() > 0,
                ).push(trimmed[i as int]));
            }
        }
        i += 1;
    }
    proof {
        assert(trimmed.subrange(0, parts@.len() as int) =~= trimmed);
    }
    out
}

// ---------------------------------------------------------------------------
// Values and fields
// ---------------------------------------------------------------------------

/// A field value: brace-delimited (cleaned), quote-delimited (cleaned),
/// or a bare number; returns the value and the next position.
pub open spec fn spec_value(s: Seq<u8>, i: int) -> Option<(Seq<u8>, int)> {
    if 0 <= i < s.len() && s[i] == 123 {
        match spec_brace_end(s, i + 1, 1) {
            Option::Some(e) => if i + 1 <= e <= s.len() {
                Option::Some((spec_clean_value(s.subrange(i + 1, e)), e + 1))
            } else {
                Option::None
            },
            Option::None => Option::Some(
                (
                    spec_clean_value(Seq::empty()),
                    if i + 2 <= s.len() {
                        i + 2
                    } else {
                        s.len() as int
                    },
                ),
            ),
        }
    } else if 0 <= i < s.len() && s[i] == 34 {
        match spec_quote_end(s, i + 1, false) {
            Option::Some(e) => if i + 1 <= e <= s.len() {
                Option::Some((spec_clean_value(s.subrange(i + 1, e)), e + 1))
            } else {
                Option::None
            },
            Option::None => Option::Some(
                (
                    spec_clean_value(Seq::empty()),
                    if i + 2 <= s.len() {
                        i + 2
                    } else {
                        s.len() as int
                    },
                ),
            ),
        }
    } else if 0 <= i < s.len() && is_digit(s[i]) {
        Option::Some((s.subrange(i, spec_scan_digits(s, i)), spec_scan_digits(s, i)))
    } else {
        Option::None
    }
}

fn parse_value(s: &[u8], i: usize) -> (r: Option<(Vec<u8>, usize)>)
    requires
        i <= s@.len(),
    ensures
        match r {
            Option::Some(p) => spec_value(s@, i as int) == Option::Some((p.0@, p.1 as int)) && i
                < p.1 <= s@.len(),
            Option::None => spec_value(s@, i as int) is None,
        },
{
    let n = s.len();
    if i >= n {
        return Option::None;
    }
    let b = s[i];
    if b == 123 {
        match brace_end(s, i + 1, 1) {
            Option::Some(e) => {
                let v = clean_bibtex_value(vstd::slice::slice_subrange(s, i + 1, e));
                Option::Some((v, e + 1))
            },
            Option::None => {
                let v = clean_bibtex_value(vstd::slice::slice_subrange(s, i, i));
                proof {
                    assert(s@.subrange(i as int, i as int) =~= Seq::<u8>::empty());
                }
                let nx = if n - i >= 2 {
                    i + 2
                } else {
                    n
                };
                Option::Some((v, nx))
            },
        }
    } else if b == 34 {
        match quote_end(s, i + 1, false) {
            Option::Some(e) => {
                let v = clean_bibtex_value(vstd::slice::slice_subrange(s, i + 1, e));
                Option::Some((v, e + 1))
            },
            Option::None => {
                let v = clean_bibtex_value(vstd::slice::slice_subrange(s, i, i));
                proof {
                    assert(s@.subrange(i as int, i as int) =~= Seq::<u8>::empty());
                }
                let nx = if n - i >= 2 {
                    i + 2
                } else {
                    n
                };
                Option::Some((v, nx))
            },
        }
    } else if 48 <= b && b <= 57 {
        let d = scan_digits(s, i);
        proof {
            assert(is_digit(s@[i as int]));
            assert(spec_scan_digits(s@, i as int) == spec_scan_digits(s@, i + 1));
            lemma_scan_digits_lb(s@, i + 1);
        }
        Option::Some((subv(s, i, d), d))
    } else {
        Option::None
    }
}

/// The fields of an entry, in source order with lowercased names, and
/// the position where field parsing stopped.
pub open spec fn spec_fields(s: Seq<u8>, i: int) -> (Seq<(Seq<u8>, Seq<u8>)>, int)
    decreases s.len() - i,
{
    let j = spec_skip_ws(s, i);
    if j < 0 || j >= s.len() || s[j] == 125 {
        (
            Seq::empty(),
            if j < 0 {
                0int
            } else if j > s.len() {
                s.len() as int
            } else {
                j
            },
        )
    } else {
        let ne = spec_scan_name(s, j);
        if ne == j {
            (Seq::empty(), j)
        } else {
            let k = spec_skip_ws(s, ne);
            if !(k < s.len() && s[k] == 61) {
                (Seq::empty(), j)
            } else {
                let v = spec_skip_ws(s, k + 1);
                match spec_value(s, v) {
                    Option::None => (Seq::empty(), j),
                    Option::Some((val, nx)) => {
                        let t = spec_skip_ws(s, nx);
                        let nx2: int = if t < s.len() && s[t] == 44 {
                            t + 1
                        } else {
                            t
                        };
                        if i < nx2 <= s.len() {
                            let rest = spec_fields(s, nx2);
                            (seq![(lower(s.subrange(j, ne)), val)] + rest.0, rest.1)
                        } else {
                            (Seq::empty(), j)
                        }
                    },
                }
            }
        }
    }
}

fn parse_fields(s: &[u8], i: usize) -> (r: (Vec<(Vec<u8>, Vec<u8>)>, usize))
    requires
        i <= s@.len(),
    ensures
        ({
            let sp = spec_fields(s@, i as int);
            &&& r.0@.len() == sp.0.len()
            &&& forall|k: int|
                0 <= k < r.0@.len() ==> (#[trigger] r.0@[k].0@, r.0@[k].1@) == sp.0[k]
            &&& r.1 as int == sp.1
            &&& i <= r.1 <= s@.len()
        }),
    decreases s@.len() - i,
{
    proof {
        lemma_skip_ws_bounds(s@, i as int);
    }
    let mut out: Vec<(Vec<u8>, Vec<u8>)> = Vec::new();
    let j = skip_ws(s, i);
    if j >= s.len() || s[j] == 125 {
        return (out, j);
    }
    let ne = scan_name(s, j);
    if ne == j {
        return (out, j);
    }
    let k = skip_ws(s, ne);
    if !(k < s.len() && s[k] == 61) {
        return (out, j);
    }
    let v = skip_ws(s, k + 1);
    match parse_value(s, v) {
        Option::None => (out, j),
        Option::Some((val, nx)) => {
            let t = skip_ws(s, nx);
            let nx2: usize = if t < s.len() && s[t] == 44 {
                t + 1
            } else {
                t
            };
            let name = to_lower(vstd::slice::slice_subrange(s, j, ne));
            let (mut rest, fin) = parse_fields(s, nx2);
            let ghost rest_view = rest@;
            out.push((name, val));
            out.append(&mut rest);
            proof {
                let sp = spec_fields(s@, i as int);
                assert forall|q: int|
                    0 <= q < out@.len() implies (#[trigger] out@[q].0@, out@[q].1@) == sp.0[q] by {
                    if q > 0 {
                        assert(out@[q] == rest_view[q - 1]);
                    }
                }
            }
            (out, fin)
        },
    }
}

pub proof fn lemma_scan_digits_lb(s: Seq<u8>, i: int)
    requires
        0 <= i <= s.len(),
    ensures
        spec_scan_digits(s, i) >= i,
    decreases s.len() - i,
{
    if i < s.len() && is_digit(s[i]) {
        lemma_scan_digits_lb(s, i + 1);
    }
}

pub proof fn lemma_skip_ws_bounds(s: Seq<u8>, i: int)
    requires
        0 <= i <= s.len(),
    ensures
        i <= spec_skip_ws(s, i) <= s.len(),
    decreases s.len() - i,
{
    if i < s.len() && is_ws(s[i]) {
        lemma_skip_ws_bounds(s, i + 1);
    }
}

// ---------------------------------------------------------------------------
// Entries and the whole bibliography
// ---------------------------------------------------------------------------

/// The outcome of reading one `@`-entry.
pub enum BibStep {
    /// Malformed: recover by scanning for the next `@`.
    Fail,
    /// A comment, preamble or string entry: nothing recorded.
    Skip(int),
    /// A recorded entry: key, lowercased type, fields, next position.
    Got(Seq<u8>, Seq<u8>, Seq<(Seq<u8>, Seq<u8>)>, int),
}

pub open spec fn spec_entry(s: Seq<u8>, i: int) -> BibStep {
    let t0 = i + 1;
    let te = spec_scan_alnum(s, t0);
    if te == t0 {
        BibStep::Fail
    } else {
        let etype = lower(s.subrange(t0, te));
        let j = spec_skip_ws(s, te);
        if etype == crate::lits::lit_bib_comment() || etype == crate::lits::lit_bib_preamble()
            || etype == crate::lits::lit_bib_string() {
            if j < s.len() && s[j] == 123 {
                match spec_brace_end(s, j + 1, 1) {
                    Option::Some(e) => BibStep::Skip(e + 1),
                    Option::None => BibStep::Skip(s.len() as int),
                }
            } else {
                BibStep::Fail
            }
        } else {
            if !(j < s.len() && s[j] == 123) {
                BibStep::Fail
            } else {
                let k0 = spec_skip_ws(s, j + 1);
                let ke = spec_scan_key(s, k0);
                if ke == k0 {
                    BibStep::Fail
                } else {
                    let c = spec_skip_ws(s, ke);
                    if !(c < s.len() && s[c] == 44) {
                        BibStep::Fail
                    } else {
                        let f = spec_fields(s, c + 1);
                        let g = spec_skip_ws(s, f.1);
                        if !(g < s.len() && s[g] == 125) {
                            BibStep::Fail
                        } else {
                            BibStep::Got(s.subrange(k0, ke), etype, f.0, g + 1)
                        }
                    }
                }
            }
        }
    }
}

/// The last value given for a field name, if any.
pub open spec fn spec_last_field(fields: Seq<(Seq<u8>, Seq<u8>)>, name: Seq<u8>) -> Option<Seq<u8>>
    decreases fields.len(),
{
    if fields.len() == 0 {
        Option::None
    } else if fields.last().0 == name {
        Option::Some(fields.last().1)
    } else {
        spec_last_field(fields.drop_last(), name)
    }
}

fn last_field(fields: &Vec<(Vec<u8>, Vec<u8>)>, name: &[u8]) -> (r: Option<Vec<u8>>)
    ensures
        opt_bytes(r) == spec_last_field(fields_view(fields@), name@),
{
    let ghost model = fields_view(fields@);
    proof {
        assert(model.subrange(0, model.len() as int) =~= model);
    }
    let mut i: usize = fields.len();
    while i > 0
        invariant
            0 <= i <= fields@.len(),
            model == fields_view(fields@),
            model.len() == fields@.len(),
            spec_last_field(model, name@) == spec_last_field(model.subrange(0, i as int), name@),
        decreases i,
    {
        proof {
            assert(model.subrange(0, i as int).last() == model[i - 1]);
            assert(model.subrange(0, i as int).drop_last() =~= model.subrange(0, i - 1));
            assert(model[i - 1] == (fields@[i - 1].0@, fields@[i - 1].1@));
        }
        if eq_bytes(fields[i - 1].0.as_slice(), name) {
            return Option::Some(crate::ast::copy_bytes(&fields[i - 1].1));
        }
        i -= 1;
    }
    proof {
        assert(model.subrange(0, 0) =~= Seq::<(Seq<u8>, Seq<u8>)>::empty());
    }
    Option::None
}

/// The entry list of a field vector, viewed.
pub open spec fn fields_view(v: Seq<(Vec<u8>, Vec<u8>)>) -> Seq<(Seq<u8>, Seq<u8>)> {
    Seq::new(
        v.len(),
        |i: int| if 0 <= i < v.len() {
            (v[i].0@, v[i].1@)
        } else {
            arbitrary()
        },
    )
}

/// Is the name one of the dedicated entry fields?
pub open spec fn is_std_field(n: Seq<u8>) -> bool {
    ||| n == crate::lits::lit_bib_title()
    ||| n == crate::lits::lit_bib_author()
    ||| n == crate::lits::lit_bib_year()
    ||| n == crate::lits::lit_bib_journal()
    ||| n == crate::lits::lit_bib_booktitle()
    ||| n == crate::lits::lit_bib_publisher()
    ||| n == crate::lits::lit_bib_volume()
    ||| n == crate::lits::lit_bib_number()
    ||| n == crate::lits::lit_bib_pages()
    ||| n == crate::lits::lit_bib_doi()
    ||| n == crate::lits::lit_bib_url()
}

fn std_field(n: &[u8]) -> (r: bool)
    ensures
        r == is_std_field(n@),
{
    eq_bytes(n, crate::lits::bytes_bib_title().as_slice()) || eq_bytes(
        n,
        crate::lits::bytes_bib_author().as_slice(),
    ) || eq_bytes(n, crate::lits::bytes_bib_year().as_slice()) || eq_bytes(
        n,
        crate::lits::bytes_bib_journal().as_slice(),
    ) || eq_bytes(n, crate::lits::bytes_bib_booktitle().as_slice()) || eq_bytes(
        n,
        crate::lits::bytes_bib_publisher().as_slice(),
    ) || eq_bytes(n, crate::lits::bytes_bib_volume().as_slice()) || eq_bytes(
        n,
        crate::lits::bytes_bib_pages().as_slice(),
    ) || eq_bytes(n, crate::lits::bytes_bib_number().as_slice()) || eq_bytes(
        n,
        crate::lits::bytes_bib_doi().as_slice(),
    ) || eq_bytes(n, crate::lits::bytes_bib_url().as_slice())
}

/// The model of one assembled entry.
pub open spec fn spec_build_entry(
    key: Seq<u8>,
    etype: Seq<u8>,
    fields: Seq<(Seq<u8>, Seq<u8>)>,
) -> SpecBibEntry {
    SpecBibEntry {
        key,
        entry_type: etype,
        title: spec_last_field(fields, crate::lits::lit_bib_title()),
        authors: match spec_last_field(fields, crate::lits::lit_bib_author()) {
            Option::Some(v) => spec_authors(v),
            Option::None => Seq::empty(),
        },
        year: spec_last_field(fields, crate::lits::lit_bib_year()),
        journal: spec_last_field(fields, crate::lits::lit_bib_journal()),
        booktitle: spec_last_field(fields, crate::lits::lit_bib_booktitle()),
        publisher: spec_last_field(fields, crate::lits::lit_bib_publisher()),
        volume: spec_last_field(fields, crate::lits::lit_bib_volume()),
        number: spec_last_field(fields, crate::lits::lit_bib_number()),
        pages: spec_last_field(fields, crate::lits::lit_bib_pages()),
        doi: spec_last_field(fields, crate::lits::lit_bib_doi()),
        url: spec_last_field(fields, crate::lits::lit_bib_url()),
        extra: spec_extra_fold(fields, 0, Map::empty()),
    }
}

/// The extra-field table as a left fold: walk the fields in order,
/// inserting every non-dedicated one.
pub open spec fn spec_extra_fold(
    fields: Seq<(Seq<u8>, Seq<u8>)>,
    i: int,
    acc: Map<Seq<u8>, Seq<u8>>,
) -> Map<Seq<u8>, Seq<u8>>
    decreases fields.len() - i,
{
    if i < 0 || i >= fields.len() {
        acc
    } else if is_std_field(fields[i].0) {
        spec_extra_fold(fields, i + 1, acc)
    } else {
        spec_extra_fold(fields, i + 1, acc.insert(fields[i].0, fields[i].1))
    }
}

fn build_entry(key: Vec<u8>, etype: Vec<u8>, fields: Vec<(Vec<u8>, Vec<u8>)>) -> (r: BibEntry)
    ensures
        r.deep_view() == spec_build_entry(key@, etype@, fields_view(fields@)),
{
    broadcast use crate::ast::lemma_bytes_deep_view;

    let ghost model = fields_view(fields@);
    let authors: Vec<Vec<u8>> = match last_field(&fields, crate::lits::bytes_bib_author().as_slice()) {
        Option::Some(v) => parse_authors(v.as_slice()),
        Option::None => Vec::new(),
    };
    let mut extra: StrMap<Vec<u8>> = StrMap::new();
    let mut i: usize = 0;
    while i < fields.len()
        invariant
            0 <= i <= fields@.len(),
            model == fields_view(fields@),
            model.len() == fields@.len(),
            spec_extra_fold(model, 0, Map::empty()) == spec_extra_fold(model, i as int, extra@),
        decreases fields@.len() - i,
    {
        proof {
            assert(model[i as int] == (fields@[i as int].0@, fields@[i as int].1@));
        }
        let ghost prev = extra@;
        if !std_field(fields[i].0.as_slice()) {
            let k2 = crate::ast::copy_bytes(&fields[i].0);
            let v2 = crate::ast::copy_bytes(&fields[i].1);
            let ghost k2v = k2@;
            let ghost v2v = v2@;
            extra.insert(k2, v2);
            proof {
                assert(v2.deep_view() == v2v) by {
                    assert(v2.deep_view() =~= v2v);
                }
                assert(extra@ == prev.insert(k2v, v2v));
                assert(k2v == model[i as int].0 && v2v == model[i as int].1);
                assert(extra@ == prev.insert(model[i as int].0, model[i as int].1));
                assert(spec_extra_fold(model, i as int, prev) == spec_extra_fold(
                    model,
                    i + 1,
                    prev.insert(model[i as int].0, model[i as int].1),
                ));
            }
        } else {
            proof {
                assert(spec_extra_fold(model, i as int, prev) == spec_extra_fold(
                    model,
                    i + 1,
                    prev,
                ));
            }
        }
        i += 1;
    }
    let r = BibEntry {
        key,
        entry_type: etype,
        title: last_field(&fields, crate::lits::bytes_bib_title().as_slice()),
        authors,
        year: last_field(&fields, crate::lits::bytes_bib_year().as_slice()),
        journal: last_field(&fields, crate::lits::bytes_bib_journal().as_slice()),
        booktitle: last_field(&fields, crate::lits::bytes_bib_booktitle().as_slice()),
        publisher: last_field(&fields, crate::lits::bytes_bib_publisher().as_slice()),
        volume: last_field(&fields, crate::lits::bytes_bib_volume().as_slice()),
        number: last_field(&fields, crate::lits::bytes_bib_number().as_slice()),
        pages: last_field(&fields, crate::lits::bytes_bib_pages().as_slice()),
        doi: last_field(&fields, crate::lits::bytes_bib_doi().as_slice()),
        url: last_field(&fields, crate::lits::bytes_bib_url().as_slice()),
        extra,
    };
    proof {
        assert(bytes_list(r.authors@) =~= spec_build_entry(key@, etype@, model).authors);
    }
    r
}

/// One step of the top-level loop: read the entry at `i` (where
/// `s[i] == 64`).
fn parse_entry(s: &[u8], i: usize) -> (r: Option<(Option<(Vec<u8>, Vec<u8>, Vec<(Vec<u8>, Vec<u8>)>)>, usize)>)
    requires
        i < s@.len(),
    ensures
        match r {
            Option::Some(p) => match p.0 {
                Option::Some(got) => spec_entry(s@, i as int) matches BibStep::Got(k, t, f, nx)
                    && got.0@ == k && got.1@ == t && fields_view(got.2@) == f && p.1 as int == nx
                    && i < p.1 <= s@.len(),
                Option::None => spec_entry(s@, i as int) matches BibStep::Skip(nx) && p.1 as int
                    == nx && i < p.1 <= s@.len(),
            },
            Option::None => spec_entry(s@, i as int) is Fail,
        },
{
    let n = s.len();
    let te = scan_alnum(s, i + 1);
    if te == i + 1 {
        return Option::None;
    }
    let etype = to_lower(vstd::slice::slice_subrange(s, i + 1, te));
    let j = skip_ws(s, te);
    let is_special = eq_bytes(etype.as_slice(), crate::lits::bytes_bib_comment().as_slice())
        || eq_bytes(etype.as_slice(), crate::lits::bytes_bib_preamble().as_slice()) || eq_bytes(
        etype.as_slice(),
        crate::lits::bytes_bib_string().as_slice(),
    );
    if is_special {
        if j < n && s[j] == 123 {
            match brace_end(s, j + 1, 1) {
                Option::Some(e) => {
                    return Option::Some((Option::None, e + 1));
                },
                Option::None => {
                    return Option::Some((Option::None, n));
                },
            }
        }
        return Option::None;
    }
    if !(j < n && s[j] == 123) {
        return Option::None;
    }
    let k0 = skip_ws(s, j + 1);
    let ke = scan_key(s, k0);
    if ke == k0 {
        return Option::None;
    }
    let key = subv(s, k0, ke);
    let c = skip_ws(s, ke);
    if !(c < n && s[c] == 44) {
        return Option::None;
    }
    let (fields, fj) = parse_fields(s, c + 1);
    let g = skip_ws(s, fj);
    if !(g < n && s[g] == 125) {
        return Option::None;
    }
    proof {
        assert(fields_view(fields@) =~= spec_fields(s@, c + 1).0);
    }
    Option::Some((Option::Some((key, etype, fields)), g + 1))
}

/// The bibliography map built by walking the input from `i`.
pub open spec fn spec_bib_loop(s: Seq<u8>, i: int, acc: Map<Seq<u8>, SpecBibEntry>) -> Map<
    Seq<u8>,
    SpecBibEntry,
>
    decreases s.len() - i,
{
    let j = spec_skip_wsc(s, i);
    if j < 0 || j >= s.len() || j < i {
        acc
    } else if s[j] == 64 {
        match spec_entry(s, j) {
            BibStep::Got(k, t, f, nx) => if j < nx <= s.len() {
                spec_bib_loop(s, nx, acc.insert(k, spec_build_entry(k, t, f)))
            } else {
                acc
            },
            BibStep::Skip(nx) => if j < nx <= s.len() {
                spec_bib_loop(s, nx, acc)
            } else {
                acc
            },
            BibStep::Fail => match spec_find(s, seq![64u8], j + 1) {
                Option::Some(p) => if j < p <= s.len() {
                    spec_bib_loop(s, p, acc)
                } else {
                    acc
                },
                Option::None => acc,
            },
        }
    } else {
        match spec_find(s, seq![64u8], j) {
            Option::Some(p) => if j < p <= s.len() {
                spec_bib_loop(s, p, acc)
            } else {
                acc
            },
            Option::None => acc,
        }
    }
}

fn bib_loop(s: &[u8], i: usize, entries: &mut StrMap<BibEntry>)
    requires
        i <= s@.len(),
    ensures
        final(entries)@ == spec_bib_loop(s@, i as int, old(entries)@),
    decreases s@.len() - i,
{
    proof {
        lemma_skip_wsc_bounds(s@, i as int);
    }
    let j = skip_wsc(s, i);
    if j >= s.len() {
        return ;
    }
    let at: [u8; 1] = [64];
    proof {
        assert(at@ =~= seq![64u8]);
    }
    if s[j] == 64 {
        match parse_entry(s, j) {
            Option::Some((step, nx)) => {
                match step {
                    Option::Some((key, etype, fields)) => {
                        let entry = build_entry(crate::ast::copy_bytes(&key), etype, fields);
                        entries.insert(key, entry);
                        bib_loop(s, nx, entries);
                    },
                    Option::None => {
                        bib_loop(s, nx, entries);
                    },
                }
            },
            Option::None => {
                proof {
                    lemma_find_props(s@, seq![64u8], j + 1);
                }
                match find_sub(s, at.as_slice(), j + 1) {
                    Option::Some(p) => {
                        bib_loop(s, p, entries);
                    },
                    Option::None => {},
                }
            },
        }
    } else {
        proof {
            lemma_find_props(s@, seq![64u8], j as int);
        }
        match find_sub(s, at.as_slice(), j) {
            Option::Some(p) => {
                proof {
                    assert(matches_at(s@, seq![64u8], p as int));
                    assert(s@.subrange(p as int, p + 1)[0] == s@[p as int]);
                    assert(p != j);
                }
                bib_loop(s, p, entries);
            },
            Option::None => {},
        }
    }
}

/// Parse a bibliography: a map from citation keys to their entries.
/// Malformed entries are skipped, recovering at the next `@`.
pub fn parse_bibtex(input: &[u8]) -> (r: Result<StrMap<BibEntry>, ParseError>)
    ensures
        r matches Result::Ok(m) && m@ == spec_bib_loop(
            input@,
            0,
            Map::<Seq<u8>, SpecBibEntry>::empty(),
        ),
{
    let mut entries: StrMap<BibEntry> = StrMap::new();
    bib_loop(input, 0, &mut entries);
    Result::Ok(entries)
}

} // verus!
