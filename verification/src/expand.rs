//! User-macro expansion: rewrites math-mode text, substituting macro
//! templates with positional arguments, iterated to a fixed point with a
//! bounded number of full passes.

use vstd::prelude::*;
use crate::ast::{
    Block, Document, Inline, ListItem, Macro, SpecBlock, SpecInline, SpecListItem, SpecMacro,
    block_dv, blocks_dv, bytes_list, cells_dv, inline_dv, inlines_dv, items_dv, list_item_dv,
    macro_dv, metadata_dv, opt_inlines_dv, rows_dv,
};
use crate::strmap::StrMap;
use crate::text::{
    dec_digits, do_trim_start, eq_bytes, find_sub, fmt_usize, is_digit, lemma_find_props,
    spec_find, subv, trim_start,
};

verus! {

/// The bound on full substitution passes.
pub open spec fn pass_bound() -> nat {
    10
}

// ---------------------------------------------------------------------------
// Brace-group scanning
// ---------------------------------------------------------------------------

/// Position of the brace that brings the nesting depth back to zero,
/// scanning from `i` with current depth `depth`.
pub open spec fn spec_scan_brace(s: Seq<u8>, i: int, depth: int) -> Option<int>
    decreases s.len() - i,
{
    if i < 0 || i >= s.len() {
        Option::None
    } else if s[i] == 123 {
        spec_scan_brace(s, i + 1, depth + 1)
    } else if s[i] == 125 {
        if depth == 1 {
            Option::Some(i)
        } else {
            spec_scan_brace(s, i + 1, depth - 1)
        }
    } else {
        spec_scan_brace(s, i + 1, depth)
    }
}

pub proof fn lemma_scan_brace_bounds(s: Seq<u8>, i: int, depth: int)
    requires
        0 <= i,
    ensures
        spec_scan_brace(s, i, depth) matches Option::Some(j) ==> i <= j < s.len(),
    decreases s.len() - i,
{
    if 0 <= i < s.len() {
        lemma_scan_brace_bounds(s, i + 1, depth + 1);
        lemma_scan_brace_bounds(s, i + 1, depth - 1);
        lemma_scan_brace_bounds(s, i + 1, depth);
    }
}

/// Scan from `i` at positive depth `depth`; the depth stays positive until
/// the matching brace, so a machine integer suffices.
fn scan_brace_from(s: &[u8], i: usize, depth: usize) -> (r: Option<usize>)
    requires
        1 <= depth <= i,
    ensures
        match r {
            Option::Some(j) => spec_scan_brace(s@, i as int, depth as int) == Option::Some(
                j as int,
            ) && i <= j < s@.len(),
            Option::None => spec_scan_brace(s@, i as int, depth as int) is None,
        },
    decreases s@.len() - i,
{
    if i >= s.len() {
        return Option::None;
    }
    let b = s[i];
    if b == 123 {
        scan_brace_from(s, i + 1, depth + 1)
    } else if b == 125 {
        if depth == 1 {
            Option::Some(i)
        } else {
            scan_brace_from(s, i + 1, depth - 1)
        }
    } else {
        scan_brace_from(s, i + 1, depth)
    }
}

/// The matching `}` for the `{` at position 0.
fn match_brace(s: &[u8]) -> (r: Option<usize>)
    requires
        s@.len() > 0,
        s@[0] == 123,
    ensures
        match r {
            Option::Some(j) => spec_scan_brace(s@, 0, 0) == Option::Some(j as int) && 0 < j
                < s@.len(),
            Option::None => spec_scan_brace(s@, 0, 0) is None,
        },
{
    scan_brace_from(s, 1, 1)
}

// ---------------------------------------------------------------------------
// Macro arguments
// ---------------------------------------------------------------------------

/// Parse `count` consecutive brace-delimited groups, skipping leading
/// whitespace before each; returns the group contents and the remainder.
pub open spec fn spec_margs(s: Seq<u8>, count: int) -> Option<(Seq<Seq<u8>>, Seq<u8>)>
    decreases count,
{
    if count <= 0 {
        Option::Some((Seq::empty(), s))
    } else {
        let t = trim_start(s);
        if t.len() == 0 || t[0] != 123 {
            Option::None
        } else {
            match spec_scan_brace(t, 0, 0) {
                Option::None => Option::None,
                Option::Some(end) => match spec_margs(t.subrange(end + 1, t.len() as int), count
                    - 1) {
                    Option::None => Option::None,
                    Option::Some((args, rest)) => Option::Some(
                        (seq![t.subrange(1, end)] + args, rest),
                    ),
                },
            }
        }
    }
}

pub proof fn lemma_margs_rest_len(s: Seq<u8>, count: int)
    ensures
        spec_margs(s, count) matches Option::Some(p) ==> p.1.len() <= s.len(),
    decreases count,
{
    if count > 0 {
        let t = trim_start(s);
        if t.len() > 0 && t[0] == 123 {
            match spec_scan_brace(t, 0, 0) {
                Option::None => {},
                Option::Some(end) => {
                    lemma_scan_brace_bounds(t, 0, 0);
                    crate::text::lemma_trim_start_idx(s, 0);
                    lemma_margs_rest_len(t.subrange(end + 1, t.len() as int), count - 1);
                },
            }
        }
    }
}

pub fn parse_macro_args(s: &[u8], count: usize) -> (r: Option<(Vec<Vec<u8>>, Vec<u8>)>)
    ensures
        match r {
            Option::Some(p) => spec_margs(s@, count as int) == Option::Some(
                (bytes_list(p.0@), p.1@),
            ),
            Option::None => spec_margs(s@, count as int) is None,
        },
    decreases count,
{
    if count == 0 {
        let rest = vstd::slice::slice_to_vec(s);
        let args: Vec<Vec<u8>> = Vec::new();
        proof {
            assert(bytes_list(args@) =~= Seq::<Seq<u8>>::empty());
        }
        return Option::Some((args, rest));
    }
    let t = do_trim_start(s);
    if t.len() == 0 || t[0] != 123 {
        return Option::None;
    }
    match match_brace(t) {
        Option::None => Option::None,
        Option::Some(end) => {
            let arg = subv(t, 1, end);
            let after = vstd::slice::slice_subrange(t, end + 1, t.len());
            match parse_macro_args(after, count - 1) {
                Option::None => Option::None,
                Option::Some(p) => {
                    let (tail_args, rest) = p;
                    let mut args: Vec<Vec<u8>> = Vec::new();
                    args.push(arg);
                    let mut tail_args = tail_args;
                    args.append(&mut tail_args);
                    proof {
                        assert(bytes_list(args@) =~= seq![t@.subrange(1, end as int)] + bytes_list(
                            p.0@,
                        ));
                    }
                    Option::Some((args, rest))
                },
            }
        },
    }
}

// ---------------------------------------------------------------------------
// Textual substitution
// ---------------------------------------------------------------------------

/// Replace every occurrence of `pat` in `s` by `rep`, left to right,
/// without rescanning replaced text.
pub open spec fn spec_replace(s: Seq<u8>, pat: Seq<u8>, rep: Seq<u8>) -> Seq<u8>
    decreases s.len(),
{
    if pat.len() == 0 {
        s
    } else {
        match spec_find(s, pat, 0) {
            Option::Some(pos) => if 0 <= pos && pos + pat.len() <= s.len() {
                s.subrange(0, pos) + rep + spec_replace(
                    s.subrange(pos + pat.len(), s.len() as int),
                    pat,
                    rep,
                )
            } else {
                s
            },
            Option::None => s,
        }
    }
}

fn replace_all(s: &[u8], pat: &[u8], rep: &[u8]) -> (r: Vec<u8>)
    ensures
        r@ == spec_replace(s@, pat@, rep@),
    decreases s@.len(),
{
    if pat.len() == 0 {
        return vstd::slice::slice_to_vec(s);
    }
    proof {
        lemma_find_props(s@, pat@, 0);
    }
    match find_sub(s, pat, 0) {
        Option::Some(pos) => {
            let n = s.len();
            let mut r = subv(s, 0, pos);
            r.extend_from_slice(rep);
            let after = vstd::slice::slice_subrange(s, pos + pat.len(), n);
            let mut tail = replace_all(after, pat, rep);
            r.append(&mut tail);
            proof {
                assert(r@ =~= spec_replace(s@, pat@, rep@));
            }
            r
        },
        Option::None => vstd::slice::slice_to_vec(s),
    }
}

/// Substitute `#1..#N` in `t` by the argument texts, one placeholder
/// number after the other.
pub open spec fn spec_subst_from(t: Seq<u8>, args: Seq<Seq<u8>>, i: int) -> Seq<u8>
    decreases args.len() - i,
{
    if i < 0 || i >= args.len() {
        t
    } else {
        spec_subst_from(spec_replace(t, seq![35u8] + dec_digits((i + 1) as nat), args[i]), args, i
            + 1)
    }
}

pub open spec fn spec_subst(t: Seq<u8>, args: Seq<Seq<u8>>) -> Seq<u8> {
    spec_subst_from(t, args, 0)
}

fn subst_from(t: Vec<u8>, args: &[Vec<u8>], i: usize) -> (r: Vec<u8>)
    ensures
        r@ == spec_subst_from(t@, bytes_list(args@), i as int),
    decreases args@.len() - i,
{
    if i >= args.len() {
        return t;
    }
    let mut pat: Vec<u8> = Vec::new();
    pat.push(35);
    let mut digits = fmt_usize(i + 1);
    pat.append(&mut digits);
    proof {
        assert(pat@ =~= seq![35u8] + dec_digits((i + 1) as nat));
    }
    let replaced = replace_all(t.as_slice(), pat.as_slice(), args[i].as_slice());
    subst_from(replaced, args, i + 1)
}

// ---------------------------------------------------------------------------
// One macro, one pass, bounded iteration
// ---------------------------------------------------------------------------

/// Expand every occurrence of `\name` in `s` once, left to right.  A
/// macro with arguments whose groups cannot be parsed is left as it
/// stands; replaced text is not rescanned within the same pass.
pub open spec fn spec_expand_single(s: Seq<u8>, name: Seq<u8>, mac: SpecMacro) -> Seq<u8>
    decreases s.len(),
{
    let pat = seq![92u8] + name;
    match spec_find(s, pat, 0) {
        Option::None => s,
        Option::Some(pos) => if 0 <= pos && pos + pat.len() <= s.len() {
            let prefix = s.subrange(0, pos);
            let after = s.subrange(pos + pat.len(), s.len() as int);
            if mac.arg_count == 0 {
                prefix + mac.template + spec_expand_single(after, name, mac)
            } else {
                match spec_margs(after, mac.arg_count as int) {
                    Option::Some((args, rest)) => if rest.len() <= after.len() {
                        prefix + spec_subst(mac.template, args) + spec_expand_single(
                            rest,
                            name,
                            mac,
                        )
                    } else {
                        s
                    },
                    Option::None => prefix + pat + spec_expand_single(after, name, mac),
                }
            }
        } else {
            s
        },
    }
}

fn expand_one(s: &[u8], name: &[u8], mac: &Macro) -> (r: Vec<u8>)
    ensures
        r@ == spec_expand_single(s@, name@, macro_dv(*mac)),
    decreases s@.len(),
{
    let mut pat: Vec<u8> = Vec::new();
    pat.push(92);
    pat.extend_from_slice(name);
    proof {
        assert(pat@ =~= seq![92u8] + name@);
        lemma_find_props(s@, pat@, 0);
    }
    match find_sub(s, pat.as_slice(), 0) {
        Option::None => vstd::slice::slice_to_vec(s),
        Option::Some(pos) => {
            let n = s.len();
            let mut r = subv(s, 0, pos);
            let after = vstd::slice::slice_subrange(s, pos + pat.len(), n);
            if mac.arg_count == 0 {
                r.extend_from_slice(mac.template.as_slice());
                let mut tail = expand_one(after, name, mac);
                r.append(&mut tail);
                proof {
                    assert(r@ =~= spec_expand_single(s@, name@, macro_dv(*mac)));
                }
                r
            } else {
                proof {
                    lemma_margs_rest_len(after@, mac.arg_count as int);
                }
                match parse_macro_args(after, mac.arg_count) {
                    Option::Some(p) => {
                        let (args, rest) = p;
                        let mut expanded = subst_from(
                            vstd::slice::slice_to_vec(mac.template.as_slice()),
                            args.as_slice(),
                            0,
                        );
                        r.append(&mut expanded);
                        let mut tail = expand_one(rest.as_slice(), name, mac);
                        r.append(&mut tail);
                        proof {
                            assert(r@ =~= spec_expand_single(s@, name@, macro_dv(*mac)));
                        }
                        r
                    },
                    Option::None => {
                        r.extend_from_slice(pat.as_slice());
                        let mut tail = expand_one(after, name, mac);
                        r.append(&mut tail);
                        proof {
                            assert(r@ =~= spec_expand_single(s@, name@, macro_dv(*mac)));
                        }
                        r
                    },
                }
            }
        },
    }
}

/// One full pass: apply every macro of the table, in entry order.
pub open spec fn spec_expand_pass(m: Seq<(Seq<u8>, SpecMacro)>, s: Seq<u8>, j: int) -> Seq<u8>
    decreases m.len() - j,
{
    if j < 0 || j >= m.len() {
        s
    } else {
        spec_expand_pass(m, spec_expand_single(s, m[j].0, m[j].1), j + 1)
    }
}

fn expand_pass_from(s: Vec<u8>, m: &StrMap<Macro>, j: usize) -> (r: Vec<u8>)
    ensures
        r@ == spec_expand_pass(m.pairs(), s@, j as int),
    decreases m.pairs().len() - j,
{
    let n = m.len();
    if j >= n {
        return s;
    }
    let name = m.key_at(j);
    let t = expand_one(s.as_slice(), name.as_slice(), m.val_at(j));
    expand_pass_from(t, m, j + 1)
}

/// Iterate full passes until a pass changes nothing, at most `n` times.
pub open spec fn spec_expand_iter(m: Seq<(Seq<u8>, SpecMacro)>, s: Seq<u8>, n: nat) -> Seq<u8>
    decreases n,
{
    if n == 0 {
        s
    } else {
        let t = spec_expand_pass(m, s, 0);
        if t == s {
            s
        } else {
            spec_expand_iter(m, t, (n - 1) as nat)
        }
    }
}

/// Expansion of one math string: at most `pass_bound()` full passes,
/// stopping early at a fixed point.
pub open spec fn spec_expand_math(m: Seq<(Seq<u8>, SpecMacro)>, s: Seq<u8>) -> Seq<u8> {
    spec_expand_iter(m, s, pass_bound())
}

pub fn expand_math_macros(s: &[u8], m: &StrMap<Macro>) -> (r: Vec<u8>)
    ensures
        r@ == spec_expand_math(m.pairs(), s@),
{
    let mut result = vstd::slice::slice_to_vec(s);
    let mut k: usize = 0;
    while k < 10
        invariant
            0 <= k <= 10,
            spec_expand_iter(m.pairs(), result@, (10 - k) as nat) == spec_expand_math(
                m.pairs(),
                s@,
            ),
        decreases 10 - k,
    {
        let next = expand_pass_from(vstd::slice::slice_to_vec(result.as_slice()), m, 0);
        if crate::text::eq_bytes(next.as_slice(), result.as_slice()) {
            proof {
                lemma_iter_fixed(m.pairs(), result@, (10 - k) as nat);
            }
            return result;
        }
        result = next;
        k += 1;
    }
    result
}

/// A fixed point of one pass is a fixed point of the whole iteration.
pub proof fn lemma_iter_fixed(m: Seq<(Seq<u8>, SpecMacro)>, s: Seq<u8>, n: nat)
    requires
        spec_expand_pass(m, s, 0) == s,
    ensures
        spec_expand_iter(m, s, n) == s,
{
}

/// Macro expansion is idempotent at its fixed point: when one full pass
/// leaves an already-expanded string unchanged, running the whole
/// expansion again returns the same string.
pub proof fn lemma_expand_idempotent(m: Seq<(Seq<u8>, SpecMacro)>, s: Seq<u8>)
    requires
        spec_expand_pass(m, spec_expand_math(m, s), 0) == spec_expand_math(m, s),
    ensures
        spec_expand_math(m, spec_expand_math(m, s)) == spec_expand_math(m, s),
{
    lemma_iter_fixed(m, spec_expand_math(m, s), pass_bound());
}

// ---------------------------------------------------------------------------
// Counting placeholders
// ---------------------------------------------------------------------------

/// The largest digit following a `#` in the template, i.e. the number of
/// arguments the macro takes.
pub open spec fn spec_count_args(t: Seq<u8>, i: int) -> nat
    decreases t.len() - i,
{
    if i < 0 || i >= t.len() {
        0
    } else if t[i] == 35 && i + 1 < t.len() && is_digit(t[i + 1]) {
        let d = (t[i + 1] - 48) as nat;
        let rest = spec_count_args(t, i + 1);
        if d > rest {
            d
        } else {
            rest
        }
    } else {
        spec_count_args(t, i + 1)
    }
}

/// Count the number of macro arguments (`#1`, `#2`, ...) in a template.
pub fn count_macro_args(template: &[u8]) -> (r: usize)
    ensures
        r == spec_count_args(template@, 0),
{
    count_args_from(template, 0)
}

fn count_args_from(t: &[u8], i: usize) -> (r: usize)
    ensures
        r == spec_count_args(t@, i as int),
    decreases t@.len() - i,
{
    if i >= t.len() {
        return 0;
    }
    let rest = count_args_from(t, i + 1);
    if t[i] == 35 && i + 1 < t.len() && 48 <= t[i + 1] && t[i + 1] <= 57 {
        let d = (t[i + 1] - 48) as usize;
        if d > rest {
            d
        } else {
            rest
        }
    } else {
        rest
    }
}

// ---------------------------------------------------------------------------
// Expansion over the tree
// ---------------------------------------------------------------------------

pub open spec fn spec_expand_inline(i: SpecInline, m: Seq<(Seq<u8>, SpecMacro)>) -> SpecInline
    decreases i,
{
    match i {
        SpecInline::InlineMath(c) => SpecInline::InlineMath(spec_expand_math(m, c)),
        SpecInline::Emphasis(v) => SpecInline::Emphasis(spec_expand_inlines(v, m)),
        SpecInline::Strong(v) => SpecInline::Strong(spec_expand_inlines(v, m)),
        SpecInline::Strikethrough(v) => SpecInline::Strikethrough(spec_expand_inlines(v, m)),
        SpecInline::Link { url, title, content } => SpecInline::Link {
            url,
            title,
            content: spec_expand_inlines(content, m),
        },
        other => other,
    }
}

pub open spec fn spec_expand_inlines(v: Seq<SpecInline>, m: Seq<(Seq<u8>, SpecMacro)>) -> Seq<
    SpecInline,
>
    decreases v,
{
    if v.len() == 0 {
        Seq::empty()
    } else {
        seq![spec_expand_inline(v.first(), m)] + spec_expand_inlines(v.drop_first(), m)
    }
}

pub open spec fn spec_expand_opt_inlines(o: Option<Seq<SpecInline>>, m: Seq<(Seq<u8>, SpecMacro)>)
    -> Option<Seq<SpecInline>>
    decreases o,
{
    match o {
        Option::Some(v) => Option::Some(spec_expand_inlines(v, m)),
        Option::None => Option::None,
    }
}

pub open spec fn spec_expand_block(b: SpecBlock, m: Seq<(Seq<u8>, SpecMacro)>) -> SpecBlock
    decreases b,
{
    match b {
        SpecBlock::Paragraph(v) => SpecBlock::Paragraph(spec_expand_inlines(v, m)),
        SpecBlock::Heading { level, content, label } => SpecBlock::Heading {
            level,
            content: spec_expand_inlines(content, m),
            label,
        },
        SpecBlock::DisplayMath { content, label } => SpecBlock::DisplayMath {
            content: spec_expand_math(m, content),
            label,
        },
        SpecBlock::Environment { kind, label, content, caption } => SpecBlock::Environment {
            kind,
            label,
            content: spec_expand_blocks(content, m),
            caption: spec_expand_opt_inlines(caption, m),
        },
        SpecBlock::BlockQuote(v) => SpecBlock::BlockQuote(spec_expand_blocks(v, m)),
        SpecBlock::List { ordered, start, items } => SpecBlock::List {
            ordered,
            start,
            items: spec_expand_items(items, m),
        },
        SpecBlock::Table { headers, alignments, rows, label, caption } => SpecBlock::Table {
            headers: spec_expand_cells(headers, m),
            alignments,
            rows: spec_expand_rows(rows, m),
            label,
            caption: spec_expand_opt_inlines(caption, m),
        },
        other => other,
    }
}

pub open spec fn spec_expand_blocks(v: Seq<SpecBlock>, m: Seq<(Seq<u8>, SpecMacro)>) -> Seq<
    SpecBlock,
>
    decreases v,
{
    if v.len() == 0 {
        Seq::empty()
    } else {
        seq![spec_expand_block(v.first(), m)] + spec_expand_blocks(v.drop_first(), m)
    }
}

pub open spec fn spec_expand_items(v: Seq<SpecListItem>, m: Seq<(Seq<u8>, SpecMacro)>) -> Seq<
    SpecListItem,
>
    decreases v,
{
    if v.len() == 0 {
        Seq::empty()
    } else {
        seq![
            SpecListItem {
                content: spec_expand_blocks(v.first().content, m),
                checked: v.first().checked,
            },
        ] + spec_expand_items(v.drop_first(), m)
    }
}

pub open spec fn spec_expand_cells(v: Seq<Seq<SpecInline>>, m: Seq<(Seq<u8>, SpecMacro)>) -> Seq<
    Seq<SpecInline>,
>
    decreases v,
{
    if v.len() == 0 {
        Seq::empty()
    } else {
        seq![spec_expand_inlines(v.first(), m)] + spec_expand_cells(v.drop_first(), m)
    }
}

pub open spec fn spec_expand_rows(v: Seq<Seq<Seq<SpecInline>>>, m: Seq<(Seq<u8>, SpecMacro)>)
    -> Seq<Seq<Seq<SpecInline>>>
    decreases v,
{
    if v.len() == 0 {
        Seq::empty()
    } else {
        seq![spec_expand_cells(v.first(), m)] + spec_expand_rows(v.drop_first(), m)
    }
}

fn expand_inline(i: Inline, m: &StrMap<Macro>) -> (r: Inline)
    ensures
        inline_dv(r) == spec_expand_inline(inline_dv(i), m.pairs()),
    decreases inline_dv(i),
{
    match i {
        Inline::InlineMath(c) => Inline::InlineMath(expand_math_macros(c.as_slice(), m)),
        Inline::Emphasis(v) => Inline::Emphasis(expand_inlines(v, m)),
        Inline::Strong(v) => Inline::Strong(expand_inlines(v, m)),
        Inline::Strikethrough(v) => Inline::Strikethrough(expand_inlines(v, m)),
        Inline::Link { url, title, content } => Inline::Link {
            url,
            title,
            content: expand_inlines(content, m),
        },
        other => other,
    }
}

fn expand_inlines(v: Vec<Inline>, m: &StrMap<Macro>) -> (r: Vec<Inline>)
    ensures
        inlines_dv(r@) == spec_expand_inlines(inlines_dv(v@), m.pairs()),
    decreases inlines_dv(v@),
{
    let ghost orig = inlines_dv(v@);
    let mut v = v;
    let mut out: Vec<Inline> = Vec::new();
    if v.len() == 0 {
        proof {
            assert(inlines_dv(out@) =~= spec_expand_inlines(orig, m.pairs()));
        }
        return out;
    }
    let first = v.remove(0);
    proof {
        assert(inline_dv(first) == orig.first());
        assert(inlines_dv(v@) =~= orig.drop_first());
    }
    let e = expand_inline(first, m);
    let mut rest = expand_inlines(v, m);
    let ghost rest_view = rest@;
    out.push(e);
    out.append(&mut rest);
    proof {
        assert(inlines_dv(out@) =~= seq![inline_dv(e)] + inlines_dv(rest_view));
    }
    out
}

fn expand_opt_inlines(o: Option<Vec<Inline>>, m: &StrMap<Macro>) -> (r: Option<Vec<Inline>>)
    ensures
        opt_inlines_dv(r) == spec_expand_opt_inlines(opt_inlines_dv(o), m.pairs()),
    decreases opt_inlines_dv(o),
{
    match o {
        Option::Some(v) => {
            proof {
                assert(decreases_to!(opt_inlines_dv(o) => inlines_dv(v@)));
            }
            Option::Some(expand_inlines(v, m))
        },
        Option::None => Option::None,
    }
}

fn expand_block(b: Block, m: &StrMap<Macro>) -> (r: Block)
    ensures
        block_dv(r) == spec_expand_block(block_dv(b), m.pairs()),
    decreases block_dv(b),
{
    match b {
        Block::Paragraph(v) => Block::Paragraph(expand_inlines(v, m)),
        Block::Heading { level, content, label } => Block::Heading {
            level,
            content: expand_inlines(content, m),
            label,
        },
        Block::DisplayMath { content, label } => Block::DisplayMath {
            content: expand_math_macros(content.as_slice(), m),
            label,
        },
        Block::Environment { kind, label, content, caption } => Block::Environment {
            kind,
            label,
            content: expand_blocks(content, m),
            caption: expand_opt_inlines(caption, m),
        },
        Block::BlockQuote(v) => Block::BlockQuote(expand_blocks(v, m)),
        Block::List { ordered, start, items } => Block::List {
            ordered,
            start,
            items: expand_items(items, m),
        },
        Block::Table { headers, alignments, rows, label, caption } => Block::Table {
            headers: expand_cells(headers, m),
            alignments,
            rows: expand_rows(rows, m),
            label,
            caption: expand_opt_inlines(caption, m),
        },
        other => other,
    }
}

fn expand_blocks(v: Vec<Block>, m: &StrMap<Macro>) -> (r: Vec<Block>)
    ensures
        blocks_dv(r@) == spec_expand_blocks(blocks_dv(v@), m.pairs()),
    decreases blocks_dv(v@),
{
    let ghost orig = blocks_dv(v@);
    let mut v = v;
    let mut out: Vec<Block> = Vec::new();
    if v.len() == 0 {
        proof {
            assert(blocks_dv(out@) =~= spec_expand_blocks(orig, m.pairs()));
        }
        return out;
    }
    let first = v.remove(0);
    proof {
        assert(block_dv(first) == orig.first());
        assert(blocks_dv(v@) =~= orig.drop_first());
    }
    let e = expand_block(first, m);
    let mut rest = expand_blocks(v, m);
    let ghost rest_view = rest@;
    out.push(e);
    out.append(&mut rest);
    proof {
        assert(blocks_dv(out@) =~= seq![block_dv(e)] + blocks_dv(rest_view));
    }
    out
}

fn expand_items(v: Vec<ListItem>, m: &StrMap<Macro>) -> (r: Vec<ListItem>)
    ensures
        items_dv(r@) == spec_expand_items(items_dv(v@), m.pairs()),
    decreases items_dv(v@),
{
    let ghost orig = items_dv(v@);
    let mut v = v;
    let mut out: Vec<ListItem> = Vec::new();
    if v.len() == 0 {
        proof {
            assert(items_dv(out@) =~= spec_expand_items(orig, m.pairs()));
        }
        return out;
    }
    let first = v.remove(0);
    proof {
        assert(list_item_dv(first) == orig.first());
        assert(items_dv(v@) =~= orig.drop_first());
        assert(decreases_to!(orig => orig.first()));
        assert(decreases_to!(orig.first() => orig.first().content));
    }
    let ListItem { content, checked } = first;
    let e = ListItem { content: expand_blocks(content, m), checked };
    let mut rest = expand_items(v, m);
    let ghost rest_view = rest@;
    out.push(e);
    out.append(&mut rest);
    proof {
        assert(items_dv(out@) =~= seq![list_item_dv(e)] + items_dv(rest_view));
    }
    out
}

fn expand_cells(v: Vec<Vec<Inline>>, m: &StrMap<Macro>) -> (r: Vec<Vec<Inline>>)
    ensures
        cells_dv(r@) == spec_expand_cells(cells_dv(v@), m.pairs()),
    decreases cells_dv(v@),
{
    let ghost orig = cells_dv(v@);
    let mut v = v;
    let mut out: Vec<Vec<Inline>> = Vec::new();
    if v.len() == 0 {
        proof {
            assert(cells_dv(out@) =~= spec_expand_cells(orig, m.pairs()));
        }
        return out;
    }
    let first = v.remove(0);
    proof {
        assert(inlines_dv(first@) == orig.first());
        assert(cells_dv(v@) =~= orig.drop_first());
        assert(decreases_to!(orig => orig.first()));
    }
    let e = expand_inlines(first, m);
    let mut rest = expand_cells(v, m);
    let ghost rest_view = rest@;
    out.push(e);
    out.append(&mut rest);
    proof {
        assert(cells_dv(out@) =~= seq![inlines_dv(e@)] + cells_dv(rest_view));
    }
    out
}

fn expand_rows(v: Vec<Vec<Vec<Inline>>>, m: &StrMap<Macro>) -> (r: Vec<Vec<Vec<Inline>>>)
    ensures
        rows_dv(r@) == spec_expand_rows(rows_dv(v@), m.pairs()),
    decreases rows_dv(v@),
{
    let ghost orig = rows_dv(v@);
    let mut v = v;
    let mut out: Vec<Vec<Vec<Inline>>> = Vec::new();
    if v.len() == 0 {
        proof {
            assert(rows_dv(out@) =~= spec_expand_rows(orig, m.pairs()));
        }
        return out;
    }
    let first = v.remove(0);
    proof {
        assert(cells_dv(first@) == orig.first());
        assert(rows_dv(v@) =~= orig.drop_first());
        assert(decreases_to!(orig => orig.first()));
    }
    let e = expand_cells(first, m);
    let mut rest = expand_rows(v, m);
    let ghost rest_view = rest@;
    out.push(e);
    out.append(&mut rest);
    proof {
        assert(rows_dv(out@) =~= seq![cells_dv(e@)] + rows_dv(rest_view));
    }
    out
}

/// Expand all user macros in the document's math content.
pub fn expand_macros(document: Document) -> (r: Result<Document, crate::error::Error>)
    ensures
        r matches Result::Ok(d) && d.metadata == document.metadata && blocks_dv(d.blocks@)
            == spec_expand_blocks(blocks_dv(document.blocks@), metadata_dv(document.metadata).macros),
{
    let Document { metadata, blocks } = document;
    let blocks = expand_blocks(blocks, &metadata.macros);
    Result::Ok(Document { metadata, blocks })
}

} // verus!
