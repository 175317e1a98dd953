//! The block parser: consumes a document's lines top to bottom, trying
//! block recognizers in a fixed priority order, recursing into container
//! blocks.

use vstd::prelude::*;
use crate::ast::{
    Alignment, Block, DescriptionItem, EnvironmentKind, Inline, ListItem, SpecBlock,
    SpecDescriptionItem, SpecEnvKind, SpecInline, SpecListItem, bytes_list, block_dv, blocks_dv,
    cells_dv, desc_items_dv, env_kind_dv, inlines_dv, items_dv, list_item_dv, opt_bytes,
    opt_inlines_dv, rows_dv, spec_env_kind_from,
};
use crate::lexer::{
    ListMarker, Token, spec_env_start, spec_fence_start, spec_heading, spec_list_marker,
    spec_split, spec_thematic, environment_start, fenced_code_start, heading, list_item_marker,
    split_bytes, thematic_break,
};
use crate::inline::{spec_parse_inlines, parse_inlines};
use crate::text::{
    begins_with, do_trim, do_trim_end, do_trim_start, eq_bytes, find_sub, is_blank,
    lemma_find_props, matches_at, spec_find, spec_join, join_lines, starts_with, check_blank,
    subv, trim, trim_end, trim_start,
};

verus! {

// ---------------------------------------------------------------------------
// The measure: total bytes plus one per line
// ---------------------------------------------------------------------------

pub open spec fn lm(v: Seq<Seq<u8>>) -> nat
    decreases v.len(),
{
    if v.len() == 0 {
        0
    } else {
        v.first().len() + 1 + lm(v.drop_first())
    }
}

pub proof fn lemma_lm_skip(v: Seq<Seq<u8>>, i: int)
    requires
        0 <= i <= v.len(),
    ensures
        lm(v.skip(i)) <= lm(v),
        i > 0 ==> lm(v.skip(i)) < lm(v),
    decreases i,
{
    if i > 0 {
        assert(v.skip(1) =~= v.drop_first());
        if i > 1 {
            lemma_lm_skip(v.drop_first(), i - 1);
            assert(v.drop_first().skip(i - 1) =~= v.skip(i));
        } else {
            assert(v.skip(i) =~= v.drop_first());
        }
    } else {
        assert(v.skip(0) =~= v);
    }
}

pub proof fn lemma_lm_subrange_prefix(v: Seq<Seq<u8>>, i: int)
    requires
        0 <= i <= v.len(),
    ensures
        lm(v.subrange(0, i)) <= lm(v),
    decreases i,
{
    if i > 0 {
        assert(v.subrange(0, i).first() == v.first());
        assert(v.subrange(0, i).drop_first() =~= v.drop_first().subrange(0, i - 1));
        lemma_lm_subrange_prefix(v.drop_first(), i - 1);
        lemma_lm_skip(v, 1);
        assert(v.drop_first() =~= v.skip(1));
    }
}

// ---------------------------------------------------------------------------
// Small helpers of the grammar
// ---------------------------------------------------------------------------

/// The last occurrence of `p` in `s`.
pub open spec fn spec_rfind(s: Seq<u8>, p: Seq<u8>, before: int) -> Option<int>
    decreases before + 1,
{
    if before < 0 {
        Option::None
    } else if matches_at(s, p, before) {
        Option::Some(before)
    } else {
        spec_rfind(s, p, before - 1)
    }
}

fn rfind_sub(s: &[u8], p: &[u8], before: usize) -> (r: Option<usize>)
    requires
        before <= s@.len(),
    ensures
        match r {
            Option::Some(i) => spec_rfind(s@, p@, before as int) == Option::Some(i as int) && i
                + p@.len() <= s@.len(),
            Option::None => spec_rfind(s@, p@, before as int) is None,
        },
    decreases before + 1,
{
    if p.len() <= s.len() && before <= s.len() - p.len() {
        let w = vstd::slice::slice_subrange(s, before, before + p.len());
        if eq_bytes(w, p) {
            assert(matches_at(s@, p@, before as int));
            return Option::Some(before);
        }
    }
    proof {
        if matches_at(s@, p@, before as int) {
            assert(s@.subrange(before as int, before + p@.len()) == p@);
        }
    }
    if before == 0 {
        proof {
            assert(spec_rfind(s@, p@, -1) is None);
        }
        Option::None
    } else {
        rfind_sub(s, p, before - 1)
    }
}

/// Extract a `{#label}` annotation from the end of a string: the content
/// before it and the label, if one is present.
pub open spec fn spec_extract_label(s: Seq<u8>) -> (Seq<u8>, Option<Seq<u8>>) {
    let t = trim_end(s);
    match spec_rfind(t, crate::lits::lit_label_open(), t.len() as int - 2) {
        Option::Some(st) => {
            match spec_find(t, seq![125u8], st) {
                Option::Some(en) => if st + 2 <= en <= t.len() {
                    (trim_end(t.subrange(0, st)), Option::Some(t.subrange(st + 2, en)))
                } else {
                    (s, Option::None)
                },
                Option::None => (s, Option::None),
            }
        },
        Option::None => (s, Option::None),
    }
}

pub fn extract_label(s: &[u8]) -> (r: (Vec<u8>, Option<Vec<u8>>))
    ensures
        (r.0@, opt_bytes(r.1)) == spec_extract_label(s@),
{
    let t = do_trim_end(s);
    let lo = crate::lits::bytes_label_open();
    if t.len() < 2 {
        match rfind_sub(t, lo.as_slice(), 0) {
            Option::Some(_) => {
                proof {
                    assert(t@.len() as int - 2 < 0);
                }
            },
            Option::None => {},
        }
        proof {
            assert(spec_rfind(t@, crate::lits::lit_label_open(), t@.len() as int - 2) is None);
        }
        return (vstd::slice::slice_to_vec(s), Option::None);
    }
    match rfind_sub(t, lo.as_slice(), t.len() - 2) {
        Option::None => (vstd::slice::slice_to_vec(s), Option::None),
        Option::Some(st) => {
            let close: [u8; 1] = [125];
            proof {
                assert(close@ =~= seq![125u8]);
                lemma_find_props(t@, seq![125u8], st as int);
            }
            match find_sub(t, close.as_slice(), st) {
                Option::None => (vstd::slice::slice_to_vec(s), Option::None),
                Option::Some(en) => {
                    if st + 2 <= en {
                        let content = vstd::slice::slice_to_vec(
                            do_trim_end(vstd::slice::slice_subrange(t, 0, st)),
                        );
                        let lab = subv(t, st + 2, en);
                        (content, Option::Some(lab))
                    } else {
                        (vstd::slice::slice_to_vec(s), Option::None)
                    }
                },
            }
        },
    }
}

/// Strip every leading and trailing `|`.
pub open spec fn spec_trim_pipes(s: Seq<u8>) -> Seq<u8> {
    let a = scan_pipes(s, 0);
    let b = scan_pipes_back(s, s.len() as int);
    if a <= b {
        s.subrange(a, b)
    } else {
        Seq::empty()
    }
}

pub open spec fn scan_pipes(s: Seq<u8>, i: int) -> int
    decreases s.len() - i,
{
    if i < 0 || i >= s.len() {
        if i < 0 {
            0
        } else {
            s.len() as int
        }
    } else if s[i] == 124 {
        scan_pipes(s, i + 1)
    } else {
        i
    }
}

pub open spec fn scan_pipes_back(s: Seq<u8>, i: int) -> int
    decreases i,
{
    if i <= 0 || i > s.len() {
        if i <= 0 {
            0
        } else {
            s.len() as int
        }
    } else if s[i - 1] == 124 {
        scan_pipes_back(s, i - 1)
    } else {
        i
    }
}

#[verifier::loop_isolation(false)]
fn trim_pipes<'a>(s: &'a [u8]) -> (r: &'a [u8])
    ensures
        r@ == spec_trim_pipes(s@),
{
    let mut a: usize = 0;
    while a < s.len() && s[a] == 124
        invariant
            0 <= a <= s@.len(),
            scan_pipes(s@, 0) == scan_pipes(s@, a as int),
            forall|j: int| 0 <= j < a ==> s@[j] == 124,
        decreases s@.len() - a,
    {
        a += 1;
    }
    let mut b: usize = s.len();
    while b > 0 && s[b - 1] == 124
        invariant
            0 <= b <= s@.len(),
            scan_pipes_back(s@, s@.len() as int) == scan_pipes_back(s@, b as int),
        decreases b,
    {
        b -= 1;
    }
    if a <= b {
        vstd::slice::slice_subrange(s, a, b)
    } else {
        let e: &[u8] = vstd::slice::slice_subrange(s, 0, 0);
        proof {
            assert(e@ =~= Seq::<u8>::empty());
        }
        e
    }
}

/// Is the line a pipe-table delimiter row: every cell only `-` and `:`,
/// with at least one `-`?
pub open spec fn all_dash_colon(c: Seq<u8>) -> bool {
    forall|j: int| 0 <= j < c.len() ==> c[j] == 45 || c[j] == 58
}

pub open spec fn has_dash(c: Seq<u8>) -> bool {
    exists|j: int| 0 <= j < c.len() && c[j] == 45
}

pub open spec fn delim_cell_ok(c0: Seq<u8>) -> bool {
    let c = trim(c0);
    c.len() == 0 || (all_dash_colon(c) && has_dash(c))
}

pub open spec fn spec_is_table_delim(line: Seq<u8>) -> bool {
    let t = trim(line);
    if spec_find(t, seq![124u8], 0) is None {
        false
    } else {
        let cells = spec_split(spec_trim_pipes(t), 124);
        forall|i: int| 0 <= i < cells.len() ==> delim_cell_ok(#[trigger] cells[i])
    }
}

#[verifier::loop_isolation(false)]
pub fn is_table_delimiter(line: &[u8]) -> (r: bool)
    ensures
        r == spec_is_table_delim(line@),
{
    let t = do_trim(line);
    let pipe: [u8; 1] = [124];
    proof {
        assert(pipe@ =~= seq![124u8]);
    }
    if find_sub(t, pipe.as_slice(), 0).is_none() {
        return false;
    }
    let inner = trim_pipes(t);
    let cells = split_bytes(inner, 124);
    let ghost model = spec_split(spec_trim_pipes(trim(line@)), 124);
    let mut i: usize = 0;
    while i < cells.len()
        invariant
            0 <= i <= cells@.len(),
            bytes_list(cells@) == model,
            cells@.len() == model.len(),
            forall|j: int| 0 <= j < i ==> delim_cell_ok(#[trigger] model[j]),
        decreases cells@.len() - i,
    {
        let c = do_trim(cells[i].as_slice());
        proof {
            assert(cells@[i as int]@ == model[i as int]);
        }
        if c.len() > 0 {
            let mut j: usize = 0;
            let mut dash = false;
            while j < c.len()
                invariant
                    0 <= j <= c@.len(),
                    forall|k: int| 0 <= k < j ==> c@[k] == 45 || c@[k] == 58,
                    dash == exists|k: int| 0 <= k < j && c@[k] == 45,
                decreases c@.len() - j,
            {
                let b = c[j];
                if !(b == 45 || b == 58) {
                    proof {
                        assert(!delim_cell_ok(model[i as int]));
                    }
                    return false;
                }
                if b == 45 {
                    dash = true;
                }
                j += 1;
            }
            if !dash {
                proof {
                    assert(!has_dash(trim(model[i as int])));
                }
                return false;
            }
            proof {
                assert(c@ =~= trim(model[i as int]));
                assert(all_dash_colon(trim(model[i as int])));
            }
        }
        i += 1;
    }
    true
}

/// Per-column alignments from a delimiter row.
pub open spec fn spec_alignments(line: Seq<u8>) -> Seq<Alignment> {
    let cells = spec_split(spec_trim_pipes(trim(line)), 124);
    Seq::new(
        cells.len(),
        |i: int| if 0 <= i < cells.len() {
            let c = trim(cells[i]);
            let left = c.len() > 0 && c[0] == 58;
            let right = c.len() > 0 && c[c.len() - 1] == 58;
            if left && right {
                Alignment::Center
            } else if right {
                Alignment::Right
            } else {
                Alignment::Left
            }
        } else {
            arbitrary()
        },
    )
}

#[verifier::loop_isolation(false)]
fn parse_alignments(line: &[u8]) -> (r: Vec<Alignment>)
    ensures
        r@ == spec_alignments(line@),
{
    let t = do_trim(line);
    let inner = trim_pipes(t);
    let cells = split_bytes(inner, 124);
    let ghost model = spec_alignments(line@);
    let mut r: Vec<Alignment> = Vec::new();
    let mut i: usize = 0;
    while i < cells.len()
        invariant
            0 <= i <= cells@.len(),
            bytes_list(cells@) == spec_split(spec_trim_pipes(trim(line@)), 124),
            model == spec_alignments(line@),
            cells@.len() == model.len(),
            r@ =~= model.subrange(0, i as int),
        decreases cells@.len() - i,
    {
        let c = do_trim(cells[i].as_slice());
        proof {
            assert(cells@[i as int]@ == spec_split(spec_trim_pipes(trim(line@)), 124)[i as int]);
        }
        let left = c.len() > 0 && c[0] == 58;
        let right = c.len() > 0 && c[c.len() - 1] == 58;
        let al = if left && right {
            Alignment::Center
        } else if right {
            Alignment::Right
        } else {
            Alignment::Left
        };
        r.push(al);
        proof {
            assert(r@ =~= model.subrange(0, i + 1));
        }
        i += 1;
    }
    proof {
        assert(model.subrange(0, model.len() as int) =~= model);
    }
    r
}

/// The cells of a table row, each parsed as inline content.
pub open spec fn spec_table_row(line: Seq<u8>) -> Seq<Seq<SpecInline>> {
    let cells = spec_split(spec_trim_pipes(trim(line)), 124);
    Seq::new(
        cells.len(),
        |i: int| if 0 <= i < cells.len() {
            spec_parse_inlines(trim(cells[i]))
        } else {
            arbitrary()
        },
    )
}

#[verifier::loop_isolation(false)]
fn parse_table_row(line: &[u8]) -> (r: Vec<Vec<Inline>>)
    ensures
        cells_dv(r@) == spec_table_row(line@),
{
    let t = do_trim(line);
    let inner = trim_pipes(t);
    let cells = split_bytes(inner, 124);
    let ghost model = spec_table_row(line@);
    let mut r: Vec<Vec<Inline>> = Vec::new();
    let mut i: usize = 0;
    while i < cells.len()
        invariant
            0 <= i <= cells@.len(),
            bytes_list(cells@) == spec_split(spec_trim_pipes(trim(line@)), 124),
            model == spec_table_row(line@),
            cells@.len() == model.len(),
            r@.len() == i,
            forall|j: int| 0 <= j < i ==> inlines_dv(#[trigger] r@[j]@) == model[j],
        decreases cells@.len() - i,
    {
        let c = do_trim(cells[i].as_slice());
        proof {
            assert(cells@[i as int]@ == spec_split(spec_trim_pipes(trim(line@)), 124)[i as int]);
        }
        let cell = parse_inlines(c);
        r.push(cell);
        i += 1;
    }
    proof {
        assert(cells_dv(r@) =~= model);
    }
    r
}

// ---------------------------------------------------------------------------
// Line classification
// ---------------------------------------------------------------------------

pub open spec fn spec_page_break(line: Seq<u8>) -> bool {
    let t = trim(line);
    t == crate::lits::lit_pagebreak_dashes() || t == crate::lits::lit_pagebreak_cmd() || t
        == crate::lits::lit_newpage_cmd() || t == crate::lits::lit_pagebreak_html() || t
        == crate::lits::lit_newpage_html()
}

fn is_page_break(line: &[u8]) -> (r: bool)
    ensures
        r == spec_page_break(line@),
{
    let t = do_trim(line);
    eq_bytes(t, crate::lits::bytes_pagebreak_dashes().as_slice()) || eq_bytes(
        t,
        crate::lits::bytes_pagebreak_cmd().as_slice(),
    ) || eq_bytes(t, crate::lits::bytes_newpage_cmd().as_slice()) || eq_bytes(
        t,
        crate::lits::bytes_pagebreak_html().as_slice(),
    ) || eq_bytes(t, crate::lits::bytes_newpage_html().as_slice())
}

pub open spec fn spec_appendix(line: Seq<u8>) -> bool {
    let t = trim(line);
    t == crate::lits::lit_appendix_cmd() || t == crate::lits::lit_appendix_dashes() || t
        == crate::lits::lit_appendix_html()
}

fn is_appendix(line: &[u8]) -> (r: bool)
    ensures
        r == spec_appendix(line@),
{
    let t = do_trim(line);
    eq_bytes(t, crate::lits::bytes_appendix_cmd().as_slice()) || eq_bytes(
        t,
        crate::lits::bytes_appendix_dashes().as_slice(),
    ) || eq_bytes(t, crate::lits::bytes_appendix_html().as_slice())
}

pub open spec fn spec_toc(line: Seq<u8>) -> bool {
    trim(line) == crate::lits::lit_toc()
}

fn is_toc(line: &[u8]) -> (r: bool)
    ensures
        r == spec_toc(line@),
{
    eq_bytes(do_trim(line), crate::lits::bytes_toc().as_slice())
}

// ---------------------------------------------------------------------------
// Multi-line collectors
// ---------------------------------------------------------------------------

/// The line index of the fence that closes a code block, if any.
pub open spec fn spec_fence_close(lines: Seq<Seq<u8>>, fence: Seq<u8>, i: int) -> Option<int>
    decreases lines.len() - i,
{
    if i < 0 || i >= lines.len() {
        Option::None
    } else if starts_with(trim_start(lines[i]), fence) {
        Option::Some(i)
    } else {
        spec_fence_close(lines, fence, i + 1)
    }
}

fn fence_close(lines: &[Vec<u8>], fence: &[u8], i: usize) -> (r: Option<usize>)
    ensures
        match r {
            Option::Some(j) => spec_fence_close(bytes_list(lines@), fence@, i as int)
                == Option::Some(j as int) && i <= j < lines@.len(),
            Option::None => spec_fence_close(bytes_list(lines@), fence@, i as int) is None,
        },
    decreases lines@.len() - i,
{
    if i >= lines.len() {
        return Option::None;
    }
    proof {
        assert(bytes_list(lines@)[i as int] == lines@[i as int]@);
    }
    if begins_with(do_trim_start(lines[i].as_slice()), fence) {
        Option::Some(i)
    } else {
        fence_close(lines, fence, i + 1)
    }
}

/// The first line at or after `i` that contains `$$`, with its position.
pub open spec fn spec_math_close(lines: Seq<Seq<u8>>, i: int) -> Option<(int, int)>
    decreases lines.len() - i,
{
    if i < 0 || i >= lines.len() {
        Option::None
    } else {
        match spec_find(lines[i], crate::lits::lit_dollars2(), 0) {
            Option::Some(p) => Option::Some((i, p)),
            Option::None => spec_math_close(lines, i + 1),
        }
    }
}

fn math_close(lines: &[Vec<u8>], i: usize) -> (r: Option<(usize, usize)>)
    ensures
        match r {
            Option::Some(p) => spec_math_close(bytes_list(lines@), i as int) == Option::Some(
                (p.0 as int, p.1 as int),
            ) && i <= p.0 < lines@.len() && p.1 + 2 <= lines@[p.0 as int]@.len(),
            Option::None => spec_math_close(bytes_list(lines@), i as int) is None,
        },
    decreases lines@.len() - i,
{
    if i >= lines.len() {
        return Option::None;
    }
    let d2 = crate::lits::bytes_dollars2();
    proof {
        assert(bytes_list(lines@)[i as int] == lines@[i as int]@);
    }
    match find_sub(lines[i].as_slice(), d2.as_slice(), 0) {
        Option::Some(p) => Option::Some((i, p)),
        Option::None => math_close(lines, i + 1),
    }
}

/// The line that closes an environment opened before `i` at `depth`.
pub open spec fn spec_env_close(lines: Seq<Seq<u8>>, i: int, depth: int) -> Option<int>
    decreases lines.len() - i,
{
    if i < 0 || i >= lines.len() {
        Option::None
    } else {
        let t = trim_start(lines[i]);
        if t == crate::lits::lit_colons3() {
            if depth == 1 {
                Option::Some(i)
            } else {
                spec_env_close(lines, i + 1, depth - 1)
            }
        } else if starts_with(t, crate::lits::lit_colons3_sp()) {
            spec_env_close(lines, i + 1, depth + 1)
        } else {
            spec_env_close(lines, i + 1, depth)
        }
    }
}

fn env_close(lines: &[Vec<u8>], i: usize, depth: usize) -> (r: Option<usize>)
    requires
        1 <= depth <= i,
    ensures
        match r {
            Option::Some(j) => spec_env_close(bytes_list(lines@), i as int, depth as int)
                == Option::Some(j as int) && i <= j < lines@.len(),
            Option::None => spec_env_close(bytes_list(lines@), i as int, depth as int) is None,
        },
    decreases lines@.len() - i,
{
    let n = lines.len();
    if i >= n {
        return Option::None;
    }
    assert(depth + 1 <= n);
    proof {
        assert(bytes_list(lines@)[i as int] == lines@[i as int]@);
    }
    let t = do_trim_start(lines[i].as_slice());
    if eq_bytes(t, crate::lits::bytes_colons3().as_slice()) {
        if depth == 1 {
            Option::Some(i)
        } else {
            env_close(lines, i + 1, depth - 1)
        }
    } else if begins_with(t, crate::lits::bytes_colons3_sp().as_slice()) {
        env_close(lines, i + 1, depth + 1)
    } else {
        env_close(lines, i + 1, depth)
    }
}

/// The lines of a block quote, with their `>` markers stripped, and how
/// many lines the quote consumes.
pub open spec fn spec_quote_inner(lines: Seq<Seq<u8>>, i: int) -> Seq<Seq<u8>>
    decreases lines.len() - i,
{
    if i < 0 || i >= lines.len() {
        Seq::empty()
    } else {
        let t = trim_start(lines[i]);
        if t.len() > 0 && t[0] == 62 {
            let stripped = if t.len() > 1 && t[1] == 32 {
                t.subrange(2, t.len() as int)
            } else {
                t.subrange(1, t.len() as int)
            };
            seq![stripped] + spec_quote_inner(lines, i + 1)
        } else if t.len() == 0 && i + 1 < lines.len() && {
            let nt = trim_start(lines[i + 1]);
            nt.len() > 0 && nt[0] == 62
        } {
            seq![Seq::<u8>::empty()] + spec_quote_inner(lines, i + 1)
        } else {
            Seq::empty()
        }
    }
}

pub open spec fn spec_quote_consumed(lines: Seq<Seq<u8>>, i: int) -> int
    decreases lines.len() - i,
{
    if i < 0 || i >= lines.len() {
        0
    } else {
        let t = trim_start(lines[i]);
        if t.len() > 0 && t[0] == 62 {
            1 + spec_quote_consumed(lines, i + 1)
        } else if t.len() == 0 && i + 1 < lines.len() && {
            let nt = trim_start(lines[i + 1]);
            nt.len() > 0 && nt[0] == 62
        } {
            1 + spec_quote_consumed(lines, i + 1)
        } else {
            0
        }
    }
}

/// The quote's inner lines weigh strictly less than the lines from `i`
/// on, as soon as line `i` is quoted.
pub proof fn lemma_quote_lm(lines: Seq<Seq<u8>>, i: int)
    requires
        0 <= i <= lines.len(),
    ensures
        lm(spec_quote_inner(lines, i)) <= lm(lines.skip(i)),
        (i < lines.len() && {
            let t = trim_start(lines[i]);
            t.len() > 0 && t[0] == 62
        }) ==> lm(spec_quote_inner(lines, i)) < lm(lines.skip(i)),
        0 <= spec_quote_consumed(lines, i) <= lines.len() - i,
    decreases lines.len() - i,
{
    if i < lines.len() {
        lemma_quote_lm(lines, i + 1);
        let t = trim_start(lines[i]);
        crate::text::lemma_trim_start_idx(lines[i], 0);
        assert(t.len() <= lines[i].len());
        assert(lines.skip(i).first() == lines[i]);
        assert(lines.skip(i).drop_first() =~= lines.skip(i + 1));
        assert(lm(lines.skip(i)) == lines[i].len() + 1 + lm(lines.skip(i + 1)));
        if t.len() > 0 && t[0] == 62 {
            let inner = spec_quote_inner(lines, i);
            let stripped = if t.len() > 1 && t[1] == 32 {
                t.subrange(2, t.len() as int)
            } else {
                t.subrange(1, t.len() as int)
            };
            assert(inner == seq![stripped] + spec_quote_inner(lines, i + 1));
            assert(inner.first() == stripped);
            assert(inner.drop_first() =~= spec_quote_inner(lines, i + 1));
            assert(stripped.len() < t.len());
        } else if t.len() == 0 && i + 1 < lines.len() && {
            let nt = trim_start(lines[i + 1]);
            nt.len() > 0 && nt[0] == 62
        } {
            let inner = spec_quote_inner(lines, i);
            assert(inner.first() =~= Seq::<u8>::empty());
            assert(inner.drop_first() =~= spec_quote_inner(lines, i + 1));
        }
    }
}

fn quote_inner(lines: &[Vec<u8>], i: usize) -> (r: (Vec<Vec<u8>>, usize))
    requires
        i <= lines@.len(),
    ensures
        bytes_list(r.0@) == spec_quote_inner(bytes_list(lines@), i as int),
        r.1 == spec_quote_consumed(bytes_list(lines@), i as int),
        i + r.1 <= lines@.len(),
    decreases lines@.len() - i,
{
    if i >= lines.len() {
        return (Vec::new(), 0);
    }
    proof {
        assert(bytes_list(lines@)[i as int] == lines@[i as int]@);
        if i + 1 < lines@.len() {
            assert(bytes_list(lines@)[i + 1] == lines@[i + 1]@);
        }
    }
    let t = do_trim_start(lines[i].as_slice());
    if t.len() > 0 && t[0] == 62 {
        let stripped: Vec<u8> = if t.len() > 1 && t[1] == 32 {
            subv(t, 2, t.len())
        } else {
            subv(t, 1, t.len())
        };
        let (mut tail, c) = quote_inner(lines, i + 1);
        let mut out: Vec<Vec<u8>> = Vec::new();
        out.push(stripped);
        out.append(&mut tail);
        proof {
            assert(bytes_list(out@) =~= spec_quote_inner(bytes_list(lines@), i as int));
        }
        (out, c + 1)
    } else if t.len() == 0 && i + 1 < lines.len() && {
        let nt = do_trim_start(lines[i + 1].as_slice());
        nt.len() > 0 && nt[0] == 62
    } {
        let (mut tail, c) = quote_inner(lines, i + 1);
        let mut out: Vec<Vec<u8>> = Vec::new();
        out.push(Vec::new());
        out.append(&mut tail);
        proof {
            assert(bytes_list(out@) =~= spec_quote_inner(bytes_list(lines@), i as int));
        }
        (out, c + 1)
    } else {
        proof {
            assert(bytes_list(Seq::<Vec<u8>>::empty()) =~= Seq::<Seq<u8>>::empty());
        }
        (Vec::new(), 0)
    }
}

/// First non-blank line at or after `j` (blankness by full trim).
pub open spec fn spec_skip_blanks(lines: Seq<Seq<u8>>, j: int) -> int
    decreases lines.len() - j,
{
    if j < 0 || j >= lines.len() {
        if j < 0 {
            0
        } else {
            lines.len() as int
        }
    } else if is_blank(lines[j]) {
        spec_skip_blanks(lines, j + 1)
    } else {
        j
    }
}

fn skip_blanks(lines: &[Vec<u8>], j: usize) -> (r: usize)
    requires
        j <= lines@.len(),
    ensures
        r == spec_skip_blanks(bytes_list(lines@), j as int),
        j <= r <= lines@.len(),
    decreases lines@.len() - j,
{
    if j >= lines.len() {
        return j;
    }
    proof {
        assert(bytes_list(lines@)[j as int] == lines@[j as int]@);
    }
    if check_blank(lines[j].as_slice()) {
        skip_blanks(lines, j + 1)
    } else {
        j
    }
}

// ---------------------------------------------------------------------------
// List collection
// ---------------------------------------------------------------------------

pub open spec fn same_type(a: ListMarker, b: ListMarker) -> bool {
    ||| (a is Ordered && b is Ordered)
    ||| (a is Unordered && b is Unordered)
    ||| (a is Unordered && b is Checkbox)
    ||| (a is Checkbox && b is Unordered)
    ||| (a is Checkbox && b is Checkbox)
}

pub open spec fn marker_checked(m: ListMarker) -> Option<bool> {
    match m {
        ListMarker::Checkbox(c) => Option::Some(c),
        _ => Option::None,
    }
}

/// The continuation lines of one list item, and the index of the line
/// that follows them.
pub open spec fn spec_item_cont(lines: Seq<Seq<u8>>, i: int, indent: int) -> (Seq<Seq<u8>>, int)
    decreases lines.len() - i,
{
    if i < 0 || i >= lines.len() {
        (Seq::empty(), if i < 0 { 0int } else { lines.len() as int })
    } else {
        let nt = trim_start(lines[i]);
        let nind = lines[i].len() - nt.len();
        if spec_list_marker(nt) is Some && nind <= indent {
            (Seq::empty(), i)
        } else if nt.len() == 0 && {
            let j = spec_skip_blanks(lines, i + 1);
            j < lines.len() && {
                let ft = trim_start(lines[j]);
                lines[j].len() - ft.len() <= indent
            }
        } {
            (Seq::empty(), i)
        } else {
            let r = spec_item_cont(lines, i + 1, indent);
            (seq![nt] + r.0, r.1)
        }
    }
}

pub proof fn lemma_item_cont(lines: Seq<Seq<u8>>, i: int, indent: int)
    requires
        0 <= i <= lines.len(),
    ensures
        ({
            let r = spec_item_cont(lines, i, indent);
            &&& i <= r.1 <= lines.len()
            &&& lm(r.0) <= lm(lines.skip(i))
        }),
    decreases lines.len() - i,
{
    if i < lines.len() {
        lemma_item_cont(lines, i + 1, indent);
        let nt = trim_start(lines[i]);
        crate::text::lemma_trim_start_idx(lines[i], 0);
        assert(lines.skip(i).first() == lines[i]);
        assert(lines.skip(i).drop_first() =~= lines.skip(i + 1));
        let r = spec_item_cont(lines, i, indent);
        let r1 = spec_item_cont(lines, i + 1, indent);
        if r.0 == seq![nt] + r1.0 {
            assert(r.0.first() == nt);
            assert(r.0.drop_first() =~= r1.0);
        }
    }
}

fn item_cont(lines: &[Vec<u8>], i: usize, indent: usize) -> (r: (Vec<Vec<u8>>, usize))
    requires
        i <= lines@.len(),
    ensures
        (bytes_list(r.0@), r.1 as int) == spec_item_cont(bytes_list(lines@), i as int, indent as int),
        i <= r.1 <= lines@.len(),
    decreases lines@.len() - i,
{
    proof {
        lemma_item_cont(bytes_list(lines@), i as int, indent as int);
    }
    if i >= lines.len() {
        let e: Vec<Vec<u8>> = Vec::new();
        proof {
            assert(bytes_list(e@) =~= Seq::<Seq<u8>>::empty());
        }
        return (e, i);
    }
    proof {
        assert(bytes_list(lines@)[i as int] == lines@[i as int]@);
    }
    let nt = do_trim_start(lines[i].as_slice());
    proof {
        crate::text::lemma_trim_start_idx(lines@[i as int]@, 0);
    }
    let nind = lines[i].len() - nt.len();
    if list_item_marker(nt).is_some() && nind <= indent {
        let e: Vec<Vec<u8>> = Vec::new();
        proof {
            assert(bytes_list(e@) =~= Seq::<Seq<u8>>::empty());
        }
        return (e, i);
    }
    if nt.len() == 0 {
        let j = skip_blanks(lines, i + 1);
        if j < lines.len() {
            proof {
                assert(bytes_list(lines@)[j as int] == lines@[j as int]@);
            }
            let ft = do_trim_start(lines[j].as_slice());
            proof {
                crate::text::lemma_trim_start_idx(lines@[j as int]@, 0);
            }
            if lines[j].len() - ft.len() <= indent {
                let e: Vec<Vec<u8>> = Vec::new();
                proof {
                    assert(bytes_list(e@) =~= Seq::<Seq<u8>>::empty());
                }
                return (e, i);
            }
        }
    }
    let (mut tail, ni) = item_cont(lines, i + 1, indent);
    let mut out: Vec<Vec<u8>> = Vec::new();
    out.push(vstd::slice::slice_to_vec(nt));
    out.append(&mut tail);
    proof {
        assert(bytes_list(out@) =~= spec_item_cont(bytes_list(lines@), i as int, indent as int).0);
    }
    (out, ni)
}

/// The items of a list: for each, its content lines (first line already
/// stripped of its marker) and its checkbox state; plus the consumed
/// line count.
pub open spec fn spec_list_items(lines: Seq<Seq<u8>>, i: int, indent: int, m0: ListMarker) -> (
    Seq<(Seq<Seq<u8>>, Option<bool>)>,
    int,
)
    decreases lines.len() - i,
{
    if i < 0 || i >= lines.len() {
        (Seq::empty(), if i < 0 { 0int } else { lines.len() as int })
    } else {
        let t = trim_start(lines[i]);
        let ci = lines[i].len() - t.len();
        match spec_list_marker(t) {
            Option::Some((m, used)) => {
                if ci <= indent && same_type(m0, m) {
                    let rest = if 0 <= used <= t.len() {
                        t.subrange(used, t.len() as int)
                    } else {
                        Seq::empty()
                    };
                    let rc = spec_item_cont(lines, i + 1, indent);
                    if i + 1 <= rc.1 <= lines.len() {
                        let tail = spec_list_items(lines, rc.1, indent, m0);
                        (seq![(seq![rest] + rc.0, marker_checked(m))] + tail.0, tail.1)
                    } else {
                        (Seq::empty(), i)
                    }
                } else {
                    (Seq::empty(), i)
                }
            },
            Option::None => {
                if ci > indent || t.len() == 0 {
                    spec_list_items(lines, i + 1, indent, m0)
                } else {
                    (Seq::empty(), i)
                }
            },
        }
    }
}

/// Every marker consumes at least two bytes.
pub proof fn lemma_marker_consumed(t: Seq<u8>)
    ensures
        spec_list_marker(t) matches Option::Some(p) ==> 2 <= p.1 <= t.len(),
{
    crate::lexer::lemma_scan_ws_bounds(t, 1);
    if t.len() >= 1 && (t[0] == 45 || t[0] == 42 || t[0] == 43) {
        let w = crate::lexer::scan_ws(t, 1);
        if w != 1 && t.len() >= 3 && w < t.len() - 2 && t[w] == 91 && (t[w + 1] == 120 || t[w + 1]
            == 88 || t[w + 1] == 32) && t[w + 2] == 93 {
            crate::lexer::lemma_scan_ws_bounds(t, w + 3);
        }
    } else {
        crate::lexer::lemma_scan_digits_bounds(t, 0);
        let d = crate::lexer::scan_digits(t, 0);
        if 0 < d < t.len() && (t[d] == 46 || t[d] == 41) {
            crate::lexer::lemma_scan_ws_bounds(t, d + 1);
        }
    }
}

pub proof fn lemma_list_items(lines: Seq<Seq<u8>>, i: int, indent: int, m0: ListMarker)
    requires
        0 <= i <= lines.len(),
    ensures
        ({
            let r = spec_list_items(lines, i, indent, m0);
            &&& i <= r.1 <= lines.len()
            &&& (r.0.len() > 0 ==> r.1 > i)
            &&& forall|k: int|
                0 <= k < r.0.len() ==> lm(#[trigger] r.0[k].0) < lm(lines.skip(i))
        }),
    decreases lines.len() - i,
{
    if i < lines.len() {
        let t = trim_start(lines[i]);
        let ci = lines[i].len() - t.len();
        crate::text::lemma_trim_start_idx(lines[i], 0);
        assert(lines.skip(i).first() == lines[i]);
        assert(lines.skip(i).drop_first() =~= lines.skip(i + 1));
        match spec_list_marker(t) {
            Option::Some((m, used)) => {
                if ci <= indent && same_type(m0, m) {
                    lemma_marker_consumed(t);
                    let rest = if 0 <= used <= t.len() {
                        t.subrange(used, t.len() as int)
                    } else {
                        Seq::<u8>::empty()
                    };
                    lemma_item_cont(lines, i + 1, indent);
                    let rc = spec_item_cont(lines, i + 1, indent);
                    lemma_list_items(lines, rc.1, indent, m0);
                    let tail = spec_list_items(lines, rc.1, indent, m0);
                    let item = seq![rest] + rc.0;
                    assert(item.first() == rest);
                    assert(item.drop_first() =~= rc.0);
                    assert(lm(item) == rest.len() + 1 + lm(rc.0));
                    assert(rest.len() + 2 <= t.len() <= lines[i].len());
                    assert(lm(item) < lm(lines.skip(i)));
                    lemma_lm_skip_mono(lines, i, rc.1);
                    let r = spec_list_items(lines, i, indent, m0);
                    assert forall|k: int| 0 <= k < r.0.len() implies lm(#[trigger] r.0[k].0) < lm(
                        lines.skip(i),
                    ) by {
                        if k == 0 {
                            assert(r.0[0].0 == item);
                        } else {
                            assert(r.0[k] == tail.0[k - 1]);
                            assert(lm(tail.0[k - 1].0) < lm(lines.skip(rc.1)));
                        }
                    }
                }
            },
            Option::None => {
                if ci > indent || t.len() == 0 {
                    lemma_list_items(lines, i + 1, indent, m0);
                    lemma_lm_skip_mono(lines, i, i + 1);
                }
            },
        }
    }
}

/// Skipping more lines never raises the measure.
pub proof fn lemma_lm_skip_mono(lines: Seq<Seq<u8>>, i: int, j: int)
    requires
        0 <= i <= j <= lines.len(),
    ensures
        lm(lines.skip(j)) <= lm(lines.skip(i)),
{
    lemma_lm_skip(lines.skip(i), j - i);
    assert(lines.skip(i).skip(j - i) =~= lines.skip(j));
}

fn list_items(lines: &[Vec<u8>], i: usize, indent: usize, m0: ListMarker) -> (r: (
    Vec<(Vec<Vec<u8>>, Option<bool>)>,
    usize,
))
    requires
        i <= lines@.len(),
    ensures
        ({
            let sp = spec_list_items(bytes_list(lines@), i as int, indent as int, m0);
            &&& r.0@.len() == sp.0.len()
            &&& forall|k: int|
                0 <= k < r.0@.len() ==> (bytes_list(#[trigger] r.0@[k].0@), r.0@[k].1) == sp.0[k]
            &&& r.1 as int == sp.1
            &&& i <= r.1 <= lines@.len()
        }),
    decreases lines@.len() - i,
{
    proof {
        lemma_list_items(bytes_list(lines@), i as int, indent as int, m0);
    }
    let mut out: Vec<(Vec<Vec<u8>>, Option<bool>)> = Vec::new();
    if i >= lines.len() {
        return (out, i);
    }
    proof {
        assert(bytes_list(lines@)[i as int] == lines@[i as int]@);
    }
    let t = do_trim_start(lines[i].as_slice());
    proof {
        crate::text::lemma_trim_start_idx(lines@[i as int]@, 0);
    }
    let ci = lines[i].len() - t.len();
    match list_item_marker(t) {
        Option::Some((tok, used)) => {
            let m = match tok {
                Token::ListItemMarker(m) => m,
                _ => {
                    proof {
                        assert(false);
                    }
                    ListMarker::Unordered
                },
            };
            let st = match (m0, m) {
                (ListMarker::Ordered(_), ListMarker::Ordered(_)) => true,
                (ListMarker::Unordered, ListMarker::Unordered) => true,
                (ListMarker::Unordered, ListMarker::Checkbox(_)) => true,
                (ListMarker::Checkbox(_), ListMarker::Unordered) => true,
                (ListMarker::Checkbox(_), ListMarker::Checkbox(_)) => true,
                _ => false,
            };
            if ci <= indent && st {
                proof {
                    lemma_marker_consumed(t@);
                }
                let rest = subv(t, used, t.len());
                let (cont, ni) = item_cont(lines, i + 1, indent);
                let mut item_lines: Vec<Vec<u8>> = Vec::new();
                item_lines.push(rest);
                let mut cont = cont;
                item_lines.append(&mut cont);
                let checked = match m {
                    ListMarker::Checkbox(c) => Option::Some(c),
                    _ => Option::None,
                };
                let (mut tail, fi) = list_items(lines, ni, indent, m0);
                let ghost tail_view = tail@;
                out.push((item_lines, checked));
                out.append(&mut tail);
                proof {
                    let sp = spec_list_items(bytes_list(lines@), i as int, indent as int, m0);
                    assert(bytes_list(out@[0].0@) =~= sp.0[0].0);
                    assert forall|k: int| 0 <= k < out@.len() implies (bytes_list(
                        #[trigger] out@[k].0@,
                    ), out@[k].1) == sp.0[k] by {
                        if k > 0 {
                            assert(out@[k] == tail_view[k - 1]);
                        }
                    }
                }
                (out, fi)
            } else {
                (out, i)
            }
        },
        Option::None => {
            if ci > indent || t.len() == 0 {
                list_items(lines, i + 1, indent, m0)
            } else {
                (out, i)
            }
        },
    }
}

// ---------------------------------------------------------------------------
// Description lists
// ---------------------------------------------------------------------------

/// The definition lines of one term: `: `-prefixed lines, with blank
/// lines kept when another definition line follows.
pub open spec fn spec_desc_defs(lines: Seq<Seq<u8>>, i: int) -> (Seq<Seq<u8>>, int)
    decreases lines.len() - i,
{
    if i < 0 || i >= lines.len() {
        (Seq::empty(), if i < 0 { 0int } else { lines.len() as int })
    } else {
        let l = trim(lines[i]);
        if l.len() > 0 && l[0] == 58 {
            let r = spec_desc_defs(lines, i + 1);
            (seq![trim(l.subrange(1, l.len() as int))] + r.0, r.1)
        } else if l.len() == 0 && i + 1 < lines.len() && {
            let nl = trim(lines[i + 1]);
            nl.len() > 0 && nl[0] == 58
        } {
            let r = spec_desc_defs(lines, i + 1);
            (seq![Seq::<u8>::empty()] + r.0, r.1)
        } else {
            (Seq::empty(), i)
        }
    }
}

pub proof fn lemma_desc_defs(lines: Seq<Seq<u8>>, i: int)
    requires
        0 <= i <= lines.len(),
    ensures
        ({
            let r = spec_desc_defs(lines, i);
            &&& i <= r.1 <= lines.len()
            &&& lm(r.0) <= lm(lines.skip(i))
            &&& (i < lines.len() && {
                let l = trim(lines[i]);
                l.len() > 0 && l[0] == 58
            }) ==> lm(r.0) < lm(lines.skip(i))
        }),
    decreases lines.len() - i,
{
    if i < lines.len() {
        lemma_desc_defs(lines, i + 1);
        let l = trim(lines[i]);
        crate::text::lemma_trim_start_idx(lines[i], 0);
        assert(trim_start(lines[i]).len() <= lines[i].len());
        assert(l.len() <= trim_start(lines[i]).len()) by {
            crate::text::lemma_trim_end_len(trim_start(lines[i]));
        }
        assert(lines.skip(i).first() == lines[i]);
        assert(lines.skip(i).drop_first() =~= lines.skip(i + 1));
        let r = spec_desc_defs(lines, i);
        let r1 = spec_desc_defs(lines, i + 1);
        if l.len() > 0 && l[0] == 58 {
            let piece = trim(l.subrange(1, l.len() as int));
            assert(piece.len() <= l.len() - 1) by {
                crate::text::lemma_trim_start_idx(l.subrange(1, l.len() as int), 0);
                crate::text::lemma_trim_end_len(trim_start(l.subrange(1, l.len() as int)));
            }
            assert(r.0.first() == piece);
            assert(r.0.drop_first() =~= r1.0);
        } else if l.len() == 0 && i + 1 < lines.len() && {
            let nl = trim(lines[i + 1]);
            nl.len() > 0 && nl[0] == 58
        } {
            assert(r.0.first() =~= Seq::<u8>::empty());
            assert(r.0.drop_first() =~= r1.0);
        }
    }
}

fn desc_defs(lines: &[Vec<u8>], i: usize) -> (r: (Vec<Vec<u8>>, usize))
    requires
        i <= lines@.len(),
    ensures
        (bytes_list(r.0@), r.1 as int) == spec_desc_defs(bytes_list(lines@), i as int),
        i <= r.1 <= lines@.len(),
    decreases lines@.len() - i,
{
    proof {
        lemma_desc_defs(bytes_list(lines@), i as int);
    }
    let mut out: Vec<Vec<u8>> = Vec::new();
    if i >= lines.len() {
        proof {
            assert(bytes_list(out@) =~= Seq::<Seq<u8>>::empty());
        }
        return (out, i);
    }
    proof {
        assert(bytes_list(lines@)[i as int] == lines@[i as int]@);
    }
    let l = do_trim(lines[i].as_slice());
    if l.len() > 0 && l[0] == 58 {
        let piece = vstd::slice::slice_to_vec(
            do_trim(vstd::slice::slice_subrange(l, 1, l.len())),
        );
        let (mut tail, ni) = desc_defs(lines, i + 1);
        out.push(piece);
        out.append(&mut tail);
        proof {
            assert(bytes_list(out@) =~= spec_desc_defs(bytes_list(lines@), i as int).0);
        }
        return (out, ni);
    }
    if l.len() == 0 && i + 1 < lines.len() {
        proof {
            assert(bytes_list(lines@)[i + 1] == lines@[i + 1]@);
        }
        let nl = do_trim(lines[i + 1].as_slice());
        if nl.len() > 0 && nl[0] == 58 {
            let (mut tail, ni) = desc_defs(lines, i + 1);
            out.push(Vec::new());
            out.append(&mut tail);
            proof {
                assert(bytes_list(out@) =~= spec_desc_defs(bytes_list(lines@), i as int).0);
            }
            return (out, ni);
        }
    }
    proof {
        assert(bytes_list(out@) =~= Seq::<Seq<u8>>::empty());
    }
    (out, i)
}

/// The term/definition pairs of a description list, as a term line and
/// definition lines each.
pub open spec fn spec_desc_items(lines: Seq<Seq<u8>>, i: int) -> (
    Seq<(Seq<u8>, Seq<Seq<u8>>)>,
    int,
)
    decreases lines.len() - i,
{
    if i < 0 || i >= lines.len() {
        (Seq::empty(), if i < 0 { 0int } else { lines.len() as int })
    } else {
        let term = trim(lines[i]);
        if term.len() == 0 {
            spec_desc_items(lines, i + 1)
        } else if term[0] == 58 {
            (Seq::empty(), i)
        } else if !(i + 1 < lines.len() && {
            let nl = trim(lines[i + 1]);
            nl.len() > 0 && nl[0] == 58
        }) {
            (Seq::empty(), i)
        } else {
            let d = spec_desc_defs(lines, i + 1);
            if i + 1 <= d.1 <= lines.len() {
                let tail = spec_desc_items(lines, d.1);
                (seq![(term, d.0)] + tail.0, tail.1)
            } else {
                (Seq::empty(), i)
            }
        }
    }
}

pub proof fn lemma_desc_items(lines: Seq<Seq<u8>>, i: int)
    requires
        0 <= i <= lines.len(),
    ensures
        ({
            let r = spec_desc_items(lines, i);
            &&& i <= r.1 <= lines.len()
            &&& (r.0.len() > 0 ==> r.1 > i)
            &&& forall|k: int|
                0 <= k < r.0.len() ==> lm(#[trigger] r.0[k].1) < lm(lines.skip(i))
        }),
    decreases lines.len() - i,
{
    if i < lines.len() {
        let term = trim(lines[i]);
        if term.len() == 0 {
            lemma_desc_items(lines, i + 1);
            lemma_lm_skip_mono(lines, i, i + 1);
        } else if term[0] == 58 {
        } else if !(i + 1 < lines.len() && {
            let nl = trim(lines[i + 1]);
            nl.len() > 0 && nl[0] == 58
        }) {
        } else {
            lemma_desc_defs(lines, i + 1);
            let d = spec_desc_defs(lines, i + 1);
            lemma_desc_items(lines, d.1);
            let tail = spec_desc_items(lines, d.1);
            lemma_lm_skip_mono(lines, i, i + 1);
            lemma_lm_skip_mono(lines, i, d.1);
            let r = spec_desc_items(lines, i);
            assert(lm(d.0) < lm(lines.skip(i + 1)));
            assert(lm(lines.skip(i + 1)) <= lm(lines.skip(i)));
            assert forall|k: int| 0 <= k < r.0.len() implies lm(#[trigger] r.0[k].1) < lm(
                lines.skip(i),
            ) by {
                if k == 0 {
                    assert(r.0[0].1 == d.0);
                } else {
                    assert(r.0[k] == tail.0[k - 1]);
                    assert(lm(tail.0[k - 1].1) < lm(lines.skip(d.1)));
                }
            }
        }
    }
}

fn desc_items(lines: &[Vec<u8>], i: usize) -> (r: (Vec<(Vec<u8>, Vec<Vec<u8>>)>, usize))
    requires
        i <= lines@.len(),
    ensures
        ({
            let sp = spec_desc_items(bytes_list(lines@), i as int);
            &&& r.0@.len() == sp.0.len()
            &&& forall|k: int|
                0 <= k < r.0@.len() ==> (#[trigger] r.0@[k].0@, bytes_list(r.0@[k].1@)) == sp.0[k]
            &&& r.1 as int == sp.1
            &&& i <= r.1 <= lines@.len()
        }),
    decreases lines@.len() - i,
{
    proof {
        lemma_desc_items(bytes_list(lines@), i as int);
    }
    let mut out: Vec<(Vec<u8>, Vec<Vec<u8>>)> = Vec::new();
    if i >= lines.len() {
        return (out, i);
    }
    proof {
        assert(bytes_list(lines@)[i as int] == lines@[i as int]@);
    }
    let term = do_trim(lines[i].as_slice());
    if term.len() == 0 {
        return desc_items(lines, i + 1);
    }
    if term[0] == 58 {
        return (out, i);
    }
    let has_def = i + 1 < lines.len() && {
        proof {
            assert(bytes_list(lines@)[i + 1] == lines@[i + 1]@);
        }
        let nl = do_trim(lines[i + 1].as_slice());
        nl.len() > 0 && nl[0] == 58
    };
    if !has_def {
        return (out, i);
    }
    let (defs, ni) = desc_defs(lines, i + 1);
    let (mut tail, fi) = desc_items(lines, ni);
    let ghost tail_view = tail@;
    out.push((vstd::slice::slice_to_vec(term), defs));
    out.append(&mut tail);
    proof {
        let sp = spec_desc_items(bytes_list(lines@), i as int);
        assert forall|k: int| 0 <= k < out@.len() implies (#[trigger] out@[k].0@, bytes_list(
            out@[k].1@,
        )) == sp.0[k] by {
            if k > 0 {
                assert(out@[k] == tail_view[k - 1]);
            }
        }
    }
    (out, fi)
}

// ---------------------------------------------------------------------------
// Table rows
// ---------------------------------------------------------------------------

/// First line at or after `i` that cannot be a table row.
pub open spec fn spec_row_end(lines: Seq<Seq<u8>>, i: int) -> int
    decreases lines.len() - i,
{
    if i < 0 || i >= lines.len() {
        if i < 0 {
            0
        } else {
            lines.len() as int
        }
    } else if spec_find(lines[i], seq![124u8], 0) is None || trim(lines[i]).len() == 0 {
        i
    } else {
        spec_row_end(lines, i + 1)
    }
}

fn row_end(lines: &[Vec<u8>], i: usize) -> (r: usize)
    requires
        i <= lines@.len(),
    ensures
        r == spec_row_end(bytes_list(lines@), i as int),
        i <= r <= lines@.len(),
    decreases lines@.len() - i,
{
    if i >= lines.len() {
        return i;
    }
    proof {
        assert(bytes_list(lines@)[i as int] == lines@[i as int]@);
    }
    let pipe: [u8; 1] = [124];
    proof {
        assert(pipe@ =~= seq![124u8]);
    }
    let has_pipe = find_sub(lines[i].as_slice(), pipe.as_slice(), 0).is_some();
    let blank = do_trim(lines[i].as_slice()).len() == 0;
    if !has_pipe || blank {
        i
    } else {
        row_end(lines, i + 1)
    }
}

// ---------------------------------------------------------------------------
// Paragraphs
// ---------------------------------------------------------------------------

/// A line that interrupts a paragraph.
pub open spec fn spec_para_interrupt(line: Seq<u8>) -> bool {
    let t = trim(line);
    ||| t.len() == 0
    ||| (t.len() > 0 && t[0] == 35)
    ||| starts_with(t, crate::lits::lit_backticks3())
    ||| starts_with(t, crate::lits::lit_tildes3())
    ||| starts_with(t, crate::lits::lit_colons3())
    ||| starts_with(t, crate::lits::lit_dollars2())
    ||| (t.len() > 0 && t[0] == 62)
    ||| t == crate::lits::lit_dashes3()
    ||| t == crate::lits::lit_stars3()
    ||| t == crate::lits::lit_unders3()
    ||| t == crate::lits::lit_toc()
    ||| spec_list_marker(t) is Some
}

fn para_interrupt(line: &[u8]) -> (r: bool)
    ensures
        r == spec_para_interrupt(line@),
{
    let t = do_trim(line);
    if t.len() == 0 {
        return true;
    }
    if t[0] == 35 || t[0] == 62 {
        return true;
    }
    if begins_with(t, crate::lits::bytes_backticks3().as_slice()) || begins_with(
        t,
        crate::lits::bytes_tildes3().as_slice(),
    ) || begins_with(t, crate::lits::bytes_colons3().as_slice()) || begins_with(
        t,
        crate::lits::bytes_dollars2().as_slice(),
    ) {
        return true;
    }
    if eq_bytes(t, crate::lits::bytes_dashes3().as_slice()) || eq_bytes(
        t,
        crate::lits::bytes_stars3().as_slice(),
    ) || eq_bytes(t, crate::lits::bytes_unders3().as_slice()) || eq_bytes(
        t,
        crate::lits::bytes_toc().as_slice(),
    ) {
        return true;
    }
    list_item_marker(t).is_some()
}

pub open spec fn spec_para_end(lines: Seq<Seq<u8>>, i: int) -> int
    decreases lines.len() - i,
{
    if i < 0 || i >= lines.len() {
        if i < 0 {
            0
        } else {
            lines.len() as int
        }
    } else if spec_para_interrupt(lines[i]) {
        i
    } else {
        spec_para_end(lines, i + 1)
    }
}

fn para_end(lines: &[Vec<u8>], i: usize) -> (r: usize)
    requires
        i <= lines@.len(),
    ensures
        r == spec_para_end(bytes_list(lines@), i as int),
        i <= r <= lines@.len(),
    decreases lines@.len() - i,
{
    if i >= lines.len() {
        return i;
    }
    proof {
        assert(bytes_list(lines@)[i as int] == lines@[i as int]@);
    }
    if para_interrupt(lines[i].as_slice()) {
        i
    } else {
        para_end(lines, i + 1)
    }
}

// ---------------------------------------------------------------------------
// The block step and the parse
// ---------------------------------------------------------------------------

/// The figure/table caption rule: a trailing standalone paragraph is the
/// caption when more than one block is present.
pub open spec fn spec_env_content(kind: SpecEnvKind, blocks: Seq<SpecBlock>) -> (
    Seq<SpecBlock>,
    Option<Seq<SpecInline>>,
) {
    if (kind is Figure || kind is Table) && blocks.len() > 1 && blocks.last()
        matches SpecBlock::Paragraph(_) {
        (
            blocks.drop_last(),
            match blocks.last() {
                SpecBlock::Paragraph(v) => Option::Some(v),
                _ => Option::None,
            },
        )
    } else {
        (blocks, Option::None)
    }
}

/// Parse the first block of the (non-empty, non-blank-initial) lines,
/// returning it and the number of lines it consumed.
pub open spec fn spec_block_step(lines: Seq<Seq<u8>>) -> (SpecBlock, int)
    decreases lm(lines), 1int,
{
    let line = lines[0];
    let t = trim_start(line);
    if t.len() > 0 && t[0] == 35 && spec_heading(t) is Some {
        let hp = spec_heading(t)->Some_0;
        let el = spec_extract_label(hp.1);
        (
            SpecBlock::Heading { level: hp.0, content: spec_parse_inlines(el.0), label: el.1 },
            1,
        )
    } else if spec_page_break(line) {
        (SpecBlock::PageBreak, 1)
    } else if spec_appendix(line) {
        (SpecBlock::AppendixMarker, 1)
    } else if spec_thematic(t) {
        (SpecBlock::ThematicBreak, 1)
    } else if spec_toc(line) {
        (SpecBlock::TableOfContents, 1)
    } else if starts_with(t, crate::lits::lit_backticks3()) || starts_with(
        t,
        crate::lits::lit_tildes3(),
    ) {
        let fence = if starts_with(t, crate::lits::lit_backticks3()) {
            crate::lits::lit_backticks3()
        } else {
            crate::lits::lit_tildes3()
        };
        let lang = match spec_fence_start(t) {
            Option::Some(l) => l,
            Option::None => Seq::empty(),
        };
        let language = if lang.len() == 0 {
            Option::None
        } else {
            Option::Some(lang)
        };
        match spec_fence_close(lines, fence, 1) {
            Option::Some(j) => if 1 <= j <= lines.len() {
                (
                    SpecBlock::CodeBlock {
                        language,
                        content: spec_join(lines.subrange(1, j), 10),
                    },
                    j + 1,
                )
            } else {
                (SpecBlock::CodeBlock { language, content: Seq::empty() }, lines.len() as int)
            },
            Option::None => (
                SpecBlock::CodeBlock { language, content: spec_join(lines.skip(1), 10) },
                lines.len() as int,
            ),
        }
    } else if starts_with(t, crate::lits::lit_dollars2()) {
        let rest0 = t.skip(2);
        match spec_find(rest0, crate::lits::lit_dollars2(), 0) {
            Option::Some(e) => if 0 <= e && e + 2 <= rest0.len() {
                let content = rest0.subrange(0, e);
                let label = spec_extract_label(rest0.skip(e + 2)).1;
                (SpecBlock::DisplayMath { content, label }, 1)
            } else {
                (SpecBlock::DisplayMath { content: Seq::empty(), label: Option::None }, 1)
            },
            Option::None => match spec_math_close(lines, 1) {
                Option::Some(mp) => if 1 <= mp.0 < lines.len() && 0 <= mp.1 && mp.1 + 2
                    <= lines[mp.0].len() {
                    let content = trim(
                        spec_join(
                            seq![rest0] + lines.subrange(1, mp.0) + seq![
                                lines[mp.0].subrange(0, mp.1),
                            ],
                            10,
                        ),
                    );
                    let label = spec_extract_label(lines[mp.0].skip(mp.1 + 2)).1;
                    (SpecBlock::DisplayMath { content, label }, mp.0 + 1)
                } else {
                    (SpecBlock::DisplayMath { content: Seq::empty(), label: Option::None }, 1)
                },
                Option::None => (
                    SpecBlock::DisplayMath {
                        content: trim(spec_join(seq![rest0] + lines.skip(1), 10)),
                        label: Option::None,
                    },
                    lines.len() as int,
                ),
            },
        }
    } else if starts_with(t, crate::lits::lit_colons3()) && spec_env_start(t) is Some {
        let ep = spec_env_start(t)->Some_0;
        let kind = spec_env_kind_from(ep.0);
        let ic = match spec_env_close(lines, 1, 1) {
            Option::Some(j) => if 1 <= j <= lines.len() {
                (lines.subrange(1, j), j + 1)
            } else {
                (lines.skip(1), lines.len() as int)
            },
            Option::None => (lines.skip(1), lines.len() as int),
        };
        let blocks = if lm(ic.0) < lm(lines) {
            spec_parse_lines(ic.0)
        } else {
            arbitrary()
        };
        let cc = spec_env_content(kind, blocks);
        (
            SpecBlock::Environment { kind, label: ep.1, content: cc.0, caption: cc.1 },
            ic.1,
        )
    } else if t.len() > 0 && t[0] == 62 {
        let inner = spec_quote_inner(lines, 0);
        let consumed = spec_quote_consumed(lines, 0);
        let blocks = if lm(inner) < lm(lines) {
            spec_parse_lines(inner)
        } else {
            arbitrary()
        };
        (SpecBlock::BlockQuote(blocks), consumed)
    } else if spec_list_marker(t) is Some && spec_list_items(
        lines,
        0,
        (line.len() - t.len()) as int,
        spec_list_marker(t)->Some_0.0,
    ).0.len() > 0 {
        let m0 = spec_list_marker(t)->Some_0.0;
        let li = spec_list_items(lines, 0, (line.len() - t.len()) as int, m0);
        let items = Seq::new(
            li.0.len(),
            |k: int| if 0 <= k < li.0.len() {
                SpecListItem {
                    content: if lm(li.0[k].0) < lm(lines) {
                        spec_parse_lines(li.0[k].0)
                    } else {
                        arbitrary()
                    },
                    checked: li.0[k].1,
                }
            } else {
                arbitrary()
            },
        );
        let ordered = m0 is Ordered;
        let start = match m0 {
            ListMarker::Ordered(n) => Option::Some(n),
            _ => Option::None,
        };
        (SpecBlock::List { ordered, start, items }, li.1)
    } else if spec_find(line, seq![124u8], 0) is Some && lines.len() >= 2 && spec_is_table_delim(
        lines[1],
    ) {
        let headers = spec_table_row(lines[0]);
        let alignments = spec_alignments(lines[1]);
        let end = spec_row_end(lines, 2);
        let rows = Seq::new(
            if end >= 2 {
                (end - 2) as nat
            } else {
                0
            },
            |k: int| if 0 <= k && 2 + k < lines.len() {
                spec_table_row(lines[2 + k])
            } else {
                arbitrary()
            },
        );
        if end < lines.len() && {
            let nx = trim(lines[end]);
            starts_with(nx, crate::lits::lit_table_colon()) || starts_with(
                nx,
                crate::lits::lit_caption_colon(),
            )
        } {
            let nx = trim(lines[end]);
            let captext = match crate::lexer::spec_split_once(nx, 58) {
                Option::Some(p) => trim(p.1),
                Option::None => Seq::empty(),
            };
            let el = spec_extract_label(captext);
            (
                SpecBlock::Table {
                    headers,
                    alignments,
                    rows,
                    label: el.1,
                    caption: Option::Some(spec_parse_inlines(el.0)),
                },
                end + 1,
            )
        } else {
            (
                SpecBlock::Table {
                    headers,
                    alignments,
                    rows,
                    label: Option::None,
                    caption: Option::None,
                },
                end,
            )
        }
    } else if lines.len() >= 2 && !{
        let f = trim(lines[0]);
        f.len() > 0 && f[0] == 58
    } && {
        let sec = trim(lines[1]);
        sec.len() > 0 && sec[0] == 58
    } && spec_desc_items(lines, 0).0.len() > 0 {
        let di = spec_desc_items(lines, 0);
        let items = Seq::new(
            di.0.len(),
            |k: int| if 0 <= k < di.0.len() {
                SpecDescriptionItem {
                    term: spec_parse_inlines(di.0[k].0),
                    description: if lm(di.0[k].1) < lm(lines) {
                        spec_parse_lines(di.0[k].1)
                    } else {
                        arbitrary()
                    },
                }
            } else {
                arbitrary()
            },
        );
        (SpecBlock::DescriptionList(items), di.1)
    } else {
        let end = spec_para_end(lines, 0);
        let consumed: int = if end < 1 {
            1
        } else {
            end
        };
        let content = spec_join(
            lines.subrange(
                0,
                if 0 <= end <= lines.len() {
                    end
                } else {
                    0
                },
            ),
            10,
        );
        (SpecBlock::Paragraph(spec_parse_inlines(content)), consumed)
    }
}

/// Parse a sequence of lines into blocks: skip blank lines, then take
/// one block at a time.
pub open spec fn spec_parse_lines(lines: Seq<Seq<u8>>) -> Seq<SpecBlock>
    decreases lm(lines), 2int,
{
    if lines.len() == 0 {
        Seq::empty()
    } else if trim_start(lines[0]).len() == 0 {
        if lm(lines.skip(1)) < lm(lines) {
            spec_parse_lines(lines.skip(1))
        } else {
            arbitrary()
        }
    } else {
        let st = spec_block_step(lines);
        if 1 <= st.1 <= lines.len() && lm(lines.skip(st.1)) < lm(lines) {
            seq![st.0] + spec_parse_lines(lines.skip(st.1))
        } else {
            seq![st.0]
        }
    }
}

/// The blocks of a byte string: its lines, parsed.
pub open spec fn spec_parse_blocks(s: Seq<u8>) -> Seq<SpecBlock> {
    spec_parse_lines(crate::text::spec_lines(s))
}

fn env_content(kind: &EnvironmentKind, blocks: Vec<Block>) -> (r: (Vec<Block>, Option<Vec<Inline>>))
    ensures
        (blocks_dv(r.0@), opt_inlines_dv(r.1)) == spec_env_content(
            env_kind_dv(*kind),
            blocks_dv(blocks@),
        ),
{
    let ghost orig = blocks_dv(blocks@);
    let is_fig_tab = matches!(kind, EnvironmentKind::Figure) || matches!(
        kind,
        EnvironmentKind::Table,
    );
    if is_fig_tab && blocks.len() > 1 {
        let last_is_para = matches!(&blocks[blocks.len() - 1], Block::Paragraph(_));
        if last_is_para {
            let mut blocks = blocks;
            let last = blocks.pop();
            proof {
                assert(blocks_dv(blocks@) =~= orig.drop_last());
            }
            match last {
                Option::Some(Block::Paragraph(v)) => {
                    proof {
                        assert(orig.last() == block_dv(Block::Paragraph(v)));
                    }
                    return (blocks, Option::Some(v));
                },
                _ => {
                    proof {
                        assert(false);
                    }
                    return (blocks, Option::None);
                },
            }
        }
        return (blocks, Option::None);
    }
    (blocks, Option::None)
}

/// Parse the first block of the lines.
#[verifier::loop_isolation(false)]
#[verifier::rlimit(100)]
fn block_step(lines: &[Vec<u8>]) -> (r: (Block, usize))
    requires
        lines@.len() >= 1,
    ensures
        ({
            let sp = spec_block_step(bytes_list(lines@));
            &&& block_dv(r.0) == sp.0
            &&& r.1 as int == sp.1
            &&& 1 <= r.1 <= lines@.len()
        }),
    decreases lm(bytes_list(lines@)), 1int,
{
    let ghost model = bytes_list(lines@);
    proof {
        assert(model[0] == lines@[0]@);
    }
    let line = lines[0].as_slice();
    let t = do_trim_start(line);
    // Headings
    if t.len() > 0 && t[0] == 35 {
        match heading(t) {
            Option::Some(tok) => {
                match tok {
                    Token::Heading(level, content) => {
                        let (c2, label) = extract_label(content.as_slice());
                        let inlines = parse_inlines(c2.as_slice());
                        return (Block::Heading { level, content: inlines, label }, 1);
                    },
                    _ => {
                        proof {
                            assert(false);
                        }
                    },
                }
            },
            Option::None => {},
        }
    }
    // Page breaks, appendix markers, thematic breaks, the contents marker
    if is_page_break(line) {
        return (Block::PageBreak, 1);
    }
    if is_appendix(line) {
        return (Block::AppendixMarker, 1);
    }
    if thematic_break(t).is_some() {
        return (Block::ThematicBreak, 1);
    }
    if is_toc(line) {
        return (Block::TableOfContents, 1);
    }
    // Fenced code
    let bt3 = crate::lits::bytes_backticks3();
    let td3 = crate::lits::bytes_tildes3();
    let is_bt = begins_with(t, bt3.as_slice());
    if is_bt || begins_with(t, td3.as_slice()) {
        let fence: &[u8] = if is_bt {
            bt3.as_slice()
        } else {
            td3.as_slice()
        };
        let lang: Vec<u8> = match fenced_code_start(t) {
            Option::Some(Token::FencedCodeStart(l)) => l,
            _ => {
                proof {
                    assert(false);
                }
                Vec::new()
            },
        };
        let language: Option<Vec<u8>> = if lang.len() == 0 {
            Option::None
        } else {
            Option::Some(lang)
        };
        match fence_close(lines, fence, 1) {
            Option::Some(j) => {
                let body = vstd::slice::slice_subrange(lines, 1, j);
                let content = join_lines(body, 10);
                proof {
                    assert(bytes_list(body@) =~= model.subrange(1, j as int));
                }
                return (Block::CodeBlock { language, content }, j + 1);
            },
            Option::None => {
                let body = vstd::slice::slice_subrange(lines, 1, lines.len());
                let content = join_lines(body, 10);
                proof {
                    assert(bytes_list(body@) =~= model.skip(1));
                }
                return (Block::CodeBlock { language, content }, lines.len());
            },
        }
    }
    // Display math
    let d2 = crate::lits::bytes_dollars2();
    if begins_with(t, d2.as_slice()) {
        let rest0 = vstd::slice::slice_subrange(t, 2, t.len());
        proof {
            assert(rest0@ =~= trim_start(model[0]).skip(2));
        }
        match find_sub(rest0, d2.as_slice(), 0) {
            Option::Some(e) => {
                let content = subv(rest0, 0, e);
                let after = vstd::slice::slice_subrange(rest0, e + 2, rest0.len());
                proof {
                    assert(after@ =~= trim_start(model[0]).skip(2).skip(e + 2));
                }
                let (_, label) = extract_label(after);
                return (Block::DisplayMath { content, label }, 1);
            },
            Option::None => {
                match math_close(lines, 1) {
                    Option::Some((li, p)) => {
                        proof {
                            assert(model[li as int] == lines@[li as int]@);
                        }
                        let mut parts: Vec<Vec<u8>> = Vec::new();
                        parts.push(vstd::slice::slice_to_vec(rest0));
                        let mut middle = copy_line_window(lines, 1, li);
                        parts.append(&mut middle);
                        parts.push(subv(lines[li].as_slice(), 0, p));
                        let joined = join_lines(parts.as_slice(), 10);
                        let content = vstd::slice::slice_to_vec(do_trim(joined.as_slice()));
                        let ll = lines[li].len();
                        assert(p + 2 <= ll);
                        let after = vstd::slice::slice_subrange(
                            lines[li].as_slice(),
                            p + 2,
                            ll,
                        );
                        proof {
                            assert(bytes_list(parts@) =~= seq![
                                trim_start(model[0]).skip(2),
                            ] + model.subrange(1, li as int) + seq![
                                model[li as int].subrange(0, p as int),
                            ]);
                            assert(after@ =~= model[li as int].skip(p + 2));
                        }
                        let (_, label) = extract_label(after);
                        return (Block::DisplayMath { content, label }, li + 1);
                    },
                    Option::None => {
                        let mut parts: Vec<Vec<u8>> = Vec::new();
                        parts.push(vstd::slice::slice_to_vec(rest0));
                        let mut rest_lines = copy_line_window(lines, 1, lines.len());
                        parts.append(&mut rest_lines);
                        let joined = join_lines(parts.as_slice(), 10);
                        let content = vstd::slice::slice_to_vec(do_trim(joined.as_slice()));
                        proof {
                            assert(bytes_list(parts@) =~= seq![
                                trim_start(model[0]).skip(2),
                            ] + model.skip(1));
                        }
                        return (
                            Block::DisplayMath { content, label: Option::None },
                            lines.len(),
                        );
                    },
                }
            },
        }
    }
    // Environments
    if begins_with(t, crate::lits::bytes_colons3().as_slice()) {
        match environment_start(t) {
            Option::Some(tok) => {
                match tok {
                    Token::EnvironmentStart(kindword, label) => {
                        let kind = EnvironmentKind::from_str(kindword.as_slice());
                        let (inner, consumed): (&[Vec<u8>], usize) = match env_close(
                            lines,
                            1,
                            1,
                        ) {
                            Option::Some(j) => (
                                vstd::slice::slice_subrange(lines, 1, j),
                                j + 1,
                            ),
                            Option::None => (
                                vstd::slice::slice_subrange(lines, 1, lines.len()),
                                lines.len(),
                            ),
                        };
                        proof {
                            let ic0 = match spec_env_close(model, 1, 1) {
                                Option::Some(j) => if 1 <= j <= model.len() {
                                    model.subrange(1, j)
                                } else {
                                    model.skip(1)
                                },
                                Option::None => model.skip(1),
                            };
                            assert(bytes_list(inner@) =~= ic0);
                            lemma_lm_subrange_prefix(model.skip(1), inner@.len() as int);
                            lemma_lm_skip(model, 1);
                            assert(model.skip(1).subrange(0, inner@.len() as int) =~= bytes_list(
                                inner@,
                            ));
                            assert(lm(bytes_list(inner@)) < lm(model));
                        }
                        let blocks = parse_lines_vec(inner);
                        let (content, caption) = env_content(&kind, blocks);
                        return (
                            Block::Environment { kind, label, content, caption },
                            consumed,
                        );
                    },
                    _ => {
                        proof {
                            assert(false);
                        }
                    },
                }
            },
            Option::None => {},
        }
    }
    // Block quotes
    if t.len() > 0 && t[0] == 62 {
        let (inner, consumed) = quote_inner(lines, 0);
        proof {
            lemma_quote_lm(model, 0);
            lemma_quote_lm(model, 1);
            assert(model.skip(0) =~= model);
            assert(lm(bytes_list(inner@)) < lm(model));
            assert(spec_quote_consumed(model, 0) == 1 + spec_quote_consumed(model, 1));
            assert(consumed >= 1);
        }
        let blocks = parse_lines_vec(inner.as_slice());
        return (Block::BlockQuote(blocks), consumed);
    }
    // Lists
    match list_item_marker(t) {
        Option::Some((tok, _)) => {
            let m0 = match tok {
                Token::ListItemMarker(m) => m,
                _ => {
                    proof {
                        assert(false);
                    }
                    ListMarker::Unordered
                },
            };
            proof {
                crate::text::lemma_trim_start_idx(model[0], 0);
            }
            let indent = lines[0].len() - t.len();
            let (items, fi) = list_items(lines, 0, indent, m0);
            if items.len() > 0 {
                proof {
                    lemma_list_items(model, 0, indent as int, m0);
                    assert(model.skip(0) =~= model);
                }
                let mut out_items: Vec<ListItem> = Vec::new();
                let ghost sp_items = spec_block_step(model).0->List_items;
                let mut k: usize = 0;
                while k < items.len()
                    invariant
                        0 <= k <= items@.len(),
                        out_items@.len() == k,
                        forall|q: int|
                            0 <= q < k ==> list_item_dv(#[trigger] out_items@[q]) == sp_items[q],
                    decreases items@.len() - k,
                {
                    proof {
                        let sp = spec_list_items(model, 0, indent as int, m0);
                        assert(bytes_list(items@[k as int].0@) == sp.0[k as int].0);
                        assert(lm(sp.0[k as int].0) < lm(model.skip(0)));
                        assert(lm(bytes_list(items@[k as int].0@)) < lm(model));
                    }
                    let content = parse_lines_vec(items[k].0.as_slice());
                    let checked = items[k].1;
                    out_items.push(ListItem { content, checked });
                    k += 1;
                }
                let ordered = matches!(m0, ListMarker::Ordered(_));
                let start = match m0 {
                    ListMarker::Ordered(n) => Option::Some(n),
                    _ => Option::None,
                };
                proof {
                    assert(items_dv(out_items@) =~= sp_items);
                }
                return (Block::List { ordered, start, items: out_items }, fi);
            }
        },
        Option::None => {},
    }
    // Tables
    let pipe: [u8; 1] = [124];
    proof {
        assert(pipe@ =~= seq![124u8]);
    }
    if find_sub(line, pipe.as_slice(), 0).is_some() && lines.len() >= 2 && {
        proof {
            assert(model[1] == lines@[1]@);
        }
        is_table_delimiter(lines[1].as_slice())
    } {
        let headers = parse_table_row(line);
        let alignments = parse_alignments(lines[1].as_slice());
        let end = row_end(lines, 2);
        let mut rows: Vec<Vec<Vec<Inline>>> = Vec::new();
        let ghost sp_rows = spec_block_step(model).0->Table_rows;
        proof {
            assert(spec_block_step(model).0 matches SpecBlock::Table { .. });
            assert(sp_rows.len() == end - 2);
        }
        let mut k: usize = 2;
        while k < end
            invariant
                2 <= k <= end,
                end <= lines@.len(),
                model == bytes_list(lines@),
                sp_rows.len() == end - 2,
                sp_rows == spec_block_step(model).0->Table_rows,
                rows@.len() == k - 2,
                forall|q: int| 0 <= q < k - 2 ==> cells_dv(#[trigger] rows@[q]@) == sp_rows[q],
            decreases end - k,
        {
            proof {
                assert(model[k as int] == lines@[k as int]@);
                assert(sp_rows[k - 2] == spec_table_row(model[k as int]));
            }
            let row = parse_table_row(lines[k].as_slice());
            rows.push(row);
            k += 1;
        }
        if end < lines.len() && {
            proof {
                assert(model[end as int] == lines@[end as int]@);
            }
            let nx = do_trim(lines[end].as_slice());
            begins_with(nx, crate::lits::bytes_table_colon().as_slice()) || begins_with(
                nx,
                crate::lits::bytes_caption_colon().as_slice(),
            )
        } {
            let nx = do_trim(lines[end].as_slice());
            let colon: [u8; 1] = [58];
            proof {
                assert(colon@ =~= seq![58u8]);
            }
            let captext: Vec<u8> = match find_sub(nx, colon.as_slice(), 0) {
                Option::Some(c) => {
                    let nn = nx.len();
                    assert(c + 1 <= nn);
                    vstd::slice::slice_to_vec(
                        do_trim(vstd::slice::slice_subrange(nx, c + 1, nn)),
                    )
                },
                Option::None => Vec::new(),
            };
            proof {
                if crate::lexer::spec_split_once(nx@, 58) is None {
                    assert(captext@ =~= Seq::<u8>::empty());
                }
            }
            let (ct, label) = extract_label(captext.as_slice());
            let caption = parse_inlines(ct.as_slice());
            proof {
                assert(rows_dv(rows@) =~= sp_rows);
            }
            return (
                Block::Table { headers, alignments, rows, label, caption: Option::Some(caption) },
                end + 1,
            );
        }
        proof {
            assert(rows_dv(rows@) =~= sp_rows);
        }
        return (
            Block::Table {
                headers,
                alignments,
                rows,
                label: Option::None,
                caption: Option::None,
            },
            end,
        );
    }
    // Description lists
    if lines.len() >= 2 {
        let f = do_trim(line);
        proof {
            assert(model[1] == lines@[1]@);
        }
        let sec = do_trim(lines[1].as_slice());
        if !(f.len() > 0 && f[0] == 58) && sec.len() > 0 && sec[0] == 58 {
            let (ditems, fi) = desc_items(lines, 0);
            if ditems.len() > 0 {
                proof {
                    lemma_desc_items(model, 0);
                    assert(model.skip(0) =~= model);
                }
                let ghost sp_items = spec_block_step(model).0->DescriptionList_0;
                let mut out_items: Vec<DescriptionItem> = Vec::new();
                let mut k: usize = 0;
                while k < ditems.len()
                    invariant
                        0 <= k <= ditems@.len(),
                        out_items@.len() == k,
                        forall|q: int|
                            0 <= q < k ==> crate::ast::desc_item_dv(#[trigger] out_items@[q])
                                == sp_items[q],
                    decreases ditems@.len() - k,
                {
                    proof {
                        let sp = spec_desc_items(model, 0);
                        assert((ditems@[k as int].0@, bytes_list(ditems@[k as int].1@))
                            == sp.0[k as int]);
                        assert(lm(sp.0[k as int].1) < lm(model.skip(0)));
                        assert(lm(bytes_list(ditems@[k as int].1@)) < lm(model));
                    }
                    let term = parse_inlines(ditems[k].0.as_slice());
                    let description = parse_lines_vec(ditems[k].1.as_slice());
                    out_items.push(DescriptionItem { term, description });
                    k += 1;
                }
                proof {
                    assert(desc_items_dv(out_items@) =~= sp_items);
                }
                return (Block::DescriptionList(out_items), fi);
            }
        }
    }
    // Paragraphs
    let end = para_end(lines, 0);
    let consumed: usize = if end < 1 {
        1
    } else {
        end
    };
    let body = vstd::slice::slice_subrange(lines, 0, end);
    proof {
        assert(bytes_list(body@) =~= model.subrange(0, end as int));
    }
    let content = join_lines(body, 10);
    let inlines = parse_inlines(content.as_slice());
    (Block::Paragraph(inlines), consumed)
}

/// Copies of the lines in `[a, b)`.
fn copy_line_window(lines: &[Vec<u8>], a: usize, b: usize) -> (r: Vec<Vec<u8>>)
    requires
        a <= b <= lines@.len(),
    ensures
        bytes_list(r@) == bytes_list(lines@).subrange(a as int, b as int),
{
    let mut r: Vec<Vec<u8>> = Vec::new();
    let mut i: usize = a;
    while i < b
        invariant
            a <= i <= b <= lines@.len(),
            r@.len() == i - a,
            forall|j: int| 0 <= j < i - a ==> #[trigger] r@[j]@ == lines@[a + j]@,
        decreases b - i,
    {
        r.push(crate::ast::copy_bytes(&lines[i]));
        i += 1;
    }
    proof {
        assert(bytes_list(r@) =~= bytes_list(lines@).subrange(a as int, b as int));
    }
    r
}

fn parse_lines_vec(lines: &[Vec<u8>]) -> (r: Vec<Block>)
    ensures
        blocks_dv(r@) == spec_parse_lines(bytes_list(lines@)),
    decreases lm(bytes_list(lines@)), 2int,
{
    let ghost model = bytes_list(lines@);
    let mut out: Vec<Block> = Vec::new();
    if lines.len() == 0 {
        proof {
            assert(blocks_dv(out@) =~= spec_parse_lines(model));
        }
        return out;
    }
    proof {
        assert(model[0] == lines@[0]@);
    }
    let t = do_trim_start(lines[0].as_slice());
    if t.len() == 0 {
        proof {
            lemma_lm_skip(model, 1);
            assert(bytes_list(lines@).skip(1) =~= bytes_list(lines@.skip(1)));
        }
        let rest = vstd::slice::slice_subrange(lines, 1, lines.len());
        proof {
            assert(bytes_list(rest@) =~= model.skip(1));
        }
        return parse_lines_vec(rest);
    }
    let (b, c) = block_step(lines);
    proof {
        lemma_lm_skip(model, c as int);
    }
    let rest = vstd::slice::slice_subrange(lines, c, lines.len());
    proof {
        assert(bytes_list(rest@) =~= model.skip(c as int));
    }
    let mut tail = parse_lines_vec(rest);
    let ghost tail_view = blocks_dv(tail@);
    out.push(b);
    out.append(&mut tail);
    proof {
        assert(blocks_dv(out@) =~= seq![block_dv(out@[0])] + tail_view);
    }
    out
}

/// Parse all blocks from the given content.
pub fn parse_blocks(input: &[u8]) -> (r: Vec<Block>)
    ensures
        blocks_dv(r@) == spec_parse_blocks(input@),
{
    let lines = crate::text::split_lines(input);
    parse_lines_vec(lines.as_slice())
}

} // verus!
