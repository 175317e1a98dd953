//! The inline parser: recognizes spans (math, strong, emphasis, code,
//! citations, footnotes, references, labels, links, images, raw HTML) in
//! priority order, with a total fallback to literal text.

use vstd::prelude::*;
use crate::ast::{
    Citation, CitationStyle, FootnoteKind, Inline, SpecCitation, SpecFootnote, SpecInline,
    bytes_list, inline_dv, inlines_dv, opt_bytes,
};
use crate::lexer::{
    CitationToken, Token, cite_tokens_dv, spec_citation, spec_display_math_tok, spec_emphasis,
    spec_footnote_inline, spec_footnote_ref, spec_inline_code, spec_inline_math, spec_label_tok,
    spec_reference, spec_strong, spec_delimited, citation, display_math, emphasis, footnote_inline,
    footnote_ref, inline_code, inline_math, label, reference, strong,
};
use crate::text::{
    ends_with, find_sub, is_alnum, is_ws, lemma_find_props, spec_find, starts_with, subv, trim,
    do_trim,
};

verus! {

// ---------------------------------------------------------------------------
// Balanced-bracket scanning for links
// ---------------------------------------------------------------------------

/// Position where the bracket depth returns to zero, counting `open`
/// up and `close` down, starting at depth `depth` from `i`.
pub open spec fn spec_scan_depth(s: Seq<u8>, i: int, depth: int, open: u8, close: u8) -> Option<
    int,
>
    decreases s.len() - i,
{
    if i < 0 || i >= s.len() {
        Option::None
    } else if s[i] == open {
        spec_scan_depth(s, i + 1, depth + 1, open, close)
    } else if s[i] == close {
        if depth == 1 {
            Option::Some(i)
        } else {
            spec_scan_depth(s, i + 1, depth - 1, open, close)
        }
    } else {
        spec_scan_depth(s, i + 1, depth, open, close)
    }
}

pub proof fn lemma_scan_depth_bounds(s: Seq<u8>, i: int, depth: int, open: u8, close: u8)
    requires
        0 <= i,
    ensures
        spec_scan_depth(s, i, depth, open, close) matches Option::Some(j) ==> i <= j < s.len(),
    decreases s.len() - i,
{
    if 0 <= i < s.len() {
        lemma_scan_depth_bounds(s, i + 1, depth + 1, open, close);
        lemma_scan_depth_bounds(s, i + 1, depth - 1, open, close);
        lemma_scan_depth_bounds(s, i + 1, depth, open, close);
    }
}

fn scan_depth_from(s: &[u8], i: usize, depth: usize, open: u8, close: u8) -> (r: Option<usize>)
    requires
        1 <= depth <= i,
        open != close,
    ensures
        match r {
            Option::Some(j) => spec_scan_depth(s@, i as int, depth as int, open, close)
                == Option::Some(j as int) && i <= j < s@.len(),
            Option::None => spec_scan_depth(s@, i as int, depth as int, open, close) is None,
        },
    decreases s@.len() - i,
{
    if i >= s.len() {
        return Option::None;
    }
    let b = s[i];
    if b == open {
        scan_depth_from(s, i + 1, depth + 1, open, close)
    } else if b == close {
        if depth == 1 {
            Option::Some(i)
        } else {
            scan_depth_from(s, i + 1, depth - 1, open, close)
        }
    } else {
        scan_depth_from(s, i + 1, depth, open, close)
    }
}

// ---------------------------------------------------------------------------
// URL and title
// ---------------------------------------------------------------------------

/// Split the inside of a link/image destination into a URL and an
/// optional quoted title.
pub open spec fn spec_url_title(raw: Seq<u8>) -> (Seq<u8>, Option<Seq<u8>>) {
    let s = trim(raw);
    let dq = spec_quoted(s, 34);
    if dq is Some {
        dq->Some_0
    } else {
        let sq = spec_quoted(s, 39);
        if sq is Some {
            sq->Some_0
        } else {
            (s, Option::None)
        }
    }
}

/// A quoted title: the URL before the first quote, the title between
/// the first and second quote.
pub open spec fn spec_quoted(s: Seq<u8>, q: u8) -> Option<(Seq<u8>, Option<Seq<u8>>)> {
    match spec_find(s, seq![q], 0) {
        Option::Some(q1) => if 0 <= q1 < s.len() {
            match spec_find(s, seq![q], q1 + 1) {
                Option::Some(q2) => if q2 <= s.len() {
                    Option::Some(
                        (trim(s.subrange(0, q1)), Option::Some(s.subrange(q1 + 1, q2))),
                    )
                } else {
                    Option::None
                },
                Option::None => Option::None,
            }
        } else {
            Option::None
        },
        Option::None => Option::None,
    }
}

fn quoted(s: &[u8], q: u8) -> (r: Option<(Vec<u8>, Vec<u8>)>)
    ensures
        match r {
            Option::Some(p) => spec_quoted(s@, q) == Option::Some(
                (p.0@, Option::Some(p.1@)),
            ),
            Option::None => spec_quoted(s@, q) is None,
        },
{
    let pat: [u8; 1] = [q];
    proof {
        assert(pat@ =~= seq![q]);
    }
    match find_sub(s, pat.as_slice(), 0) {
        Option::None => Option::None,
        Option::Some(q1) => {
            let n = s.len();
            assert(q1 + 1 <= n);
            match find_sub(s, pat.as_slice(), q1 + 1) {
                Option::None => Option::None,
                Option::Some(q2) => {
                    let url = vstd::slice::slice_to_vec(
                        do_trim(vstd::slice::slice_subrange(s, 0, q1)),
                    );
                    let title = subv(s, q1 + 1, q2);
                    Option::Some((url, title))
                },
            }
        },
    }
}

fn url_and_title(raw: &[u8]) -> (r: (Vec<u8>, Option<Vec<u8>>))
    ensures
        (r.0@, opt_bytes(r.1)) == spec_url_title(raw@),
{
    let s = do_trim(raw);
    match quoted(s, 34) {
        Option::Some(p) => (p.0, Option::Some(p.1)),
        Option::None => {
            match quoted(s, 39) {
                Option::Some(p) => (p.0, Option::Some(p.1)),
                Option::None => (vstd::slice::slice_to_vec(s), Option::None),
            }
        },
    }
}

// ---------------------------------------------------------------------------
// The text fallback
// ---------------------------------------------------------------------------

/// Bytes that can introduce a special span.
pub open spec fn is_special(b: u8) -> bool {
    b == 42 || b == 95 || b == 96 || b == 36 || b == 91 || b == 33 || b == 64 || b == 94 || b == 60
        || b == 126 || b == 123 || b == 10
}

/// Is an ASCII letter?
pub open spec fn is_alpha(b: u8) -> bool {
    (65 <= b <= 90) || (97 <= b <= 122)
}

/// Is position `i` a plain-text cut point?  A special byte stops the
/// text run only when its follower makes a span possible; a backslash
/// immediately before it keeps it literal.
pub open spec fn hot_at(s: Seq<u8>, i: int) -> bool {
    &&& 0 <= i < s.len()
    &&& is_special(s[i])
    &&& !(i > 0 && s[i - 1] == 92)
    &&& {
        let b = s[i];
        if b == 42 || b == 95 {
            i + 1 < s.len() && !is_ws(s[i + 1])
        } else if b == 126 {
            i + 1 < s.len() && s[i + 1] == 126
        } else if b == 123 {
            i + 1 < s.len() && s[i + 1] == 35
        } else if b == 33 {
            i + 1 < s.len() && s[i + 1] == 91
        } else if b == 64 {
            i + 1 < s.len() && (s[i + 1] == 91 || is_alnum(s[i + 1]))
        } else if b == 94 {
            i + 1 < s.len() && s[i + 1] == 91
        } else if b == 60 {
            i + 1 < s.len() && (is_alpha(s[i + 1]) || s[i + 1] == 47)
        } else {
            true
        }
    }
}

/// The first cut point at or after `i`, or the length.
pub open spec fn spec_cut(s: Seq<u8>, i: int) -> int
    decreases s.len() - i,
{
    if i < 0 || i >= s.len() {
        if i < 0 {
            0
        } else {
            s.len() as int
        }
    } else if hot_at(s, i) {
        i
    } else {
        spec_cut(s, i + 1)
    }
}

fn hot_at_exec(s: &[u8], i: usize) -> (r: bool)
    requires
        i < s@.len(),
    ensures
        r == hot_at(s@, i as int),
{
    let b = s[i];
    let special = b == 42 || b == 95 || b == 96 || b == 36 || b == 91 || b == 33 || b == 64 || b
        == 94 || b == 60 || b == 126 || b == 123 || b == 10;
    if !special {
        return false;
    }
    if i > 0 && s[i - 1] == 92 {
        return false;
    }
    if b == 42 || b == 95 {
        i + 1 < s.len() && !crate::text::byte_is_ws(s[i + 1])
    } else if b == 126 {
        i + 1 < s.len() && s[i + 1] == 126
    } else if b == 123 {
        i + 1 < s.len() && s[i + 1] == 35
    } else if b == 33 {
        i + 1 < s.len() && s[i + 1] == 91
    } else if b == 64 {
        i + 1 < s.len() && (s[i + 1] == 91 || crate::text::byte_is_alnum(s[i + 1]))
    } else if b == 94 {
        i + 1 < s.len() && s[i + 1] == 91
    } else if b == 60 {
        i + 1 < s.len() && ((65 <= s[i + 1] && s[i + 1] <= 90) || (97 <= s[i + 1] && s[i + 1]
            <= 122) || s[i + 1] == 47)
    } else {
        true
    }
}

fn cut_exec(s: &[u8], from: usize) -> (r: usize)
    requires
        from <= s@.len(),
    ensures
        r == spec_cut(s@, from as int),
        from <= r <= s@.len(),
    decreases s@.len() - from,
{
    if from >= s.len() {
        return from;
    }
    if hot_at_exec(s, from) {
        from
    } else {
        cut_exec(s, from + 1)
    }
}

/// Turn a text run into `Text` nodes separated by soft or hard breaks:
/// a part ending in two spaces or a backslash forces a hard break.
pub open spec fn spec_text_nodes(parts: Seq<Seq<u8>>, i: int) -> Seq<SpecInline>
    decreases parts.len() - i,
{
    if i < 0 || i >= parts.len() {
        Seq::empty()
    } else {
        let node: Seq<SpecInline> = if parts[i].len() > 0 {
            seq![SpecInline::Text(parts[i])]
        } else {
            Seq::empty()
        };
        let brk: Seq<SpecInline> = if i < parts.len() - 1 {
            if ends_with(parts[i], seq![32u8, 32u8]) || ends_with(parts[i], seq![92u8]) {
                seq![SpecInline::HardBreak]
            } else {
                seq![SpecInline::SoftBreak]
            }
        } else {
            Seq::empty()
        };
        node + brk + spec_text_nodes(parts, i + 1)
    }
}

fn text_nodes(text: &[u8]) -> (r: Vec<Inline>)
    ensures
        inlines_dv(r@) == spec_text_nodes(crate::lexer::spec_split(text@, 10), 0),
{
    let parts = crate::lexer::split_bytes(text, 10);
    let ghost model = crate::lexer::spec_split(text@, 10);
    let mut r: Vec<Inline> = Vec::new();
    let mut i: usize = 0;
    while i < parts.len()
        invariant
            0 <= i <= parts@.len(),
            bytes_list(parts@) == model,
            parts@.len() == model.len(),
            inlines_dv(r@) + spec_text_nodes(model, i as int) == spec_text_nodes(model, 0),
        decreases parts@.len() - i,
    {
        let ghost before = inlines_dv(r@);
        proof {
            assert(model[i as int] == parts@[i as int]@);
        }
        let part = &parts[i];
        let mut emitted: Vec<Inline> = Vec::new();
        if part.len() > 0 {
            emitted.push(Inline::Text(crate::ast::copy_bytes(part)));
        }
        if i < parts.len() - 1 {
            let sp2: [u8; 2] = [32, 32];
            let bs: [u8; 1] = [92];
            proof {
                assert(sp2@ =~= seq![32u8, 32u8]);
                assert(bs@ =~= seq![92u8]);
            }
            let hard = ends_with_exec(part.as_slice(), sp2.as_slice()) || ends_with_exec(
                part.as_slice(),
                bs.as_slice(),
            );
            if hard {
                emitted.push(Inline::HardBreak);
            } else {
                emitted.push(Inline::SoftBreak);
            }
        }
        let ghost ev = inlines_dv(emitted@);
        let mut emitted = emitted;
        r.append(&mut emitted);
        proof {
            assert(inlines_dv(r@) =~= before + ev);
            assert(ev =~= spec_text_nodes(model, i as int).subrange(
                0,
                ev.len() as int,
            ));
            assert(before + spec_text_nodes(model, i as int) == spec_text_nodes(model, 0));
            assert(spec_text_nodes(model, i as int) =~= ev + spec_text_nodes(model, i + 1));
            assert(inlines_dv(r@) + spec_text_nodes(model, i + 1) =~= spec_text_nodes(model, 0));
        }
        i += 1;
    }
    proof {
        assert(spec_text_nodes(model, parts@.len() as int) =~= Seq::<SpecInline>::empty());
        assert(inlines_dv(r@) =~= inlines_dv(r@) + spec_text_nodes(model, parts@.len() as int));
    }
    r
}

fn ends_with_exec(s: &[u8], p: &[u8]) -> (r: bool)
    ensures
        r == ends_with(s@, p@),
{
    if p.len() > s.len() {
        return false;
    }
    let tail = vstd::slice::slice_subrange(s, s.len() - p.len(), s.len());
    crate::text::eq_bytes(tail, p)
}

// ---------------------------------------------------------------------------
// The inline grammar
// ---------------------------------------------------------------------------

/// Try to recognize one special span at the start of `s`, in priority
/// order; returns the node and how many bytes it consumed.
pub open spec fn spec_try_inline(s: Seq<u8>) -> Option<(SpecInline, int)>
    decreases s.len(), 1int,
{
    if starts_with(s, crate::lits::lit_dollars2()) && spec_display_math_tok(s) is Some {
        let p = spec_display_math_tok(s)->Some_0;
        Option::Some((SpecInline::InlineMath(p.0), p.1))
    } else if s.len() >= 1 && s[0] == 36 && !starts_with(s, crate::lits::lit_dollars2())
        && spec_inline_math(s) is Some {
        let p = spec_inline_math(s)->Some_0;
        Option::Some((SpecInline::InlineMath(p.0), p.1))
    } else if (starts_with(s, crate::lits::lit_stars2()) || starts_with(
        s,
        crate::lits::lit_unders2(),
    )) && spec_strong(s) is Some {
        let p = spec_strong(s)->Some_0;
        if 0 <= p.1 <= s.len() && p.0.len() < s.len() {
            Option::Some((SpecInline::Strong(spec_parse_inlines(p.0)), p.1))
        } else {
            Option::None
        }
    } else if ((s.len() >= 1 && s[0] == 42 && !starts_with(s, crate::lits::lit_stars2())) || (
    s.len() >= 1 && s[0] == 95 && !starts_with(s, crate::lits::lit_unders2()))) && spec_emphasis(s)
        is Some {
        let p = spec_emphasis(s)->Some_0;
        if 0 <= p.1 <= s.len() && p.0.len() < s.len() {
            Option::Some((SpecInline::Emphasis(spec_parse_inlines(p.0)), p.1))
        } else {
            Option::None
        }
    } else if starts_with(s, crate::lits::lit_tilde2()) && spec_delimited(
        s,
        crate::lits::lit_tilde2(),
        crate::lits::lit_tilde2(),
    ) is Some {
        let p = spec_delimited(s, crate::lits::lit_tilde2(), crate::lits::lit_tilde2())->Some_0;
        if 0 <= p.1 <= s.len() && p.0.len() < s.len() {
            Option::Some((SpecInline::Strikethrough(spec_parse_inlines(p.0)), p.1))
        } else {
            Option::None
        }
    } else if s.len() >= 1 && s[0] == 96 && !starts_with(s, crate::lits::lit_backticks3())
        && spec_inline_code(s) is Some {
        let p = spec_inline_code(s)->Some_0;
        Option::Some((SpecInline::Code(p.0), p.1))
    } else if starts_with(s, crate::lits::lit_cite_open()) && spec_citation(s) is Some {
        let p = spec_citation(s)->Some_0;
        Option::Some((SpecInline::Citation(spec_cite_of(p.0)), p.1))
    } else if starts_with(s, crate::lits::lit_foot_inline_open()) && spec_footnote_inline(s)
        is Some {
        let p = spec_footnote_inline(s)->Some_0;
        if 0 <= p.1 <= s.len() && p.0.len() < s.len() {
            Option::Some(
                (SpecInline::Footnote(SpecFootnote::Inline(spec_parse_inlines(p.0))), p.1),
            )
        } else {
            Option::None
        }
    } else if starts_with(s, crate::lits::lit_foot_ref_open()) && spec_footnote_ref(s) is Some {
        let p = spec_footnote_ref(s)->Some_0;
        Option::Some((SpecInline::Footnote(SpecFootnote::Reference(p.0)), p.1))
    } else if s.len() >= 1 && s[0] == 64 && spec_reference(s) is Some {
        let p = spec_reference(s)->Some_0;
        Option::Some((SpecInline::Reference { label: p.0, resolved: Option::None }, p.1))
    } else if starts_with(s, crate::lits::lit_label_open()) && spec_label_tok(s) is Some {
        let p = spec_label_tok(s)->Some_0;
        Option::Some((SpecInline::Text(Seq::empty()), p.1))
    } else if s.len() >= 1 && s[0] == 91 && !starts_with(s, crate::lits::lit_foot_ref_open())
        && !starts_with(s, crate::lits::lit_cite_open()) && spec_link(s) is Some {
        spec_link(s)
    } else if s.len() >= 2 && s[0] == 33 && s[1] == 91 && spec_image(s) is Some {
        spec_image(s)
    } else if s.len() >= 1 && s[0] == 60 && spec_raw_html(s) is Some {
        spec_raw_html(s)
    } else {
        Option::None
    }
}

/// A link: `[text](url "title")`, with balanced inner brackets and
/// parentheses.
pub open spec fn spec_link(s: Seq<u8>) -> Option<(SpecInline, int)>
    decreases s.len(), 0int,
{
    if s.len() < 1 || s[0] != 91 {
        Option::None
    } else {
        match spec_scan_depth(s, 1, 1, 91, 93) {
            Option::None => Option::None,
            Option::Some(te) => if 1 <= te < s.len() {
                let text = s.subrange(1, te);
                if te + 1 < s.len() && s[te + 1] == 40 {
                    match spec_scan_depth(s, te + 2, 1, 40, 41) {
                        Option::None => Option::None,
                        Option::Some(ue) => if te + 2 <= ue < s.len() {
                            let raw = s.subrange(te + 2, ue);
                            let ut = spec_url_title(raw);
                            Option::Some(
                                (
                                    SpecInline::Link {
                                        url: ut.0,
                                        title: ut.1,
                                        content: spec_parse_inlines(text),
                                    },
                                    ue + 1,
                                ),
                            )
                        } else {
                            Option::None
                        },
                    }
                } else {
                    Option::None
                }
            } else {
                Option::None
            },
        }
    }
}

/// An image: `![alt](url "title")`, with plain (non-nested) delimiters.
pub open spec fn spec_image(s: Seq<u8>) -> Option<(SpecInline, int)> {
    if s.len() < 2 || s[0] != 33 || s[1] != 91 {
        Option::None
    } else {
        match spec_find(s, seq![93u8], 2) {
            Option::None => Option::None,
            Option::Some(cb) => {
                let alt = s.subrange(2, cb);
                if cb + 1 < s.len() && s[cb + 1] == 40 {
                    match spec_find(s, seq![41u8], cb + 1) {
                        Option::None => Option::None,
                        Option::Some(cp) => {
                            let raw = s.subrange(cb + 2, cp);
                            let ut = spec_url_title(raw);
                            Option::Some(
                                (SpecInline::Image { url: ut.0, alt, title: ut.1 }, cp + 1),
                            )
                        },
                    }
                } else {
                    Option::None
                }
            },
        }
    }
}

/// Inline raw HTML: `<` a letter-initial tag `>`.
pub open spec fn spec_raw_html(s: Seq<u8>) -> Option<(SpecInline, int)> {
    if s.len() < 1 || s[0] != 60 {
        Option::None
    } else {
        match spec_find(s, seq![62u8], 0) {
            Option::None => Option::None,
            Option::Some(close) => {
                let tag = s.subrange(1, close);
                if tag.len() == 0 || !is_alpha(tag[0]) {
                    Option::None
                } else {
                    Option::Some((SpecInline::RawHtml(s.subrange(0, close + 1)), close + 1))
                }
            },
        }
    }
}

/// The citation node built from citation-token parts: all keys, the
/// first part's locator, the default parenthetical style.
pub open spec fn spec_cite_of(parts: Seq<(Seq<u8>, Option<Seq<u8>>)>) -> SpecCitation {
    SpecCitation {
        keys: Seq::new(parts.len(), |i: int| if 0 <= i < parts.len() {
            parts[i].0
        } else {
            arbitrary()
        }),
        style: CitationStyle::Parenthetical,
        prefix: Option::None,
        locator: if parts.len() > 0 {
            parts[0].1
        } else {
            Option::None
        },
    }
}

/// The inline content of a byte string: special spans recognized in
/// priority order, with literal-text fallback between them.
pub open spec fn spec_parse_inlines(s: Seq<u8>) -> Seq<SpecInline>
    decreases s.len(), 2int,
{
    if s.len() == 0 {
        Seq::empty()
    } else {
        match spec_try_inline(s) {
            Option::Some((node, used)) => if 1 <= used <= s.len() {
                let head: Seq<SpecInline> = if node matches SpecInline::Text(t) && t.len() == 0 {
                    Seq::empty()
                } else {
                    seq![node]
                };
                head + spec_parse_inlines(s.skip(used))
            } else {
                Seq::empty()
            },
            Option::None => {
                let cut = spec_cut(s, 0);
                if cut == 0 {
                    seq![SpecInline::Text(s.subrange(0, 1))] + spec_parse_inlines(s.skip(1))
                } else if 0 < cut <= s.len() {
                    spec_text_nodes(crate::lexer::spec_split(s.subrange(0, cut), 10), 0)
                        + spec_parse_inlines(s.skip(cut))
                } else {
                    Seq::empty()
                }
            },
        }
    }
}

// ---------------------------------------------------------------------------
// Executable inline parsing
// ---------------------------------------------------------------------------

proof fn lemma_delim_bounds(s: Seq<u8>, open: Seq<u8>, close: Seq<u8>)
    requires
        open.len() >= 1,
        close.len() >= 1,
    ensures
        spec_delimited(s, open, close) matches Option::Some(p) ==> 1 <= p.1 <= s.len()
            && p.0.len() < s.len(),
{
    lemma_find_props(s, close, open.len() as int);
}

proof fn lemma_find1_bounds(s: Seq<u8>, b: u8, from: int)
    requires
        0 <= from,
    ensures
        spec_find(s, seq![b], from) matches Option::Some(e) ==> from <= e < s.len(),
{
    lemma_find_props(s, seq![b], from);
}

fn try_inline(s: &[u8]) -> (r: Option<(Inline, usize)>)
    ensures
        match r {
            Option::Some(p) => spec_try_inline(s@) == Option::Some((inline_dv(p.0), p.1 as int))
                && 1 <= p.1 <= s@.len(),
            Option::None => spec_try_inline(s@) is None,
        },
    decreases s@.len(), 2int,
{
    broadcast use vstd::seq_lib::group_seq_properties;

    let d2 = crate::lits::bytes_dollars2();
    if crate::text::begins_with(s, d2.as_slice()) {
        match display_math(s) {
            Option::Some((t, used)) => {
                proof {
                    lemma_delim_bounds(s@, crate::lits::lit_dollars2(), crate::lits::lit_dollars2());
                }
                match t {
                    Token::DisplayMath(c) => {
                        return Option::Some((Inline::InlineMath(c), used));
                    },
                    _ => {
                        proof {
                            assert(false);
                        }
                        return Option::None;
                    },
                }
            },
            Option::None => {
            },
        }
    }
    if s.len() >= 1 && s[0] == 36 && !crate::text::begins_with(s, d2.as_slice()) {
        match inline_math(s) {
            Option::Some((t, used)) => {
                proof {
                    lemma_find1_bounds(s@, 36, 1);
                }
                match t {
                    Token::InlineMath(c) => {
                        return Option::Some((Inline::InlineMath(c), used));
                    },
                    _ => {
                        proof {
                            assert(false);
                        }
                        return Option::None;
                    },
                }
            },
            Option::None => {
            },
        }
    }
    let s2 = crate::lits::bytes_stars2();
    let u2 = crate::lits::bytes_unders2();
    if crate::text::begins_with(s, s2.as_slice()) || crate::text::begins_with(s, u2.as_slice()) {
        match strong(s) {
            Option::Some((t, used)) => {
                proof {
                    lemma_delim_bounds(s@, crate::lits::lit_stars2(), crate::lits::lit_stars2());
                    lemma_delim_bounds(s@, crate::lits::lit_unders2(), crate::lits::lit_unders2());
                }
                match t {
                    Token::Strong(c) => {
                        let inner = parse_inlines_bytes(c.as_slice());
                        return Option::Some((Inline::Strong(inner), used));
                    },
                    _ => {
                        proof {
                            assert(false);
                        }
                        return Option::None;
                    },
                }
            },
            Option::None => {
            },
        }
    }
    if (s.len() >= 1 && s[0] == 42 && !crate::text::begins_with(s, s2.as_slice())) || (s.len() >= 1
        && s[0] == 95 && !crate::text::begins_with(s, u2.as_slice())) {
        match emphasis(s) {
            Option::Some((t, used)) => {
                proof {
                    lemma_find1_bounds(s@, 42, 1);
                    lemma_find1_bounds(s@, 95, 1);
                }
                match t {
                    Token::Emphasis(c) => {
                        let inner = parse_inlines_bytes(c.as_slice());
                        return Option::Some((Inline::Emphasis(inner), used));
                    },
                    _ => {
                        proof {
                            assert(false);
                        }
                        return Option::None;
                    },
                }
            },
            Option::None => {
            },
        }
    }
    let t2 = crate::lits::bytes_tilde2();
    if crate::text::begins_with(s, t2.as_slice()) {
        match crate::lexer::delimited(s, t2.as_slice(), t2.as_slice()) {
            Option::Some((c, used)) => {
                proof {
                    lemma_delim_bounds(s@, crate::lits::lit_tilde2(), crate::lits::lit_tilde2());
                }
                let inner = parse_inlines_bytes(c.as_slice());
                return Option::Some((Inline::Strikethrough(inner), used));
            },
            Option::None => {
            },
        }
    }
    let b3 = crate::lits::bytes_backticks3();
    if s.len() >= 1 && s[0] == 96 && !crate::text::begins_with(s, b3.as_slice()) {
        match inline_code(s) {
            Option::Some((t, used)) => {
                proof {
                    lemma_find1_bounds(s@, 96, 1);
                }
                match t {
                    Token::InlineCode(c) => {
                        return Option::Some((Inline::Code(c), used));
                    },
                    _ => {
                        proof {
                            assert(false);
                        }
                        return Option::None;
                    },
                }
            },
            Option::None => {
            },
        }
    }
    let co = crate::lits::bytes_cite_open();
    if crate::text::begins_with(s, co.as_slice()) {
        match citation(s) {
            Option::Some((t, used)) => {
                proof {
                    lemma_find1_bounds(s@, 93, 2);
                }
                match t {
                    Token::Citation(toks) => {
                        let cite = cite_from_tokens(toks);
                        proof {
                            assert(spec_citation(s@) matches Option::Some(q) && crate::ast::citation_dv(
                                cite,
                            ) == spec_cite_of(q.0));
                        }
                        return Option::Some((Inline::Citation(cite), used));
                    },
                    _ => {
                        proof {
                            assert(false);
                        }
                        return Option::None;
                    },
                }
            },
            Option::None => {
            },
        }
    }
    let fio = crate::lits::bytes_foot_inline_open();
    if crate::text::begins_with(s, fio.as_slice()) {
        match footnote_inline(s) {
            Option::Some((t, used)) => {
                proof {
                    lemma_find1_bounds(s@, 93, 2);
                }
                match t {
                    Token::FootnoteInline(c) => {
                        let inner = parse_inlines_bytes(c.as_slice());
                        return Option::Some(
                            (Inline::Footnote(FootnoteKind::Inline(inner)), used),
                        );
                    },
                    _ => {
                        proof {
                            assert(false);
                        }
                        return Option::None;
                    },
                }
            },
            Option::None => {
            },
        }
    }
    let fro = crate::lits::bytes_foot_ref_open();
    if crate::text::begins_with(s, fro.as_slice()) {
        match footnote_ref(s) {
            Option::Some((t, used)) => {
                proof {
                    crate::lexer::lemma_scan_word_bounds(s@, 2);
                }
                match t {
                    Token::FootnoteRef(id) => {
                        return Option::Some(
                            (Inline::Footnote(FootnoteKind::Reference(id)), used),
                        );
                    },
                    _ => {
                        proof {
                            assert(false);
                        }
                        return Option::None;
                    },
                }
            },
            Option::None => {
            },
        }
    }
    if s.len() >= 1 && s[0] == 64 {
        match reference(s) {
            Option::Some((t, used)) => {
                proof {
                    crate::lexer::lemma_scan_label_bounds(s@, 1);
                }
                match t {
                    Token::Reference(lab) => {
                        return Option::Some(
                            (Inline::Reference { label: lab, resolved: Option::None }, used),
                        );
                    },
                    _ => {
                        proof {
                            assert(false);
                        }
                        return Option::None;
                    },
                }
            },
            Option::None => {
            },
        }
    }
    let lo = crate::lits::bytes_label_open();
    if crate::text::begins_with(s, lo.as_slice()) {
        match label(s) {
            Option::Some((t, used)) => {
                proof {
                    crate::lexer::lemma_scan_not_rbrace_bounds(s@, 2);
                }
                match t {
                    Token::Label(_) => {
                        return Option::Some((Inline::Text(Vec::new()), used));
                    },
                    _ => {
                        proof {
                            assert(false);
                        }
                        return Option::None;
                    },
                }
            },
            Option::None => {
            },
        }
    }
    if s.len() >= 1 && s[0] == 91 && !crate::text::begins_with(s, fro.as_slice())
        && !crate::text::begins_with(s, co.as_slice()) {
        match try_link(s) {
            Option::Some(p) => {
                return Option::Some(p);
            },
            Option::None => {
            },
        }
    }
    if s.len() >= 2 && s[0] == 33 && s[1] == 91 {
        match try_image(s) {
            Option::Some(p) => {
                return Option::Some(p);
            },
            Option::None => {
            },
        }
    }
    if s.len() >= 1 && s[0] == 60 {
        match try_raw_html(s) {
            Option::Some(p) => {
                return Option::Some(p);
            },
            Option::None => {
            },
        }
    }
    Option::None
}

/// Build the citation node from citation tokens.
fn cite_from_tokens(toks: Vec<CitationToken>) -> (r: Citation)
    ensures
        crate::ast::citation_dv(r) == spec_cite_of(cite_tokens_dv(toks@)),
{
    let mut keys: Vec<Vec<u8>> = Vec::new();
    let mut i: usize = 0;
    while i < toks.len()
        invariant
            0 <= i <= toks@.len(),
            keys@.len() == i,
            forall|j: int| 0 <= j < i ==> #[trigger] keys@[j]@ == cite_tokens_dv(toks@)[j].0,
        decreases toks@.len() - i,
    {
        keys.push(crate::ast::copy_bytes(&toks[i].key));
        i += 1;
    }
    let locator: Option<Vec<u8>> = if toks.len() > 0 {
        match &toks[0].locator {
            Option::Some(l) => Option::Some(crate::ast::copy_bytes(l)),
            Option::None => Option::None,
        }
    } else {
        Option::None
    };
    let r = Citation { keys, style: CitationStyle::Parenthetical, prefix: Option::None, locator };
    proof {
        assert(bytes_list(r.keys@) =~= spec_cite_of(cite_tokens_dv(toks@)).keys);
        assert(opt_bytes(r.locator) == spec_cite_of(cite_tokens_dv(toks@)).locator);
    }
    r
}

fn try_link(s: &[u8]) -> (r: Option<(Inline, usize)>)
    requires
        s@.len() >= 1,
        s@[0] == 91,
    ensures
        match r {
            Option::Some(p) => spec_link(s@) == Option::Some((inline_dv(p.0), p.1 as int)) && 1
                <= p.1 <= s@.len(),
            Option::None => spec_link(s@) is None,
        },
    decreases s@.len(), 1int,
{
    match scan_depth_from(s, 1, 1, 91, 93) {
        Option::None => Option::None,
        Option::Some(te) => {
            let text = subv(s, 1, te);
            let n = s.len();
            if te + 1 < n && s[te + 1] == 40 {
                match scan_depth_from(s, te + 2, 1, 40, 41) {
                    Option::None => Option::None,
                    Option::Some(ue) => {
                        let raw = vstd::slice::slice_subrange(s, te + 2, ue);
                        let (url, title) = url_and_title(raw);
                        let content = parse_inlines_bytes(text.as_slice());
                        Option::Some((Inline::Link { url, title, content }, ue + 1))
                    },
                }
            } else {
                Option::None
            }
        },
    }
}

fn try_image(s: &[u8]) -> (r: Option<(Inline, usize)>)
    requires
        s@.len() >= 2,
        s@[0] == 33,
        s@[1] == 91,
    ensures
        match r {
            Option::Some(p) => spec_image(s@) == Option::Some((inline_dv(p.0), p.1 as int)) && 1
                <= p.1 <= s@.len(),
            Option::None => spec_image(s@) is None,
        },
{
    let close: [u8; 1] = [93];
    proof {
        assert(close@ =~= seq![93u8]);
        lemma_find1_bounds(s@, 93, 2);
    }
    match find_sub(s, close.as_slice(), 2) {
        Option::None => Option::None,
        Option::Some(cb) => {
            let alt = subv(s, 2, cb);
            let n = s.len();
            if cb + 1 < n && s[cb + 1] == 40 {
                let paren: [u8; 1] = [41];
                proof {
                    assert(paren@ =~= seq![41u8]);
                    lemma_find1_bounds(s@, 41, cb + 1);
                }
                match find_sub(s, paren.as_slice(), cb + 1) {
                    Option::None => Option::None,
                    Option::Some(cp) => {
                        proof {
                            lemma_find_props(s@, seq![41u8], cb + 1);
                            assert(s@.subrange(cp as int, cp + 1)[0] == s@[cp as int]);
                            assert(s@[cp as int] == 41);
                            assert(cp != cb + 1);
                        }
                        let raw = vstd::slice::slice_subrange(s, cb + 2, cp);
                        let (url, title) = url_and_title(raw);
                        Option::Some((Inline::Image { url, alt, title }, cp + 1))
                    },
                }
            } else {
                Option::None
            }
        },
    }
}

fn try_raw_html(s: &[u8]) -> (r: Option<(Inline, usize)>)
    requires
        s@.len() >= 1,
        s@[0] == 60,
    ensures
        match r {
            Option::Some(p) => spec_raw_html(s@) == Option::Some((inline_dv(p.0), p.1 as int))
                && 1 <= p.1 <= s@.len(),
            Option::None => spec_raw_html(s@) is None,
        },
{
    let gt: [u8; 1] = [62];
    proof {
        assert(gt@ =~= seq![62u8]);
        lemma_find1_bounds(s@, 62, 0);
    }
    match find_sub(s, gt.as_slice(), 0) {
        Option::None => Option::None,
        Option::Some(close) => {
            if close < 2 {
                proof {
                    lemma_find_props(s@, seq![62u8], 0);
                    assert(s@.subrange(close as int, close + 1)[0] == s@[close as int]);
                    assert(s@[close as int] == 62);
                    assert(close >= 1);
                    assert(s@.subrange(1, close as int).len() == 0);
                }
                return Option::None;
            }
            let b = s[1];
            if (65 <= b && b <= 90) || (97 <= b && b <= 122) {
                proof {
                    assert(s@.subrange(1, close as int)[0] == s@[1]);
                }
                Option::Some((Inline::RawHtml(subv(s, 0, close + 1)), close + 1))
            } else {
                proof {
                    assert(s@.subrange(1, close as int)[0] == s@[1]);
                }
                Option::None
            }
        },
    }
}

fn parse_inlines_bytes(s: &[u8]) -> (r: Vec<Inline>)
    ensures
        inlines_dv(r@) == spec_parse_inlines(s@),
    decreases s@.len(), 3int,
{
    let mut out: Vec<Inline> = Vec::new();
    if s.len() == 0 {
        proof {
            assert(inlines_dv(out@) =~= spec_parse_inlines(s@));
        }
        return out;
    }
    match try_inline(s) {
        Option::Some((node, used)) => {
            let skip_node = match &node {
                Inline::Text(t) => t.len() == 0,
                _ => false,
            };
            if !skip_node {
                out.push(node);
            }
            let ghost head = inlines_dv(out@);
            let rest = vstd::slice::slice_subrange(s, used, s.len());
            let mut tail = parse_inlines_bytes(rest);
            let ghost tail_view = inlines_dv(tail@);
            out.append(&mut tail);
            proof {
                assert(rest@ =~= s@.skip(used as int));
                assert(inlines_dv(out@) =~= head + tail_view);
                assert(inlines_dv(out@) =~= spec_parse_inlines(s@));
            }
            out
        },
        Option::None => {
            let cut = cut_exec(s, 0);
            if cut == 0 {
                out.push(Inline::Text(subv(s, 0, 1)));
                let ghost head = inlines_dv(out@);
                let rest = vstd::slice::slice_subrange(s, 1, s.len());
                let mut tail = parse_inlines_bytes(rest);
                let ghost tail_view = inlines_dv(tail@);
                out.append(&mut tail);
                proof {
                    assert(rest@ =~= s@.skip(1));
                    assert(inlines_dv(out@) =~= head + tail_view);
                    assert(inlines_dv(out@) =~= spec_parse_inlines(s@));
                }
                out
            } else {
                let text = vstd::slice::slice_subrange(s, 0, cut);
                let mut nodes = text_nodes(text);
                let ghost head = inlines_dv(nodes@);
                out.append(&mut nodes);
                let rest = vstd::slice::slice_subrange(s, cut, s.len());
                let mut tail = parse_inlines_bytes(rest);
                let ghost tail_view = inlines_dv(tail@);
                out.append(&mut tail);
                proof {
                    assert(rest@ =~= s@.skip(cut as int));
                    assert(inlines_dv(out@) =~= head + tail_view);
                    assert(inlines_dv(out@) =~= spec_parse_inlines(s@));
                }
                out
            }
        },
    }
}

/// Parse inline content from a byte string.
pub fn parse_inlines(input: &[u8]) -> (r: Vec<Inline>)
    ensures
        inlines_dv(r@) == spec_parse_inlines(input@),
{
    parse_inlines_bytes(input)
}

} // verus!
