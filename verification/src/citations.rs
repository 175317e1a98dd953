//! Citation validation and citation ordering.

use vstd::prelude::*;
use crate::ast::{
    BibEntry, Block, Document, Inline, ListItem, SpecBlock, SpecInline, SpecListItem, block_dv,
    blocks_dv, bytes_list, cells_dv, copy_bytes, inline_dv, inlines_dv, items_dv, list_item_dv,
    opt_inlines_dv, rows_dv,
};
use crate::error::{Error, ResolutionError};
use crate::resolve::ResolveConfig;
use crate::strmap::StrMap;
use crate::text::{lex_le, lex_leq, lemma_lex_total, lemma_lex_trans, eq_bytes};

verus! {

// ---------------------------------------------------------------------------
// Citation keys in walk order
// ---------------------------------------------------------------------------

/// The citation keys of inline content, in walk order.
pub open spec fn key_occs_inline(i: SpecInline, tables: bool) -> Seq<Seq<u8>>
    decreases i,
{
    match i {
        SpecInline::Citation(c) => c.keys,
        SpecInline::Emphasis(v) => key_occs_inlines(v, tables),
        SpecInline::Strong(v) => key_occs_inlines(v, tables),
        SpecInline::Strikethrough(v) => key_occs_inlines(v, tables),
        SpecInline::Link { content, .. } => key_occs_inlines(content, tables),
        _ => Seq::empty(),
    }
}

pub open spec fn key_occs_inlines(v: Seq<SpecInline>, tables: bool) -> Seq<Seq<u8>>
    decreases v,
{
    if v.len() == 0 {
        Seq::empty()
    } else {
        key_occs_inline(v.first(), tables) + key_occs_inlines(v.drop_first(), tables)
    }
}

pub open spec fn key_occs_opt(o: Option<Seq<SpecInline>>, tables: bool) -> Seq<Seq<u8>> {
    match o {
        Option::Some(v) => key_occs_inlines(v, tables),
        Option::None => Seq::empty(),
    }
}

/// The citation keys of a block; the key-validation walk looks inside
/// tables, the ordering walk does not.
pub open spec fn key_occs_block(b: SpecBlock, tables: bool) -> Seq<Seq<u8>>
    decreases b,
{
    match b {
        SpecBlock::Paragraph(v) => key_occs_inlines(v, tables),
        SpecBlock::Heading { content, .. } => key_occs_inlines(content, tables),
        SpecBlock::Environment { content, caption, .. } => key_occs(content, tables)
            + key_occs_opt(caption, tables),
        SpecBlock::BlockQuote(v) => key_occs(v, tables),
        SpecBlock::List { items, .. } => key_occs_items(items, tables),
        SpecBlock::Table { headers, rows, caption, .. } => if tables {
            key_occs_cells(headers, tables) + key_occs_rows(rows, tables) + key_occs_opt(
                caption,
                tables,
            )
        } else {
            Seq::empty()
        },
        _ => Seq::empty(),
    }
}

pub open spec fn key_occs(v: Seq<SpecBlock>, tables: bool) -> Seq<Seq<u8>>
    decreases v,
{
    if v.len() == 0 {
        Seq::empty()
    } else {
        key_occs_block(v.first(), tables) + key_occs(v.drop_first(), tables)
    }
}

pub open spec fn key_occs_items(v: Seq<SpecListItem>, tables: bool) -> Seq<Seq<u8>>
    decreases v,
{
    if v.len() == 0 {
        Seq::empty()
    } else {
        key_occs(v.first().content, tables) + key_occs_items(v.drop_first(), tables)
    }
}

pub open spec fn key_occs_cells(v: Seq<Seq<SpecInline>>, tables: bool) -> Seq<Seq<u8>>
    decreases v,
{
    if v.len() == 0 {
        Seq::empty()
    } else {
        key_occs_inlines(v.first(), tables) + key_occs_cells(v.drop_first(), tables)
    }
}

pub open spec fn key_occs_rows(v: Seq<Seq<Seq<SpecInline>>>, tables: bool) -> Seq<Seq<u8>>
    decreases v,
{
    if v.len() == 0 {
        Seq::empty()
    } else {
        key_occs_cells(v.first(), tables) + key_occs_rows(v.drop_first(), tables)
    }
}

// ---------------------------------------------------------------------------
// Executable key collection
// ---------------------------------------------------------------------------

fn keys_inline(i: &Inline, out: &mut Vec<Vec<u8>>, tables: bool)
    ensures
        bytes_list(final(out)@) == bytes_list(old(out)@) + key_occs_inline(inline_dv(*i), tables),
    decreases inline_dv(*i),
{
    match i {
        Inline::Citation(c) => {
            let mut j: usize = 0;
            proof {
                assert(bytes_list(c.keys@).subrange(0, 0) =~= Seq::<Seq<u8>>::empty());
                assert(bytes_list(out@) =~= bytes_list(out@) + bytes_list(c.keys@).subrange(0, 0));
            }
            while j < c.keys.len()
                invariant
                    0 <= j <= c.keys@.len(),
                    bytes_list(out@) == bytes_list(old(out)@) + bytes_list(c.keys@).subrange(
                        0,
                        j as int,
                    ),
                decreases c.keys@.len() - j,
            {
                let ghost prev = bytes_list(out@);
                let kv = copy_bytes(&c.keys[j]);
                let ghost kvv = kv@;
                out.push(kv);
                proof {
                    assert(kvv == bytes_list(c.keys@)[j as int]);
                    assert(bytes_list(out@) =~= prev.push(kvv));
                    assert(bytes_list(c.keys@).subrange(0, j + 1) =~= bytes_list(
                        c.keys@,
                    ).subrange(0, j as int).push(kvv));
                    assert(prev.push(kvv) =~= bytes_list(old(out)@) + bytes_list(
                        c.keys@,
                    ).subrange(0, j + 1));
                }
                j += 1;
            }
            proof {
                assert(bytes_list(c.keys@).subrange(0, c.keys@.len() as int) =~= bytes_list(
                    c.keys@,
                ));
                assert(key_occs_inline(inline_dv(*i), tables) == bytes_list(c.keys@));
            }
        },
        Inline::Emphasis(v) => {
            proof {
                let g = inline_dv(*i);
                assert(g matches SpecInline::Emphasis(gv) && gv == inlines_dv(v@)
                    && decreases_to!(g => gv));
            }
            keys_inlines(v, out, tables);
        },
        Inline::Strong(v) => {
            proof {
                let g = inline_dv(*i);
                assert(g matches SpecInline::Strong(gv) && gv == inlines_dv(v@)
                    && decreases_to!(g => gv));
            }
            keys_inlines(v, out, tables);
        },
        Inline::Strikethrough(v) => {
            proof {
                let g = inline_dv(*i);
                assert(g matches SpecInline::Strikethrough(gv) && gv == inlines_dv(v@)
                    && decreases_to!(g => gv));
            }
            keys_inlines(v, out, tables);
        },
        Inline::Link { content, .. } => {
            proof {
                let g = inline_dv(*i);
                assert(g matches SpecInline::Link { content: gv, .. } && gv == inlines_dv(content@)
                    && decreases_to!(g => gv));
            }
            keys_inlines(content, out, tables);
        },
        _ => {
            proof {
                assert(bytes_list(out@) =~= bytes_list(old(out)@) + key_occs_inline(
                    inline_dv(*i),
                    tables,
                ));
            }
        },
    }
}

fn keys_inlines(v: &Vec<Inline>, out: &mut Vec<Vec<u8>>, tables: bool)
    ensures
        bytes_list(final(out)@) == bytes_list(old(out)@) + key_occs_inlines(
            inlines_dv(v@),
            tables,
        ),
    decreases inlines_dv(v@),
{
    let ghost whole = inlines_dv(v@);
    let mut i: usize = 0;
    proof {
        assert(whole.skip(0) =~= whole);
    }
    while i < v.len()
        invariant
            0 <= i <= v@.len(),
            whole == inlines_dv(v@),
            whole.len() == v@.len(),
            bytes_list(out@) + key_occs_inlines(whole.skip(i as int), tables) == bytes_list(
                old(out)@,
            ) + key_occs_inlines(whole, tables),
        decreases v@.len() - i,
    {
        let ghost before = bytes_list(out@);
        proof {
            assert(whole[i as int] == inline_dv(v@[i as int]));
            assert(decreases_to!(whole => whole[i as int]));
            assert(whole.skip(i as int).first() == whole[i as int]);
            assert(whole.skip(i as int).drop_first() =~= whole.skip(i + 1));
        }
        keys_inline(&v[i], out, tables);
        proof {
            assert(bytes_list(out@) + key_occs_inlines(whole.skip(i + 1), tables) =~= before
                + key_occs_inlines(whole.skip(i as int), tables));
        }
        i += 1;
    }
    proof {
        assert(whole.skip(v@.len() as int) =~= Seq::<SpecInline>::empty());
        assert(bytes_list(out@) =~= bytes_list(out@) + key_occs_inlines(
            whole.skip(v@.len() as int),
            tables,
        ));
    }
}

fn keys_opt(o: &Option<Vec<Inline>>, out: &mut Vec<Vec<u8>>, tables: bool)
    ensures
        bytes_list(final(out)@) == bytes_list(old(out)@) + key_occs_opt(
            opt_inlines_dv(*o),
            tables,
        ),
    decreases opt_inlines_dv(*o),
{
    match o {
        Option::Some(v) => {
            proof {
                let g = opt_inlines_dv(*o);
                assert(g matches Option::Some(gv) && gv == inlines_dv(v@)
                    && decreases_to!(g => gv));
            }
            keys_inlines(v, out, tables);
        },
        Option::None => {
            proof {
                assert(bytes_list(out@) =~= bytes_list(out@) + key_occs_opt(
                    opt_inlines_dv(*o),
                    tables,
                ));
            }
        },
    }
}

fn keys_block(b: &Block, out: &mut Vec<Vec<u8>>, tables: bool)
    ensures
        bytes_list(final(out)@) == bytes_list(old(out)@) + key_occs_block(block_dv(*b), tables),
    decreases block_dv(*b),
{
    match b {
        Block::Paragraph(v) => {
            keys_inlines(v, out, tables);
        },
        Block::Heading { content, .. } => {
            keys_inlines(content, out, tables);
        },
        Block::Environment { kind, label, content, caption } => {
            proof {
                let g = block_dv(*b);
                assert(g matches SpecBlock::Environment { content: gc, .. } && gc == blocks_dv(
                    content@,
                ) && decreases_to!(g => gc));
            }
            keys_blocks(content, out, tables);
            keys_opt(caption, out, tables);
            proof {
                assert(bytes_list(out@) =~= bytes_list(old(out)@) + key_occs_block(
                    block_dv(*b),
                    tables,
                ));
            }
        },
        Block::BlockQuote(v) => {
            proof {
                let g = block_dv(*b);
                assert(g matches SpecBlock::BlockQuote(gv) && gv == blocks_dv(v@)
                    && decreases_to!(g => gv));
            }
            keys_blocks(v, out, tables);
        },
        Block::List { items, .. } => {
            proof {
                let g = block_dv(*b);
                assert(g matches SpecBlock::List { items: gi, .. } && gi == items_dv(items@)
                    && decreases_to!(g => gi));
            }
            keys_items(items, out, tables);
        },
        Block::Table { headers, alignments, rows, label, caption } => {
            if tables {
                keys_cells(headers, out, tables);
                keys_rows(rows, out, tables);
                keys_opt(caption, out, tables);
                proof {
                    assert(bytes_list(out@) =~= bytes_list(old(out)@) + key_occs_block(
                        block_dv(*b),
                        tables,
                    ));
                }
            } else {
                proof {
                    assert(bytes_list(out@) =~= bytes_list(old(out)@) + key_occs_block(
                        block_dv(*b),
                        tables,
                    ));
                }
            }
        },
        _ => {
            proof {
                assert(bytes_list(out@) =~= bytes_list(old(out)@) + key_occs_block(
                    block_dv(*b),
                    tables,
                ));
            }
        },
    }
}

fn keys_blocks(v: &Vec<Block>, out: &mut Vec<Vec<u8>>, tables: bool)
    ensures
        bytes_list(final(out)@) == bytes_list(old(out)@) + key_occs(blocks_dv(v@), tables),
    decreases blocks_dv(v@),
{
    let ghost whole = blocks_dv(v@);
    let mut i: usize = 0;
    proof {
        assert(whole.skip(0) =~= whole);
    }
    while i < v.len()
        invariant
            0 <= i <= v@.len(),
            whole == blocks_dv(v@),
            whole.len() == v@.len(),
            bytes_list(out@) + key_occs(whole.skip(i as int), tables) == bytes_list(old(out)@)
                + key_occs(whole, tables),
        decreases v@.len() - i,
    {
        let ghost before = bytes_list(out@);
        proof {
            assert(whole[i as int] == block_dv(v@[i as int]));
            assert(decreases_to!(whole => whole[i as int]));
            assert(whole.skip(i as int).first() == whole[i as int]);
            assert(whole.skip(i as int).drop_first() =~= whole.skip(i + 1));
        }
        keys_block(&v[i], out, tables);
        proof {
            assert(bytes_list(out@) + key_occs(whole.skip(i + 1), tables) =~= before + key_occs(
                whole.skip(i as int),
                tables,
            ));
        }
        i += 1;
    }
    proof {
        assert(whole.skip(v@.len() as int) =~= Seq::<SpecBlock>::empty());
        assert(bytes_list(out@) =~= bytes_list(out@) + key_occs(
            whole.skip(v@.len() as int),
            tables,
        ));
    }
}

fn keys_items(v: &Vec<ListItem>, out: &mut Vec<Vec<u8>>, tables: bool)
    ensures
        bytes_list(final(out)@) == bytes_list(old(out)@) + key_occs_items(items_dv(v@), tables),
    decreases items_dv(v@),
{
    let ghost whole = items_dv(v@);
    let mut i: usize = 0;
    proof {
        assert(whole.skip(0) =~= whole);
    }
    while i < v.len()
        invariant
            0 <= i <= v@.len(),
            whole == items_dv(v@),
            whole.len() == v@.len(),
            bytes_list(out@) + key_occs_items(whole.skip(i as int), tables) == bytes_list(
                old(out)@,
            ) + key_occs_items(whole, tables),
        decreases v@.len() - i,
    {
        let ghost before = bytes_list(out@);
        proof {
            assert(whole[i as int] == list_item_dv(v@[i as int]));
            assert(decreases_to!(whole => whole[i as int]));
            assert(decreases_to!(whole[i as int] => whole[i as int].content));
            assert(whole[i as int].content == blocks_dv(v@[i as int].content@));
            assert(whole.skip(i as int).first() == whole[i as int]);
            assert(whole.skip(i as int).drop_first() =~= whole.skip(i + 1));
        }
        keys_blocks(&v[i].content, out, tables);
        proof {
            assert(bytes_list(out@) + key_occs_items(whole.skip(i + 1), tables) =~= before
                + key_occs_items(whole.skip(i as int), tables));
        }
        i += 1;
    }
    proof {
        assert(whole.skip(v@.len() as int) =~= Seq::<SpecListItem>::empty());
        assert(bytes_list(out@) =~= bytes_list(out@) + key_occs_items(
            whole.skip(v@.len() as int),
            tables,
        ));
    }
}

fn keys_cells(v: &Vec<Vec<Inline>>, out: &mut Vec<Vec<u8>>, tables: bool)
    ensures
        bytes_list(final(out)@) == bytes_list(old(out)@) + key_occs_cells(cells_dv(v@), tables),
    decreases cells_dv(v@),
{
    let ghost whole = cells_dv(v@);
    let mut i: usize = 0;
    proof {
        assert(whole.skip(0) =~= whole);
    }
    while i < v.len()
        invariant
            0 <= i <= v@.len(),
            whole == cells_dv(v@),
            whole.len() == v@.len(),
            bytes_list(out@) + key_occs_cells(whole.skip(i as int), tables) == bytes_list(
                old(out)@,
            ) + key_occs_cells(whole, tables),
        decreases v@.len() - i,
    {
        let ghost before = bytes_list(out@);
        proof {
            assert(whole[i as int] == inlines_dv(v@[i as int]@));
            assert(decreases_to!(whole => whole[i as int]));
            assert(whole.skip(i as int).first() == whole[i as int]);
            assert(whole.skip(i as int).drop_first() =~= whole.skip(i + 1));
        }
        keys_inlines(&v[i], out, tables);
        proof {
            assert(bytes_list(out@) + key_occs_cells(whole.skip(i + 1), tables) =~= before
                + key_occs_cells(whole.skip(i as int), tables));
        }
        i += 1;
    }
    proof {
        assert(whole.skip(v@.len() as int) =~= Seq::<Seq<SpecInline>>::empty());
        assert(bytes_list(out@) =~= bytes_list(out@) + key_occs_cells(
            whole.skip(v@.len() as int),
            tables,
        ));
    }
}

fn keys_rows(v: &Vec<Vec<Vec<Inline>>>, out: &mut Vec<Vec<u8>>, tables: bool)
    ensures
        bytes_list(final(out)@) == bytes_list(old(out)@) + key_occs_rows(rows_dv(v@), tables),
    decreases rows_dv(v@),
{
    let ghost whole = rows_dv(v@);
    let mut i: usize = 0;
    proof {
        assert(whole.skip(0) =~= whole);
    }
    while i < v.len()
        invariant
            0 <= i <= v@.len(),
            whole == rows_dv(v@),
            whole.len() == v@.len(),
            bytes_list(out@) + key_occs_rows(whole.skip(i as int), tables) == bytes_list(
                old(out)@,
            ) + key_occs_rows(whole, tables),
        decreases v@.len() - i,
    {
        let ghost before = bytes_list(out@);
        proof {
            assert(whole[i as int] == cells_dv(v@[i as int]@));
            assert(decreases_to!(whole => whole[i as int]));
            assert(whole.skip(i as int).first() == whole[i as int]);
            assert(whole.skip(i as int).drop_first() =~= whole.skip(i + 1));
        }
        keys_cells(&v[i], out, tables);
        proof {
            assert(bytes_list(out@) + key_occs_rows(whole.skip(i + 1), tables) =~= before
                + key_occs_rows(whole.skip(i as int), tables));
        }
        i += 1;
    }
    proof {
        assert(whole.skip(v@.len() as int) =~= Seq::<Seq<Seq<SpecInline>>>::empty());
        assert(bytes_list(out@) =~= bytes_list(out@) + key_occs_rows(
            whole.skip(v@.len() as int),
            tables,
        ));
    }
}

// ---------------------------------------------------------------------------
// The sorted, duplicate-free key list
// ---------------------------------------------------------------------------

pub open spec fn sorted_unique(s: Seq<Seq<u8>>) -> bool {
    forall|i: int, j: int| 0 <= i < j < s.len() ==> lex_le(s[i], s[j]) && s[i] != s[j]
}

/// Insert a key into a sorted, duplicate-free list, keeping it so.
#[verifier::rlimit(100)]
#[verifier::spinoff_prover]
fn sorted_insert(s: &mut Vec<Vec<u8>>, k: Vec<u8>)
    requires
        sorted_unique(bytes_list(old(s)@)),
    ensures
        sorted_unique(bytes_list(final(s)@)),
        forall|x: Seq<u8>|
            bytes_list(final(s)@).contains(x) <==> bytes_list(old(s)@).contains(x) || x == k@,
{
    let ghost olds = bytes_list(s@);
    let mut p: usize = 0;
    while p < s.len() && !lex_leq(k.as_slice(), s[p].as_slice())
        invariant
            0 <= p <= s@.len(),
            bytes_list(s@) == olds,
            sorted_unique(olds),
            forall|j: int| 0 <= j < p ==> !lex_le(k@, #[trigger] olds[j]),
        decreases s@.len() - p,
    {
        p += 1;
    }
    if p < s.len() && eq_bytes(s[p].as_slice(), k.as_slice()) {
        proof {
            assert(olds[p as int] == k@);
            assert(olds.contains(k@));
        }
        return ;
    }
    s.insert(p, k);
    proof {
        let news = bytes_list(s@);
        assert(news =~= olds.subrange(0, p as int) + seq![k@] + olds.subrange(
            p as int,
            olds.len() as int,
        ));
        assert forall|i: int, j: int| 0 <= i < j < news.len() implies lex_le(news[i], news[j])
            && news[i] != news[j] by {
            let key = k@;
            if i < p && j < p {
            } else if i < p && j == p {
                assert(news[i] == olds[i]);
                assert(news[j] == key);
                lemma_lex_total(key, olds[i]);
            } else if i < p && j > p {
                assert(news[i] == olds[i]);
                assert(news[j] == olds[j - 1]);
            } else if i == p && j > p {
                assert(news[i] == key);
                assert(news[j] == olds[j - 1]);
                if p < olds.len() {
                    assert(lex_le(key, olds[p as int]));
                    if j - 1 > p {
                        lemma_lex_trans(key, olds[p as int], olds[j - 1]);
                    }
                    if key == olds[j - 1] {
                        if j - 1 == p {
                        } else {
                            lemma_lex_total(key, olds[p as int]);
                            assert(lex_le(olds[p as int], olds[j - 1]));
                            assert(lex_le(olds[j - 1], olds[p as int])) by {
                                assert(lex_le(key, olds[p as int]));
                            }
                            lemma_lex_total(olds[p as int], olds[j - 1]);
                        }
                        assert(false);
                    }
                }
            } else {
                assert(news[i] == olds[i - 1]);
                assert(news[j] == olds[j - 1]);
            }
        }
        assert forall|x: Seq<u8>| news.contains(x) <==> olds.contains(x) || x == k@ by {
            if news.contains(x) {
                let w = choose|w: int| 0 <= w < news.len() && news[w] == x;
                if w < p {
                    assert(olds[w] == x);
                } else if w == p {
                } else {
                    assert(olds[w - 1] == x);
                }
            }
            if olds.contains(x) {
                let w = choose|w: int| 0 <= w < olds.len() && olds[w] == x;
                if w < p {
                    assert(news[w] == x);
                } else {
                    assert(news[w + 1] == x);
                }
            }
            if x == k@ {
                assert(news[p as int] == x);
            }
        }
    }
}

/// All citation keys used in the document, sorted and without
/// duplicates.
pub fn collect_citation_keys(document: &Document) -> (r: Vec<Vec<u8>>)
    ensures
        sorted_unique(bytes_list(r@)),
        forall|x: Seq<u8>|
            bytes_list(r@).contains(x) <==> key_occs(
                blocks_dv(document.blocks@),
                true,
            ).contains(x),
{
    let mut raw: Vec<Vec<u8>> = Vec::new();
    keys_blocks(&document.blocks, &mut raw, true);
    proof {
        assert(bytes_list(raw@) =~= key_occs(blocks_dv(document.blocks@), true));
    }
    let mut sorted: Vec<Vec<u8>> = Vec::new();
    let mut i: usize = 0;
    proof {
        assert(sorted_unique(bytes_list(sorted@)));
    }
    while i < raw.len()
        invariant
            0 <= i <= raw@.len(),
            bytes_list(raw@) == key_occs(blocks_dv(document.blocks@), true),
            sorted_unique(bytes_list(sorted@)),
            forall|x: Seq<u8>|
                bytes_list(sorted@).contains(x) <==> bytes_list(raw@).subrange(
                    0,
                    i as int,
                ).contains(x),
        decreases raw@.len() - i,
    {
        let ghost pre = bytes_list(sorted@);
        sorted_insert(&mut sorted, copy_bytes(&raw[i]));
        proof {
            let rl = bytes_list(raw@);
            assert forall|x: Seq<u8>| bytes_list(sorted@).contains(x) <==> rl.subrange(
                0,
                i + 1,
            ).contains(x) by {
                if bytes_list(sorted@).contains(x) {
                    if pre.contains(x) {
                        assert(rl.subrange(0, i as int).contains(x));
                        let w = choose|w: int|
                            0 <= w < i && rl.subrange(0, i as int)[w] == x;
                        assert(rl.subrange(0, i + 1)[w] == x);
                    } else {
                        assert(x == rl[i as int]);
                        assert(rl.subrange(0, i + 1)[i as int] == x);
                    }
                }
                if rl.subrange(0, i + 1).contains(x) {
                    let w = choose|w: int|
                        0 <= w < i + 1 && #[trigger] rl.subrange(0, i + 1)[w] == x;
                    if w < i {
                        assert(rl.subrange(0, i as int)[w] == x);
                    } else {
                        assert(x == rl[i as int]);
                    }
                }
            }
        }
        i += 1;
    }
    proof {
        assert(bytes_list(raw@).subrange(0, raw@.len() as int) =~= bytes_list(raw@));
    }
    sorted
}

// ---------------------------------------------------------------------------
// Validation and ordering
// ---------------------------------------------------------------------------

/// The least citation key, in byte order, that the bibliography lacks.
pub open spec fn least_missing_key(
    used: Seq<Seq<u8>>,
    bib: Map<Seq<u8>, crate::ast::SpecBibEntry>,
    k: Seq<u8>,
) -> bool {
    &&& used.contains(k)
    &&& !bib.contains_key(k)
    &&& forall|k2: Seq<u8>|
        used.contains(k2) && !bib.contains_key(k2) ==> lex_le(k, k2)
}

/// Validate the document's citations against the bibliography.  In
/// strict mode an unknown key is fatal -- the least such key in byte
/// order is reported; otherwise the document passes through unchanged.
pub fn resolve_citations(
    document: Document,
    bibliography: &StrMap<BibEntry>,
    config: &ResolveConfig,
) -> (r: Result<Document, Error>)
    ensures
        ({
            let used = key_occs(blocks_dv(document.blocks@), true);
            match r {
                Result::Ok(d) => (d == document) && (config.strict_citations ==> forall|k: Seq<u8>|
                    used.contains(k) ==> bibliography@.contains_key(k)),
                Result::Err(e) => ({
                    &&& config.strict_citations
                    &&& (e matches Error::Resolution(ResolutionError::UnknownCitation(ke))
                        && least_missing_key(used, bibliography@, ke@))
                }),
            }
        }),
{
    let keys = collect_citation_keys(&document);
    let ghost used = key_occs(blocks_dv(document.blocks@), true);
    let ghost ks = bytes_list(keys@);
    if config.strict_citations {
        let mut i: usize = 0;
        while i < keys.len()
            invariant
                config.strict_citations,
                0 <= i <= keys@.len(),
                used == key_occs(blocks_dv(document.blocks@), true),
                ks == bytes_list(keys@),
                sorted_unique(ks),
                forall|x: Seq<u8>| ks.contains(x) <==> used.contains(x),
                forall|j: int| 0 <= j < i ==> bibliography@.contains_key(#[trigger] ks[j]),
            decreases keys@.len() - i,
        {
            if !bibliography.contains_key(keys[i].as_slice()) {
                let kcopy = copy_bytes(&keys[i]);
                proof {
                    assert(ks[i as int] == keys@[i as int]@);
                    assert(kcopy@ == ks[i as int]);
                    assert(ks.contains(ks[i as int]));
                    assert(used.contains(kcopy@));
                    assert(!bibliography@.contains_key(kcopy@));
                    assert forall|k2: Seq<u8>|
                        used.contains(k2) && !bibliography@.contains_key(k2) implies lex_le(
                        kcopy@,
                        k2,
                    ) by {
                        assert(ks.contains(k2));
                        let w = choose|w: int| 0 <= w < ks.len() && #[trigger] ks[w] == k2;
                        if w < i {
                            assert(bibliography@.contains_key(ks[w]));
                            assert(false);
                        } else if w == i {
                            lemma_lex_total(ks[i as int], k2);
                            assert(k2 == ks[i as int]);
                            assert(lex_le(ks[i as int], k2));
                        } else {
                            assert(lex_le(ks[i as int], ks[w]));
                        }
                    }
                }
                proof {
                    assert(least_missing_key(used, bibliography@, kcopy@));
                }
                return Result::Err(
                    Error::Resolution(ResolutionError::UnknownCitation(kcopy)),
                );
            }
            i += 1;
        }
        proof {
            assert forall|k: Seq<u8>| used.contains(k) implies bibliography@.contains_key(k) by {
                assert(ks.contains(k));
                let w = choose|w: int| 0 <= w < ks.len() && ks[w] == k;
                assert(bibliography@.contains_key(ks[w]));
            }
        }
    }
    Result::Ok(document)
}

/// Keep the first occurrence of every key, in order.
pub open spec fn dedup_first(s: Seq<Seq<u8>>) -> Seq<Seq<u8>>
    decreases s.len(),
{
    if s.len() == 0 {
        Seq::empty()
    } else {
        let d = dedup_first(s.drop_last());
        if d.contains(s.last()) {
            d
        } else {
            d.push(s.last())
        }
    }
}

fn contains_bytes(v: &Vec<Vec<u8>>, k: &[u8]) -> (r: bool)
    ensures
        r == bytes_list(v@).contains(k@),
{
    let mut i: usize = 0;
    while i < v.len()
        invariant
            0 <= i <= v@.len(),
            forall|j: int| 0 <= j < i ==> bytes_list(v@)[j] != k@,
        decreases v@.len() - i,
    {
        if eq_bytes(v[i].as_slice(), k) {
            proof {
                assert(bytes_list(v@)[i as int] == k@);
            }
            return true;
        }
        i += 1;
    }
    proof {
        if bytes_list(v@).contains(k@) {
            let w = choose|w: int| 0 <= w < v@.len() && bytes_list(v@)[w] == k@;
        }
    }
    false
}

/// The citation keys of the document in first-appearance order, without
/// duplicates -- the order a bibliography list should use.
pub fn get_citation_order(document: &Document) -> (r: Vec<Vec<u8>>)
    ensures
        bytes_list(r@) == dedup_first(key_occs(blocks_dv(document.blocks@), false)),
{
    let mut raw: Vec<Vec<u8>> = Vec::new();
    keys_blocks(&document.blocks, &mut raw, false);
    proof {
        assert(bytes_list(raw@) =~= key_occs(blocks_dv(document.blocks@), false));
    }
    let ghost occs = bytes_list(raw@);
    let mut out: Vec<Vec<u8>> = Vec::new();
    let mut i: usize = 0;
    proof {
        assert(occs.subrange(0, 0) =~= Seq::<Seq<u8>>::empty());
    }
    while i < raw.len()
        invariant
            0 <= i <= raw@.len(),
            occs == bytes_list(raw@),
            bytes_list(out@) == dedup_first(occs.subrange(0, i as int)),
        decreases raw@.len() - i,
    {
        proof {
            assert(occs.subrange(0, i + 1).drop_last() =~= occs.subrange(0, i as int));
            assert(occs.subrange(0, i + 1).last() == occs[i as int]);
            assert(occs[i as int] == raw@[i as int]@);
        }
        if !contains_bytes(&out, raw[i].as_slice()) {
            out.push(copy_bytes(&raw[i]));
            proof {
                assert(bytes_list(out@) =~= dedup_first(occs.subrange(0, i as int)).push(
                    occs[i as int],
                ));
            }
        }
        i += 1;
    }
    proof {
        assert(occs.subrange(0, raw@.len() as int) =~= occs);
    }
    out
}

} // verus!
