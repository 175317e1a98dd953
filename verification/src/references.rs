//! Cross-reference resolution: the label registry, the reference-resolving
//! walk, and footnote collection.

use vstd::prelude::*;
use crate::ast::{
    Block, Document, Inline, LabelInfo, ListItem, SpecBlock, SpecInline, SpecLabelInfo,
    SpecListItem, block_dv, blocks_dv, cells_dv, copy_bytes, env_kind_dv, inline_dv, inlines_dv,
    items_dv, lemma_bytes_deep_view, list_item_dv, opt_bytes, opt_inlines_dv, rows_dv,
    spec_display_name, SpecFootnote,
};
use crate::error::{Error, ResolutionError};
use crate::strmap::StrMap;
use crate::text::{dec_digits, fmt_u32};

verus! {

// ---------------------------------------------------------------------------
// Stable identifiers
// ---------------------------------------------------------------------------

/// The stable identifier derived from a label: ASCII letters, digits,
/// `-` and `_` are kept, every other byte becomes `-`.
pub open spec fn spec_label_to_id(s: Seq<u8>) -> Seq<u8> {
    Seq::new(
        s.len(),
        |i: int| if crate::text::is_alnum(s[i]) || s[i] == 45 || s[i] == 95 {
            s[i]
        } else {
            45u8
        },
    )
}

/// Convert a label to a stable identifier usable as an anchor.
pub fn label_to_id(label: &[u8]) -> (r: Vec<u8>)
    ensures
        r@ == spec_label_to_id(label@),
{
    let mut r: Vec<u8> = Vec::new();
    let mut i: usize = 0;
    while i < label.len()
        invariant
            0 <= i <= label@.len(),
            r@ =~= spec_label_to_id(label@).subrange(0, i as int),
        decreases label@.len() - i,
    {
        let b = label[i];
        if crate::text::byte_is_alnum(b) || b == 45 || b == 95 {
            r.push(b);
        } else {
            r.push(45);
        }
        proof {
            assert(r@ =~= spec_label_to_id(label@).subrange(0, i + 1));
        }
        i += 1;
    }
    proof {
        assert(r@ =~= spec_label_to_id(label@));
    }
    r
}

// ---------------------------------------------------------------------------
// Plain text of inline content
// ---------------------------------------------------------------------------

/// The plain text of inline content, used as the display text of an
/// unnumbered heading.
pub open spec fn spec_inlines_text(v: Seq<SpecInline>) -> Seq<u8>
    decreases v,
{
    if v.len() == 0 {
        Seq::empty()
    } else {
        spec_inline_text(v.first()) + spec_inlines_text(v.drop_first())
    }
}

pub open spec fn spec_inline_text(i: SpecInline) -> Seq<u8>
    decreases i,
{
    match i {
        SpecInline::Text(t) => t,
        SpecInline::Code(t) => t,
        SpecInline::Emphasis(v) => spec_inlines_text(v),
        SpecInline::Strong(v) => spec_inlines_text(v),
        SpecInline::Strikethrough(v) => spec_inlines_text(v),
        SpecInline::Link { content, .. } => spec_inlines_text(content),
        SpecInline::InlineMath(m) => m,
        SpecInline::SoftBreak => seq![32u8],
        SpecInline::HardBreak => seq![32u8],
        _ => Seq::empty(),
    }
}

fn inlines_text(v: &Vec<Inline>) -> (r: Vec<u8>)
    ensures
        r@ == spec_inlines_text(inlines_dv(v@)),
    decreases inlines_dv(v@),
{
    let ghost model = inlines_dv(v@);
    let mut r: Vec<u8> = Vec::new();
    proof {
        assert(model.skip(0) =~= model);
        assert(r@ + spec_inlines_text(model) =~= spec_inlines_text(model));
    }
    let mut i: usize = 0;
    while i < v.len()
        invariant
            0 <= i <= v@.len(),
            model == inlines_dv(v@),
            model.len() == v@.len(),
            r@ + spec_inlines_text(model.skip(i as int)) == spec_inlines_text(model),
        decreases v@.len() - i,
    {
        proof {
            assert(model.skip(i as int).first() == model[i as int]);
            assert(model.skip(i as int).drop_first() =~= model.skip(i + 1));
            assert(model[i as int] == inline_dv(v@[i as int]));
            assert(decreases_to!(model => model[i as int]));
        }
        let mut piece = inline_text(&v[i]);
        r.append(&mut piece);
        i += 1;
    }
    proof {
        assert(model.skip(v@.len() as int) =~= Seq::<SpecInline>::empty());
        assert(r@ =~= r@ + spec_inlines_text(model.skip(v@.len() as int)));
    }
    r
}

fn inline_text(i: &Inline) -> (r: Vec<u8>)
    ensures
        r@ == spec_inline_text(inline_dv(*i)),
    decreases inline_dv(*i),
{
    match i {
        Inline::Text(t) => copy_bytes(t),
        Inline::Code(t) => copy_bytes(t),
        Inline::Emphasis(v) => {
            proof {
                let g = inline_dv(*i);
                assert(g matches SpecInline::Emphasis(gv) && gv == inlines_dv(v@)
                    && decreases_to!(g => gv));
            }
            inlines_text(v)
        },
        Inline::Strong(v) => {
            proof {
                let g = inline_dv(*i);
                assert(g matches SpecInline::Strong(gv) && gv == inlines_dv(v@)
                    && decreases_to!(g => gv));
            }
            inlines_text(v)
        },
        Inline::Strikethrough(v) => {
            proof {
                let g = inline_dv(*i);
                assert(g matches SpecInline::Strikethrough(gv) && gv == inlines_dv(v@)
                    && decreases_to!(g => gv));
            }
            inlines_text(v)
        },
        Inline::Link { content, .. } => {
            proof {
                let g = inline_dv(*i);
                assert(g matches SpecInline::Link { content: gv, .. } && gv == inlines_dv(content@)
                    && decreases_to!(g => gv));
            }
            inlines_text(content)
        },
        Inline::InlineMath(m) => copy_bytes(m),
        Inline::SoftBreak => {
            let mut r: Vec<u8> = Vec::new();
            r.push(32);
            proof {
                assert(r@ =~= seq![32u8]);
            }
            r
        },
        Inline::HardBreak => {
            let mut r: Vec<u8> = Vec::new();
            r.push(32);
            proof {
                assert(r@ =~= seq![32u8]);
            }
            r
        },
        _ => Vec::new(),
    }
}

// ---------------------------------------------------------------------------
// The label registry
// ---------------------------------------------------------------------------

/// Display text of a heading label.
pub open spec fn heading_display(
    l: Seq<u8>,
    content: Seq<SpecInline>,
    sec: Map<Seq<u8>, Seq<u8>>,
) -> Seq<u8> {
    if sec.contains_key(l) {
        crate::lits::lit_section_sp() + sec[l]
    } else {
        spec_inlines_text(content)
    }
}

/// Display text of an equation label.
pub open spec fn equation_display(l: Seq<u8>, env: Map<Seq<u8>, u32>) -> Seq<u8> {
    if env.contains_key(l) {
        crate::lits::lit_lparen() + dec_digits(env[l] as nat) + crate::lits::lit_rparen()
    } else {
        crate::lits::lit_unknown_paren()
    }
}

/// Display text of an environment label.
pub open spec fn environment_display(
    l: Seq<u8>,
    kind: crate::ast::SpecEnvKind,
    env: Map<Seq<u8>, u32>,
) -> Seq<u8> {
    if env.contains_key(l) {
        spec_display_name(kind) + crate::lits::lit_space() + dec_digits(env[l] as nat)
    } else {
        spec_display_name(kind)
    }
}

/// Display text of a table label.
pub open spec fn table_display(l: Seq<u8>, env: Map<Seq<u8>, u32>) -> Seq<u8> {
    if env.contains_key(l) {
        crate::lits::lit_dn_table() + crate::lits::lit_space() + dec_digits(env[l] as nat)
    } else {
        crate::lits::lit_dn_table()
    }
}

/// Registering one label: a label already present is a duplicate-label
/// error, whatever block type carries it.
pub open spec fn reg_insert(
    m: Map<Seq<u8>, SpecLabelInfo>,
    l: Seq<u8>,
    display: Seq<u8>,
) -> Result<Map<Seq<u8>, SpecLabelInfo>, Seq<u8>> {
    if m.contains_key(l) {
        Result::Err(l)
    } else {
        Result::Ok(m.insert(l, SpecLabelInfo { display, html_id: spec_label_to_id(l) }))
    }
}

pub open spec fn reg_block(
    acc: Result<Map<Seq<u8>, SpecLabelInfo>, Seq<u8>>,
    b: SpecBlock,
    sec: Map<Seq<u8>, Seq<u8>>,
    env: Map<Seq<u8>, u32>,
) -> Result<Map<Seq<u8>, SpecLabelInfo>, Seq<u8>>
    decreases b,
{
    if acc is Err {
        acc
    } else {
        let m = acc->Ok_0;
        match b {
            SpecBlock::Heading { content, label: Option::Some(l), .. } => reg_insert(
                m,
                l,
                heading_display(l, content, sec),
            ),
            SpecBlock::DisplayMath { label: Option::Some(l), .. } => reg_insert(
                m,
                l,
                equation_display(l, env),
            ),
            SpecBlock::Environment { kind, label, content, .. } => {
                let acc1 = match label {
                    Option::Some(l) => reg_insert(m, l, environment_display(l, kind, env)),
                    Option::None => acc,
                };
                reg_blocks(acc1, content, sec, env)
            },
            SpecBlock::Table { label: Option::Some(l), .. } => reg_insert(m, l, table_display(l, env)),
            SpecBlock::BlockQuote(v) => reg_blocks(acc, v, sec, env),
            SpecBlock::List { items, .. } => reg_items(acc, items, sec, env),
            _ => acc,
        }
    }
}

pub open spec fn reg_blocks(
    acc: Result<Map<Seq<u8>, SpecLabelInfo>, Seq<u8>>,
    v: Seq<SpecBlock>,
    sec: Map<Seq<u8>, Seq<u8>>,
    env: Map<Seq<u8>, u32>,
) -> Result<Map<Seq<u8>, SpecLabelInfo>, Seq<u8>>
    decreases v,
{
    if v.len() == 0 {
        acc
    } else {
        reg_blocks(reg_block(acc, v.first(), sec, env), v.drop_first(), sec, env)
    }
}

pub open spec fn reg_items(
    acc: Result<Map<Seq<u8>, SpecLabelInfo>, Seq<u8>>,
    v: Seq<SpecListItem>,
    sec: Map<Seq<u8>, Seq<u8>>,
    env: Map<Seq<u8>, u32>,
) -> Result<Map<Seq<u8>, SpecLabelInfo>, Seq<u8>>
    decreases v,
{
    if v.len() == 0 {
        acc
    } else {
        reg_items(reg_blocks(acc, v.first().content, sec, env), v.drop_first(), sec, env)
    }
}

/// The whole registry of a block sequence.
pub open spec fn spec_label_registry(
    v: Seq<SpecBlock>,
    sec: Map<Seq<u8>, Seq<u8>>,
    env: Map<Seq<u8>, u32>,
) -> Result<Map<Seq<u8>, SpecLabelInfo>, Seq<u8>> {
    reg_blocks(Result::Ok(Map::empty()), v, sec, env)
}

fn reg_one(
    labels: &mut StrMap<LabelInfo>,
    l: &Vec<u8>,
    display: Vec<u8>,
) -> (r: Result<(), Error>)
    ensures
        match r {
            Result::Ok(()) => reg_insert(old(labels)@, l@, display@) == Result::<
                Map<Seq<u8>, SpecLabelInfo>,
                Seq<u8>,
            >::Ok(final(labels)@),
            Result::Err(e) => ({
                &&& reg_insert(old(labels)@, l@, display@) == Result::<
                    Map<Seq<u8>, SpecLabelInfo>,
                    Seq<u8>,
                >::Err(l@)
                &&& (e matches Error::Resolution(ResolutionError::DuplicateLabel(le)) && le@ == l@)
            }),
        },
{
    broadcast use lemma_bytes_deep_view;

    if labels.contains_key(l.as_slice()) {
        return Result::Err(
            Error::Resolution(ResolutionError::DuplicateLabel(copy_bytes(l))),
        );
    }
    let id = label_to_id(l.as_slice());
    let info = LabelInfo { display, html_id: id };
    labels.insert(copy_bytes(l), info);
    Result::Ok(())
}

fn reg_block_exec(
    b: &Block,
    labels: &mut StrMap<LabelInfo>,
    sec: &StrMap<Vec<u8>>,
    env: &StrMap<u32>,
) -> (r: Result<(), Error>)
    ensures
        match r {
            Result::Ok(()) => reg_block(Result::Ok(old(labels)@), block_dv(*b), sec@, env@)
                == Result::<Map<Seq<u8>, SpecLabelInfo>, Seq<u8>>::Ok(final(labels)@),
            Result::Err(e) => ({
                let sp = reg_block(Result::Ok(old(labels)@), block_dv(*b), sec@, env@);
                &&& sp is Err
                &&& (e matches Error::Resolution(ResolutionError::DuplicateLabel(le)) && le@
                    == sp->Err_0)
            }),
        },
    decreases block_dv(*b),
{
    match b {
        Block::Heading { level, content, label } => {
            match label {
                Option::Some(l) => {
                    let display = match sec.get(l.as_slice()) {
                        Option::Some(num) => {
                            let mut d = crate::lits::bytes_section_sp();
                            d.extend_from_slice(num.as_slice());
                            proof {
                                assert(d@ =~= heading_display(
                                    l@,
                                    inlines_dv(content@),
                                    sec@,
                                ));
                            }
                            d
                        },
                        Option::None => inlines_text(content),
                    };
                    reg_one(labels, l, display)
                },
                Option::None => Result::Ok(()),
            }
        },
        Block::DisplayMath { content, label } => {
            match label {
                Option::Some(l) => {
                    let display = match env.get(l.as_slice()) {
                        Option::Some(n) => {
                            let mut d = crate::lits::bytes_lparen();
                            let mut num = fmt_u32(*n);
                            d.append(&mut num);
                            let mut close = crate::lits::bytes_rparen();
                            d.append(&mut close);
                            proof {
                                assert(d@ =~= equation_display(l@, env@));
                            }
                            d
                        },
                        Option::None => crate::lits::bytes_unknown_paren(),
                    };
                    reg_one(labels, l, display)
                },
                Option::None => Result::Ok(()),
            }
        },
        Block::Environment { kind, label, content, caption } => {
            let step = match label {
                Option::Some(l) => {
                    let display = match env.get(l.as_slice()) {
                        Option::Some(n) => {
                            let mut d = kind.display_name();
                            d.push(32);
                            let mut num = fmt_u32(*n);
                            d.append(&mut num);
                            proof {
                                assert(d@ =~= environment_display(l@, env_kind_dv(*kind), env@));
                            }
                            d
                        },
                        Option::None => kind.display_name(),
                    };
                    reg_one(labels, l, display)
                },
                Option::None => Result::Ok(()),
            };
            match step {
                Result::Ok(()) => {
                    proof {
                        let gb = block_dv(*b);
                        assert(gb matches SpecBlock::Environment { content: gc, .. } && gc
                            == blocks_dv(content@) && decreases_to!(gb => gc));
                    }
                    reg_blocks_exec(content, labels, sec, env)
                },
                Result::Err(e) => {
                    proof {
                        match label {
                            Option::Some(l) => {
                                lemma_reg_blocks_err(
                                    reg_insert(
                                        old(labels)@,
                                        l@,
                                        environment_display(l@, env_kind_dv(*kind), env@),
                                    ),
                                    blocks_dv(content@),
                                    sec@,
                                    env@,
                                );
                            },
                            Option::None => {},
                        }
                    }
                    Result::Err(e)
                },
            }
        },
        Block::Table { headers, alignments, rows, label, caption } => {
            match label {
                Option::Some(l) => {
                    let display = match env.get(l.as_slice()) {
                        Option::Some(n) => {
                            let mut d = crate::lits::bytes_dn_table();
                            d.push(32);
                            let mut num = fmt_u32(*n);
                            d.append(&mut num);
                            proof {
                                assert(d@ =~= table_display(l@, env@));
                            }
                            d
                        },
                        Option::None => crate::lits::bytes_dn_table(),
                    };
                    reg_one(labels, l, display)
                },
                Option::None => Result::Ok(()),
            }
        },
        Block::BlockQuote(v) => {
            proof {
                let gb = block_dv(*b);
                assert(gb matches SpecBlock::BlockQuote(gc) && gc == blocks_dv(v@)
                    && decreases_to!(gb => gc));
            }
            reg_blocks_exec(v, labels, sec, env)
        },
        Block::List { ordered, start, items } => {
            proof {
                let gb = block_dv(*b);
                assert(gb matches SpecBlock::List { items: gi, .. } && gi == items_dv(items@)
                    && decreases_to!(gb => gi));
            }
            reg_items_exec(items, labels, sec, env)
        },
        _ => Result::Ok(()),
    }
}

fn reg_blocks_exec(
    v: &Vec<Block>,
    labels: &mut StrMap<LabelInfo>,
    sec: &StrMap<Vec<u8>>,
    env: &StrMap<u32>,
) -> (r: Result<(), Error>)
    ensures
        match r {
            Result::Ok(()) => reg_blocks(Result::Ok(old(labels)@), blocks_dv(v@), sec@, env@)
                == Result::<Map<Seq<u8>, SpecLabelInfo>, Seq<u8>>::Ok(final(labels)@),
            Result::Err(e) => ({
                let sp = reg_blocks(Result::Ok(old(labels)@), blocks_dv(v@), sec@, env@);
                &&& sp is Err
                &&& (e matches Error::Resolution(ResolutionError::DuplicateLabel(le)) && le@
                    == sp->Err_0)
            }),
        },
    decreases blocks_dv(v@),
{
    let ghost whole = blocks_dv(v@);
    let ghost env0 = env@;
    let ghost sec0 = sec@;
    proof {
        assert(whole.skip(0) =~= whole);
    }
    let mut i: usize = 0;
    while i < v.len()
        invariant
            0 <= i <= v@.len(),
            whole == blocks_dv(v@),
            whole.len() == v@.len(),
            sec@ == sec0,
            env@ == env0,
            reg_blocks(Result::Ok(old(labels)@), whole, sec0, env0) == reg_blocks(
                Result::Ok(labels@),
                whole.skip(i as int),
                sec0,
                env0,
            ),
        decreases v@.len() - i,
    {
        let ghost before = labels@;
        proof {
            assert(whole.skip(i as int).first() == whole[i as int]);
            assert(whole[i as int] == block_dv(v@[i as int]));
            assert(decreases_to!(whole => whole[i as int]));
        }
        let step = reg_block_exec(&v[i], labels, sec, env);
        proof {
            assert(whole.skip(i as int).drop_first() =~= whole.skip(i + 1));
        }
        match step {
            Result::Ok(()) => {},
            Result::Err(e) => {
                proof {
                    lemma_reg_blocks_err(
                        reg_block(Result::Ok(before), whole[i as int], sec0, env0),
                        whole.skip(i + 1),
                        sec0,
                        env0,
                    );
                }
                return Result::Err(e);
            },
        }
        i += 1;
    }
    proof {
        assert(whole.skip(v@.len() as int) =~= Seq::<SpecBlock>::empty());
    }
    Result::Ok(())
}

/// Once the walk has failed, it stays failed.
proof fn lemma_reg_blocks_err(
    acc: Result<Map<Seq<u8>, SpecLabelInfo>, Seq<u8>>,
    v: Seq<SpecBlock>,
    sec: Map<Seq<u8>, Seq<u8>>,
    env: Map<Seq<u8>, u32>,
)
    requires
        acc is Err,
    ensures
        reg_blocks(acc, v, sec, env) == acc,
    decreases v,
{
    if v.len() > 0 {
        assert(reg_block(acc, v.first(), sec, env) == acc);
        lemma_reg_blocks_err(acc, v.drop_first(), sec, env);
        assert(reg_blocks(acc, v, sec, env) == reg_blocks(
            reg_block(acc, v.first(), sec, env),
            v.drop_first(),
            sec,
            env,
        ));
    }
}

proof fn lemma_reg_items_err(
    acc: Result<Map<Seq<u8>, SpecLabelInfo>, Seq<u8>>,
    v: Seq<SpecListItem>,
    sec: Map<Seq<u8>, Seq<u8>>,
    env: Map<Seq<u8>, u32>,
)
    requires
        acc is Err,
    ensures
        reg_items(acc, v, sec, env) == acc,
    decreases v,
{
    if v.len() > 0 {
        lemma_reg_blocks_err(acc, v.first().content, sec, env);
        lemma_reg_items_err(acc, v.drop_first(), sec, env);
    }
}

fn reg_items_exec(
    v: &Vec<ListItem>,
    labels: &mut StrMap<LabelInfo>,
    sec: &StrMap<Vec<u8>>,
    env: &StrMap<u32>,
) -> (r: Result<(), Error>)
    ensures
        match r {
            Result::Ok(()) => reg_items(Result::Ok(old(labels)@), items_dv(v@), sec@, env@)
                == Result::<Map<Seq<u8>, SpecLabelInfo>, Seq<u8>>::Ok(final(labels)@),
            Result::Err(e) => ({
                let sp = reg_items(Result::Ok(old(labels)@), items_dv(v@), sec@, env@);
                &&& sp is Err
                &&& (e matches Error::Resolution(ResolutionError::DuplicateLabel(le)) && le@
                    == sp->Err_0)
            }),
        },
    decreases items_dv(v@),
{
    let ghost whole = items_dv(v@);
    let ghost env0 = env@;
    let ghost sec0 = sec@;
    proof {
        assert(whole.skip(0) =~= whole);
    }
    let mut i: usize = 0;
    while i < v.len()
        invariant
            0 <= i <= v@.len(),
            whole == items_dv(v@),
            whole.len() == v@.len(),
            sec@ == sec0,
            env@ == env0,
            reg_items(Result::Ok(old(labels)@), whole, sec0, env0) == reg_items(
                Result::Ok(labels@),
                whole.skip(i as int),
                sec0,
                env0,
            ),
        decreases v@.len() - i,
    {
        let ghost before = labels@;
        proof {
            assert(whole.skip(i as int).first() == whole[i as int]);
            assert(whole[i as int] == list_item_dv(v@[i as int]));
            assert(decreases_to!(whole => whole[i as int]));
            assert(decreases_to!(whole[i as int] => whole[i as int].content));
            assert(whole[i as int].content == blocks_dv(v@[i as int].content@));
        }
        let step = reg_blocks_exec(&v[i].content, labels, sec, env);
        proof {
            assert(whole.skip(i as int).drop_first() =~= whole.skip(i + 1));
        }
        match step {
            Result::Ok(()) => {},
            Result::Err(e) => {
                proof {
                    lemma_reg_items_err(
                        reg_blocks(Result::Ok(before), whole[i as int].content, sec0, env0),
                        whole.skip(i + 1),
                        sec0,
                        env0,
                    );
                }
                return Result::Err(e);
            },
        }
        i += 1;
    }
    proof {
        assert(whole.skip(v@.len() as int) =~= Seq::<SpecListItem>::empty());
    }
    Result::Ok(())
}

/// Build the registry of every label in the document.  Inserting a label
/// already present anywhere in the document is a duplicate-label error,
/// whatever the block types involved.
pub fn build_label_registry(
    document: &Document,
    section_numbers: &StrMap<Vec<u8>>,
    env_numbers: &StrMap<u32>,
) -> (r: Result<StrMap<LabelInfo>, Error>)
    ensures
        match r {
            Result::Ok(reg) => spec_label_registry(
                blocks_dv(document.blocks@),
                section_numbers@,
                env_numbers@,
            ) == Result::<Map<Seq<u8>, SpecLabelInfo>, Seq<u8>>::Ok(reg@),
            Result::Err(e) => ({
                let sp = spec_label_registry(
                    blocks_dv(document.blocks@),
                    section_numbers@,
                    env_numbers@,
                );
                &&& sp is Err
                &&& (e matches Error::Resolution(ResolutionError::DuplicateLabel(le)) && le@
                    == sp->Err_0)
            }),
        },
{
    let mut labels: StrMap<LabelInfo> = StrMap::new();
    match reg_blocks_exec(&document.blocks, &mut labels, section_numbers, env_numbers) {
        Result::Ok(()) => Result::Ok(labels),
        Result::Err(e) => Result::Err(e),
    }
}

// ---------------------------------------------------------------------------
// The duplicate-label law
// ---------------------------------------------------------------------------

pub open spec fn opt_occ(l: Option<Seq<u8>>) -> Seq<Seq<u8>> {
    match l {
        Option::Some(k) => seq![k],
        Option::None => Seq::empty(),
    }
}

/// Every label carried by a block, in walk order.
pub open spec fn label_occs_block(b: SpecBlock) -> Seq<Seq<u8>>
    decreases b,
{
    match b {
        SpecBlock::Heading { label, .. } => opt_occ(label),
        SpecBlock::DisplayMath { label, .. } => opt_occ(label),
        SpecBlock::Environment { label, content, .. } => opt_occ(label) + label_occs(content),
        SpecBlock::Table { label, .. } => opt_occ(label),
        SpecBlock::BlockQuote(v) => label_occs(v),
        SpecBlock::List { items, .. } => label_occs_items(items),
        _ => Seq::empty(),
    }
}

pub open spec fn label_occs(v: Seq<SpecBlock>) -> Seq<Seq<u8>>
    decreases v,
{
    if v.len() == 0 {
        Seq::empty()
    } else {
        label_occs_block(v.first()) + label_occs(v.drop_first())
    }
}

pub open spec fn label_occs_items(v: Seq<SpecListItem>) -> Seq<Seq<u8>>
    decreases v,
{
    if v.len() == 0 {
        Seq::empty()
    } else {
        label_occs(v.first().content) + label_occs_items(v.drop_first())
    }
}

pub open spec fn distinct_labels(s: Seq<Seq<u8>>) -> bool {
    forall|i: int, j: int| 0 <= i < j < s.len() ==> s[i] != s[j]
}

/// What a successful registry walk implies about the labels it saw.
pub open spec fn reg_ok_claim(
    m: Map<Seq<u8>, SpecLabelInfo>,
    r: Result<Map<Seq<u8>, SpecLabelInfo>, Seq<u8>>,
    occs: Seq<Seq<u8>>,
) -> bool {
    r is Ok ==> ({
        &&& distinct_labels(occs)
        &&& forall|j: int| 0 <= j < occs.len() ==> !m.contains_key(#[trigger] occs[j])
        &&& forall|k: Seq<u8>|
            #[trigger] r->Ok_0.contains_key(k) <==> m.contains_key(k) || occs.contains(k)
    })
}

proof fn lemma_reg_ok_compose(
    m: Map<Seq<u8>, SpecLabelInfo>,
    mid: Result<Map<Seq<u8>, SpecLabelInfo>, Seq<u8>>,
    fin: Result<Map<Seq<u8>, SpecLabelInfo>, Seq<u8>>,
    occs1: Seq<Seq<u8>>,
    occs2: Seq<Seq<u8>>,
)
    requires
        reg_ok_claim(m, mid, occs1),
        mid is Ok ==> reg_ok_claim(mid->Ok_0, fin, occs2),
        fin is Ok ==> mid is Ok,
    ensures
        reg_ok_claim(m, fin, occs1 + occs2),
{
    if fin is Ok {
        let m1 = mid->Ok_0;
        let occs = occs1 + occs2;
        assert forall|i: int, j: int| 0 <= i < j < occs.len() implies occs[i] != occs[j] by {
            if j < occs1.len() {
            } else if i >= occs1.len() {
                assert(occs2[i - occs1.len()] != occs2[j - occs1.len()]);
            } else {
                let l = occs[i];
                assert(occs1.contains(l)) by {
                    assert(occs1[i] == l);
                }
                assert(m1.contains_key(l));
                assert(!m1.contains_key(occs2[j - occs1.len()]));
            }
        }
        assert forall|j: int| 0 <= j < occs.len() implies !m.contains_key(#[trigger] occs[j]) by {
            if j >= occs1.len() {
                assert(!m1.contains_key(occs2[j - occs1.len()]));
                assert(m1.contains_key(occs[j]) <==> m.contains_key(occs[j]) || occs1.contains(
                    occs[j],
                ));
            }
        }
        assert forall|k: Seq<u8>| #[trigger] fin->Ok_0.contains_key(k) <==> m.contains_key(k)
            || occs.contains(k) by {
            if fin->Ok_0.contains_key(k) {
                if !m.contains_key(k) {
                    if occs1.contains(k) {
                        let w = choose|w: int| 0 <= w < occs1.len() && occs1[w] == k;
                        assert(occs[w] == k);
                    } else {
                        assert(occs2.contains(k));
                        let w = choose|w: int| 0 <= w < occs2.len() && occs2[w] == k;
                        assert(occs[occs1.len() + w] == k);
                    }
                }
            } else {
                if occs.contains(k) {
                    let w = choose|w: int| 0 <= w < occs.len() && occs[w] == k;
                    if w < occs1.len() {
                        assert(occs1[w] == k);
                        assert(m1.contains_key(k));
                    } else {
                        assert(occs2[w - occs1.len()] == k);
                    }
                }
            }
        }
    }
}

proof fn lemma_reg_ok_block(
    m: Map<Seq<u8>, SpecLabelInfo>,
    b: SpecBlock,
    sec: Map<Seq<u8>, Seq<u8>>,
    env: Map<Seq<u8>, u32>,
)
    ensures
        reg_ok_claim(m, reg_block(Result::Ok(m), b, sec, env), label_occs_block(b)),
    decreases b,
{
    match b {
        SpecBlock::Environment { kind, label, content, .. } => {
            let mid = match label {
                Option::Some(l) => reg_insert(m, l, environment_display(l, kind, env)),
                Option::None => Result::<Map<Seq<u8>, SpecLabelInfo>, Seq<u8>>::Ok(m),
            };
            assert(reg_ok_claim(m, mid, opt_occ(label))) by {
                match label {
                    Option::Some(l) => {
                        if !m.contains_key(l) {
                            assert forall|k: Seq<u8>| #[trigger] mid->Ok_0.contains_key(k) <==>
                                m.contains_key(k) || opt_occ(label).contains(k) by {
                                if mid->Ok_0.contains_key(k) && !m.contains_key(k) {
                                    assert(opt_occ(label)[0] == l);
                                }
                                if opt_occ(label).contains(k) {
                                    assert(opt_occ(label)[0] == l);
                                    assert(k == l);
                                }
                            }
                        }
                    },
                    Option::None => {},
                }
            }
            if mid is Ok {
                lemma_reg_ok_blocks(mid->Ok_0, content, sec, env);
            } else {
                lemma_reg_blocks_err(mid, content, sec, env);
            }
            assert(reg_block(Result::Ok(m), b, sec, env) == reg_blocks(mid, content, sec, env));
            lemma_reg_ok_compose(
                m,
                mid,
                reg_blocks(mid, content, sec, env),
                opt_occ(label),
                label_occs(content),
            );
        },
        SpecBlock::BlockQuote(v) => {
            lemma_reg_ok_blocks(m, v, sec, env);
        },
        SpecBlock::List { items, .. } => {
            lemma_reg_ok_items(m, items, sec, env);
        },
        SpecBlock::Heading { content, label, .. } => {
            lemma_reg_ok_leaf(m, reg_block(Result::Ok(m), b, sec, env), label);
        },
        SpecBlock::DisplayMath { label, .. } => {
            lemma_reg_ok_leaf(m, reg_block(Result::Ok(m), b, sec, env), label);
        },
        SpecBlock::Table { label, .. } => {
            lemma_reg_ok_leaf(m, reg_block(Result::Ok(m), b, sec, env), label);
        },
        _ => {},
    }
}

/// The claim for a leaf block that registers at most its own label.
proof fn lemma_reg_ok_leaf(
    m: Map<Seq<u8>, SpecLabelInfo>,
    r: Result<Map<Seq<u8>, SpecLabelInfo>, Seq<u8>>,
    label: Option<Seq<u8>>,
)
    requires
        match label {
            Option::Some(l) => r == reg_insert(m, l, r->Ok_0[l].display) || (r is Err)
                || (r is Ok && r->Ok_0 == m.insert(
                l,
                SpecLabelInfo { display: r->Ok_0[l].display, html_id: spec_label_to_id(l) },
            ) && !m.contains_key(l)),
            Option::None => r == Result::<Map<Seq<u8>, SpecLabelInfo>, Seq<u8>>::Ok(m),
        },
    ensures
        reg_ok_claim(m, r, opt_occ(label)),
{
    if r is Ok {
        match label {
            Option::Some(l) => {
                assert(opt_occ(label)[0] == l);
                assert forall|k: Seq<u8>| #[trigger] r->Ok_0.contains_key(k) <==> m.contains_key(k)
                    || opt_occ(label).contains(k) by {
                    if opt_occ(label).contains(k) {
                        assert(k == l);
                    }
                    if r->Ok_0.contains_key(k) && !m.contains_key(k) {
                        assert(k == l);
                        assert(opt_occ(label)[0] == l);
                    }
                }
            },
            Option::None => {},
        }
    }
}

proof fn lemma_reg_ok_blocks(
    m: Map<Seq<u8>, SpecLabelInfo>,
    v: Seq<SpecBlock>,
    sec: Map<Seq<u8>, Seq<u8>>,
    env: Map<Seq<u8>, u32>,
)
    ensures
        reg_ok_claim(m, reg_blocks(Result::Ok(m), v, sec, env), label_occs(v)),
    decreases v,
{
    if v.len() > 0 {
        let mid = reg_block(Result::Ok(m), v.first(), sec, env);
        lemma_reg_ok_block(m, v.first(), sec, env);
        if mid is Ok {
            lemma_reg_ok_blocks(mid->Ok_0, v.drop_first(), sec, env);
        } else {
            lemma_reg_blocks_err(mid, v.drop_first(), sec, env);
        }
        lemma_reg_ok_compose(
            m,
            mid,
            reg_blocks(mid, v.drop_first(), sec, env),
            label_occs_block(v.first()),
            label_occs(v.drop_first()),
        );
    }
}

proof fn lemma_reg_ok_items(
    m: Map<Seq<u8>, SpecLabelInfo>,
    v: Seq<SpecListItem>,
    sec: Map<Seq<u8>, Seq<u8>>,
    env: Map<Seq<u8>, u32>,
)
    ensures
        reg_ok_claim(m, reg_items(Result::Ok(m), v, sec, env), label_occs_items(v)),
    decreases v,
{
    if v.len() > 0 {
        let mid = reg_blocks(Result::Ok(m), v.first().content, sec, env);
        lemma_reg_ok_blocks(m, v.first().content, sec, env);
        if mid is Ok {
            lemma_reg_ok_items(mid->Ok_0, v.drop_first(), sec, env);
        } else {
            lemma_reg_items_err(mid, v.drop_first(), sec, env);
        }
        lemma_reg_ok_compose(
            m,
            mid,
            reg_items(mid, v.drop_first(), sec, env),
            label_occs(v.first().content),
            label_occs_items(v.drop_first()),
        );
    }
}

/// A label used twice anywhere in the document, by any two label-bearing
/// blocks, always makes the registry walk fail with a duplicate-label
/// error.
pub proof fn lemma_duplicate_label_error(
    v: Seq<SpecBlock>,
    sec: Map<Seq<u8>, Seq<u8>>,
    env: Map<Seq<u8>, u32>,
)
    requires
        !distinct_labels(label_occs(v)),
    ensures
        spec_label_registry(v, sec, env) is Err,
{
    lemma_reg_ok_blocks(Map::empty(), v, sec, env);
}

// ---------------------------------------------------------------------------
// Reference resolution
// ---------------------------------------------------------------------------

/// Resolving one reference: a known label gets its display text, an
/// unknown one is fatal in strict mode and becomes the visible
/// `??label` placeholder otherwise.
pub open spec fn res_reference(
    label: Seq<u8>,
    labels: Map<Seq<u8>, SpecLabelInfo>,
    strict: bool,
) -> Result<SpecInline, Seq<u8>> {
    if labels.contains_key(label) {
        Result::Ok(
            SpecInline::Reference { label, resolved: Option::Some(labels[label].display) },
        )
    } else if strict {
        Result::Err(label)
    } else {
        Result::Ok(
            SpecInline::Reference {
                label,
                resolved: Option::Some(crate::lits::lit_qq() + label),
            },
        )
    }
}

pub open spec fn res_inline(
    i: SpecInline,
    labels: Map<Seq<u8>, SpecLabelInfo>,
    strict: bool,
) -> Result<SpecInline, Seq<u8>>
    decreases i,
{
    match i {
        SpecInline::Reference { label, resolved } => res_reference(label, labels, strict),
        SpecInline::Emphasis(v) => match res_inlines(v, labels, strict) {
            Result::Ok(v2) => Result::Ok(SpecInline::Emphasis(v2)),
            Result::Err(l) => Result::Err(l),
        },
        SpecInline::Strong(v) => match res_inlines(v, labels, strict) {
            Result::Ok(v2) => Result::Ok(SpecInline::Strong(v2)),
            Result::Err(l) => Result::Err(l),
        },
        SpecInline::Strikethrough(v) => match res_inlines(v, labels, strict) {
            Result::Ok(v2) => Result::Ok(SpecInline::Strikethrough(v2)),
            Result::Err(l) => Result::Err(l),
        },
        SpecInline::Link { url, title, content } => match res_inlines(content, labels, strict) {
            Result::Ok(v2) => Result::Ok(SpecInline::Link { url, title, content: v2 }),
            Result::Err(l) => Result::Err(l),
        },
        other => Result::Ok(other),
    }
}

pub open spec fn res_inlines(
    v: Seq<SpecInline>,
    labels: Map<Seq<u8>, SpecLabelInfo>,
    strict: bool,
) -> Result<Seq<SpecInline>, Seq<u8>>
    decreases v,
{
    if v.len() == 0 {
        Result::Ok(Seq::empty())
    } else {
        match res_inline(v.first(), labels, strict) {
            Result::Err(l) => Result::Err(l),
            Result::Ok(i2) => match res_inlines(v.drop_first(), labels, strict) {
                Result::Err(l) => Result::Err(l),
                Result::Ok(v2) => Result::Ok(seq![i2] + v2),
            },
        }
    }
}

pub open spec fn res_opt_inlines(
    o: Option<Seq<SpecInline>>,
    labels: Map<Seq<u8>, SpecLabelInfo>,
    strict: bool,
) -> Result<Option<Seq<SpecInline>>, Seq<u8>> {
    match o {
        Option::Some(v) => match res_inlines(v, labels, strict) {
            Result::Ok(v2) => Result::Ok(Option::Some(v2)),
            Result::Err(l) => Result::Err(l),
        },
        Option::None => Result::Ok(Option::None),
    }
}

pub open spec fn res_block(
    b: SpecBlock,
    labels: Map<Seq<u8>, SpecLabelInfo>,
    strict: bool,
) -> Result<SpecBlock, Seq<u8>>
    decreases b,
{
    match b {
        SpecBlock::Paragraph(v) => match res_inlines(v, labels, strict) {
            Result::Ok(v2) => Result::Ok(SpecBlock::Paragraph(v2)),
            Result::Err(l) => Result::Err(l),
        },
        SpecBlock::Heading { level, content, label } => match res_inlines(
            content,
            labels,
            strict,
        ) {
            Result::Ok(v2) => Result::Ok(SpecBlock::Heading { level, content: v2, label }),
            Result::Err(l) => Result::Err(l),
        },
        SpecBlock::Environment { kind, label, content, caption } => match res_blocks(
            content,
            labels,
            strict,
        ) {
            Result::Err(l) => Result::Err(l),
            Result::Ok(c2) => match res_opt_inlines(caption, labels, strict) {
                Result::Err(l) => Result::Err(l),
                Result::Ok(cap2) => Result::Ok(
                    SpecBlock::Environment { kind, label, content: c2, caption: cap2 },
                ),
            },
        },
        SpecBlock::BlockQuote(v) => match res_blocks(v, labels, strict) {
            Result::Ok(v2) => Result::Ok(SpecBlock::BlockQuote(v2)),
            Result::Err(l) => Result::Err(l),
        },
        SpecBlock::List { ordered, start, items } => match res_items(items, labels, strict) {
            Result::Ok(v2) => Result::Ok(SpecBlock::List { ordered, start, items: v2 }),
            Result::Err(l) => Result::Err(l),
        },
        SpecBlock::Table { headers, alignments, rows, label, caption } => match res_cells(
            headers,
            labels,
            strict,
        ) {
            Result::Err(l) => Result::Err(l),
            Result::Ok(h2) => match res_rows(rows, labels, strict) {
                Result::Err(l) => Result::Err(l),
                Result::Ok(r2) => match res_opt_inlines(caption, labels, strict) {
                    Result::Err(l) => Result::Err(l),
                    Result::Ok(cap2) => Result::Ok(
                        SpecBlock::Table {
                            headers: h2,
                            alignments,
                            rows: r2,
                            label,
                            caption: cap2,
                        },
                    ),
                },
            },
        },
        other => Result::Ok(other),
    }
}

pub open spec fn res_blocks(
    v: Seq<SpecBlock>,
    labels: Map<Seq<u8>, SpecLabelInfo>,
    strict: bool,
) -> Result<Seq<SpecBlock>, Seq<u8>>
    decreases v,
{
    if v.len() == 0 {
        Result::Ok(Seq::empty())
    } else {
        match res_block(v.first(), labels, strict) {
            Result::Err(l) => Result::Err(l),
            Result::Ok(b2) => match res_blocks(v.drop_first(), labels, strict) {
                Result::Err(l) => Result::Err(l),
                Result::Ok(v2) => Result::Ok(seq![b2] + v2),
            },
        }
    }
}

pub open spec fn res_items(
    v: Seq<SpecListItem>,
    labels: Map<Seq<u8>, SpecLabelInfo>,
    strict: bool,
) -> Result<Seq<SpecListItem>, Seq<u8>>
    decreases v,
{
    if v.len() == 0 {
        Result::Ok(Seq::empty())
    } else {
        match res_blocks(v.first().content, labels, strict) {
            Result::Err(l) => Result::Err(l),
            Result::Ok(c2) => match res_items(v.drop_first(), labels, strict) {
                Result::Err(l) => Result::Err(l),
                Result::Ok(v2) => Result::Ok(
                    seq![SpecListItem { content: c2, checked: v.first().checked }] + v2,
                ),
            },
        }
    }
}

pub open spec fn res_cells(
    v: Seq<Seq<SpecInline>>,
    labels: Map<Seq<u8>, SpecLabelInfo>,
    strict: bool,
) -> Result<Seq<Seq<SpecInline>>, Seq<u8>>
    decreases v,
{
    if v.len() == 0 {
        Result::Ok(Seq::empty())
    } else {
        match res_inlines(v.first(), labels, strict) {
            Result::Err(l) => Result::Err(l),
            Result::Ok(c2) => match res_cells(v.drop_first(), labels, strict) {
                Result::Err(l) => Result::Err(l),
                Result::Ok(v2) => Result::Ok(seq![c2] + v2),
            },
        }
    }
}

pub open spec fn res_rows(
    v: Seq<Seq<Seq<SpecInline>>>,
    labels: Map<Seq<u8>, SpecLabelInfo>,
    strict: bool,
) -> Result<Seq<Seq<Seq<SpecInline>>>, Seq<u8>>
    decreases v,
{
    if v.len() == 0 {
        Result::Ok(Seq::empty())
    } else {
        match res_cells(v.first(), labels, strict) {
            Result::Err(l) => Result::Err(l),
            Result::Ok(c2) => match res_rows(v.drop_first(), labels, strict) {
                Result::Err(l) => Result::Err(l),
                Result::Ok(v2) => Result::Ok(seq![c2] + v2),
            },
        }
    }
}

/// In lenient mode an unknown label resolves to the visible `??label`
/// placeholder; in strict mode it is a fatal unknown-reference error.
pub proof fn lemma_unknown_reference_modes(label: Seq<u8>, labels: Map<Seq<u8>, SpecLabelInfo>)
    requires
        !labels.contains_key(label),
    ensures
        res_reference(label, labels, false) == Result::<SpecInline, Seq<u8>>::Ok(
            SpecInline::Reference {
                label,
                resolved: Option::Some(crate::lits::lit_qq() + label),
            },
        ),
        res_reference(label, labels, true) == Result::<SpecInline, Seq<u8>>::Err(label),
{
}

// ---------------------------------------------------------------------------
// Deep copies (the AST holds owned byte strings)
// ---------------------------------------------------------------------------

fn copy_opt_bytes(o: &Option<Vec<u8>>) -> (r: Option<Vec<u8>>)
    ensures
        opt_bytes(r) == opt_bytes(*o),
{
    match o {
        Option::Some(v) => Option::Some(copy_bytes(v)),
        Option::None => Option::None,
    }
}

fn copy_bytes_list(v: &Vec<Vec<u8>>) -> (r: Vec<Vec<u8>>)
    ensures
        crate::ast::bytes_list(r@) == crate::ast::bytes_list(v@),
{
    let mut r: Vec<Vec<u8>> = Vec::new();
    let mut i: usize = 0;
    while i < v.len()
        invariant
            0 <= i <= v@.len(),
            r@.len() == i,
            forall|j: int| 0 <= j < i ==> r@[j]@ == v@[j]@,
        decreases v@.len() - i,
    {
        r.push(copy_bytes(&v[i]));
        i += 1;
    }
    proof {
        assert(crate::ast::bytes_list(r@) =~= crate::ast::bytes_list(v@));
    }
    r
}

/// A deep copy of inline content, equal to the original in the model.
pub fn clone_inline(i: &Inline) -> (r: Inline)
    ensures
        inline_dv(r) == inline_dv(*i),
    decreases inline_dv(*i),
{
    match i {
        Inline::Text(t) => Inline::Text(copy_bytes(t)),
        Inline::Code(t) => Inline::Code(copy_bytes(t)),
        Inline::InlineMath(t) => Inline::InlineMath(copy_bytes(t)),
        Inline::RawHtml(t) => Inline::RawHtml(copy_bytes(t)),
        Inline::SoftBreak => Inline::SoftBreak,
        Inline::HardBreak => Inline::HardBreak,
        Inline::Emphasis(v) => {
            proof {
                let g = inline_dv(*i);
                assert(g matches SpecInline::Emphasis(gv) && gv == inlines_dv(v@)
                    && decreases_to!(g => gv));
            }
            Inline::Emphasis(clone_inlines(v))
        },
        Inline::Strong(v) => {
            proof {
                let g = inline_dv(*i);
                assert(g matches SpecInline::Strong(gv) && gv == inlines_dv(v@)
                    && decreases_to!(g => gv));
            }
            Inline::Strong(clone_inlines(v))
        },
        Inline::Strikethrough(v) => {
            proof {
                let g = inline_dv(*i);
                assert(g matches SpecInline::Strikethrough(gv) && gv == inlines_dv(v@)
                    && decreases_to!(g => gv));
            }
            Inline::Strikethrough(clone_inlines(v))
        },
        Inline::Subscript(v) => {
            proof {
                let g = inline_dv(*i);
                assert(g matches SpecInline::Subscript(gv) && gv == inlines_dv(v@)
                    && decreases_to!(g => gv));
            }
            Inline::Subscript(clone_inlines(v))
        },
        Inline::Superscript(v) => {
            proof {
                let g = inline_dv(*i);
                assert(g matches SpecInline::Superscript(gv) && gv == inlines_dv(v@)
                    && decreases_to!(g => gv));
            }
            Inline::Superscript(clone_inlines(v))
        },
        Inline::SmallCaps(v) => {
            proof {
                let g = inline_dv(*i);
                assert(g matches SpecInline::SmallCaps(gv) && gv == inlines_dv(v@)
                    && decreases_to!(g => gv));
            }
            Inline::SmallCaps(clone_inlines(v))
        },
        Inline::Link { url, title, content } => {
            proof {
                let g = inline_dv(*i);
                assert(g matches SpecInline::Link { content: gv, .. } && gv == inlines_dv(content@)
                    && decreases_to!(g => gv));
            }
            Inline::Link {
                url: copy_bytes(url),
                title: copy_opt_bytes(title),
                content: clone_inlines(content),
            }
        },
        Inline::Image { url, alt, title } => Inline::Image {
            url: copy_bytes(url),
            alt: copy_bytes(alt),
            title: copy_opt_bytes(title),
        },
        Inline::Citation(c) => Inline::Citation(
            crate::ast::Citation {
                keys: copy_bytes_list(&c.keys),
                style: c.style,
                prefix: copy_opt_bytes(&c.prefix),
                locator: copy_opt_bytes(&c.locator),
            },
        ),
        Inline::Reference { label, resolved } => Inline::Reference {
            label: copy_bytes(label),
            resolved: copy_opt_bytes(resolved),
        },
        Inline::Footnote(f) => {
            match f {
                crate::ast::FootnoteKind::Inline(v) => {
                    proof {
                        let g = inline_dv(*i);
                        assert(g matches SpecInline::Footnote(gf) && gf matches SpecFootnote::Inline(
                            gv,
                        ) && gv == inlines_dv(v@) && decreases_to!(g => gf)
                            && decreases_to!(gf => gv));
                    }
                    Inline::Footnote(crate::ast::FootnoteKind::Inline(clone_inlines(v)))
                },
                crate::ast::FootnoteKind::Reference(id) => Inline::Footnote(
                    crate::ast::FootnoteKind::Reference(copy_bytes(id)),
                ),
            }
        },
    }
}

/// A deep copy of an inline sequence.
pub fn clone_inlines(v: &Vec<Inline>) -> (r: Vec<Inline>)
    ensures
        inlines_dv(r@) == inlines_dv(v@),
    decreases inlines_dv(v@),
{
    let ghost model = inlines_dv(v@);
    let mut r: Vec<Inline> = Vec::new();
    let mut i: usize = 0;
    while i < v.len()
        invariant
            0 <= i <= v@.len(),
            model == inlines_dv(v@),
            model.len() == v@.len(),
            r@.len() == i,
            forall|j: int| 0 <= j < i ==> inline_dv(r@[j]) == model[j],
        decreases v@.len() - i,
    {
        proof {
            assert(model[i as int] == inline_dv(v@[i as int]));
            assert(decreases_to!(model => model[i as int]));
        }
        r.push(clone_inline(&v[i]));
        i += 1;
    }
    proof {
        assert(inlines_dv(r@) =~= model);
    }
    r
}

// ---------------------------------------------------------------------------
// Reference resolution, executable walk
// ---------------------------------------------------------------------------

fn resolve_inline_exec(i: Inline, labels: &StrMap<LabelInfo>, strict: bool) -> (r: Result<
    Inline,
    Vec<u8>,
>)
    ensures
        match r {
            Result::Ok(i2) => res_inline(inline_dv(i), labels@, strict) == Result::<
                SpecInline,
                Seq<u8>,
            >::Ok(inline_dv(i2)),
            Result::Err(l) => res_inline(inline_dv(i), labels@, strict) == Result::<
                SpecInline,
                Seq<u8>,
            >::Err(l@),
        },
    decreases inline_dv(i),
{
    match i {
        Inline::Reference { label, resolved } => {
            match labels.get(label.as_slice()) {
                Option::Some(info) => {
                    let display = copy_bytes(&info.display);
                    Result::Ok(Inline::Reference { label, resolved: Option::Some(display) })
                },
                Option::None => {
                    if strict {
                        Result::Err(label)
                    } else {
                        let mut d = crate::lits::bytes_qq();
                        d.extend_from_slice(label.as_slice());
                        proof {
                            assert(d@ =~= crate::lits::lit_qq() + label@);
                        }
                        Result::Ok(Inline::Reference { label, resolved: Option::Some(d) })
                    }
                },
            }
        },
        Inline::Emphasis(v) => match resolve_inlines_exec(v, labels, strict) {
            Result::Ok(v2) => Result::Ok(Inline::Emphasis(v2)),
            Result::Err(l) => Result::Err(l),
        },
        Inline::Strong(v) => match resolve_inlines_exec(v, labels, strict) {
            Result::Ok(v2) => Result::Ok(Inline::Strong(v2)),
            Result::Err(l) => Result::Err(l),
        },
        Inline::Strikethrough(v) => match resolve_inlines_exec(v, labels, strict) {
            Result::Ok(v2) => Result::Ok(Inline::Strikethrough(v2)),
            Result::Err(l) => Result::Err(l),
        },
        Inline::Link { url, title, content } => match resolve_inlines_exec(
            content,
            labels,
            strict,
        ) {
            Result::Ok(v2) => Result::Ok(Inline::Link { url, title, content: v2 }),
            Result::Err(l) => Result::Err(l),
        },
        other => Result::Ok(other),
    }
}

fn resolve_inlines_exec(v: Vec<Inline>, labels: &StrMap<LabelInfo>, strict: bool) -> (r: Result<
    Vec<Inline>,
    Vec<u8>,
>)
    ensures
        match r {
            Result::Ok(v2) => res_inlines(inlines_dv(v@), labels@, strict) == Result::<
                Seq<SpecInline>,
                Seq<u8>,
            >::Ok(inlines_dv(v2@)),
            Result::Err(l) => res_inlines(inlines_dv(v@), labels@, strict) == Result::<
                Seq<SpecInline>,
                Seq<u8>,
            >::Err(l@),
        },
    decreases inlines_dv(v@),
{
    let ghost orig = inlines_dv(v@);
    let mut v = v;
    let mut out: Vec<Inline> = Vec::new();
    if v.len() == 0 {
        proof {
            assert(inlines_dv(out@) =~= Seq::<SpecInline>::empty());
        }
        return Result::Ok(out);
    }
    let first = v.remove(0);
    proof {
        assert(inline_dv(first) == orig.first());
        assert(inlines_dv(v@) =~= orig.drop_first());
    }
    match resolve_inline_exec(first, labels, strict) {
        Result::Err(l) => Result::Err(l),
        Result::Ok(e) => match resolve_inlines_exec(v, labels, strict) {
            Result::Err(l) => Result::Err(l),
            Result::Ok(rest) => {
                let ghost rest_view = rest@;
                let mut rest = rest;
                out.push(e);
                out.append(&mut rest);
                proof {
                    assert(inlines_dv(out@) =~= seq![inline_dv(e)] + inlines_dv(rest_view));
                }
                Result::Ok(out)
            },
        },
    }
}

fn resolve_opt_inlines_exec(
    o: Option<Vec<Inline>>,
    labels: &StrMap<LabelInfo>,
    strict: bool,
) -> (r: Result<Option<Vec<Inline>>, Vec<u8>>)
    ensures
        match r {
            Result::Ok(o2) => res_opt_inlines(opt_inlines_dv(o), labels@, strict) == Result::<
                Option<Seq<SpecInline>>,
                Seq<u8>,
            >::Ok(opt_inlines_dv(o2)),
            Result::Err(l) => res_opt_inlines(opt_inlines_dv(o), labels@, strict) == Result::<
                Option<Seq<SpecInline>>,
                Seq<u8>,
            >::Err(l@),
        },
    decreases opt_inlines_dv(o),
{
    match o {
        Option::Some(v) => {
            proof {
                assert(decreases_to!(opt_inlines_dv(o) => inlines_dv(v@)));
            }
            match resolve_inlines_exec(v, labels, strict) {
                Result::Ok(v2) => Result::Ok(Option::Some(v2)),
                Result::Err(l) => Result::Err(l),
            }
        },
        Option::None => Result::Ok(Option::None),
    }
}

fn resolve_block_exec(b: Block, labels: &StrMap<LabelInfo>, strict: bool) -> (r: Result<
    Block,
    Vec<u8>,
>)
    ensures
        match r {
            Result::Ok(b2) => res_block(block_dv(b), labels@, strict) == Result::<
                SpecBlock,
                Seq<u8>,
            >::Ok(block_dv(b2)),
            Result::Err(l) => res_block(block_dv(b), labels@, strict) == Result::<
                SpecBlock,
                Seq<u8>,
            >::Err(l@),
        },
    decreases block_dv(b),
{
    match b {
        Block::Paragraph(v) => match resolve_inlines_exec(v, labels, strict) {
            Result::Ok(v2) => Result::Ok(Block::Paragraph(v2)),
            Result::Err(l) => Result::Err(l),
        },
        Block::Heading { level, content, label } => match resolve_inlines_exec(
            content,
            labels,
            strict,
        ) {
            Result::Ok(v2) => Result::Ok(Block::Heading { level, content: v2, label }),
            Result::Err(l) => Result::Err(l),
        },
        Block::Environment { kind, label, content, caption } => match resolve_blocks_exec(
            content,
            labels,
            strict,
        ) {
            Result::Err(l) => Result::Err(l),
            Result::Ok(c2) => match resolve_opt_inlines_exec(caption, labels, strict) {
                Result::Err(l) => Result::Err(l),
                Result::Ok(cap2) => Result::Ok(
                    Block::Environment { kind, label, content: c2, caption: cap2 },
                ),
            },
        },
        Block::BlockQuote(v) => match resolve_blocks_exec(v, labels, strict) {
            Result::Ok(v2) => Result::Ok(Block::BlockQuote(v2)),
            Result::Err(l) => Result::Err(l),
        },
        Block::List { ordered, start, items } => match resolve_items_exec(items, labels, strict) {
            Result::Ok(v2) => Result::Ok(Block::List { ordered, start, items: v2 }),
            Result::Err(l) => Result::Err(l),
        },
        Block::Table { headers, alignments, rows, label, caption } => match resolve_cells_exec(
            headers,
            labels,
            strict,
        ) {
            Result::Err(l) => Result::Err(l),
            Result::Ok(h2) => match resolve_rows_exec(rows, labels, strict) {
                Result::Err(l) => Result::Err(l),
                Result::Ok(r2) => match resolve_opt_inlines_exec(caption, labels, strict) {
                    Result::Err(l) => Result::Err(l),
                    Result::Ok(cap2) => Result::Ok(
                        Block::Table {
                            headers: h2,
                            alignments,
                            rows: r2,
                            label,
                            caption: cap2,
                        },
                    ),
                },
            },
        },
        other => Result::Ok(other),
    }
}

fn resolve_blocks_exec(v: Vec<Block>, labels: &StrMap<LabelInfo>, strict: bool) -> (r: Result<
    Vec<Block>,
    Vec<u8>,
>)
    ensures
        match r {
            Result::Ok(v2) => res_blocks(blocks_dv(v@), labels@, strict) == Result::<
                Seq<SpecBlock>,
                Seq<u8>,
            >::Ok(blocks_dv(v2@)),
            Result::Err(l) => res_blocks(blocks_dv(v@), labels@, strict) == Result::<
                Seq<SpecBlock>,
                Seq<u8>,
            >::Err(l@),
        },
    decreases blocks_dv(v@),
{
    let ghost orig = blocks_dv(v@);
    let mut v = v;
    let mut out: Vec<Block> = Vec::new();
    if v.len() == 0 {
        proof {
            assert(blocks_dv(out@) =~= Seq::<SpecBlock>::empty());
        }
        return Result::Ok(out);
    }
    let first = v.remove(0);
    proof {
        assert(block_dv(first) == orig.first());
        assert(blocks_dv(v@) =~= orig.drop_first());
    }
    match resolve_block_exec(first, labels, strict) {
        Result::Err(l) => Result::Err(l),
        Result::Ok(e) => match resolve_blocks_exec(v, labels, strict) {
            Result::Err(l) => Result::Err(l),
            Result::Ok(rest) => {
                let ghost rest_view = rest@;
                let mut rest = rest;
                out.push(e);
                out.append(&mut rest);
                proof {
                    assert(blocks_dv(out@) =~= seq![block_dv(e)] + blocks_dv(rest_view));
                }
                Result::Ok(out)
            },
        },
    }
}

fn resolve_items_exec(v: Vec<ListItem>, labels: &StrMap<LabelInfo>, strict: bool) -> (r: Result<
    Vec<ListItem>,
    Vec<u8>,
>)
    ensures
        match r {
            Result::Ok(v2) => res_items(items_dv(v@), labels@, strict) == Result::<
                Seq<SpecListItem>,
                Seq<u8>,
            >::Ok(items_dv(v2@)),
            Result::Err(l) => res_items(items_dv(v@), labels@, strict) == Result::<
                Seq<SpecListItem>,
                Seq<u8>,
            >::Err(l@),
        },
    decreases items_dv(v@),
{
    let ghost orig = items_dv(v@);
    let mut v = v;
    let mut out: Vec<ListItem> = Vec::new();
    if v.len() == 0 {
        proof {
            assert(items_dv(out@) =~= Seq::<SpecListItem>::empty());
        }
        return Result::Ok(out);
    }
    let first = v.remove(0);
    proof {
        assert(list_item_dv(first) == orig.first());
        assert(items_dv(v@) =~= orig.drop_first());
        assert(decreases_to!(orig => orig.first()));
        assert(decreases_to!(orig.first() => orig.first().content));
    }
    let ListItem { content, checked } = first;
    match resolve_blocks_exec(content, labels, strict) {
        Result::Err(l) => Result::Err(l),
        Result::Ok(c2) => match resolve_items_exec(v, labels, strict) {
            Result::Err(l) => Result::Err(l),
            Result::Ok(rest) => {
                let ghost rest_view = rest@;
                let mut rest = rest;
                let e = ListItem { content: c2, checked };
                out.push(e);
                out.append(&mut rest);
                proof {
                    assert(items_dv(out@) =~= seq![list_item_dv(e)] + items_dv(rest_view));
                }
                Result::Ok(out)
            },
        },
    }
}

fn resolve_cells_exec(
    v: Vec<Vec<Inline>>,
    labels: &StrMap<LabelInfo>,
    strict: bool,
) -> (r: Result<Vec<Vec<Inline>>, Vec<u8>>)
    ensures
        match r {
            Result::Ok(v2) => res_cells(cells_dv(v@), labels@, strict) == Result::<
                Seq<Seq<SpecInline>>,
                Seq<u8>,
            >::Ok(cells_dv(v2@)),
            Result::Err(l) => res_cells(cells_dv(v@), labels@, strict) == Result::<
                Seq<Seq<SpecInline>>,
                Seq<u8>,
            >::Err(l@),
        },
    decreases cells_dv(v@),
{
    let ghost orig = cells_dv(v@);
    let mut v = v;
    let mut out: Vec<Vec<Inline>> = Vec::new();
    if v.len() == 0 {
        proof {
            assert(cells_dv(out@) =~= Seq::<Seq<SpecInline>>::empty());
        }
        return Result::Ok(out);
    }
    let first = v.remove(0);
    proof {
        assert(inlines_dv(first@) == orig.first());
        assert(cells_dv(v@) =~= orig.drop_first());
        assert(decreases_to!(orig => orig.first()));
    }
    match resolve_inlines_exec(first, labels, strict) {
        Result::Err(l) => Result::Err(l),
        Result::Ok(c2) => match resolve_cells_exec(v, labels, strict) {
            Result::Err(l) => Result::Err(l),
            Result::Ok(rest) => {
                let ghost rest_view = rest@;
                let mut rest = rest;
                out.push(c2);
                let ghost c2v = inlines_dv(out@[0]@);
                out.append(&mut rest);
                proof {
                    assert(cells_dv(out@) =~= seq![c2v] + cells_dv(rest_view));
                }
                Result::Ok(out)
            },
        },
    }
}

fn resolve_rows_exec(
    v: Vec<Vec<Vec<Inline>>>,
    labels: &StrMap<LabelInfo>,
    strict: bool,
) -> (r: Result<Vec<Vec<Vec<Inline>>>, Vec<u8>>)
    ensures
        match r {
            Result::Ok(v2) => res_rows(rows_dv(v@), labels@, strict) == Result::<
                Seq<Seq<Seq<SpecInline>>>,
                Seq<u8>,
            >::Ok(rows_dv(v2@)),
            Result::Err(l) => res_rows(rows_dv(v@), labels@, strict) == Result::<
                Seq<Seq<Seq<SpecInline>>>,
                Seq<u8>,
            >::Err(l@),
        },
    decreases rows_dv(v@),
{
    let ghost orig = rows_dv(v@);
    let mut v = v;
    let mut out: Vec<Vec<Vec<Inline>>> = Vec::new();
    if v.len() == 0 {
        proof {
            assert(rows_dv(out@) =~= Seq::<Seq<Seq<SpecInline>>>::empty());
        }
        return Result::Ok(out);
    }
    let first = v.remove(0);
    proof {
        assert(cells_dv(first@) == orig.first());
        assert(rows_dv(v@) =~= orig.drop_first());
        assert(decreases_to!(orig => orig.first()));
    }
    match resolve_cells_exec(first, labels, strict) {
        Result::Err(l) => Result::Err(l),
        Result::Ok(c2) => match resolve_rows_exec(v, labels, strict) {
            Result::Err(l) => Result::Err(l),
            Result::Ok(rest) => {
                let ghost rest_view = rest@;
                let mut rest = rest;
                out.push(c2);
                let ghost c2v = cells_dv(out@[0]@);
                out.append(&mut rest);
                proof {
                    assert(rows_dv(out@) =~= seq![c2v] + rows_dv(rest_view));
                }
                Result::Ok(out)
            },
        },
    }
}

/// Rewrite every cross-reference of the document: known labels get their
/// display text; unknown ones are fatal under `strict_references` and
/// resolve to the visible `??label` placeholder otherwise.
pub fn resolve_references(
    document: Document,
    labels: &StrMap<LabelInfo>,
    config: &crate::resolve::ResolveConfig,
) -> (r: Result<Document, Error>)
    ensures
        match r {
            Result::Ok(d) => res_blocks(
                blocks_dv(document.blocks@),
                labels@,
                config.strict_references,
            ) == Result::<Seq<SpecBlock>, Seq<u8>>::Ok(blocks_dv(d.blocks@)) && d.metadata
                == document.metadata,
            Result::Err(e) => ({
                let sp = res_blocks(
                    blocks_dv(document.blocks@),
                    labels@,
                    config.strict_references,
                );
                &&& sp is Err
                &&& (e matches Error::Resolution(ResolutionError::UnknownReference(le)) && le@
                    == sp->Err_0)
            }),
        },
{
    let Document { metadata, blocks } = document;
    match resolve_blocks_exec(blocks, labels, config.strict_references) {
        Result::Ok(blocks2) => Result::Ok(Document { metadata, blocks: blocks2 }),
        Result::Err(l) => Result::Err(
            Error::Resolution(ResolutionError::UnknownReference(l)),
        ),
    }
}

// ---------------------------------------------------------------------------
// Footnote collection
// ---------------------------------------------------------------------------

/// The accumulator of the footnote walk: the next sequential number and
/// the table built so far.
pub struct FnAcc {
    pub counter: u32,
    pub map: Map<Seq<u8>, Seq<SpecInline>>,
}

/// The identifier of the `n`-th footnote.
pub open spec fn fn_id(n: u32) -> Seq<u8> {
    crate::lits::lit_fn_dash() + dec_digits(n as nat)
}

pub open spec fn fnw_inline(acc: FnAcc, i: SpecInline) -> FnAcc
    decreases i,
{
    match i {
        SpecInline::Footnote(SpecFootnote::Inline(content)) => FnAcc {
            counter: crate::numbering::spec_inc(acc.counter),
            map: acc.map.insert(fn_id(acc.counter), content),
        },
        SpecInline::Emphasis(v) => fnw_inlines(acc, v),
        SpecInline::Strong(v) => fnw_inlines(acc, v),
        SpecInline::Strikethrough(v) => fnw_inlines(acc, v),
        SpecInline::Link { content, .. } => fnw_inlines(acc, content),
        _ => acc,
    }
}

pub open spec fn fnw_inlines(acc: FnAcc, v: Seq<SpecInline>) -> FnAcc
    decreases v,
{
    if v.len() == 0 {
        acc
    } else {
        fnw_inlines(fnw_inline(acc, v.first()), v.drop_first())
    }
}

pub open spec fn fnw_block(acc: FnAcc, b: SpecBlock) -> FnAcc
    decreases b,
{
    match b {
        SpecBlock::Paragraph(v) => fnw_inlines(acc, v),
        SpecBlock::Heading { content, .. } => fnw_inlines(acc, content),
        SpecBlock::Environment { content, caption, .. } => {
            let acc1 = fnw_blocks(acc, content);
            match caption {
                Option::Some(c) => fnw_inlines(acc1, c),
                Option::None => acc1,
            }
        },
        SpecBlock::BlockQuote(v) => fnw_blocks(acc, v),
        SpecBlock::List { items, .. } => fnw_items(acc, items),
        _ => acc,
    }
}

pub open spec fn fnw_blocks(acc: FnAcc, v: Seq<SpecBlock>) -> FnAcc
    decreases v,
{
    if v.len() == 0 {
        acc
    } else {
        fnw_blocks(fnw_block(acc, v.first()), v.drop_first())
    }
}

pub open spec fn fnw_items(acc: FnAcc, v: Seq<SpecListItem>) -> FnAcc
    decreases v,
{
    if v.len() == 0 {
        acc
    } else {
        fnw_items(fnw_blocks(acc, v.first().content), v.drop_first())
    }
}

fn fnw_inline_exec(i: &Inline, counter: &mut u32, map: &mut StrMap<Vec<Inline>>)
    ensures
        ({
            let acc1 = fnw_inline(FnAcc { counter: *old(counter), map: old(map)@ }, inline_dv(*i));
            *final(counter) == acc1.counter && final(map)@ == acc1.map
        }),
    decreases inline_dv(*i),
{
    broadcast use crate::ast::lemma_vec_inlines_dv;

    match i {
        Inline::Footnote(crate::ast::FootnoteKind::Inline(content)) => {
            let mut id = crate::lits::bytes_fn_dash();
            let mut num = fmt_u32(*counter);
            id.append(&mut num);
            proof {
                assert(id@ =~= fn_id(*counter));
            }
            let body = clone_inlines(content);
            map.insert(id, body);
            *counter = crate::numbering::inc_u32(*counter);
        },
        Inline::Emphasis(v) => {
            proof {
                let g = inline_dv(*i);
                assert(g matches SpecInline::Emphasis(gv) && gv == inlines_dv(v@)
                    && decreases_to!(g => gv));
            }
            fnw_inlines_exec(v, counter, map);
        },
        Inline::Strong(v) => {
            proof {
                let g = inline_dv(*i);
                assert(g matches SpecInline::Strong(gv) && gv == inlines_dv(v@)
                    && decreases_to!(g => gv));
            }
            fnw_inlines_exec(v, counter, map);
        },
        Inline::Strikethrough(v) => {
            proof {
                let g = inline_dv(*i);
                assert(g matches SpecInline::Strikethrough(gv) && gv == inlines_dv(v@)
                    && decreases_to!(g => gv));
            }
            fnw_inlines_exec(v, counter, map);
        },
        Inline::Link { content, .. } => {
            proof {
                let g = inline_dv(*i);
                assert(g matches SpecInline::Link { content: gv, .. } && gv == inlines_dv(content@)
                    && decreases_to!(g => gv));
            }
            fnw_inlines_exec(content, counter, map);
        },
        _ => {},
    }
}

fn fnw_inlines_exec(v: &Vec<Inline>, counter: &mut u32, map: &mut StrMap<Vec<Inline>>)
    ensures
        ({
            let acc1 = fnw_inlines(
                FnAcc { counter: *old(counter), map: old(map)@ },
                inlines_dv(v@),
            );
            *final(counter) == acc1.counter && final(map)@ == acc1.map
        }),
    decreases inlines_dv(v@),
{
    let ghost whole = inlines_dv(v@);
    let ghost acc0 = FnAcc { counter: *counter, map: map@ };
    proof {
        assert(whole.skip(0) =~= whole);
    }
    let mut i: usize = 0;
    while i < v.len()
        invariant
            0 <= i <= v@.len(),
            whole == inlines_dv(v@),
            whole.len() == v@.len(),
            fnw_inlines(acc0, whole) == fnw_inlines(
                FnAcc { counter: *counter, map: map@ },
                whole.skip(i as int),
            ),
        decreases v@.len() - i,
    {
        proof {
            assert(whole.skip(i as int).first() == whole[i as int]);
            assert(whole.skip(i as int).drop_first() =~= whole.skip(i + 1));
            assert(whole[i as int] == inline_dv(v@[i as int]));
            assert(decreases_to!(whole => whole[i as int]));
        }
        fnw_inline_exec(&v[i], counter, map);
        i += 1;
    }
    proof {
        assert(whole.skip(v@.len() as int) =~= Seq::<SpecInline>::empty());
    }
}

fn fnw_block_exec(b: &Block, counter: &mut u32, map: &mut StrMap<Vec<Inline>>)
    ensures
        ({
            let acc1 = fnw_block(FnAcc { counter: *old(counter), map: old(map)@ }, block_dv(*b));
            *final(counter) == acc1.counter && final(map)@ == acc1.map
        }),
    decreases block_dv(*b),
{
    match b {
        Block::Paragraph(v) => {
            fnw_inlines_exec(v, counter, map);
        },
        Block::Heading { content, .. } => {
            fnw_inlines_exec(content, counter, map);
        },
        Block::Environment { kind, label, content, caption } => {
            proof {
                let g = block_dv(*b);
                assert(g matches SpecBlock::Environment { content: gc, caption: gcap, .. } && gc
                    == blocks_dv(content@) && gcap == opt_inlines_dv(*caption)
                    && decreases_to!(g => gc));
            }
            fnw_blocks_exec(content, counter, map);
            match caption {
                Option::Some(c) => {
                    fnw_inlines_exec(c, counter, map);
                },
                Option::None => {},
            }
        },
        Block::BlockQuote(v) => {
            proof {
                let g = block_dv(*b);
                assert(g matches SpecBlock::BlockQuote(gv) && gv == blocks_dv(v@)
                    && decreases_to!(g => gv));
            }
            fnw_blocks_exec(v, counter, map);
        },
        Block::List { items, .. } => {
            proof {
                let g = block_dv(*b);
                assert(g matches SpecBlock::List { items: gi, .. } && gi == items_dv(items@)
                    && decreases_to!(g => gi));
            }
            fnw_items_exec(items, counter, map);
        },
        _ => {},
    }
}

fn fnw_blocks_exec(v: &Vec<Block>, counter: &mut u32, map: &mut StrMap<Vec<Inline>>)
    ensures
        ({
            let acc1 = fnw_blocks(FnAcc { counter: *old(counter), map: old(map)@ }, blocks_dv(v@));
            *final(counter) == acc1.counter && final(map)@ == acc1.map
        }),
    decreases blocks_dv(v@),
{
    let ghost whole = blocks_dv(v@);
    let ghost acc0 = FnAcc { counter: *counter, map: map@ };
    proof {
        assert(whole.skip(0) =~= whole);
    }
    let mut i: usize = 0;
    while i < v.len()
        invariant
            0 <= i <= v@.len(),
            whole == blocks_dv(v@),
            whole.len() == v@.len(),
            fnw_blocks(acc0, whole) == fnw_blocks(
                FnAcc { counter: *counter, map: map@ },
                whole.skip(i as int),
            ),
        decreases v@.len() - i,
    {
        proof {
            assert(whole.skip(i as int).first() == whole[i as int]);
            assert(whole.skip(i as int).drop_first() =~= whole.skip(i + 1));
            assert(whole[i as int] == block_dv(v@[i as int]));
            assert(decreases_to!(whole => whole[i as int]));
        }
        fnw_block_exec(&v[i], counter, map);
        i += 1;
    }
    proof {
        assert(whole.skip(v@.len() as int) =~= Seq::<SpecBlock>::empty());
    }
}

fn fnw_items_exec(v: &Vec<ListItem>, counter: &mut u32, map: &mut StrMap<Vec<Inline>>)
    ensures
        ({
            let acc1 = fnw_items(FnAcc { counter: *old(counter), map: old(map)@ }, items_dv(v@));
            *final(counter) == acc1.counter && final(map)@ == acc1.map
        }),
    decreases items_dv(v@),
{
    let ghost whole = items_dv(v@);
    let ghost acc0 = FnAcc { counter: *counter, map: map@ };
    proof {
        assert(whole.skip(0) =~= whole);
    }
    let mut i: usize = 0;
    while i < v.len()
        invariant
            0 <= i <= v@.len(),
            whole == items_dv(v@),
            whole.len() == v@.len(),
            fnw_items(acc0, whole) == fnw_items(
                FnAcc { counter: *counter, map: map@ },
                whole.skip(i as int),
            ),
        decreases v@.len() - i,
    {
        proof {
            assert(whole.skip(i as int).first() == whole[i as int]);
            assert(whole.skip(i as int).drop_first() =~= whole.skip(i + 1));
            assert(whole[i as int] == list_item_dv(v@[i as int]));
            assert(decreases_to!(whole => whole[i as int]));
            assert(decreases_to!(whole[i as int] => whole[i as int].content));
            assert(whole[i as int].content == blocks_dv(v@[i as int].content@));
        }
        fnw_blocks_exec(&v[i].content, counter, map);
        i += 1;
    }
    proof {
        assert(whole.skip(v@.len() as int) =~= Seq::<SpecListItem>::empty());
    }
}

/// Collect every inline footnote body, assigning the sequential
/// identifiers fn-1, fn-2, ... in document order.
pub fn collect_footnotes(document: &Document) -> (r: Result<StrMap<Vec<Inline>>, Error>)
    ensures
        r matches Result::Ok(m) && m@ == fnw_blocks(
            FnAcc { counter: 1, map: Map::empty() },
            blocks_dv(document.blocks@),
        ).map,
{
    let mut counter: u32 = 1;
    let mut map: StrMap<Vec<Inline>> = StrMap::new();
    fnw_blocks_exec(&document.blocks, &mut counter, &mut map);
    Result::Ok(map)
}

} // verus!
