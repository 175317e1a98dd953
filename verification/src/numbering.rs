//! The numbering engine: one depth-first walk assigning hierarchical
//! section numbers to headings and per-category sequential numbers to
//! equations, tables and numbered environments.

use vstd::prelude::*;
use crate::ast::{
    Block, Document, EnvCategory, ListItem, SpecBlock, SpecListItem, block_dv, blocks_dv,
    copy_bytes, items_dv, lemma_bytes_deep_view, list_item_dv, spec_env_category,
};
use crate::strmap::StrMap;
use crate::text::{dec_digits, fmt_u32};

verus! {

/// The counters threaded through the walk: one per heading level and one
/// per environment category, plus the equation counter.
#[derive(Debug, Clone, Copy, PartialEq, Eq)]
pub struct NumberingState {
    pub h1: u32,
    pub h2: u32,
    pub h3: u32,
    pub h4: u32,
    pub h5: u32,
    pub h6: u32,
    pub equation: u32,
    pub figure: u32,
    pub table: u32,
    pub theorem: u32,
    pub lemma: u32,
    pub definition: u32,
    pub example: u32,
    pub algorithm: u32,
}

/// The walk's full accumulator: counters plus the two side tables.
pub struct NumAcc {
    pub st: NumberingState,
    pub sec: Map<Seq<u8>, Seq<u8>>,
    pub env: Map<Seq<u8>, u32>,
}

pub open spec fn init_state() -> NumberingState {
    NumberingState {
        h1: 0,
        h2: 0,
        h3: 0,
        h4: 0,
        h5: 0,
        h6: 0,
        equation: 0,
        figure: 0,
        table: 0,
        theorem: 0,
        lemma: 0,
        definition: 0,
        example: 0,
        algorithm: 0,
    }
}

pub open spec fn init_acc() -> NumAcc {
    NumAcc { st: init_state(), sec: Map::empty(), env: Map::empty() }
}

/// Counters saturate instead of wrapping; a document can never hold
/// enough numbered items to reach the bound.
pub open spec fn spec_inc(c: u32) -> u32 {
    if c == u32::MAX {
        c
    } else {
        (c + 1) as u32
    }
}

pub fn inc_u32(c: u32) -> (r: u32)
    ensures
        r == spec_inc(c),
{
    if c == u32::MAX {
        c
    } else {
        c + 1
    }
}

/// The counter index of a heading level (level 1 through 6 map to 0
/// through 5; out-of-range levels are clamped).
pub open spec fn level_idx(level: u8) -> int {
    if level == 0 {
        0
    } else if level >= 6 {
        5
    } else {
        level - 1
    }
}

pub open spec fn sec_counter(st: NumberingState, i: int) -> u32 {
    if i == 0 {
        st.h1
    } else if i == 1 {
        st.h2
    } else if i == 2 {
        st.h3
    } else if i == 3 {
        st.h4
    } else if i == 4 {
        st.h5
    } else {
        st.h6
    }
}

/// Increment the counter of level index `idx` and reset all deeper ones.
pub open spec fn spec_bump(st: NumberingState, idx: int) -> NumberingState {
    if idx == 0 {
        NumberingState { h1: spec_inc(st.h1), h2: 0, h3: 0, h4: 0, h5: 0, h6: 0, ..st }
    } else if idx == 1 {
        NumberingState { h2: spec_inc(st.h2), h3: 0, h4: 0, h5: 0, h6: 0, ..st }
    } else if idx == 2 {
        NumberingState { h3: spec_inc(st.h3), h4: 0, h5: 0, h6: 0, ..st }
    } else if idx == 3 {
        NumberingState { h4: spec_inc(st.h4), h5: 0, h6: 0, ..st }
    } else if idx == 4 {
        NumberingState { h5: spec_inc(st.h5), h6: 0, ..st }
    } else {
        NumberingState { h6: spec_inc(st.h6), ..st }
    }
}

/// The dotted section numeral built from counters 0 through `idx`.
pub open spec fn sec_number(st: NumberingState, idx: int) -> Seq<u8>
    decreases idx,
{
    if idx <= 0 {
        dec_digits(st.h1 as nat)
    } else {
        sec_number(st, idx - 1) + seq![46u8] + dec_digits(sec_counter(st, idx) as nat)
    }
}

pub open spec fn cat_get(st: NumberingState, c: EnvCategory) -> u32 {
    match c {
        EnvCategory::Theorem => st.theorem,
        EnvCategory::Lemma => st.lemma,
        EnvCategory::Definition => st.definition,
        EnvCategory::Example => st.example,
        EnvCategory::Figure => st.figure,
        EnvCategory::Table => st.table,
        EnvCategory::Algorithm => st.algorithm,
    }
}

pub open spec fn cat_set(st: NumberingState, c: EnvCategory, v: u32) -> NumberingState {
    match c {
        EnvCategory::Theorem => NumberingState { theorem: v, ..st },
        EnvCategory::Lemma => NumberingState { lemma: v, ..st },
        EnvCategory::Definition => NumberingState { definition: v, ..st },
        EnvCategory::Example => NumberingState { example: v, ..st },
        EnvCategory::Figure => NumberingState { figure: v, ..st },
        EnvCategory::Table => NumberingState { table: v, ..st },
        EnvCategory::Algorithm => NumberingState { algorithm: v, ..st },
    }
}

pub open spec fn insert_opt<V>(m: Map<Seq<u8>, V>, l: Option<Seq<u8>>, v: V) -> Map<Seq<u8>, V> {
    match l {
        Option::Some(k) => m.insert(k, v),
        Option::None => m,
    }
}

/// Numbering one block.
pub open spec fn num_block(acc: NumAcc, b: SpecBlock) -> NumAcc
    decreases b,
{
    match b {
        SpecBlock::Heading { level, content, label } => {
            let idx = level_idx(level);
            let st = spec_bump(acc.st, idx);
            NumAcc { st, sec: insert_opt(acc.sec, label, sec_number(st, idx)), env: acc.env }
        },
        SpecBlock::DisplayMath { content, label } => {
            let n = spec_inc(acc.st.equation);
            let st = NumberingState { equation: n, ..acc.st };
            NumAcc { st, sec: acc.sec, env: insert_opt(acc.env, label, n) }
        },
        SpecBlock::Environment { kind, label, content, caption } => {
            let acc1 = match spec_env_category(kind) {
                Option::Some(c) => {
                    let n = spec_inc(cat_get(acc.st, c));
                    NumAcc {
                        st: cat_set(acc.st, c, n),
                        sec: acc.sec,
                        env: insert_opt(acc.env, label, n),
                    }
                },
                Option::None => acc,
            };
            num_blocks(acc1, content)
        },
        SpecBlock::Table { headers, alignments, rows, label, caption } => {
            let n = spec_inc(acc.st.table);
            let st = NumberingState { table: n, ..acc.st };
            NumAcc { st, sec: acc.sec, env: insert_opt(acc.env, label, n) }
        },
        SpecBlock::BlockQuote(v) => num_blocks(acc, v),
        SpecBlock::List { ordered, start, items } => num_items(acc, items),
        _ => acc,
    }
}

pub open spec fn num_blocks(acc: NumAcc, v: Seq<SpecBlock>) -> NumAcc
    decreases v,
{
    if v.len() == 0 {
        acc
    } else {
        num_blocks(num_block(acc, v.first()), v.drop_first())
    }
}

pub open spec fn num_items(acc: NumAcc, v: Seq<SpecListItem>) -> NumAcc
    decreases v,
{
    if v.len() == 0 {
        acc
    } else {
        num_items(num_blocks(acc, v.first().content), v.drop_first())
    }
}

// ---------------------------------------------------------------------------
// Executable walk
// ---------------------------------------------------------------------------

fn sec_at(st: &NumberingState, i: usize) -> (r: u32)
    ensures
        r == sec_counter(*st, i as int),
{
    if i == 0 {
        st.h1
    } else if i == 1 {
        st.h2
    } else if i == 2 {
        st.h3
    } else if i == 3 {
        st.h4
    } else if i == 4 {
        st.h5
    } else {
        st.h6
    }
}

fn bump_heading(st: &mut NumberingState, idx: usize)
    requires
        idx < 6,
    ensures
        *final(st) == spec_bump(*old(st), idx as int),
{
    if idx == 0 {
        st.h1 = inc_u32(st.h1);
        st.h2 = 0;
        st.h3 = 0;
        st.h4 = 0;
        st.h5 = 0;
        st.h6 = 0;
    } else if idx == 1 {
        st.h2 = inc_u32(st.h2);
        st.h3 = 0;
        st.h4 = 0;
        st.h5 = 0;
        st.h6 = 0;
    } else if idx == 2 {
        st.h3 = inc_u32(st.h3);
        st.h4 = 0;
        st.h5 = 0;
        st.h6 = 0;
    } else if idx == 3 {
        st.h4 = inc_u32(st.h4);
        st.h5 = 0;
        st.h6 = 0;
    } else if idx == 4 {
        st.h5 = inc_u32(st.h5);
        st.h6 = 0;
    } else {
        st.h6 = inc_u32(st.h6);
    }
}

fn sec_number_exec(st: &NumberingState, idx: usize) -> (r: Vec<u8>)
    requires
        idx < 6,
    ensures
        r@ == sec_number(*st, idx as int),
    decreases idx,
{
    if idx == 0 {
        fmt_u32(st.h1)
    } else {
        let mut r = sec_number_exec(st, idx - 1);
        r.push(46);
        let mut d = fmt_u32(sec_at(st, idx));
        r.append(&mut d);
        proof {
            assert(r@ =~= sec_number(*st, idx as int));
        }
        r
    }
}

fn num_block_exec(
    b: &Block,
    st: &mut NumberingState,
    sec: &mut StrMap<Vec<u8>>,
    env: &mut StrMap<u32>,
)
    ensures
        ({
            let acc1 = num_block(
                NumAcc { st: *old(st), sec: old(sec)@, env: old(env)@ },
                block_dv(*b),
            );
            *final(st) == acc1.st && final(sec)@ == acc1.sec && final(env)@ == acc1.env
        }),
    decreases block_dv(*b),
{
    broadcast use lemma_bytes_deep_view;

    match b {
        Block::Heading { level, content, label } => {
            let lv = *level;
            let idx: usize = if lv == 0 {
                0
            } else if lv >= 6 {
                5
            } else {
                (lv - 1) as usize
            };
            bump_heading(st, idx);
            match label {
                Option::Some(l) => {
                    let num = sec_number_exec(st, idx);
                    sec.insert(copy_bytes(l), num);
                },
                Option::None => {},
            }
        },
        Block::DisplayMath { content, label } => {
            st.equation = inc_u32(st.equation);
            match label {
                Option::Some(l) => {
                    env.insert(copy_bytes(l), st.equation);
                },
                Option::None => {},
            }
        },
        Block::Environment { kind, label, content, caption } => {
            match kind.category() {
                Option::Some(c) => {
                    let n = inc_u32(cat_get_exec(st, c));
                    cat_set_exec(st, c, n);
                    match label {
                        Option::Some(l) => {
                            env.insert(copy_bytes(l), n);
                        },
                        Option::None => {},
                    }
                },
                Option::None => {},
            }
            proof {
                let gb = block_dv(*b);
                assert(gb matches SpecBlock::Environment { content: gc, .. } && gc == blocks_dv(
                    content@,
                ) && decreases_to!(gb => gc));
            }
            num_blocks_exec(content, st, sec, env);
        },
        Block::Table { headers, alignments, rows, label, caption } => {
            st.table = inc_u32(st.table);
            match label {
                Option::Some(l) => {
                    env.insert(copy_bytes(l), st.table);
                },
                Option::None => {},
            }
        },
        Block::BlockQuote(v) => {
            proof {
                let gb = block_dv(*b);
                assert(gb matches SpecBlock::BlockQuote(gc) && gc == blocks_dv(v@)
                    && decreases_to!(gb => gc));
            }
            num_blocks_exec(v, st, sec, env);
        },
        Block::List { ordered, start, items } => {
            proof {
                let gb = block_dv(*b);
                assert(gb matches SpecBlock::List { items: gi, .. } && gi == items_dv(items@)
                    && decreases_to!(gb => gi));
            }
            num_items_exec(items, st, sec, env);
        },
        _ => {},
    }
}

fn cat_get_exec(st: &NumberingState, c: EnvCategory) -> (r: u32)
    ensures
        r == cat_get(*st, c),
{
    match c {
        EnvCategory::Theorem => st.theorem,
        EnvCategory::Lemma => st.lemma,
        EnvCategory::Definition => st.definition,
        EnvCategory::Example => st.example,
        EnvCategory::Figure => st.figure,
        EnvCategory::Table => st.table,
        EnvCategory::Algorithm => st.algorithm,
    }
}

fn cat_set_exec(st: &mut NumberingState, c: EnvCategory, v: u32)
    ensures
        *final(st) == cat_set(*old(st), c, v),
{
    match c {
        EnvCategory::Theorem => {
            st.theorem = v;
        },
        EnvCategory::Lemma => {
            st.lemma = v;
        },
        EnvCategory::Definition => {
            st.definition = v;
        },
        EnvCategory::Example => {
            st.example = v;
        },
        EnvCategory::Figure => {
            st.figure = v;
        },
        EnvCategory::Table => {
            st.table = v;
        },
        EnvCategory::Algorithm => {
            st.algorithm = v;
        },
    }
}

fn num_blocks_exec(
    v: &Vec<Block>,
    st: &mut NumberingState,
    sec: &mut StrMap<Vec<u8>>,
    env: &mut StrMap<u32>,
)
    ensures
        ({
            let acc1 = num_blocks(
                NumAcc { st: *old(st), sec: old(sec)@, env: old(env)@ },
                blocks_dv(v@),
            );
            *final(st) == acc1.st && final(sec)@ == acc1.sec && final(env)@ == acc1.env
        }),
    decreases blocks_dv(v@),
{
    let ghost whole = blocks_dv(v@);
    let ghost acc0 = NumAcc { st: *st, sec: sec@, env: env@ };
    proof {
        assert(whole.skip(0) =~= whole);
    }
    let mut i: usize = 0;
    while i < v.len()
        invariant
            0 <= i <= v@.len(),
            whole == blocks_dv(v@),
            whole.len() == v@.len(),
            num_blocks(acc0, whole) == num_blocks(
                NumAcc { st: *st, sec: sec@, env: env@ },
                whole.skip(i as int),
            ),
        decreases v@.len() - i,
    {
        let ghost before = NumAcc { st: *st, sec: sec@, env: env@ };
        proof {
            assert(whole.skip(i as int).first() == whole[i as int]);
            assert(whole[i as int] == block_dv(v@[i as int]));
            assert(decreases_to!(whole => whole[i as int]));
        }
        num_block_exec(&v[i], st, sec, env);
        proof {
            assert(whole.skip(i as int).drop_first() =~= whole.skip(i + 1));
            assert(num_blocks(before, whole.skip(i as int)) == num_blocks(
                num_block(before, whole[i as int]),
                whole.skip(i + 1),
            ));
        }
        i += 1;
    }
    proof {
        assert(whole.skip(v@.len() as int) =~= Seq::<SpecBlock>::empty());
    }
}

fn num_items_exec(
    v: &Vec<ListItem>,
    st: &mut NumberingState,
    sec: &mut StrMap<Vec<u8>>,
    env: &mut StrMap<u32>,
)
    ensures
        ({
            let acc1 = num_items(
                NumAcc { st: *old(st), sec: old(sec)@, env: old(env)@ },
                items_dv(v@),
            );
            *final(st) == acc1.st && final(sec)@ == acc1.sec && final(env)@ == acc1.env
        }),
    decreases items_dv(v@),
{
    let ghost whole = items_dv(v@);
    let ghost acc0 = NumAcc { st: *st, sec: sec@, env: env@ };
    proof {
        assert(whole.skip(0) =~= whole);
    }
    let mut i: usize = 0;
    while i < v.len()
        invariant
            0 <= i <= v@.len(),
            whole == items_dv(v@),
            whole.len() == v@.len(),
            num_items(acc0, whole) == num_items(
                NumAcc { st: *st, sec: sec@, env: env@ },
                whole.skip(i as int),
            ),
        decreases v@.len() - i,
    {
        let ghost before = NumAcc { st: *st, sec: sec@, env: env@ };
        proof {
            assert(whole.skip(i as int).first() == whole[i as int]);
            assert(whole[i as int] == list_item_dv(v@[i as int]));
            assert(decreases_to!(whole => whole[i as int]));
            assert(decreases_to!(whole[i as int] => whole[i as int].content));
            assert(whole[i as int].content == blocks_dv(v@[i as int].content@));
        }
        num_blocks_exec(&v[i].content, st, sec, env);
        proof {
            assert(whole.skip(i as int).drop_first() =~= whole.skip(i + 1));
            assert(num_items(before, whole.skip(i as int)) == num_items(
                num_blocks(before, whole[i as int].content),
                whole.skip(i + 1),
            ));
        }
        i += 1;
    }
    proof {
        assert(whole.skip(v@.len() as int) =~= Seq::<SpecListItem>::empty());
    }
}

/// Assign numbers to all numbered elements of the document; returns the
/// section-number table and the environment-number table.
pub fn assign_numbers(document: &Document) -> (r: (StrMap<Vec<u8>>, StrMap<u32>))
    ensures
        ({
            let acc = num_blocks(init_acc(), blocks_dv(document.blocks@));
            r.0@ == acc.sec && r.1@ == acc.env
        }),
{
    let mut st = NumberingState {
        h1: 0,
        h2: 0,
        h3: 0,
        h4: 0,
        h5: 0,
        h6: 0,
        equation: 0,
        figure: 0,
        table: 0,
        theorem: 0,
        lemma: 0,
        definition: 0,
        example: 0,
        algorithm: 0,
    };
    let mut sec: StrMap<Vec<u8>> = StrMap::new();
    let mut env: StrMap<u32> = StrMap::new();
    num_blocks_exec(&document.blocks, &mut st, &mut sec, &mut env);
    (sec, env)
}

// ---------------------------------------------------------------------------
// Laws
// ---------------------------------------------------------------------------

/// The label of a heading block that carries one.
pub open spec fn heading_label(b: SpecBlock) -> Seq<u8> {
    match b {
        SpecBlock::Heading { label: Option::Some(l), .. } => l,
        _ => arbitrary(),
    }
}

/// A block is a labeled top-level heading.
pub open spec fn is_labeled_h1(b: SpecBlock) -> bool {
    b matches SpecBlock::Heading { level, label, .. } && level == 1 && label is Some
}

/// The heading labels of a flat block sequence.
pub open spec fn h1_labels(blocks: Seq<SpecBlock>) -> Seq<Seq<u8>> {
    Seq::new(blocks.len(), |i: int| if 0 <= i < blocks.len() {
        heading_label(blocks[i])
    } else {
        arbitrary()
    })
}

proof fn lemma_flat_aux(acc: NumAcc, blocks: Seq<SpecBlock>)
    requires
        forall|i: int| 0 <= i < blocks.len() ==> is_labeled_h1(#[trigger] blocks[i]),
        forall|i: int, j: int|
            0 <= i < j < blocks.len() ==> heading_label(#[trigger] blocks[i]) != heading_label(
                #[trigger] blocks[j],
            ),
        acc.st.h1 + blocks.len() <= u32::MAX,
    ensures
        ({
            let r = num_blocks(acc, blocks);
            &&& r.st.h1 == acc.st.h1 + blocks.len()
            &&& forall|i: int|
                0 <= i < blocks.len() ==> r.sec.contains_key(
                    heading_label(#[trigger] blocks[i]),
                ) && r.sec[heading_label(blocks[i])] == dec_digits((acc.st.h1 + i + 1) as nat)
            &&& forall|k: Seq<u8>|
                !h1_labels(blocks).contains(k) ==> ((#[trigger] r.sec.contains_key(k))
                    == acc.sec.contains_key(k) && (acc.sec.contains_key(k) ==> r.sec[k]
                    == acc.sec[k]))
        }),
    decreases blocks.len(),
{
    if blocks.len() > 0 {
        let first = blocks.first();
        let rest = blocks.drop_first();
        let acc1 = num_block(acc, first);
        let l0 = heading_label(first);
        assert(acc1.st.h1 == acc.st.h1 + 1);
        assert(acc1.sec == acc.sec.insert(l0, dec_digits((acc.st.h1 + 1) as nat))) by {
            assert(sec_number(acc1.st, 0) == dec_digits(acc1.st.h1 as nat));
        }
        assert(forall|i: int| 0 <= i < rest.len() ==> is_labeled_h1(#[trigger] rest[i]));
        assert(forall|i: int, j: int|
            0 <= i < j < rest.len() ==> heading_label(#[trigger] rest[i]) != heading_label(
                #[trigger] rest[j],
            ));
        lemma_flat_aux(acc1, rest);
        let r = num_blocks(acc, blocks);
        assert(r == num_blocks(acc1, rest));
        assert(r.st.h1 == acc1.st.h1 + rest.len());
        assert(!h1_labels(rest).contains(l0)) by {
            assert(forall|j: int|
                0 <= j < rest.len() ==> heading_label(#[trigger] rest[j]) != l0) by {
                assert(forall|j: int| 0 <= j < rest.len() ==> rest[j] == #[trigger] blocks[j + 1]);
            }
        }
        assert forall|i: int| 0 <= i < blocks.len() implies r.sec.contains_key(
            heading_label(#[trigger] blocks[i]),
        ) && r.sec[heading_label(blocks[i])] == dec_digits((acc.st.h1 + i + 1) as nat) by {
            if i == 0 {
                assert(acc1.sec.contains_key(l0));
                assert(acc1.sec[l0] == dec_digits((acc.st.h1 + 1) as nat));
                assert(r.sec.contains_key(l0) == acc1.sec.contains_key(l0));
                assert(acc1.sec.contains_key(l0) ==> r.sec[l0] == acc1.sec[l0]);
            } else {
                assert(blocks[i] == rest[i - 1]);
            }
        }
        assert forall|k: Seq<u8>| !h1_labels(blocks).contains(k) implies ((
        #[trigger] r.sec.contains_key(k)) == acc.sec.contains_key(k) && (acc.sec.contains_key(k)
            ==> r.sec[k] == acc.sec[k])) by {
            assert(l0 != k) by {
                assert(h1_labels(blocks)[0] == l0);
            }
            assert(!h1_labels(rest).contains(k)) by {
                if h1_labels(rest).contains(k) {
                    let w = choose|w: int|
                        0 <= w < rest.len() && h1_labels(rest)[w] == k;
                    assert(h1_labels(blocks)[w + 1] == heading_label(blocks[w + 1]));
                    assert(rest[w] == blocks[w + 1]);
                    assert(h1_labels(blocks)[w + 1] == k);
                }
            }
            assert(acc1.sec.contains_key(k) == acc.sec.contains_key(k));
            assert(r.sec.contains_key(k) == acc1.sec.contains_key(k));
            assert(acc1.sec.contains_key(k) ==> r.sec[k] == acc1.sec[k]);
            assert(acc.sec.contains_key(k) ==> acc1.sec[k] == acc.sec[k]);
        }
    }
}

/// For any document whose blocks are N labeled first-level headings with
/// no nesting, the section numbers are exactly "1" through "N", in
/// document order.
pub proof fn lemma_flat_section_numbers(blocks: Seq<SpecBlock>)
    requires
        forall|i: int| 0 <= i < blocks.len() ==> is_labeled_h1(#[trigger] blocks[i]),
        forall|i: int, j: int|
            0 <= i < j < blocks.len() ==> heading_label(#[trigger] blocks[i]) != heading_label(
                #[trigger] blocks[j],
            ),
        blocks.len() <= u32::MAX,
    ensures
        forall|i: int|
            0 <= i < blocks.len() ==> {
                let acc = num_blocks(init_acc(), blocks);
                acc.sec.contains_key(heading_label(#[trigger] blocks[i]))
                    && acc.sec[heading_label(blocks[i])] == dec_digits((i + 1) as nat)
            },
{
    lemma_flat_aux(init_acc(), blocks);
}

/// Numbering a heading of level L increments the counter of level L,
/// resets every deeper level, leaves shallower levels alone, and records
/// under the heading's label the dot-joined numerals of levels 1..L.
pub proof fn lemma_heading_step(acc: NumAcc, b: SpecBlock, level: u8, l: Seq<u8>)
    requires
        b == (SpecBlock::Heading {
            level,
            content: Seq::<crate::ast::SpecInline>::empty(),
            label: Option::Some(l),
        }),
    ensures
        ({
            let idx = level_idx(level);
            let r = num_block(acc, b);
            &&& sec_counter(r.st, idx) == spec_inc(sec_counter(acc.st, idx))
            &&& forall|m: int| idx < m < 6 ==> sec_counter(r.st, m) == 0
            &&& forall|m: int| 0 <= m < idx ==> sec_counter(r.st, m) == sec_counter(acc.st, m)
            &&& r.sec.contains_key(l) && r.sec[l] == sec_number(r.st, idx)
            &&& r.env == acc.env
        }),
{
}

// ---------------------------------------------------------------------------
// Environment counters: occurrences in walk order
// ---------------------------------------------------------------------------

/// The labels (present or not) of the blocks that draw numbers from
/// category `c`, in walk order.
pub open spec fn cat_occs_block(b: SpecBlock, c: EnvCategory) -> Seq<Option<Seq<u8>>>
    decreases b,
{
    match b {
        SpecBlock::Environment { kind, label, content, .. } => (
        if spec_env_category(kind) == Option::Some(c) {
            seq![label]
        } else {
            Seq::empty()
        }) + cat_occs(content, c),
        SpecBlock::Table { label, .. } => if c is Table {
            seq![label]
        } else {
            Seq::empty()
        },
        SpecBlock::BlockQuote(v) => cat_occs(v, c),
        SpecBlock::List { items, .. } => cat_occs_items(items, c),
        _ => Seq::empty(),
    }
}

pub open spec fn cat_occs(v: Seq<SpecBlock>, c: EnvCategory) -> Seq<Option<Seq<u8>>>
    decreases v,
{
    if v.len() == 0 {
        Seq::empty()
    } else {
        cat_occs_block(v.first(), c) + cat_occs(v.drop_first(), c)
    }
}

pub open spec fn cat_occs_items(v: Seq<SpecListItem>, c: EnvCategory) -> Seq<Option<Seq<u8>>>
    decreases v,
{
    if v.len() == 0 {
        Seq::empty()
    } else {
        cat_occs(v.first().content, c) + cat_occs_items(v.drop_first(), c)
    }
}

/// Every label inserted into the environment-number table, in walk order.
pub open spec fn env_labels_block(b: SpecBlock) -> Seq<Seq<u8>>
    decreases b,
{
    match b {
        SpecBlock::DisplayMath { label, .. } => opt_label(label),
        SpecBlock::Environment { kind, label, content, .. } => (
        if spec_env_category(kind) is Some {
            opt_label(label)
        } else {
            Seq::empty()
        }) + env_labels(content),
        SpecBlock::Table { label, .. } => opt_label(label),
        SpecBlock::BlockQuote(v) => env_labels(v),
        SpecBlock::List { items, .. } => env_labels_items(items),
        _ => Seq::empty(),
    }
}

pub open spec fn opt_label(l: Option<Seq<u8>>) -> Seq<Seq<u8>> {
    match l {
        Option::Some(k) => seq![k],
        Option::None => Seq::empty(),
    }
}

pub open spec fn env_labels(v: Seq<SpecBlock>) -> Seq<Seq<u8>>
    decreases v,
{
    if v.len() == 0 {
        Seq::empty()
    } else {
        env_labels_block(v.first()) + env_labels(v.drop_first())
    }
}

pub open spec fn env_labels_items(v: Seq<SpecListItem>) -> Seq<Seq<u8>>
    decreases v,
{
    if v.len() == 0 {
        Seq::empty()
    } else {
        env_labels(v.first().content) + env_labels_items(v.drop_first())
    }
}

pub open spec fn distinct_seq(s: Seq<Seq<u8>>) -> bool {
    forall|i: int, j: int| 0 <= i < j < s.len() ==> s[i] != s[j]
}

/// What the walk guarantees about one category's counter and numbers.
pub open spec fn cat_claim(acc: NumAcc, r: NumAcc, occs: Seq<Option<Seq<u8>>>, labels: Seq<Seq<u8>>, c: EnvCategory) -> bool {
    &&& cat_get(r.st, c) == cat_get(acc.st, c) + occs.len()
    &&& forall|j: int|
        0 <= j < occs.len() && occs[j] is Some ==> r.env.contains_key(#[trigger] occs[j]->Some_0)
            && r.env[occs[j]->Some_0] == cat_get(acc.st, c) + j + 1
    &&& forall|k: Seq<u8>|
        !labels.contains(k) ==> (r.env.contains_key(k) == acc.env.contains_key(k) && (
        acc.env.contains_key(k) ==> r.env[k] == acc.env[k]))
}

/// A label that appears among a category's occurrences is among the
/// inserted labels.
proof fn lemma_occ_in_labels_block(b: SpecBlock, c: EnvCategory)
    ensures
        forall|j: int|
            0 <= j < cat_occs_block(b, c).len() && #[trigger] cat_occs_block(b, c)[j] is Some
                ==> env_labels_block(b).contains(cat_occs_block(b, c)[j]->Some_0),
    decreases b,
{
    match b {
        SpecBlock::Environment { kind, label, content, .. } => {
            lemma_occ_in_labels(content, c);
            assert forall|j: int|
                0 <= j < cat_occs_block(b, c).len() && #[trigger] cat_occs_block(b, c)[j] is Some
                    implies env_labels_block(b).contains(cat_occs_block(b, c)[j]->Some_0) by {
                let own = if spec_env_category(kind) == Option::Some(c) {
                    seq![label]
                } else {
                    Seq::<Option<Seq<u8>>>::empty()
                };
                if j < own.len() {
                    assert(cat_occs_block(b, c)[0] == label);
                    assert(opt_label(label) =~= seq![label->Some_0]);
                    assert(env_labels_block(b)[0] == label->Some_0);
                } else {
                    let jl = cat_occs(content, c)[j - own.len()];
                    assert(env_labels(content).contains(jl->Some_0));
                    let w = choose|w: int|
                        0 <= w < env_labels(content).len() && env_labels(content)[w] == jl->Some_0;
                    let ownl = if spec_env_category(kind) is Some {
                        opt_label(label)
                    } else {
                        Seq::<Seq<u8>>::empty()
                    };
                    assert(env_labels_block(b)[ownl.len() + w] == jl->Some_0);
                }
            }
        },
        SpecBlock::Table { label, .. } => {
            if c is Table {
                assert forall|j: int|
                    0 <= j < cat_occs_block(b, c).len() && #[trigger] cat_occs_block(b, c)[j]
                        is Some implies env_labels_block(b).contains(
                    cat_occs_block(b, c)[j]->Some_0,
                ) by {
                    assert(cat_occs_block(b, c)[0] == label);
                    assert(opt_label(label) =~= seq![label->Some_0]);
                    assert(env_labels_block(b)[0] == label->Some_0);
                }
            }
        },
        SpecBlock::BlockQuote(v) => {
            lemma_occ_in_labels(v, c);
        },
        SpecBlock::List { items, .. } => {
            lemma_occ_in_labels_items(items, c);
        },
        _ => {},
    }
}

proof fn lemma_occ_in_labels(v: Seq<SpecBlock>, c: EnvCategory)
    ensures
        forall|j: int|
            0 <= j < cat_occs(v, c).len() && #[trigger] cat_occs(v, c)[j] is Some ==> env_labels(
                v,
            ).contains(cat_occs(v, c)[j]->Some_0),
    decreases v,
{
    if v.len() > 0 {
        lemma_occ_in_labels_block(v.first(), c);
        lemma_occ_in_labels(v.drop_first(), c);
        assert forall|j: int|
            0 <= j < cat_occs(v, c).len() && #[trigger] cat_occs(v, c)[j] is Some implies
            env_labels(v).contains(cat_occs(v, c)[j]->Some_0) by {
            let a = cat_occs_block(v.first(), c);
            if j < a.len() {
                let w = choose|w: int|
                    0 <= w < env_labels_block(v.first()).len() && env_labels_block(v.first())[w]
                        == a[j]->Some_0;
                assert(env_labels(v)[w] == a[j]->Some_0);
            } else {
                let b2 = cat_occs(v.drop_first(), c)[j - a.len()];
                assert(env_labels(v.drop_first()).contains(b2->Some_0));
                let w = choose|w: int|
                    0 <= w < env_labels(v.drop_first()).len() && env_labels(v.drop_first())[w]
                        == b2->Some_0;
                assert(env_labels(v)[env_labels_block(v.first()).len() + w] == b2->Some_0);
            }
        }
    }
}

proof fn lemma_occ_in_labels_items(v: Seq<SpecListItem>, c: EnvCategory)
    ensures
        forall|j: int|
            0 <= j < cat_occs_items(v, c).len() && #[trigger] cat_occs_items(v, c)[j] is Some
                ==> env_labels_items(v).contains(cat_occs_items(v, c)[j]->Some_0),
    decreases v,
{
    if v.len() > 0 {
        lemma_occ_in_labels(v.first().content, c);
        lemma_occ_in_labels_items(v.drop_first(), c);
        assert forall|j: int|
            0 <= j < cat_occs_items(v, c).len() && #[trigger] cat_occs_items(v, c)[j] is Some
            implies env_labels_items(v).contains(cat_occs_items(v, c)[j]->Some_0) by {
            let a = cat_occs(v.first().content, c);
            if j < a.len() {
                let w = choose|w: int|
                    0 <= w < env_labels(v.first().content).len() && env_labels(v.first().content)[w]
                        == a[j]->Some_0;
                assert(env_labels_items(v)[w] == a[j]->Some_0);
            } else {
                let b2 = cat_occs_items(v.drop_first(), c)[j - a.len()];
                assert(env_labels_items(v.drop_first()).contains(b2->Some_0));
                let w = choose|w: int|
                    0 <= w < env_labels_items(v.drop_first()).len() && env_labels_items(
                        v.drop_first(),
                    )[w] == b2->Some_0;
                assert(env_labels_items(v)[env_labels(v.first().content).len() + w] == b2->Some_0);
            }
        }
    }
}


/// Composition of the per-category claim over two consecutive walk steps.
proof fn lemma_cat_compose(
    acc: NumAcc,
    mid: NumAcc,
    fin: NumAcc,
    occs1: Seq<Option<Seq<u8>>>,
    labels1: Seq<Seq<u8>>,
    occs2: Seq<Option<Seq<u8>>>,
    labels2: Seq<Seq<u8>>,
    c: EnvCategory,
)
    requires
        cat_claim(acc, mid, occs1, labels1, c),
        cat_claim(mid, fin, occs2, labels2, c),
        distinct_seq(labels1 + labels2),
        forall|j: int|
            0 <= j < occs1.len() && #[trigger] occs1[j] is Some ==> labels1.contains(
                occs1[j]->Some_0,
            ),
        cat_get(acc.st, c) + occs1.len() + occs2.len() <= u32::MAX,
    ensures
        cat_claim(acc, fin, occs1 + occs2, labels1 + labels2, c),
{
    let occs = occs1 + occs2;
    let labels = labels1 + labels2;
    assert(cat_get(fin.st, c) == cat_get(acc.st, c) + occs.len());
    assert forall|j: int| 0 <= j < occs.len() && occs[j] is Some implies fin.env.contains_key(
        #[trigger] occs[j]->Some_0,
    ) && fin.env[occs[j]->Some_0] == cat_get(acc.st, c) + j + 1 by {
        if j < occs1.len() {
            let l = occs1[j]->Some_0;
            assert(occs[j] == occs1[j]);
            assert(mid.env.contains_key(l) && mid.env[l] == cat_get(acc.st, c) + j + 1);
            assert(labels1.contains(l));
            assert(!labels2.contains(l)) by {
                if labels2.contains(l) {
                    let w1 = choose|w1: int| 0 <= w1 < labels1.len() && labels1[w1] == l;
                    let w2 = choose|w2: int| 0 <= w2 < labels2.len() && labels2[w2] == l;
                    assert(labels[w1] == l);
                    assert(labels[labels1.len() + w2] == l);
                }
            }
            assert(fin.env.contains_key(l) == mid.env.contains_key(l));
            assert(fin.env[l] == mid.env[l]);
        } else {
            assert(occs[j] == occs2[j - occs1.len()]);
            assert(cat_get(mid.st, c) == cat_get(acc.st, c) + occs1.len());
        }
    }
    assert forall|k: Seq<u8>| !labels.contains(k) implies (fin.env.contains_key(k)
        == acc.env.contains_key(k) && (acc.env.contains_key(k) ==> fin.env[k] == acc.env[k])) by {
        assert(!labels1.contains(k)) by {
            if labels1.contains(k) {
                let w = choose|w: int| 0 <= w < labels1.len() && labels1[w] == k;
                assert(labels[w] == k);
            }
        }
        assert(!labels2.contains(k)) by {
            if labels2.contains(k) {
                let w = choose|w: int| 0 <= w < labels2.len() && labels2[w] == k;
                assert(labels[labels1.len() + w] == k);
            }
        }
    }
}

/// Distinctness restricts to both halves of a concatenation.
proof fn lemma_distinct_parts(a: Seq<Seq<u8>>, b: Seq<Seq<u8>>)
    requires
        distinct_seq(a + b),
    ensures
        distinct_seq(a),
        distinct_seq(b),
    decreases a.len(),
{
    assert forall|i: int, j: int| 0 <= i < j < a.len() implies a[i] != a[j] by {
        assert((a + b)[i] == a[i]);
        assert((a + b)[j] == a[j]);
    }
    assert forall|i: int, j: int| 0 <= i < j < b.len() implies b[i] != b[j] by {
        assert((a + b)[a.len() + i] == b[i]);
        assert((a + b)[a.len() + j] == b[j]);
    }
}

proof fn lemma_cat_block(acc: NumAcc, b: SpecBlock, c: EnvCategory)
    requires
        cat_get(acc.st, c) + cat_occs_block(b, c).len() <= u32::MAX,
        distinct_seq(env_labels_block(b)),
    ensures
        cat_claim(acc, num_block(acc, b), cat_occs_block(b, c), env_labels_block(b), c),
    decreases b,
{
    match b {
        SpecBlock::Environment { kind, label, content, caption } => {
            let own_occs: Seq<Option<Seq<u8>>> = if spec_env_category(kind) == Option::Some(c) {
                seq![label]
            } else {
                Seq::empty()
            };
            let own_labels: Seq<Seq<u8>> = if spec_env_category(kind) is Some {
                opt_label(label)
            } else {
                Seq::empty()
            };
            let acc1 = match spec_env_category(kind) {
                Option::Some(cc) => {
                    let n = spec_inc(cat_get(acc.st, cc));
                    NumAcc {
                        st: cat_set(acc.st, cc, n),
                        sec: acc.sec,
                        env: insert_opt(acc.env, label, n),
                    }
                },
                Option::None => acc,
            };
            assert(cat_claim(acc, acc1, own_occs, own_labels, c)) by {
                assert(cat_occs_block(b, c) =~= own_occs + cat_occs(content, c));
                match spec_env_category(kind) {
                    Option::Some(cc) => {
                        if cc == c {
                            assert(own_occs =~= seq![label]);
                            assert(cat_get(acc.st, c) < u32::MAX);
                            assert(cat_get(acc1.st, c) == cat_get(acc.st, c) + 1);
                        } else {
                            assert(own_occs =~= Seq::<Option<Seq<u8>>>::empty());
                            assert(cat_get(acc1.st, c) == cat_get(acc.st, c));
                        }
                        match label {
                            Option::Some(l) => {
                                assert(own_labels =~= seq![l]);
                                assert(acc1.env == acc.env.insert(l, spec_inc(cat_get(acc.st, cc))));
                                assert forall|k: Seq<u8>| !own_labels.contains(k) implies k != l by {
                                    assert(own_labels[0] == l);
                                }
                            },
                            Option::None => {
                                assert(own_labels =~= Seq::<Seq<u8>>::empty());
                                assert(acc1.env == acc.env);
                            },
                        }
                    },
                    Option::None => {},
                }
            }
            assert(cat_get(acc1.st, c) == cat_get(acc.st, c) + own_occs.len());
            lemma_distinct_parts(own_labels, env_labels(content));
            lemma_cat_blocks(acc1, content, c);
            assert(num_block(acc, b) == num_blocks(acc1, content));
            assert forall|j: int|
                0 <= j < own_occs.len() && #[trigger] own_occs[j] is Some implies
                own_labels.contains(own_occs[j]->Some_0) by {
                assert(own_labels[0] == own_occs[0]->Some_0);
            }
            lemma_cat_compose(
                acc,
                acc1,
                num_blocks(acc1, content),
                own_occs,
                own_labels,
                cat_occs(content, c),
                env_labels(content),
                c,
            );
            assert(own_occs + cat_occs(content, c) =~= cat_occs_block(b, c));
            assert(own_labels + env_labels(content) =~= env_labels_block(b));
        },
        SpecBlock::BlockQuote(v) => {
            lemma_cat_blocks(acc, v, c);
        },
        SpecBlock::List { items, .. } => {
            lemma_cat_items(acc, items, c);
        },
        SpecBlock::Table { label, .. } => {
            if c is Table {
                assert(cat_occs_block(b, c) =~= seq![label]);
            } else {
                assert(cat_occs_block(b, c) =~= Seq::<Option<Seq<u8>>>::empty());
            }
            match label {
                Option::Some(l) => {
                    assert(env_labels_block(b) =~= seq![l]);
                    assert forall|k: Seq<u8>| !env_labels_block(b).contains(k) implies k != l by {
                        assert(env_labels_block(b)[0] == l);
                    }
                },
                Option::None => {
                    assert(env_labels_block(b) =~= Seq::<Seq<u8>>::empty());
                },
            }
        },
        SpecBlock::DisplayMath { label, .. } => {
            assert(cat_occs_block(b, c) =~= Seq::<Option<Seq<u8>>>::empty());
            match label {
                Option::Some(l) => {
                    assert(env_labels_block(b) =~= seq![l]);
                    assert forall|k: Seq<u8>| !env_labels_block(b).contains(k) implies k != l by {
                        assert(env_labels_block(b)[0] == l);
                    }
                },
                Option::None => {
                    assert(env_labels_block(b) =~= Seq::<Seq<u8>>::empty());
                },
            }
        },
        _ => {},
    }
}

proof fn lemma_cat_blocks(acc: NumAcc, v: Seq<SpecBlock>, c: EnvCategory)
    requires
        cat_get(acc.st, c) + cat_occs(v, c).len() <= u32::MAX,
        distinct_seq(env_labels(v)),
    ensures
        cat_claim(acc, num_blocks(acc, v), cat_occs(v, c), env_labels(v), c),
    decreases v,
{
    if v.len() == 0 {
    } else {
        let first = v.first();
        let rest = v.drop_first();
        let acc1 = num_block(acc, first);
        lemma_distinct_parts(env_labels_block(first), env_labels(rest));
        lemma_cat_block(acc, first, c);
        lemma_cat_blocks(acc1, rest, c);
        lemma_occ_in_labels_block(first, c);
        lemma_cat_compose(
            acc,
            acc1,
            num_blocks(acc1, rest),
            cat_occs_block(first, c),
            env_labels_block(first),
            cat_occs(rest, c),
            env_labels(rest),
            c,
        );
    }
}

proof fn lemma_cat_items(acc: NumAcc, v: Seq<SpecListItem>, c: EnvCategory)
    requires
        cat_get(acc.st, c) + cat_occs_items(v, c).len() <= u32::MAX,
        distinct_seq(env_labels_items(v)),
    ensures
        cat_claim(acc, num_items(acc, v), cat_occs_items(v, c), env_labels_items(v), c),
    decreases v,
{
    if v.len() == 0 {
    } else {
        let first = v.first().content;
        let rest = v.drop_first();
        let acc1 = num_blocks(acc, first);
        lemma_distinct_parts(env_labels(first), env_labels_items(rest));
        lemma_cat_blocks(acc, first, c);
        lemma_cat_items(acc1, rest, c);
        lemma_occ_in_labels(first, c);
        lemma_cat_compose(
            acc,
            acc1,
            num_items(acc1, rest),
            cat_occs(first, c),
            env_labels(first),
            cat_occs_items(rest, c),
            env_labels_items(rest),
            c,
        );
    }
}

/// Environments drawing numbers from one category are numbered 1, 2, 3,
/// ... in walk order, with no gaps, and every category counts
/// independently of the others: in a document whose numbered labels are
/// pairwise distinct, the label of the j-th occurrence of category `c`
/// maps to exactly j + 1.
pub proof fn lemma_env_numbers_gapless(blocks: Seq<SpecBlock>, c: EnvCategory)
    requires
        cat_occs(blocks, c).len() <= u32::MAX,
        distinct_seq(env_labels(blocks)),
    ensures
        ({
            let env = num_blocks(init_acc(), blocks).env;
            let occs = cat_occs(blocks, c);
            forall|j: int|
                0 <= j < occs.len() && #[trigger] occs[j] is Some ==> env.contains_key(
                    occs[j]->Some_0,
                ) && env[occs[j]->Some_0] == j + 1
        }),
{
    lemma_cat_blocks(init_acc(), blocks, c);
}

} // verus!
