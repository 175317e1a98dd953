//! Byte-string utilities shared by the lexer, the parsers and the
//! resolution passes.

use vstd::prelude::*;

verus! {

/// ASCII whitespace.
pub open spec fn is_ws(b: u8) -> bool {
    b == 32 || b == 9 || b == 10 || b == 13 || b == 11 || b == 12
}

/// Whitespace inside a single line (space or tab).
pub open spec fn is_line_ws(b: u8) -> bool {
    b == 32 || b == 9
}

pub fn byte_is_ws(b: u8) -> (r: bool)
    ensures
        r == is_ws(b),
{
    b == 32 || b == 9 || b == 10 || b == 13 || b == 11 || b == 12
}

/// ASCII letters and digits.
pub open spec fn is_alnum(b: u8) -> bool {
    (48 <= b <= 57) || (65 <= b <= 90) || (97 <= b <= 122)
}

pub fn byte_is_alnum(b: u8) -> (r: bool)
    ensures
        r == is_alnum(b),
{
    (48 <= b && b <= 57) || (65 <= b && b <= 90) || (97 <= b && b <= 122)
}

pub open spec fn is_digit(b: u8) -> bool {
    48 <= b <= 57
}

/// ASCII lowercasing of one byte.
pub open spec fn lower_byte(b: u8) -> u8 {
    if 65 <= b <= 90 {
        (b + 32) as u8
    } else {
        b
    }
}

/// ASCII lowercasing of a byte string.
pub open spec fn lower(s: Seq<u8>) -> Seq<u8> {
    Seq::new(s.len(), |i: int| lower_byte(s[i]))
}

pub fn to_lower(s: &[u8]) -> (r: Vec<u8>)
    ensures
        r@ == lower(s@),
{
    let mut r: Vec<u8> = Vec::new();
    let mut i: usize = 0;
    while i < s.len()
        invariant
            0 <= i <= s@.len(),
            r@ == lower(s@).subrange(0, i as int),
        decreases s@.len() - i,
    {
        let b = s[i];
        if 65 <= b && b <= 90 {
            r.push(b + 32);
        } else {
            r.push(b);
        }
        proof {
            assert(r@ =~= lower(s@).subrange(0, i + 1));
        }
        i += 1;
    }
    proof {
        assert(r@ =~= lower(s@));
    }
    r
}

/// Compare two byte strings for equality.
pub fn eq_bytes(a: &[u8], b: &[u8]) -> (r: bool)
    ensures
        r <==> a@ == b@,
{
    if a.len() != b.len() {
        assert(a@ != b@);
        return false;
    }
    let mut i: usize = 0;
    while i < a.len()
        invariant
            0 <= i <= a@.len(),
            a@.len() == b@.len(),
            forall|j: int| 0 <= j < i ==> a@[j] == b@[j],
        decreases a@.len() - i,
    {
        if a[i] != b[i] {
            return false;
        }
        i += 1;
    }
    proof {
        assert(a@ =~= b@);
    }
    true
}

/// Does `p` occur in `s` starting at position `i`?
pub open spec fn matches_at(s: Seq<u8>, p: Seq<u8>, i: int) -> bool {
    0 <= i && i + p.len() <= s.len() && s.subrange(i, i + p.len()) == p
}

/// Does `s` start with `p`?
pub open spec fn starts_with(s: Seq<u8>, p: Seq<u8>) -> bool {
    matches_at(s, p, 0)
}

pub fn begins_with(s: &[u8], p: &[u8]) -> (r: bool)
    ensures
        r == starts_with(s@, p@),
{
    if p.len() > s.len() {
        return false;
    }
    let mut i: usize = 0;
    while i < p.len()
        invariant
            0 <= i <= p@.len(),
            p@.len() <= s@.len(),
            forall|j: int| 0 <= j < i ==> s@[j] == p@[j],
        decreases p@.len() - i,
    {
        if s[i] != p[i] {
            assert(s@.subrange(0, p@.len() as int)[i as int] != p@[i as int]);
            return false;
        }
        i += 1;
    }
    proof {
        assert(s@.subrange(0, p@.len() as int) =~= p@);
    }
    true
}

/// Does `s` end with `p`?
pub open spec fn ends_with(s: Seq<u8>, p: Seq<u8>) -> bool {
    matches_at(s, p, s.len() - p.len())
}

/// The first occurrence of `p` in `s` at or after `from`.
pub open spec fn spec_find(s: Seq<u8>, p: Seq<u8>, from: int) -> Option<int>
    decreases s.len() - from + 1,
{
    if from < 0 || from + p.len() > s.len() {
        Option::None
    } else if matches_at(s, p, from) {
        Option::Some(from)
    } else {
        spec_find(s, p, from + 1)
    }
}

pub proof fn lemma_find_props(s: Seq<u8>, p: Seq<u8>, from: int)
    requires
        0 <= from,
    ensures
        match spec_find(s, p, from) {
            Option::Some(i) => from <= i && matches_at(s, p, i) && forall|j: int|
                from <= j < i ==> !matches_at(s, p, j),
            Option::None => forall|j: int| from <= j ==> !matches_at(s, p, j),
        },
    decreases s.len() - from + 1,
{
    if from + p.len() > s.len() {
    } else if matches_at(s, p, from) {
    } else {
        lemma_find_props(s, p, from + 1);
    }
}

pub fn find_sub(s: &[u8], p: &[u8], from: usize) -> (r: Option<usize>)
    ensures
        match r {
            Option::Some(i) => from <= i && spec_find(s@, p@, from as int) == Option::Some(
                i as int,
            ) && i + p@.len() <= s@.len(),
            Option::None => spec_find(s@, p@, from as int) is None,
        },
{
    if from > s.len() || p.len() > s.len() - from {
        return Option::None;
    }
    let slen: usize = s.len();
    let bound: usize = slen - p.len();
    let mut i: usize = from;
    while i <= bound
        invariant
            from <= i,
            slen == s@.len(),
            p@.len() + bound == s@.len(),
            i <= bound + 1,
            from + p@.len() <= s@.len(),
            spec_find(s@, p@, from as int) == spec_find(s@, p@, i as int),
        decreases bound - i + 1,
    {
        assert(i + p@.len() <= slen);
        let sub = vstd::slice::slice_subrange(s, i, i + p.len());
        if eq_bytes(sub, p) {
            assert(matches_at(s@, p@, i as int));
            return Option::Some(i);
        }
        assert(!matches_at(s@, p@, i as int));
        assert(p@.len() > 0) by {
            if p@.len() == 0 {
                assert(s@.subrange(i as int, i as int) =~= p@);
            }
        }
        i += 1;
    }
    Option::None
}

/// Index of the first byte of `s` that is not line whitespace.
pub open spec fn spec_trim_start_idx(s: Seq<u8>, i: int) -> int
    decreases s.len() - i,
{
    if i < 0 || i >= s.len() {
        if i < 0 {
            0
        } else {
            s.len() as int
        }
    } else if is_line_ws(s[i]) {
        spec_trim_start_idx(s, i + 1)
    } else {
        i
    }
}

pub proof fn lemma_trim_start_idx(s: Seq<u8>, i: int)
    requires
        0 <= i <= s.len(),
    ensures
        i <= spec_trim_start_idx(s, i) <= s.len(),
        forall|j: int| i <= j < spec_trim_start_idx(s, i) ==> is_line_ws(s[j]),
        spec_trim_start_idx(s, i) < s.len() ==> !is_line_ws(s[spec_trim_start_idx(s, i)]),
    decreases s.len() - i,
{
    if i < s.len() && is_line_ws(s[i]) {
        lemma_trim_start_idx(s, i + 1);
    }
}

/// `s` with leading line whitespace removed.
pub open spec fn trim_start(s: Seq<u8>) -> Seq<u8> {
    s.subrange(spec_trim_start_idx(s, 0), s.len() as int)
}

pub fn trim_start_idx(s: &[u8]) -> (r: usize)
    ensures
        r == spec_trim_start_idx(s@, 0),
        r <= s@.len(),
{
    let mut i: usize = 0;
    while i < s.len()
        invariant
            0 <= i <= s@.len(),
            spec_trim_start_idx(s@, 0) == spec_trim_start_idx(s@, i as int),
            forall|j: int| 0 <= j < i ==> is_line_ws(s@[j]),
        decreases s@.len() - i,
    {
        let b = s[i];
        if !(b == 32 || b == 9) {
            return i;
        }
        i += 1;
    }
    i
}

pub fn do_trim_start<'a>(s: &'a [u8]) -> (r: &'a [u8])
    ensures
        r@ == trim_start(s@),
{
    let i = trim_start_idx(s);
    vstd::slice::slice_subrange(s, i, s.len())
}

/// Index one past the last byte of `s` that is not line whitespace.
pub open spec fn spec_trim_end_idx(s: Seq<u8>, i: int) -> int
    decreases i,
{
    if i <= 0 {
        0
    } else if i > s.len() {
        s.len() as int
    } else if is_line_ws(s[i - 1]) {
        spec_trim_end_idx(s, i - 1)
    } else {
        i
    }
}

/// `s` with trailing line whitespace removed.
pub open spec fn trim_end(s: Seq<u8>) -> Seq<u8> {
    s.subrange(0, spec_trim_end_idx(s, s.len() as int))
}

pub proof fn lemma_trim_end_idx(s: Seq<u8>, i: int)
    requires
        0 <= i <= s.len(),
    ensures
        0 <= spec_trim_end_idx(s, i) <= i,
    decreases i,
{
    if i > 0 && is_line_ws(s[i - 1]) {
        lemma_trim_end_idx(s, i - 1);
    }
}

/// Trimming never lengthens a string.
pub proof fn lemma_trim_end_len(s: Seq<u8>)
    ensures
        trim_end(s).len() <= s.len(),
{
    lemma_trim_end_idx(s, s.len() as int);
}

/// `s` with both leading and trailing line whitespace removed.
pub open spec fn trim(s: Seq<u8>) -> Seq<u8> {
    trim_end(trim_start(s))
}

pub fn trim_end_idx(s: &[u8]) -> (r: usize)
    ensures
        r == spec_trim_end_idx(s@, s@.len() as int),
        r <= s@.len(),
{
    let mut i: usize = s.len();
    while i > 0
        invariant
            0 <= i <= s@.len(),
            spec_trim_end_idx(s@, s@.len() as int) == spec_trim_end_idx(s@, i as int),
        decreases i,
    {
        let b = s[i - 1];
        if !(b == 32 || b == 9) {
            return i;
        }
        i -= 1;
    }
    0
}

pub fn do_trim_end<'a>(s: &'a [u8]) -> (r: &'a [u8])
    ensures
        r@ == trim_end(s@),
{
    let i = trim_end_idx(s);
    vstd::slice::slice_subrange(s, 0, i)
}

pub fn do_trim<'a>(s: &'a [u8]) -> (r: &'a [u8])
    ensures
        r@ == trim(s@),
{
    do_trim_end(do_trim_start(s))
}

/// Is the string entirely line whitespace?
pub open spec fn is_blank(s: Seq<u8>) -> bool {
    trim(s).len() == 0
}

pub fn check_blank(s: &[u8]) -> (r: bool)
    ensures
        r == is_blank(s@),
{
    let t = do_trim(s);
    t.len() == 0
}

/// Index of the first byte that is not ASCII whitespace of any kind.
pub open spec fn spec_ws_trim_idx(s: Seq<u8>, i: int) -> int
    decreases s.len() - i,
{
    if i < 0 || i >= s.len() {
        if i < 0 {
            0
        } else {
            s.len() as int
        }
    } else if is_ws(s[i]) {
        spec_ws_trim_idx(s, i + 1)
    } else {
        i
    }
}

pub open spec fn ws_trim_start(s: Seq<u8>) -> Seq<u8> {
    s.subrange(spec_ws_trim_idx(s, 0), s.len() as int)
}

pub fn do_ws_trim_start<'a>(s: &'a [u8]) -> (r: &'a [u8])
    ensures
        r@ == ws_trim_start(s@),
    decreases s@.len(),
{
    let mut i: usize = 0;
    while i < s.len() && byte_is_ws(s[i])
        invariant
            0 <= i <= s@.len(),
            spec_ws_trim_idx(s@, 0) == spec_ws_trim_idx(s@, i as int),
        decreases s@.len() - i,
    {
        i += 1;
    }
    vstd::slice::slice_subrange(s, i, s.len())
}

/// Strip leading newline bytes.
pub open spec fn spec_strip_nl_idx(s: Seq<u8>, i: int) -> int
    decreases s.len() - i,
{
    if i < 0 || i >= s.len() {
        if i < 0 {
            0
        } else {
            s.len() as int
        }
    } else if s[i] == 10 {
        spec_strip_nl_idx(s, i + 1)
    } else {
        i
    }
}

pub open spec fn strip_leading_nl(s: Seq<u8>) -> Seq<u8> {
    s.subrange(spec_strip_nl_idx(s, 0), s.len() as int)
}

pub fn do_strip_leading_nl<'a>(s: &'a [u8]) -> (r: &'a [u8])
    ensures
        r@ == strip_leading_nl(s@),
{
    let mut i: usize = 0;
    while i < s.len() && s[i] == 10
        invariant
            0 <= i <= s@.len(),
            spec_strip_nl_idx(s@, 0) == spec_strip_nl_idx(s@, i as int),
        decreases s@.len() - i,
    {
        i += 1;
    }
    vstd::slice::slice_subrange(s, i, s.len())
}

/// An owned copy of `s[a..b]`.
pub fn subv(s: &[u8], a: usize, b: usize) -> (r: Vec<u8>)
    requires
        0 <= a <= b <= s@.len(),
    ensures
        r@ == s@.subrange(a as int, b as int),
{
    vstd::slice::slice_to_vec(vstd::slice::slice_subrange(s, a, b))
}

/// Decimal digits of `n`, most significant first.
pub open spec fn dec_digits(n: nat) -> Seq<u8>
    decreases n,
{
    if n < 10 {
        seq![(48 + n) as u8]
    } else {
        dec_digits(n / 10).push((48 + n % 10) as u8)
    }
}

/// Render a number in decimal.
pub fn fmt_u32(n: u32) -> (r: Vec<u8>)
    ensures
        r@ == dec_digits(n as nat),
    decreases n,
{
    if n < 10 {
        let mut r: Vec<u8> = Vec::new();
        r.push(48 + (n as u8));
        proof {
            assert(r@ =~= dec_digits(n as nat));
        }
        r
    } else {
        let mut r = fmt_u32(n / 10);
        r.push(48 + ((n % 10) as u8));
        r
    }
}

/// Render a number in decimal.
pub fn fmt_usize(n: usize) -> (r: Vec<u8>)
    ensures
        r@ == dec_digits(n as nat),
    decreases n,
{
    if n < 10 {
        let mut r: Vec<u8> = Vec::new();
        r.push(48 + (n as u8));
        proof {
            assert(r@ =~= dec_digits(n as nat));
        }
        r
    } else {
        let mut r = fmt_usize(n / 10);
        r.push(48 + ((n % 10) as u8));
        r
    }
}

/// Split into lines as `str::lines` does: separators are `\n`, a trailing
/// `\r` is stripped from each line, and a final empty segment is dropped.
pub open spec fn strip_cr(s: Seq<u8>) -> Seq<u8> {
    if s.len() > 0 && s.last() == 13 {
        s.drop_last()
    } else {
        s
    }
}

pub open spec fn spec_lines(s: Seq<u8>) -> Seq<Seq<u8>>
    decreases s.len(),
{
    if s.len() == 0 {
        Seq::empty()
    } else {
        match spec_find(s, seq![10u8], 0) {
            Option::Some(i) => if 0 <= i < s.len() {
                seq![strip_cr(s.subrange(0, i))] + spec_lines(s.subrange(i + 1, s.len() as int))
            } else {
                arbitrary()
            },
            Option::None => seq![strip_cr(s)],
        }
    }
}

pub fn split_lines(s: &[u8]) -> (r: Vec<Vec<u8>>)
    ensures
        crate::ast::bytes_list(r@) == spec_lines(s@),
    decreases s@.len(),
{
    let mut r: Vec<Vec<u8>> = Vec::new();
    if s.len() == 0 {
        proof {
            assert(crate::ast::bytes_list(r@) =~= spec_lines(s@));
        }
        return r;
    }
    let nl: [u8; 1] = [10u8];
    match find_sub(s, nl.as_slice(), 0) {
        Option::Some(i) => {
            proof {
                assert(nl@ =~= seq![10u8]);
            }
            let mut line = subv(s, 0, i);
            if line.len() > 0 && line[line.len() - 1] == 13 {
                line.pop();
                proof {
                    assert(line@ =~= strip_cr(s@.subrange(0, i as int)));
                }
            }
            assert(line@ == strip_cr(s@.subrange(0, i as int)));
            let rest = vstd::slice::slice_subrange(s, i + 1, s.len());
            let mut tail = split_lines(rest);
            r.push(line);
            r.append(&mut tail);
            proof {
                assert(crate::ast::bytes_list(r@) =~= spec_lines(s@));
            }
        },
        Option::None => {
            proof {
                assert(nl@ =~= seq![10u8]);
            }
            let mut line = subv(s, 0, s.len());
            if line.len() > 0 && line[line.len() - 1] == 13 {
                line.pop();
                proof {
                    assert(line@ =~= strip_cr(s@));
                }
            }
            assert(line@ == strip_cr(s@));
            r.push(line);
            proof {
                assert(crate::ast::bytes_list(r@) =~= spec_lines(s@));
            }
        },
    }
    r
}

/// Join byte strings with a separator byte.
pub open spec fn spec_join(v: Seq<Seq<u8>>, sep: u8) -> Seq<u8>
    decreases v.len(),
{
    if v.len() == 0 {
        Seq::empty()
    } else if v.len() == 1 {
        v[0]
    } else {
        v[0] + seq![sep] + spec_join(v.drop_first(), sep)
    }
}

pub fn join_lines(v: &[Vec<u8>], sep: u8) -> (r: Vec<u8>)
    ensures
        r@ == spec_join(crate::ast::bytes_list(v@), sep),
    decreases v@.len(),
{
    let ghost model = crate::ast::bytes_list(v@);
    let mut r: Vec<u8> = Vec::new();
    if v.len() == 0 {
        proof {
            assert(r@ =~= spec_join(model, sep));
        }
        return r;
    }
    r.extend_from_slice(v[0].as_slice());
    if v.len() == 1 {
        proof {
            assert(r@ =~= spec_join(model, sep));
        }
        return r;
    }
    r.push(sep);
    let rest = vstd::slice::slice_subrange(v, 1, v.len());
    let mut tail = join_lines(rest, sep);
    proof {
        assert(crate::ast::bytes_list(rest@) =~= model.drop_first());
    }
    r.append(&mut tail);
    proof {
        assert(r@ =~= spec_join(model, sep));
    }
    r
}

/// Byte-lexicographic order.
pub open spec fn lex_le(a: Seq<u8>, b: Seq<u8>) -> bool
    decreases a.len(),
{
    if a.len() == 0 {
        true
    } else if b.len() == 0 {
        false
    } else if a.first() < b.first() {
        true
    } else if a.first() > b.first() {
        false
    } else {
        lex_le(a.drop_first(), b.drop_first())
    }
}

pub proof fn lemma_lex_total(a: Seq<u8>, b: Seq<u8>)
    ensures
        lex_le(a, b) || lex_le(b, a),
        (lex_le(a, b) && lex_le(b, a)) ==> a == b,
    decreases a.len(),
{
    if a.len() == 0 {
        if b.len() == 0 {
            assert(a =~= b);
        }
    } else if b.len() == 0 {
    } else if a.first() == b.first() {
        lemma_lex_total(a.drop_first(), b.drop_first());
        if lex_le(a, b) && lex_le(b, a) {
            assert(a.drop_first() == b.drop_first());
            assert(a =~= seq![a.first()] + a.drop_first());
            assert(b =~= seq![b.first()] + b.drop_first());
        }
    }
}

pub proof fn lemma_lex_trans(a: Seq<u8>, b: Seq<u8>, c: Seq<u8>)
    requires
        lex_le(a, b),
        lex_le(b, c),
    ensures
        lex_le(a, c),
    decreases a.len(),
{
    if a.len() == 0 {
    } else if b.len() == 0 {
    } else if c.len() == 0 {
    } else {
        if a.first() == b.first() && b.first() == c.first() {
            lemma_lex_trans(a.drop_first(), b.drop_first(), c.drop_first());
        }
    }
}

pub fn lex_leq(a: &[u8], b: &[u8]) -> (r: bool)
    ensures
        r == lex_le(a@, b@),
{
    let mut i: usize = 0;
    proof {
        assert(a@.subrange(0, a@.len() as int) =~= a@);
        assert(b@.subrange(0, b@.len() as int) =~= b@);
    }
    loop
        invariant
            0 <= i <= a@.len(),
            i <= b@.len(),
            lex_le(a@, b@) == lex_le(
                a@.subrange(i as int, a@.len() as int),
                b@.subrange(i as int, b@.len() as int),
            ),
        decreases a@.len() - i,
    {
        let ghost ar = a@.subrange(i as int, a@.len() as int);
        let ghost br = b@.subrange(i as int, b@.len() as int);
        if i >= a.len() {
            assert(ar.len() == 0);
            return true;
        }
        if i >= b.len() {
            assert(br.len() == 0 && ar.len() > 0);
            return false;
        }
        if a[i] < b[i] {
            assert(ar.first() < br.first());
            return true;
        }
        if a[i] > b[i] {
            assert(ar.first() > br.first());
            return false;
        }
        proof {
            assert(ar.first() == br.first());
            assert(ar.drop_first() =~= a@.subrange(i + 1, a@.len() as int));
            assert(br.drop_first() =~= b@.subrange(i + 1, b@.len() as int));
        }
        i += 1;
    }
}

/// Parse decimal digits as a `u32`; anything unparsable yields 1, as the
/// list-marker rule does.
pub open spec fn spec_digits_value(s: Seq<u8>) -> nat
    decreases s.len(),
{
    if s.len() == 0 {
        0
    } else {
        spec_digits_value(s.drop_last()) * 10 + (s.last() - 48) as nat
    }
}

pub open spec fn spec_parse_u32(s: Seq<u8>) -> u32 {
    if s.len() > 0 && (forall|i: int| 0 <= i < s.len() ==> is_digit(s[i])) && spec_digits_value(s)
        <= u32::MAX {
        spec_digits_value(s) as u32
    } else {
        1u32
    }
}

pub fn parse_u32(s: &[u8]) -> (r: u32)
    ensures
        r == spec_parse_u32(s@),
{
    if s.len() == 0 {
        return 1;
    }
    let mut i: usize = 0;
    let mut acc: u32 = 0;
    while i < s.len()
        invariant
            0 <= i <= s@.len(),
            s@.len() > 0,
            forall|j: int| 0 <= j < i ==> is_digit(s@[j]),
            acc == spec_digits_value(s@.subrange(0, i as int)),
            spec_digits_value(s@.subrange(0, i as int)) <= u32::MAX,
        decreases s@.len() - i,
    {
        let b = s[i];
        if !(48 <= b && b <= 57) {
            assert(!is_digit(s@[i as int]));
            return 1;
        }
        let d: u32 = (b - 48) as u32;
        if acc > (u32::MAX - d) / 10 {
            proof {
                let q = (u32::MAX - d) as int / 10;
                assert(acc * 10 >= (q + 1) * 10) by (nonlinear_arith)
                    requires
                        acc as int >= q + 1,
                ;
                assert((q + 1) * 10 > u32::MAX - d) by {
                    assert(q * 10 + 10 > (u32::MAX - d) as int);
                }
                assert(acc * 10 + d > u32::MAX);
                assert(s@.subrange(0, i + 1).drop_last() =~= s@.subrange(0, i as int));
                assert(s@.subrange(0, i + 1).last() == s@[i as int]);
                assert(spec_digits_value(s@.subrange(0, i + 1)) > u32::MAX);
                lemma_digits_value_grows(s@, i + 1);
            }
            return 1;
        }
        proof {
            assert(s@.subrange(0, i + 1).drop_last() =~= s@.subrange(0, i as int));
            assert(s@.subrange(0, i + 1).last() == s@[i as int]);
        }
        acc = acc * 10 + d;
        i += 1;
    }
    proof {
        assert(s@.subrange(0, s@.len() as int) =~= s@);
    }
    acc
}

/// If a prefix of the digit string already exceeds `u32::MAX`, so does the
/// whole string.
pub proof fn lemma_digits_value_grows(s: Seq<u8>, i: int)
    requires
        0 <= i <= s.len(),
        spec_digits_value(s.subrange(0, i)) > u32::MAX,
    ensures
        spec_digits_value(s) > u32::MAX,
    decreases s.len() - i,
{
    if i < s.len() {
        assert(s.subrange(0, i + 1).drop_last() =~= s.subrange(0, i));
        assert(spec_digits_value(s.subrange(0, i + 1)) == spec_digits_value(s.subrange(0, i)) * 10
            + (s.subrange(0, i + 1).last() - 48) as nat);
        lemma_digits_value_grows(s, i + 1);
    } else {
        assert(s.subrange(0, i) =~= s);
    }
}

} // verus!
