//! The front-matter loader: a leading `+++ ... +++` block holding the
//! document's configuration table, parsed by the `toml` crate behind
//! trusted declarations, then assembled into `Metadata` by verified code.

use vstd::prelude::*;
use crate::ast::{Document, Macro, Metadata, SpecMacro, SpecMetadata, bytes_list, opt_bytes};
use crate::error::ParseError;
use crate::expand::{count_macro_args, spec_count_args};
use crate::strmap::StrMap;
use crate::text::{
    do_strip_leading_nl, do_ws_trim_start, find_sub, spec_find, starts_with, strip_leading_nl,
    ws_trim_start,
};

verus! {

// ---------------------------------------------------------------------------
// What the `toml` crate computes, named
// ---------------------------------------------------------------------------

/// Whether the bytes are valid UTF-8 text that parses as a TOML table.
pub uninterp spec fn toml_source_ok(b: Seq<u8>) -> bool;

/// Whether the table holds the key at its top level.
pub uninterp spec fn fm_has(b: Seq<u8>, key: Seq<u8>) -> bool;

/// The string value of a top-level key, when the key is present and its
/// value is a string.
pub uninterp spec fn fm_string_of(b: Seq<u8>, key: Seq<u8>) -> Option<Seq<u8>>;

/// The value of a top-level key as an array of strings, when it is one.
pub uninterp spec fn fm_string_array_of(b: Seq<u8>, key: Seq<u8>) -> Option<Seq<Seq<u8>>>;

/// The value of a top-level key as a table of string entries, when it is
/// one.
pub uninterp spec fn fm_string_table_of(b: Seq<u8>, key: Seq<u8>) -> Option<Seq<(Seq<u8>, Seq<u8>)>>;

/// The bibliography path: `None` when absent, `Some(None)` when present
/// but neither a string nor a table with a string `path`, `Some(Some(p))`
/// otherwise.
pub uninterp spec fn fm_bib_of(b: Seq<u8>) -> Option<Option<Seq<u8>>>;

/// Relies on `str::parse::<toml::Table>` (toml's `from_str`): the bytes
/// parse as a TOML table exactly when they are UTF-8 and valid TOML.
#[verifier::external_body]
fn fm_check(b: &[u8]) -> (r: Result<(), Vec<u8>>)
    ensures
        r is Ok <==> toml_source_ok(b@),
{
    match core::str::from_utf8(b) {
        Ok(s) => match s.parse::<toml::Table>() {
            Ok(_) => Ok(()),
            Err(e) => Err(e.to_string().into_bytes()),
        },
        Err(e) => Err(e.to_string().into_bytes()),
    }
}

/// Relies on `toml::map::Map::get`: whether the parsed table holds the
/// key.
#[verifier::external_body]
fn fm_has_field(b: &[u8], key: &[u8]) -> (r: bool)
    ensures
        r == fm_has(b@, key@),
{
    let s = match core::str::from_utf8(b) {
        Ok(s) => s,
        Err(_) => return false,
    };
    let k = match core::str::from_utf8(key) {
        Ok(k) => k,
        Err(_) => return false,
    };
    match s.parse::<toml::Table>() {
        Ok(t) => t.get(k).is_some(),
        Err(_) => false,
    }
}

/// Relies on `toml::map::Map::get` and `toml::Value::as_str`: the string
/// value of a key.
#[verifier::external_body]
fn fm_string_field(b: &[u8], key: &[u8]) -> (r: Option<Vec<u8>>)
    ensures
        opt_bytes(r) == fm_string_of(b@, key@),
{
    let s = core::str::from_utf8(b).ok()?;
    let k = core::str::from_utf8(key).ok()?;
    let t: toml::Table = s.parse().ok()?;
    Some(t.get(k)?.as_str()?.as_bytes().to_vec())
}

/// Relies on `toml::Value::as_array` and `toml::Value::as_str`: a key's
/// value as an array of strings.
#[verifier::external_body]
fn fm_string_array_field(b: &[u8], key: &[u8]) -> (r: Option<Vec<Vec<u8>>>)
    ensures
        match r {
            Option::Some(v) => fm_string_array_of(b@, key@) == Option::Some(bytes_list(v@)),
            Option::None => fm_string_array_of(b@, key@) is None,
        },
{
    let s = core::str::from_utf8(b).ok()?;
    let k = core::str::from_utf8(key).ok()?;
    let t: toml::Table = s.parse().ok()?;
    t.get(k)?.as_array()?.iter().map(
        |v| v.as_str().map(|x| x.as_bytes().to_vec()),
    ).collect::<Option<Vec<_>>>()
}

/// The entry list of a string map, keys and values viewed.
pub open spec fn pairs_view(v: Seq<(Vec<u8>, Vec<u8>)>) -> Seq<(Seq<u8>, Seq<u8>)> {
    Seq::new(v.len(), |i: int| if 0 <= i < v.len() {
        (v[i].0@, v[i].1@)
    } else {
        arbitrary()
    })
}

/// Relies on `toml::Value::as_table`, `toml::map::Map::iter` and
/// `toml::Value::as_str`: a key's value as a table whose values are all
/// strings.  A TOML table's keys are unique.
#[verifier::external_body]
fn fm_string_table_field(b: &[u8], key: &[u8]) -> (r: Option<Vec<(Vec<u8>, Vec<u8>)>>)
    ensures
        match r {
            Option::Some(v) => fm_string_table_of(b@, key@) == Option::Some(pairs_view(v@))
                && (forall|i: int, j: int|
                0 <= i < j < v@.len() ==> v@[i].0@ != v@[j].0@),
            Option::None => fm_string_table_of(b@, key@) is None,
        },
{
    let s = core::str::from_utf8(b).ok()?;
    let k = core::str::from_utf8(key).ok()?;
    let t: toml::Table = s.parse().ok()?;
    t.get(k)?.as_table()?.iter().map(
        |(n, v)| v.as_str().map(|x| (n.as_bytes().to_vec(), x.as_bytes().to_vec())),
    ).collect::<Option<Vec<_>>>()
}

/// Relies on `toml::map::Map::get`, `toml::Value::as_str` and
/// `toml::Value::as_table`: the bibliography path, given either as a
/// string or as a table with a string `path` entry.
#[verifier::external_body]
fn fm_bibliography_field(b: &[u8]) -> (r: Option<Option<Vec<u8>>>)
    ensures
        match r {
            Option::Some(inner) => fm_bib_of(b@) == Option::Some(opt_bytes(inner)),
            Option::None => fm_bib_of(b@) is None,
        },
{
    let s = core::str::from_utf8(b).ok()?;
    let t: toml::Table = s.parse().ok()?;
    let v = t.get("bibliography")?;
    Some(
        match v {
            toml::Value::String(p) => Some(p.as_bytes().to_vec()),
            toml::Value::Table(tb) => tb.get("path").and_then(|p| p.as_str()).map(
                |x| x.as_bytes().to_vec(),
            ),
            _ => None,
        },
    )
}

// ---------------------------------------------------------------------------
// Verified assembly
// ---------------------------------------------------------------------------

/// The macro table built from name/template pairs: each template's
/// argument count is the largest placeholder number it holds.
pub open spec fn spec_macro_pairs(raw: Seq<(Seq<u8>, Seq<u8>)>) -> Seq<(Seq<u8>, SpecMacro)> {
    Seq::new(raw.len(), |i: int| if 0 <= i < raw.len() {
        (raw[i].0, SpecMacro { arg_count: spec_count_args(raw[i].1, 0) as usize, template: raw[i].1 })
    } else {
        arbitrary()
    })
}

/// Whether the front-matter table has the types the configuration
/// expects.
pub open spec fn spec_front_ok(front: Seq<u8>) -> bool {
    &&& toml_source_ok(front)
    &&& (fm_has(front, crate::lits::lit_fm_title()) ==> fm_string_of(
        front,
        crate::lits::lit_fm_title(),
    ) is Some)
    &&& (fm_has(front, crate::lits::lit_fm_author()) ==> fm_string_of(
        front,
        crate::lits::lit_fm_author(),
    ) is Some)
    &&& (fm_has(front, crate::lits::lit_fm_date()) ==> fm_string_of(
        front,
        crate::lits::lit_fm_date(),
    ) is Some)
    &&& (fm_has(front, crate::lits::lit_fm_authors()) ==> fm_string_array_of(
        front,
        crate::lits::lit_fm_authors(),
    ) is Some)
    &&& (fm_has(front, crate::lits::lit_fm_macros()) ==> fm_string_table_of(
        front,
        crate::lits::lit_fm_macros(),
    ) is Some)
    &&& fm_bib_of(front) != Option::Some(Option::<Seq<u8>>::None)
}

/// The metadata named by a valid front-matter table.
pub open spec fn spec_metadata_of(front: Seq<u8>) -> SpecMetadata {
    let macros = match fm_string_table_of(front, crate::lits::lit_fm_macros()) {
        Option::Some(raw) => spec_macro_pairs(raw),
        Option::None => Seq::empty(),
    };
    let authors0 = match fm_string_array_of(front, crate::lits::lit_fm_authors()) {
        Option::Some(a) => a,
        Option::None => Seq::empty(),
    };
    let authors = if authors0.len() == 0 {
        match fm_string_of(front, crate::lits::lit_fm_author()) {
            Option::Some(a) => seq![a],
            Option::None => authors0,
        }
    } else {
        authors0
    };
    SpecMetadata {
        macros,
        bibliography_path: match fm_bib_of(front) {
            Option::Some(p) => p,
            Option::None => Option::None,
        },
        title: fm_string_of(front, crate::lits::lit_fm_title()),
        authors,
        date: fm_string_of(front, crate::lits::lit_fm_date()),
    }
}

/// An empty metadata value.
pub open spec fn spec_empty_metadata() -> SpecMetadata {
    SpecMetadata {
        macros: Seq::empty(),
        bibliography_path: Option::None,
        title: Option::None,
        authors: Seq::empty(),
        date: Option::None,
    }
}

fn build_metadata(front: &[u8]) -> (r: Result<Metadata, ParseError>)
    ensures
        match r {
            Result::Ok(m) => spec_front_ok(front@) && crate::ast::metadata_dv(m)
                == spec_metadata_of(front@),
            Result::Err(e) => !spec_front_ok(front@) && e matches ParseError::FrontMatter(_),
        },
{
    broadcast use crate::ast::lemma_bytes_deep_view;

    match fm_check(front) {
        Result::Err(msg) => {
            let mut full = crate::lits::bytes_invalid_toml();
            full.extend_from_slice(msg.as_slice());
            return Result::Err(ParseError::FrontMatter(full));
        },
        Result::Ok(()) => {},
    }
    let title_key = crate::lits::bytes_fm_title();
    let title = fm_string_field(front, title_key.as_slice());
    if fm_has_field(front, title_key.as_slice()) && title.is_none() {
        return Result::Err(ParseError::FrontMatter(crate::lits::bytes_invalid_toml()));
    }
    let author_key = crate::lits::bytes_fm_author();
    let author = fm_string_field(front, author_key.as_slice());
    if fm_has_field(front, author_key.as_slice()) && author.is_none() {
        return Result::Err(ParseError::FrontMatter(crate::lits::bytes_invalid_toml()));
    }
    let date_key = crate::lits::bytes_fm_date();
    let date = fm_string_field(front, date_key.as_slice());
    if fm_has_field(front, date_key.as_slice()) && date.is_none() {
        return Result::Err(ParseError::FrontMatter(crate::lits::bytes_invalid_toml()));
    }
    let authors_key = crate::lits::bytes_fm_authors();
    let authors_arr = fm_string_array_field(front, authors_key.as_slice());
    if fm_has_field(front, authors_key.as_slice()) && authors_arr.is_none() {
        return Result::Err(ParseError::FrontMatter(crate::lits::bytes_invalid_toml()));
    }
    let macros_key = crate::lits::bytes_fm_macros();
    let macro_pairs = fm_string_table_field(front, macros_key.as_slice());
    if fm_has_field(front, macros_key.as_slice()) && macro_pairs.is_none() {
        return Result::Err(ParseError::FrontMatter(crate::lits::bytes_invalid_toml()));
    }
    let bib = fm_bibliography_field(front);
    let bibliography_path: Option<Vec<u8>> = match bib {
        Option::Some(inner) => {
            match inner {
                Option::Some(p) => Option::Some(p),
                Option::None => {
                    return Result::Err(
                        ParseError::FrontMatter(crate::lits::bytes_invalid_toml()),
                    );
                },
            }
        },
        Option::None => Option::None,
    };
    let mut macros: StrMap<Macro> = StrMap::new();
    match macro_pairs {
        Option::Some(pairs) => {
            let ghost raw = pairs_view(pairs@);
            let ghost target = spec_macro_pairs(raw);
            let mut i: usize = 0;
            while i < pairs.len()
                invariant
                    0 <= i <= pairs@.len(),
                    raw == pairs_view(pairs@),
                    target == spec_macro_pairs(raw),
                    target.len() == pairs@.len(),
                    forall|a: int, b: int|
                        0 <= a < b < pairs@.len() ==> pairs@[a].0@ != pairs@[b].0@,
                    macros.pairs() =~= target.subrange(0, i as int),
                decreases pairs@.len() - i,
            {
                let name = crate::ast::copy_bytes(&pairs[i].0);
                let template = crate::ast::copy_bytes(&pairs[i].1);
                let arg_count = count_macro_args(template.as_slice());
                let ghost before = macros.pairs();
                proof {
                    assert forall|j: int| 0 <= j < before.len() implies before[j].0
                        != name@ by {
                        assert(before[j] == target[j]);
                        assert(target[j].0 == pairs@[j].0@);
                    }
                    StrMap::<Macro>::lemma_put_is_push(
                        before,
                        name@,
                        SpecMacro { arg_count, template: template@ },
                    );
                }
                let m = Macro { arg_count, template };
                macros.insert(name, m);
                proof {
                    assert(macros.pairs() =~= target.subrange(0, i + 1));
                }
                i += 1;
            }
            proof {
                assert(macros.pairs() =~= target);
            }
        },
        Option::None => {
            proof {
                assert(macros.pairs() =~= Seq::<(Seq<u8>, SpecMacro)>::empty());
            }
        },
    }
    let authors: Vec<Vec<u8>> = match authors_arr {
        Option::Some(a) => {
            if a.len() == 0 {
                match author {
                    Option::Some(one) => {
                        let mut v: Vec<Vec<u8>> = Vec::new();
                        v.push(one);
                        v
                    },
                    Option::None => a,
                }
            } else {
                a
            }
        },
        Option::None => {
            match author {
                Option::Some(one) => {
                    let mut v: Vec<Vec<u8>> = Vec::new();
                    v.push(one);
                    v
                },
                Option::None => Vec::new(),
            }
        },
    };
    let m = Metadata { macros, bibliography_path, title, authors, date };
    proof {
        assert(bytes_list(m.authors@) =~= spec_metadata_of(front@).authors);
        assert(crate::ast::metadata_dv(m) == spec_metadata_of(front@)) by {
            assert(m.macros.pairs() =~= spec_metadata_of(front@).macros);
        }
    }
    Result::Ok(m)
}

/// How the input splits around its front matter.
pub enum FrontSplit {
    /// No front matter: the whole input is content.
    Absent,
    /// An opening delimiter without a closing one.
    Unclosed,
    /// A front-matter table and the content after it.
    Found { front: Seq<u8>, content: Seq<u8> },
}

pub open spec fn spec_front_split(input: Seq<u8>) -> FrontSplit {
    let t = ws_trim_start(input);
    if !starts_with(t, crate::lits::lit_plus3()) {
        FrontSplit::Absent
    } else {
        let after = t.skip(3);
        match spec_find(after, crate::lits::lit_nl_plus3(), 0) {
            Option::Some(p) => if 0 <= p && p + 4 <= after.len() {
                FrontSplit::Found {
                    front: after.subrange(0, p),
                    content: strip_leading_nl(after.skip(p + 4)),
                }
            } else {
                FrontSplit::Unclosed
            },
            Option::None => FrontSplit::Unclosed,
        }
    }
}

/// Parse a complete document: the front matter, then the block structure
/// of the remaining content.
pub fn parse(input: &[u8]) -> (r: Result<Document, ParseError>)
    ensures
        match spec_front_split(input@) {
            FrontSplit::Absent => r matches Result::Ok(d) && crate::ast::metadata_dv(d.metadata)
                == spec_empty_metadata() && crate::ast::blocks_dv(d.blocks@)
                == crate::block::spec_parse_blocks(input@),
            FrontSplit::Unclosed => r matches Result::Err(e) && e matches ParseError::FrontMatter(
                _,
            ),
            FrontSplit::Found { front, content } => {
                if spec_front_ok(front) {
                    r matches Result::Ok(d) && crate::ast::metadata_dv(d.metadata)
                        == spec_metadata_of(front) && crate::ast::blocks_dv(d.blocks@)
                        == crate::block::spec_parse_blocks(content)
                } else {
                    r matches Result::Err(e) && e matches ParseError::FrontMatter(_)
                }
            },
        },
{
    let t = do_ws_trim_start(input);
    if !crate::text::begins_with(t, crate::lits::bytes_plus3().as_slice()) {
        let blocks = crate::block::parse_blocks(input);
        let mut macros: StrMap<Macro> = StrMap::new();
        proof {
            assert(macros.pairs() =~= Seq::<(Seq<u8>, SpecMacro)>::empty());
            assert(bytes_list(Seq::<Vec<u8>>::empty()) =~= Seq::<Seq<u8>>::empty());
        }
        let metadata = Metadata {
            macros,
            bibliography_path: Option::None,
            title: Option::None,
            authors: Vec::new(),
            date: Option::None,
        };
        return Result::Ok(Document { metadata, blocks });
    }
    let after = vstd::slice::slice_subrange(t, 3, t.len());
    proof {
        assert(after@ =~= ws_trim_start(input@).skip(3));
    }
    let nl3 = crate::lits::bytes_nl_plus3();
    match find_sub(after, nl3.as_slice(), 0) {
        Option::None => Result::Err(
            ParseError::FrontMatter(crate::lits::bytes_unclosed_fm()),
        ),
        Option::Some(p) => {
            let an = after.len();
            assert(p + 4 <= an);
            let front = vstd::slice::slice_subrange(after, 0, p);
            let content = do_strip_leading_nl(
                vstd::slice::slice_subrange(after, p + 4, an),
            );
            proof {
                assert(after@.skip(p + 4) =~= after@.subrange(p + 4, after@.len() as int));
            }
            match build_metadata(front) {
                Result::Err(e) => Result::Err(e),
                Result::Ok(metadata) => {
                    let blocks = crate::block::parse_blocks(content);
                    Result::Ok(Document { metadata, blocks })
                },
            }
        },
    }
}

} // verus!
