//! The resolution driver: configuration and the ordered passes that turn
//! a parsed document into a fully resolved one.

use vstd::prelude::*;
use crate::ast::{BibEntry, Document, Inline, LabelInfo};
use crate::strmap::StrMap;

verus! {

/// Configuration for resolution.
#[derive(Debug, Clone, PartialEq, Eq)]
pub struct ResolveConfig {
    /// Base path for resolving relative bibliography paths; used by the
    /// caller that reads the bibliography file.
    pub base_path: Option<Vec<u8>>,
    /// Fail on citations whose key the bibliography lacks.
    pub strict_citations: bool,
    /// Fail on references to labels the document does not define.
    pub strict_references: bool,
}

impl Default for ResolveConfig {
    fn default() -> (r: Self)
        ensures
            r.base_path is None,
            !r.strict_citations,
            !r.strict_references,
    {
        ResolveConfig { base_path: Option::None, strict_citations: false, strict_references: false }
    }
}

/// A resolved document: the rewritten tree plus the side tables built
/// during resolution.
#[derive(Debug)]
pub struct ResolvedDocument {
    pub document: Document,
    pub labels: StrMap<LabelInfo>,
    pub citations: StrMap<BibEntry>,
    pub footnotes: StrMap<Vec<Inline>>,
    pub section_numbers: StrMap<Vec<u8>>,
    pub env_numbers: StrMap<u32>,
}

/// Resolve a parsed document against a bibliography: expand macros,
/// assign numbers, build the label registry, collect footnotes, resolve
/// references and validate citations, in that order.
pub fn resolve(
    document: Document,
    bibliography: StrMap<BibEntry>,
    config: &ResolveConfig,
) -> (r: Result<ResolvedDocument, crate::error::Error>)
    ensures
        ({
            let m = crate::ast::metadata_dv(document.metadata);
            let b1 = crate::expand::spec_expand_blocks(
                crate::ast::blocks_dv(document.blocks@),
                m.macros,
            );
            let acc = crate::numbering::num_blocks(crate::numbering::init_acc(), b1);
            match crate::references::spec_label_registry(b1, acc.sec, acc.env) {
                Result::Err(l) => r matches Result::Err(e) && (e matches
                    crate::error::Error::Resolution(
                    crate::error::ResolutionError::DuplicateLabel(dl),
                ) && dl@ == l),
                Result::Ok(labels) => match crate::references::res_blocks(
                    b1,
                    labels,
                    config.strict_references,
                ) {
                    Result::Err(l) => r matches Result::Err(e) && (e matches
                        crate::error::Error::Resolution(
                        crate::error::ResolutionError::UnknownReference(ul),
                    ) && ul@ == l),
                    Result::Ok(b2) => {
                        let used = crate::citations::key_occs(b2, true);
                        if config.strict_citations && (exists|k: Seq<u8>|
                            used.contains(k) && !bibliography@.contains_key(k)) {
                            r matches Result::Err(e) && (e matches
                                crate::error::Error::Resolution(
                                crate::error::ResolutionError::UnknownCitation(ck),
                            ) && crate::citations::least_missing_key(used, bibliography@, ck@))
                        } else {
                            r matches Result::Ok(rd) && ({
                                &&& rd.document.metadata == document.metadata
                                &&& crate::ast::blocks_dv(rd.document.blocks@) == b2
                                &&& rd.labels@ == labels
                                &&& rd.citations == bibliography
                                &&& rd.footnotes@ == crate::references::fnw_blocks(
                                    crate::references::FnAcc { counter: 1, map: Map::empty() },
                                    b1,
                                ).map
                                &&& rd.section_numbers@ == acc.sec
                                &&& rd.env_numbers@ == acc.env
                            })
                        }
                    },
                },
            }
        }),
{
    let doc = match crate::expand::expand_macros(document) {
        Result::Ok(d) => d,
        Result::Err(e) => {
            proof {
                assert(false);
            }
            return Result::Err(e);
        },
    };
    let (section_numbers, env_numbers) = crate::numbering::assign_numbers(&doc);
    let labels = match crate::references::build_label_registry(
        &doc,
        &section_numbers,
        &env_numbers,
    ) {
        Result::Ok(l) => l,
        Result::Err(e) => {
            return Result::Err(e);
        },
    };
    let footnotes = match crate::references::collect_footnotes(&doc) {
        Result::Ok(f) => f,
        Result::Err(e) => {
            proof {
                assert(false);
            }
            return Result::Err(e);
        },
    };
    let doc = match crate::references::resolve_references(doc, &labels, config) {
        Result::Ok(d) => d,
        Result::Err(e) => {
            return Result::Err(e);
        },
    };
    let doc = match crate::citations::resolve_citations(doc, &bibliography, config) {
        Result::Ok(d) => d,
        Result::Err(e) => {
            return Result::Err(e);
        },
    };
    Result::Ok(
        ResolvedDocument {
            document: doc,
            labels,
            citations: bibliography,
            footnotes,
            section_numbers,
            env_numbers,
        },
    )
}

} // verus!
