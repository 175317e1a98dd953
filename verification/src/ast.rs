//! Abstract syntax tree for the extended Markdown dialect, together with
//! the mathematical models (`Spec*` types) that the contracts speak of.
//!
//! Text is carried as UTF-8 bytes (`Vec<u8>`); its model is `Seq<u8>`.

use vstd::prelude::*;

verus! {

// ---------------------------------------------------------------------------
// Executable types
// ---------------------------------------------------------------------------

/// A user-defined macro: `arg_count` arguments, substituted for `#1..#N`
/// in `template`.
#[derive(Debug, Clone, PartialEq, Eq)]
pub struct Macro {
    pub arg_count: usize,
    pub template: Vec<u8>,
}

/// Environment kinds recognized by `::: kind` fences.
#[derive(Debug, Clone, PartialEq, Eq)]
pub enum EnvironmentKind {
    Theorem,
    Lemma,
    Proposition,
    Corollary,
    Definition,
    Example,
    Remark,
    Proof,
    Figure,
    Table,
    Algorithm,
    Abstract,
    Note,
    Warning,
    Quote,
    Conjecture,
    Axiom,
    Exercise,
    Solution,
    Case,
    /// An unrecognized fence keyword, kept verbatim (lowercased).
    Custom(Vec<u8>),
}

/// Table column alignment.
#[derive(Debug, Clone, Copy, PartialEq, Eq)]
pub enum Alignment {
    Left,
    Center,
    Right,
}

/// Citation style.
#[derive(Debug, Clone, Copy, PartialEq, Eq)]
pub enum CitationStyle {
    Parenthetical,
    Textual,
    AuthorOnly,
    YearOnly,
}

/// A citation with one or more keys and an optional locator.
#[derive(Debug, Clone, PartialEq, Eq)]
pub struct Citation {
    pub keys: Vec<Vec<u8>>,
    pub style: CitationStyle,
    pub prefix: Option<Vec<u8>>,
    pub locator: Option<Vec<u8>>,
}

/// Footnote variants.
#[derive(Debug)]
pub enum FootnoteKind {
    Inline(Vec<Inline>),
    Reference(Vec<u8>),
}

/// Inline-level elements.
#[derive(Debug)]
pub enum Inline {
    Text(Vec<u8>),
    Emphasis(Vec<Inline>),
    Strong(Vec<Inline>),
    Strikethrough(Vec<Inline>),
    Subscript(Vec<Inline>),
    Superscript(Vec<Inline>),
    SmallCaps(Vec<Inline>),
    Code(Vec<u8>),
    Link { url: Vec<u8>, title: Option<Vec<u8>>, content: Vec<Inline> },
    Image { url: Vec<u8>, alt: Vec<u8>, title: Option<Vec<u8>> },
    InlineMath(Vec<u8>),
    Citation(Citation),
    Reference { label: Vec<u8>, resolved: Option<Vec<u8>> },
    Footnote(FootnoteKind),
    SoftBreak,
    HardBreak,
    RawHtml(Vec<u8>),
}

/// A list item: nested blocks plus an optional checkbox state.
#[derive(Debug)]
pub struct ListItem {
    pub content: Vec<Block>,
    pub checked: Option<bool>,
}

/// A description-list item: a term and its definition.
#[derive(Debug)]
pub struct DescriptionItem {
    pub term: Vec<Inline>,
    pub description: Vec<Block>,
}

/// Block-level elements.
#[derive(Debug)]
pub enum Block {
    Paragraph(Vec<Inline>),
    Heading { level: u8, content: Vec<Inline>, label: Option<Vec<u8>> },
    CodeBlock { language: Option<Vec<u8>>, content: Vec<u8> },
    BlockQuote(Vec<Block>),
    List { ordered: bool, start: Option<u32>, items: Vec<ListItem> },
    ThematicBreak,
    DisplayMath { content: Vec<u8>, label: Option<Vec<u8>> },
    Environment {
        kind: EnvironmentKind,
        label: Option<Vec<u8>>,
        content: Vec<Block>,
        caption: Option<Vec<Inline>>,
    },
    TableOfContents,
    RawHtml(Vec<u8>),
    Table {
        headers: Vec<Vec<Inline>>,
        alignments: Vec<Alignment>,
        rows: Vec<Vec<Vec<Inline>>>,
        label: Option<Vec<u8>>,
        caption: Option<Vec<Inline>>,
    },
    DescriptionList(Vec<DescriptionItem>),
    PageBreak,
    Abstract(Vec<Block>),
    AppendixMarker,
}

/// Document metadata from the front matter.
#[derive(Debug, Clone, PartialEq, Eq)]
pub struct Metadata {
    pub macros: crate::strmap::StrMap<Macro>,
    pub bibliography_path: Option<Vec<u8>>,
    pub title: Option<Vec<u8>>,
    pub authors: Vec<Vec<u8>>,
    pub date: Option<Vec<u8>>,
}

/// A complete parsed document.
#[derive(Debug)]
pub struct Document {
    pub metadata: Metadata,
    pub blocks: Vec<Block>,
}

/// Information about a label target.
#[derive(Debug, Clone, PartialEq, Eq)]
pub struct LabelInfo {
    pub display: Vec<u8>,
    pub html_id: Vec<u8>,
}

/// A bibliography entry.
#[derive(Debug, Clone, PartialEq, Eq)]
pub struct BibEntry {
    pub key: Vec<u8>,
    pub entry_type: Vec<u8>,
    pub title: Option<Vec<u8>>,
    pub authors: Vec<Vec<u8>>,
    pub year: Option<Vec<u8>>,
    pub journal: Option<Vec<u8>>,
    pub booktitle: Option<Vec<u8>>,
    pub publisher: Option<Vec<u8>>,
    pub volume: Option<Vec<u8>>,
    pub number: Option<Vec<u8>>,
    pub pages: Option<Vec<u8>>,
    pub doi: Option<Vec<u8>>,
    pub url: Option<Vec<u8>>,
    pub extra: crate::strmap::StrMap<Vec<u8>>,
}

// ---------------------------------------------------------------------------
// Spec models
// ---------------------------------------------------------------------------

/// Model of `Macro`.
pub struct SpecMacro {
    pub arg_count: usize,
    pub template: Seq<u8>,
}

/// Model of `EnvironmentKind`.
pub enum SpecEnvKind {
    Theorem,
    Lemma,
    Proposition,
    Corollary,
    Definition,
    Example,
    Remark,
    Proof,
    Figure,
    Table,
    Algorithm,
    Abstract,
    Note,
    Warning,
    Quote,
    Conjecture,
    Axiom,
    Exercise,
    Solution,
    Case,
    Custom(Seq<u8>),
}

/// Model of `Citation`.
pub struct SpecCitation {
    pub keys: Seq<Seq<u8>>,
    pub style: CitationStyle,
    pub prefix: Option<Seq<u8>>,
    pub locator: Option<Seq<u8>>,
}

/// Model of `FootnoteKind`.
pub enum SpecFootnote {
    Inline(Seq<SpecInline>),
    Reference(Seq<u8>),
}

/// Model of `Inline`.
pub enum SpecInline {
    Text(Seq<u8>),
    Emphasis(Seq<SpecInline>),
    Strong(Seq<SpecInline>),
    Strikethrough(Seq<SpecInline>),
    Subscript(Seq<SpecInline>),
    Superscript(Seq<SpecInline>),
    SmallCaps(Seq<SpecInline>),
    Code(Seq<u8>),
    Link { url: Seq<u8>, title: Option<Seq<u8>>, content: Seq<SpecInline> },
    Image { url: Seq<u8>, alt: Seq<u8>, title: Option<Seq<u8>> },
    InlineMath(Seq<u8>),
    Citation(SpecCitation),
    Reference { label: Seq<u8>, resolved: Option<Seq<u8>> },
    Footnote(SpecFootnote),
    SoftBreak,
    HardBreak,
    RawHtml(Seq<u8>),
}

/// Model of `ListItem`.
pub struct SpecListItem {
    pub content: Seq<SpecBlock>,
    pub checked: Option<bool>,
}

/// Model of `DescriptionItem`.
pub struct SpecDescriptionItem {
    pub term: Seq<SpecInline>,
    pub description: Seq<SpecBlock>,
}

/// Model of `Block`.
pub enum SpecBlock {
    Paragraph(Seq<SpecInline>),
    Heading { level: u8, content: Seq<SpecInline>, label: Option<Seq<u8>> },
    CodeBlock { language: Option<Seq<u8>>, content: Seq<u8> },
    BlockQuote(Seq<SpecBlock>),
    List { ordered: bool, start: Option<u32>, items: Seq<SpecListItem> },
    ThematicBreak,
    DisplayMath { content: Seq<u8>, label: Option<Seq<u8>> },
    Environment {
        kind: SpecEnvKind,
        label: Option<Seq<u8>>,
        content: Seq<SpecBlock>,
        caption: Option<Seq<SpecInline>>,
    },
    TableOfContents,
    RawHtml(Seq<u8>),
    Table {
        headers: Seq<Seq<SpecInline>>,
        alignments: Seq<Alignment>,
        rows: Seq<Seq<Seq<SpecInline>>>,
        label: Option<Seq<u8>>,
        caption: Option<Seq<SpecInline>>,
    },
    DescriptionList(Seq<SpecDescriptionItem>),
    PageBreak,
    Abstract(Seq<SpecBlock>),
    AppendixMarker,
}

/// Model of `LabelInfo`.
pub struct SpecLabelInfo {
    pub display: Seq<u8>,
    pub html_id: Seq<u8>,
}

/// Model of `BibEntry`.
pub struct SpecBibEntry {
    pub key: Seq<u8>,
    pub entry_type: Seq<u8>,
    pub title: Option<Seq<u8>>,
    pub authors: Seq<Seq<u8>>,
    pub year: Option<Seq<u8>>,
    pub journal: Option<Seq<u8>>,
    pub booktitle: Option<Seq<u8>>,
    pub publisher: Option<Seq<u8>>,
    pub volume: Option<Seq<u8>>,
    pub number: Option<Seq<u8>>,
    pub pages: Option<Seq<u8>>,
    pub doi: Option<Seq<u8>>,
    pub url: Option<Seq<u8>>,
    pub extra: Map<Seq<u8>, Seq<u8>>,
}

/// Model of `Metadata`: the macro table keeps its entry order.
pub struct SpecMetadata {
    pub macros: Seq<(Seq<u8>, SpecMacro)>,
    pub bibliography_path: Option<Seq<u8>>,
    pub title: Option<Seq<u8>>,
    pub authors: Seq<Seq<u8>>,
    pub date: Option<Seq<u8>>,
}

/// Model of `Document`.
pub struct SpecDocument {
    pub metadata: SpecMetadata,
    pub blocks: Seq<SpecBlock>,
}

// ---------------------------------------------------------------------------
// View functions connecting executable values to their models
// ---------------------------------------------------------------------------

pub open spec fn opt_bytes(o: Option<Vec<u8>>) -> Option<Seq<u8>> {
    match o {
        Option::Some(v) => Option::Some(v@),
        Option::None => Option::None,
    }
}

pub open spec fn bytes_list(v: Seq<Vec<u8>>) -> Seq<Seq<u8>> {
    Seq::new(v.len(), |i: int| v[i]@)
}

pub open spec fn env_kind_dv(k: EnvironmentKind) -> SpecEnvKind {
    match k {
        EnvironmentKind::Theorem => SpecEnvKind::Theorem,
        EnvironmentKind::Lemma => SpecEnvKind::Lemma,
        EnvironmentKind::Proposition => SpecEnvKind::Proposition,
        EnvironmentKind::Corollary => SpecEnvKind::Corollary,
        EnvironmentKind::Definition => SpecEnvKind::Definition,
        EnvironmentKind::Example => SpecEnvKind::Example,
        EnvironmentKind::Remark => SpecEnvKind::Remark,
        EnvironmentKind::Proof => SpecEnvKind::Proof,
        EnvironmentKind::Figure => SpecEnvKind::Figure,
        EnvironmentKind::Table => SpecEnvKind::Table,
        EnvironmentKind::Algorithm => SpecEnvKind::Algorithm,
        EnvironmentKind::Abstract => SpecEnvKind::Abstract,
        EnvironmentKind::Note => SpecEnvKind::Note,
        EnvironmentKind::Warning => SpecEnvKind::Warning,
        EnvironmentKind::Quote => SpecEnvKind::Quote,
        EnvironmentKind::Conjecture => SpecEnvKind::Conjecture,
        EnvironmentKind::Axiom => SpecEnvKind::Axiom,
        EnvironmentKind::Exercise => SpecEnvKind::Exercise,
        EnvironmentKind::Solution => SpecEnvKind::Solution,
        EnvironmentKind::Case => SpecEnvKind::Case,
        EnvironmentKind::Custom(name) => SpecEnvKind::Custom(name@),
    }
}

pub open spec fn citation_dv(c: Citation) -> SpecCitation {
    SpecCitation {
        keys: bytes_list(c.keys@),
        style: c.style,
        prefix: opt_bytes(c.prefix),
        locator: opt_bytes(c.locator),
    }
}

pub open spec fn inline_dv(i: Inline) -> SpecInline
    decreases i,
{
    match i {
        Inline::Text(t) => SpecInline::Text(t@),
        Inline::Emphasis(v) => SpecInline::Emphasis(inlines_dv(v@)),
        Inline::Strong(v) => SpecInline::Strong(inlines_dv(v@)),
        Inline::Strikethrough(v) => SpecInline::Strikethrough(inlines_dv(v@)),
        Inline::Subscript(v) => SpecInline::Subscript(inlines_dv(v@)),
        Inline::Superscript(v) => SpecInline::Superscript(inlines_dv(v@)),
        Inline::SmallCaps(v) => SpecInline::SmallCaps(inlines_dv(v@)),
        Inline::Code(t) => SpecInline::Code(t@),
        Inline::Link { url, title, content } => SpecInline::Link {
            url: url@,
            title: opt_bytes(title),
            content: inlines_dv(content@),
        },
        Inline::Image { url, alt, title } => SpecInline::Image {
            url: url@,
            alt: alt@,
            title: opt_bytes(title),
        },
        Inline::InlineMath(t) => SpecInline::InlineMath(t@),
        Inline::Citation(c) => SpecInline::Citation(citation_dv(c)),
        Inline::Reference { label, resolved } => SpecInline::Reference {
            label: label@,
            resolved: opt_bytes(resolved),
        },
        Inline::Footnote(f) => SpecInline::Footnote(
            match f {
                FootnoteKind::Inline(v) => SpecFootnote::Inline(inlines_dv(v@)),
                FootnoteKind::Reference(id) => SpecFootnote::Reference(id@),
            },
        ),
        Inline::SoftBreak => SpecInline::SoftBreak,
        Inline::HardBreak => SpecInline::HardBreak,
        Inline::RawHtml(t) => SpecInline::RawHtml(t@),
    }
}

pub open spec fn inlines_dv(v: Seq<Inline>) -> Seq<SpecInline>
    decreases v,
{
    Seq::new(v.len(), |i: int| if 0 <= i < v.len() {
        inline_dv(v[i])
    } else {
        arbitrary()
    })
}

pub open spec fn opt_inlines_dv(o: Option<Vec<Inline>>) -> Option<Seq<SpecInline>> {
    match o {
        Option::Some(v) => Option::Some(inlines_dv(v@)),
        Option::None => Option::None,
    }
}

pub open spec fn block_dv(b: Block) -> SpecBlock
    decreases b,
{
    match b {
        Block::Paragraph(v) => SpecBlock::Paragraph(inlines_dv(v@)),
        Block::Heading { level, content, label } => SpecBlock::Heading {
            level,
            content: inlines_dv(content@),
            label: opt_bytes(label),
        },
        Block::CodeBlock { language, content } => SpecBlock::CodeBlock {
            language: opt_bytes(language),
            content: content@,
        },
        Block::BlockQuote(v) => SpecBlock::BlockQuote(blocks_dv(v@)),
        Block::List { ordered, start, items } => SpecBlock::List {
            ordered,
            start,
            items: items_dv(items@),
        },
        Block::ThematicBreak => SpecBlock::ThematicBreak,
        Block::DisplayMath { content, label } => SpecBlock::DisplayMath {
            content: content@,
            label: opt_bytes(label),
        },
        Block::Environment { kind, label, content, caption } => SpecBlock::Environment {
            kind: env_kind_dv(kind),
            label: opt_bytes(label),
            content: blocks_dv(content@),
            caption: opt_inlines_dv(caption),
        },
        Block::TableOfContents => SpecBlock::TableOfContents,
        Block::RawHtml(t) => SpecBlock::RawHtml(t@),
        Block::Table { headers, alignments, rows, label, caption } => SpecBlock::Table {
            headers: cells_dv(headers@),
            alignments: alignments@,
            rows: rows_dv(rows@),
            label: opt_bytes(label),
            caption: opt_inlines_dv(caption),
        },
        Block::DescriptionList(items) => SpecBlock::DescriptionList(desc_items_dv(items@)),
        Block::PageBreak => SpecBlock::PageBreak,
        Block::Abstract(v) => SpecBlock::Abstract(blocks_dv(v@)),
        Block::AppendixMarker => SpecBlock::AppendixMarker,
    }
}

pub open spec fn blocks_dv(v: Seq<Block>) -> Seq<SpecBlock>
    decreases v,
{
    Seq::new(v.len(), |i: int| if 0 <= i < v.len() {
        block_dv(v[i])
    } else {
        arbitrary()
    })
}

pub open spec fn items_dv(v: Seq<ListItem>) -> Seq<SpecListItem>
    decreases v,
{
    Seq::new(v.len(), |i: int| if 0 <= i < v.len() {
        list_item_dv(v[i])
    } else {
        arbitrary()
    })
}

pub open spec fn cells_dv(v: Seq<Vec<Inline>>) -> Seq<Seq<SpecInline>>
    decreases v,
{
    Seq::new(v.len(), |i: int| if 0 <= i < v.len() {
        inlines_dv(v[i]@)
    } else {
        arbitrary()
    })
}

pub open spec fn rows_dv(v: Seq<Vec<Vec<Inline>>>) -> Seq<Seq<Seq<SpecInline>>>
    decreases v,
{
    Seq::new(v.len(), |i: int| if 0 <= i < v.len() {
        cells_dv(v[i]@)
    } else {
        arbitrary()
    })
}

pub open spec fn desc_items_dv(v: Seq<DescriptionItem>) -> Seq<SpecDescriptionItem>
    decreases v,
{
    Seq::new(v.len(), |i: int| if 0 <= i < v.len() {
        desc_item_dv(v[i])
    } else {
        arbitrary()
    })
}

pub open spec fn list_item_dv(it: ListItem) -> SpecListItem
    decreases it,
{
    SpecListItem { content: blocks_dv(it.content@), checked: it.checked }
}

pub open spec fn desc_item_dv(it: DescriptionItem) -> SpecDescriptionItem
    decreases it,
{
    SpecDescriptionItem {
        term: inlines_dv(it.term@),
        description: blocks_dv(it.description@),
    }
}

pub open spec fn macro_dv(m: Macro) -> SpecMacro {
    SpecMacro { arg_count: m.arg_count, template: m.template@ }
}

pub open spec fn metadata_dv(m: Metadata) -> SpecMetadata {
    SpecMetadata {
        macros: m.macros.pairs(),
        bibliography_path: opt_bytes(m.bibliography_path),
        title: opt_bytes(m.title),
        authors: bytes_list(m.authors@),
        date: opt_bytes(m.date),
    }
}

pub open spec fn document_dv(d: Document) -> SpecDocument {
    SpecDocument { metadata: metadata_dv(d.metadata), blocks: blocks_dv(d.blocks@) }
}

impl DeepView for Macro {
    type V = SpecMacro;

    open spec fn deep_view(&self) -> SpecMacro {
        macro_dv(*self)
    }
}

impl DeepView for Inline {
    type V = SpecInline;

    open spec fn deep_view(&self) -> SpecInline {
        inline_dv(*self)
    }
}

impl DeepView for Block {
    type V = SpecBlock;

    open spec fn deep_view(&self) -> SpecBlock {
        block_dv(*self)
    }
}

impl DeepView for LabelInfo {
    type V = SpecLabelInfo;

    open spec fn deep_view(&self) -> SpecLabelInfo {
        SpecLabelInfo { display: self.display@, html_id: self.html_id@ }
    }
}

impl DeepView for BibEntry {
    type V = SpecBibEntry;

    open spec fn deep_view(&self) -> SpecBibEntry {
        SpecBibEntry {
            key: self.key@,
            entry_type: self.entry_type@,
            title: opt_bytes(self.title),
            authors: bytes_list(self.authors@),
            year: opt_bytes(self.year),
            journal: opt_bytes(self.journal),
            booktitle: opt_bytes(self.booktitle),
            publisher: opt_bytes(self.publisher),
            volume: opt_bytes(self.volume),
            number: opt_bytes(self.number),
            pages: opt_bytes(self.pages),
            doi: opt_bytes(self.doi),
            url: opt_bytes(self.url),
            extra: self.extra@,
        }
    }
}

// ---------------------------------------------------------------------------
// Environment kinds: recognition, display names, numbering
// ---------------------------------------------------------------------------

/// The kind named by a (lowercased) fence keyword.
pub open spec fn spec_env_kind_from(s: Seq<u8>) -> SpecEnvKind {
    let t = crate::text::lower(s);
    if t == crate::lits::lit_theorem() || t == crate::lits::lit_thm() {
        SpecEnvKind::Theorem
    } else if t == crate::lits::lit_lemma() || t == crate::lits::lit_lem() {
        SpecEnvKind::Lemma
    } else if t == crate::lits::lit_proposition() || t == crate::lits::lit_prop() {
        SpecEnvKind::Proposition
    } else if t == crate::lits::lit_corollary() || t == crate::lits::lit_cor() {
        SpecEnvKind::Corollary
    } else if t == crate::lits::lit_definition() || t == crate::lits::lit_def() {
        SpecEnvKind::Definition
    } else if t == crate::lits::lit_example() || t == crate::lits::lit_ex() {
        SpecEnvKind::Example
    } else if t == crate::lits::lit_remark() || t == crate::lits::lit_rem() {
        SpecEnvKind::Remark
    } else if t == crate::lits::lit_proof() || t == crate::lits::lit_pf() {
        SpecEnvKind::Proof
    } else if t == crate::lits::lit_figure() || t == crate::lits::lit_fig() {
        SpecEnvKind::Figure
    } else if t == crate::lits::lit_table() || t == crate::lits::lit_tab() {
        SpecEnvKind::Table
    } else if t == crate::lits::lit_algorithm() || t == crate::lits::lit_algo() {
        SpecEnvKind::Algorithm
    } else if t == crate::lits::lit_abstract() || t == crate::lits::lit_abs() {
        SpecEnvKind::Abstract
    } else if t == crate::lits::lit_note() {
        SpecEnvKind::Note
    } else if t == crate::lits::lit_warning() || t == crate::lits::lit_caution() {
        SpecEnvKind::Warning
    } else if t == crate::lits::lit_quote() || t == crate::lits::lit_blockquote() {
        SpecEnvKind::Quote
    } else if t == crate::lits::lit_conjecture() || t == crate::lits::lit_conj() {
        SpecEnvKind::Conjecture
    } else if t == crate::lits::lit_axiom() || t == crate::lits::lit_ax() {
        SpecEnvKind::Axiom
    } else if t == crate::lits::lit_exercise() {
        SpecEnvKind::Exercise
    } else if t == crate::lits::lit_solution() || t == crate::lits::lit_sol() {
        SpecEnvKind::Solution
    } else if t == crate::lits::lit_case() {
        SpecEnvKind::Case
    } else {
        SpecEnvKind::Custom(t)
    }
}

/// Canonical display name of a kind.
pub open spec fn spec_display_name(k: SpecEnvKind) -> Seq<u8> {
    match k {
        SpecEnvKind::Theorem => crate::lits::lit_dn_theorem(),
        SpecEnvKind::Lemma => crate::lits::lit_dn_lemma(),
        SpecEnvKind::Proposition => crate::lits::lit_dn_proposition(),
        SpecEnvKind::Corollary => crate::lits::lit_dn_corollary(),
        SpecEnvKind::Definition => crate::lits::lit_dn_definition(),
        SpecEnvKind::Example => crate::lits::lit_dn_example(),
        SpecEnvKind::Remark => crate::lits::lit_dn_remark(),
        SpecEnvKind::Proof => crate::lits::lit_dn_proof(),
        SpecEnvKind::Figure => crate::lits::lit_dn_figure(),
        SpecEnvKind::Table => crate::lits::lit_dn_table(),
        SpecEnvKind::Algorithm => crate::lits::lit_dn_algorithm(),
        SpecEnvKind::Abstract => crate::lits::lit_dn_abstract(),
        SpecEnvKind::Note => crate::lits::lit_dn_note(),
        SpecEnvKind::Warning => crate::lits::lit_dn_warning(),
        SpecEnvKind::Quote => crate::lits::lit_dn_quote(),
        SpecEnvKind::Conjecture => crate::lits::lit_dn_conjecture(),
        SpecEnvKind::Axiom => crate::lits::lit_dn_axiom(),
        SpecEnvKind::Exercise => crate::lits::lit_dn_exercise(),
        SpecEnvKind::Solution => crate::lits::lit_dn_solution(),
        SpecEnvKind::Case => crate::lits::lit_dn_case(),
        SpecEnvKind::Custom(name) => name,
    }
}

/// Whether a kind is ever numbered.
pub open spec fn spec_env_numbered(k: SpecEnvKind) -> bool {
    !(k is Proof || k is Abstract || k is Note || k is Warning || k is Quote || k is Case)
}

/// The per-category counters of the numbering engine.
#[derive(Debug, Clone, Copy, PartialEq, Eq)]
pub enum EnvCategory {
    Theorem,
    Lemma,
    Definition,
    Example,
    Figure,
    Table,
    Algorithm,
}

/// The counter category a kind draws its number from, if any.
pub open spec fn spec_env_category(k: SpecEnvKind) -> Option<EnvCategory> {
    match k {
        SpecEnvKind::Theorem => Option::Some(EnvCategory::Theorem),
        SpecEnvKind::Proposition => Option::Some(EnvCategory::Theorem),
        SpecEnvKind::Corollary => Option::Some(EnvCategory::Theorem),
        SpecEnvKind::Lemma => Option::Some(EnvCategory::Lemma),
        SpecEnvKind::Definition => Option::Some(EnvCategory::Definition),
        SpecEnvKind::Example => Option::Some(EnvCategory::Example),
        SpecEnvKind::Remark => Option::Some(EnvCategory::Example),
        SpecEnvKind::Figure => Option::Some(EnvCategory::Figure),
        SpecEnvKind::Table => Option::Some(EnvCategory::Table),
        SpecEnvKind::Algorithm => Option::Some(EnvCategory::Algorithm),
        _ => Option::None,
    }
}

impl EnvironmentKind {
    /// Recognize an environment kind from a fence keyword,
    /// case-insensitively; unknown keywords yield `Custom`.
    pub fn from_str(s: &[u8]) -> (r: EnvironmentKind)
        ensures
            env_kind_dv(r) == spec_env_kind_from(s@),
    {
        let t = crate::text::to_lower(s);
        let ts = t.as_slice();
        if crate::text::eq_bytes(ts, crate::lits::bytes_theorem().as_slice())
            || crate::text::eq_bytes(ts, crate::lits::bytes_thm().as_slice()) {
            EnvironmentKind::Theorem
        } else if crate::text::eq_bytes(ts, crate::lits::bytes_lemma().as_slice())
            || crate::text::eq_bytes(ts, crate::lits::bytes_lem().as_slice()) {
            EnvironmentKind::Lemma
        } else if crate::text::eq_bytes(ts, crate::lits::bytes_proposition().as_slice())
            || crate::text::eq_bytes(ts, crate::lits::bytes_prop().as_slice()) {
            EnvironmentKind::Proposition
        } else if crate::text::eq_bytes(ts, crate::lits::bytes_corollary().as_slice())
            || crate::text::eq_bytes(ts, crate::lits::bytes_cor().as_slice()) {
            EnvironmentKind::Corollary
        } else if crate::text::eq_bytes(ts, crate::lits::bytes_definition().as_slice())
            || crate::text::eq_bytes(ts, crate::lits::bytes_def().as_slice()) {
            EnvironmentKind::Definition
        } else if crate::text::eq_bytes(ts, crate::lits::bytes_example().as_slice())
            || crate::text::eq_bytes(ts, crate::lits::bytes_ex().as_slice()) {
            EnvironmentKind::Example
        } else if crate::text::eq_bytes(ts, crate::lits::bytes_remark().as_slice())
            || crate::text::eq_bytes(ts, crate::lits::bytes_rem().as_slice()) {
            EnvironmentKind::Remark
        } else if crate::text::eq_bytes(ts, crate::lits::bytes_proof().as_slice())
            || crate::text::eq_bytes(ts, crate::lits::bytes_pf().as_slice()) {
            EnvironmentKind::Proof
        } else if crate::text::eq_bytes(ts, crate::lits::bytes_figure().as_slice())
            || crate::text::eq_bytes(ts, crate::lits::bytes_fig().as_slice()) {
            EnvironmentKind::Figure
        } else if crate::text::eq_bytes(ts, crate::lits::bytes_table().as_slice())
            || crate::text::eq_bytes(ts, crate::lits::bytes_tab().as_slice()) {
            EnvironmentKind::Table
        } else if crate::text::eq_bytes(ts, crate::lits::bytes_algorithm().as_slice())
            || crate::text::eq_bytes(ts, crate::lits::bytes_algo().as_slice()) {
            EnvironmentKind::Algorithm
        } else if crate::text::eq_bytes(ts, crate::lits::bytes_abstract().as_slice())
            || crate::text::eq_bytes(ts, crate::lits::bytes_abs().as_slice()) {
            EnvironmentKind::Abstract
        } else if crate::text::eq_bytes(ts, crate::lits::bytes_note().as_slice()) {
            EnvironmentKind::Note
        } else if crate::text::eq_bytes(ts, crate::lits::bytes_warning().as_slice())
            || crate::text::eq_bytes(ts, crate::lits::bytes_caution().as_slice()) {
            EnvironmentKind::Warning
        } else if crate::text::eq_bytes(ts, crate::lits::bytes_quote().as_slice())
            || crate::text::eq_bytes(ts, crate::lits::bytes_blockquote().as_slice()) {
            EnvironmentKind::Quote
        } else if crate::text::eq_bytes(ts, crate::lits::bytes_conjecture().as_slice())
            || crate::text::eq_bytes(ts, crate::lits::bytes_conj().as_slice()) {
            EnvironmentKind::Conjecture
        } else if crate::text::eq_bytes(ts, crate::lits::bytes_axiom().as_slice())
            || crate::text::eq_bytes(ts, crate::lits::bytes_ax().as_slice()) {
            EnvironmentKind::Axiom
        } else if crate::text::eq_bytes(ts, crate::lits::bytes_exercise().as_slice()) {
            EnvironmentKind::Exercise
        } else if crate::text::eq_bytes(ts, crate::lits::bytes_solution().as_slice())
            || crate::text::eq_bytes(ts, crate::lits::bytes_sol().as_slice()) {
            EnvironmentKind::Solution
        } else if crate::text::eq_bytes(ts, crate::lits::bytes_case().as_slice()) {
            EnvironmentKind::Case
        } else {
            EnvironmentKind::Custom(t)
        }
    }

    /// The canonical display name of this kind.
    pub fn display_name(&self) -> (r: Vec<u8>)
        ensures
            r@ == spec_display_name(env_kind_dv(*self)),
    {
        match self {
            EnvironmentKind::Theorem => crate::lits::bytes_dn_theorem(),
            EnvironmentKind::Lemma => crate::lits::bytes_dn_lemma(),
            EnvironmentKind::Proposition => crate::lits::bytes_dn_proposition(),
            EnvironmentKind::Corollary => crate::lits::bytes_dn_corollary(),
            EnvironmentKind::Definition => crate::lits::bytes_dn_definition(),
            EnvironmentKind::Example => crate::lits::bytes_dn_example(),
            EnvironmentKind::Remark => crate::lits::bytes_dn_remark(),
            EnvironmentKind::Proof => crate::lits::bytes_dn_proof(),
            EnvironmentKind::Figure => crate::lits::bytes_dn_figure(),
            EnvironmentKind::Table => crate::lits::bytes_dn_table(),
            EnvironmentKind::Algorithm => crate::lits::bytes_dn_algorithm(),
            EnvironmentKind::Abstract => crate::lits::bytes_dn_abstract(),
            EnvironmentKind::Note => crate::lits::bytes_dn_note(),
            EnvironmentKind::Warning => crate::lits::bytes_dn_warning(),
            EnvironmentKind::Quote => crate::lits::bytes_dn_quote(),
            EnvironmentKind::Conjecture => crate::lits::bytes_dn_conjecture(),
            EnvironmentKind::Axiom => crate::lits::bytes_dn_axiom(),
            EnvironmentKind::Exercise => crate::lits::bytes_dn_exercise(),
            EnvironmentKind::Solution => crate::lits::bytes_dn_solution(),
            EnvironmentKind::Case => crate::lits::bytes_dn_case(),
            EnvironmentKind::Custom(name) => {
                let mut r: Vec<u8> = Vec::new();
                r.extend_from_slice(name.as_slice());
                proof {
                    assert(r@ =~= name@);
                }
                r
            },
        }
    }

    /// Whether this environment is ever numbered.
    pub fn is_numbered(&self) -> (r: bool)
        ensures
            r == spec_env_numbered(env_kind_dv(*self)),
    {
        !(matches!(self, EnvironmentKind::Proof) || matches!(self, EnvironmentKind::Abstract)
            || matches!(self, EnvironmentKind::Note) || matches!(self, EnvironmentKind::Warning)
            || matches!(self, EnvironmentKind::Quote) || matches!(self, EnvironmentKind::Case))
    }

    /// The counter category this kind draws its number from, if any.
    pub fn category(&self) -> (r: Option<EnvCategory>)
        ensures
            r == spec_env_category(env_kind_dv(*self)),
    {
        match self {
            EnvironmentKind::Theorem => Option::Some(EnvCategory::Theorem),
            EnvironmentKind::Proposition => Option::Some(EnvCategory::Theorem),
            EnvironmentKind::Corollary => Option::Some(EnvCategory::Theorem),
            EnvironmentKind::Lemma => Option::Some(EnvCategory::Lemma),
            EnvironmentKind::Definition => Option::Some(EnvCategory::Definition),
            EnvironmentKind::Example => Option::Some(EnvCategory::Example),
            EnvironmentKind::Remark => Option::Some(EnvCategory::Example),
            EnvironmentKind::Figure => Option::Some(EnvCategory::Figure),
            EnvironmentKind::Table => Option::Some(EnvCategory::Table),
            EnvironmentKind::Algorithm => Option::Some(EnvCategory::Algorithm),
            _ => Option::None,
        }
    }
}

/// `Vec::deep_view` agrees with `inlines_dv` on inline sequences.
pub broadcast proof fn lemma_vec_inlines_dv(v: Vec<Inline>)
    ensures
        #[trigger] v.deep_view() == inlines_dv(v@),
{
    assert(v.deep_view() =~= inlines_dv(v@));
}

/// The deep view of a byte vector is its view.
pub broadcast proof fn lemma_bytes_deep_view(v: Vec<u8>)
    ensures
        #[trigger] v.deep_view() == v@,
{
    assert(v.deep_view() =~= v@);
}

/// Copy a byte string.
pub fn copy_bytes(v: &Vec<u8>) -> (r: Vec<u8>)
    ensures
        r@ == v@,
{
    vstd::slice::slice_to_vec(v.as_slice())
}

} // verus!
