//! Tests for the tokenizer, the inline parser and the block parser.

use markdown_academic::ast::{Alignment, Block, EnvironmentKind, Inline};
use markdown_academic::block::{is_table_delimiter, parse_blocks};
use markdown_academic::inline::parse_inlines;
use markdown_academic::lexer::{
    citation, display_math, environment_start, heading, inline_math, reference, Token,
};

fn contains_sub(hay: &[u8], needle: &[u8]) -> bool {
    if needle.len() > hay.len() {
        return false;
    }
    (0..=hay.len() - needle.len()).any(|i| &hay[i..i + needle.len()] == needle)
}

#[test]
fn test_parse_heading() {
    let blocks = parse_blocks(b"# Hello World");
    assert_eq!(blocks.len(), 1);
    if let Block::Heading { level, label, .. } = &blocks[0] {
        assert_eq!(*level, 1);
        assert_eq!(*label, None);
    } else {
        panic!("Expected heading");
    }
}

#[test]
fn test_parse_heading_with_label() {
    let blocks = parse_blocks(b"## Introduction {#sec:intro}");
    if let Block::Heading { level, label, .. } = &blocks[0] {
        assert_eq!(*level, 2);
        assert_eq!(label.as_deref(), Some(b"sec:intro".as_slice()));
    } else {
        panic!("Expected heading");
    }
}

#[test]
fn test_parse_code_block() {
    let blocks = parse_blocks(b"```rust\nfn main() {}\n```");
    if let Block::CodeBlock { language, content } = &blocks[0] {
        assert_eq!(language.as_deref(), Some(b"rust".as_slice()));
        assert_eq!(content.as_slice(), b"fn main() {}");
    } else {
        panic!("Expected code block");
    }
}

#[test]
fn test_parse_display_math() {
    let blocks = parse_blocks(b"$$\n\\int_0^1 x dx\n$$");
    if let Block::DisplayMath { content, label } = &blocks[0] {
        assert!(contains_sub(content, b"\\int"));
        assert_eq!(*label, None);
    } else {
        panic!("Expected display math");
    }
}

#[test]
fn test_parse_environment() {
    let blocks = parse_blocks(b"::: theorem {#thm:main}\nStatement here.\n:::");
    if let Block::Environment { kind, label, .. } = &blocks[0] {
        assert_eq!(*kind, EnvironmentKind::Theorem);
        assert_eq!(label.as_deref(), Some(b"thm:main".as_slice()));
    } else {
        panic!("Expected environment");
    }
}

#[test]
fn test_table_delimiter() {
    assert!(is_table_delimiter(b"| --- | :---: | ---: |"));
    assert!(is_table_delimiter(b"|---|:---:|---:|"));
    assert!(!is_table_delimiter(b"| not | a | delimiter |"));
}

#[test]
fn test_heading() {
    match heading(b"# Hello World") {
        Some(Token::Heading(level, content)) => {
            assert_eq!(level, 1);
            assert_eq!(content.as_slice(), b"Hello World");
        }
        _ => panic!("Expected heading token"),
    }
    match heading(b"### Level 3 ###") {
        Some(Token::Heading(level, content)) => {
            assert_eq!(level, 3);
            assert_eq!(content.as_slice(), b"Level 3");
        }
        _ => panic!("Expected heading token"),
    }
}

#[test]
fn lexer_test_inline_math() {
    let input = b"$E = mc^2$ rest";
    match inline_math(input) {
        Some((Token::InlineMath(content), used)) => {
            assert_eq!(content.as_slice(), b"E = mc^2");
            assert_eq!(used, input.len() - " rest".len());
        }
        _ => panic!("Expected inline math token"),
    }
}

#[test]
fn lexer_test_display_math() {
    let input = b"$$\\int_0^1 x dx$$";
    match display_math(input) {
        Some((Token::DisplayMath(content), used)) => {
            assert_eq!(content.as_slice(), b"\\int_0^1 x dx");
            assert_eq!(used, input.len());
        }
        _ => panic!("Expected display math token"),
    }
}

#[test]
fn lexer_test_citation() {
    match citation(b"[@knuth1984]") {
        Some((Token::Citation(cites), _)) => {
            assert_eq!(cites.len(), 1);
            assert_eq!(cites[0].key.as_slice(), b"knuth1984");
        }
        _ => panic!("Expected citation token"),
    }
    match citation(b"[@knuth1984, p. 42]") {
        Some((Token::Citation(cites), _)) => {
            assert_eq!(cites[0].locator.as_deref(), Some(b"p. 42".as_slice()));
        }
        _ => panic!("Expected citation token"),
    }
}

#[test]
fn lexer_test_reference() {
    let input = b"@eq:euler";
    match reference(input) {
        Some((Token::Reference(label), used)) => {
            assert_eq!(label.as_slice(), b"eq:euler");
            assert_eq!(used, input.len());
        }
        _ => panic!("Expected reference token"),
    }
}

#[test]
fn lexer_test_environment() {
    match environment_start(b"::: theorem {#thm:main}") {
        Some(Token::EnvironmentStart(kind, label)) => {
            assert_eq!(kind.as_slice(), b"theorem");
            assert_eq!(label.as_deref(), Some(b"thm:main".as_slice()));
        }
        _ => panic!("Expected environment start token"),
    }
}

#[test]
fn test_plain_text() {
    let inlines = parse_inlines(b"Hello, world!");
    assert_eq!(inlines.len(), 1);
    if let Inline::Text(t) = &inlines[0] {
        assert_eq!(t.as_slice(), b"Hello, world!");
    } else {
        panic!("Expected text");
    }
}

#[test]
fn test_emphasis() {
    let inlines = parse_inlines(b"Hello *world*!");
    assert_eq!(inlines.len(), 3);
    assert!(matches!(&inlines[1], Inline::Emphasis(_)));
}

#[test]
fn test_strong() {
    let inlines = parse_inlines(b"Hello **world**!");
    assert!(matches!(&inlines[1], Inline::Strong(_)));
}

#[test]
fn inline_test_inline_math() {
    let inlines = parse_inlines(b"The equation $E = mc^2$ is famous.");
    let math_count = inlines
        .iter()
        .filter(|i| matches!(i, Inline::InlineMath(_)))
        .count();
    assert_eq!(math_count, 1);
}

#[test]
fn inline_test_citation() {
    let inlines = parse_inlines(b"As shown in [@knuth1984].");
    let cite_count = inlines
        .iter()
        .filter(|i| matches!(i, Inline::Citation(_)))
        .count();
    assert_eq!(cite_count, 1);
}

#[test]
fn inline_test_reference() {
    let inlines = parse_inlines(b"See @eq:euler for details.");
    let ref_count = inlines
        .iter()
        .filter(|i| matches!(i, Inline::Reference { .. }))
        .count();
    assert_eq!(ref_count, 1);
}

#[test]
fn test_link() {
    let inlines = parse_inlines(b"Click [here](https://example.com \"Title\")!");
    let link = inlines.iter().find(|i| matches!(i, Inline::Link { .. }));
    assert!(link.is_some());
    if let Some(Inline::Link { url, title, .. }) = link {
        assert_eq!(url.as_slice(), b"https://example.com");
        assert_eq!(title.as_deref(), Some(b"Title".as_slice()));
    }
}

#[test]
fn test_footnote_inline() {
    let inlines = parse_inlines(b"Some text^[This is a note].");
    let fn_count = inlines
        .iter()
        .filter(|i| matches!(i, Inline::Footnote(_)))
        .count();
    assert_eq!(fn_count, 1);
}

#[test]
fn citation_with_locator_parses_fully() {
    let inlines = parse_inlines(b"[@knuth1984, p. 42]");
    assert_eq!(inlines.len(), 1);
    if let Inline::Citation(c) = &inlines[0] {
        assert_eq!(c.keys.len(), 1);
        assert_eq!(c.keys[0].as_slice(), b"knuth1984");
        assert_eq!(c.locator.as_deref(), Some(b"p. 42".as_slice()));
        assert_eq!(c.style, markdown_academic::ast::CitationStyle::Parenthetical);
        assert_eq!(c.prefix, None);
    } else {
        panic!("Expected a citation");
    }
}

#[test]
fn pipe_table_parses_headers_alignments_rows() {
    let blocks = parse_blocks(b"| H1 | H2 |\n| --- | :--: |\n| a | b |");
    assert_eq!(blocks.len(), 1);
    if let Block::Table {
        headers,
        alignments,
        rows,
        ..
    } = &blocks[0]
    {
        assert_eq!(headers.len(), 2);
        assert!(matches!(&headers[0][0], Inline::Text(t) if t.as_slice() == b"H1"));
        assert!(matches!(&headers[1][0], Inline::Text(t) if t.as_slice() == b"H2"));
        assert_eq!(alignments.as_slice(), &[Alignment::Left, Alignment::Center]);
        assert_eq!(rows.len(), 1);
        assert!(matches!(&rows[0][0][0], Inline::Text(t) if t.as_slice() == b"a"));
        assert!(matches!(&rows[0][1][0], Inline::Text(t) if t.as_slice() == b"b"));
    } else {
        panic!("Expected a table");
    }
}

#[test]
fn unterminated_fence_takes_all_remaining_lines() {
    let blocks = parse_blocks(b"```python\nline one\nline two");
    assert_eq!(blocks.len(), 1);
    if let Block::CodeBlock { language, content } = &blocks[0] {
        assert_eq!(language.as_deref(), Some(b"python".as_slice()));
        assert_eq!(content.as_slice(), b"line one\nline two");
    } else {
        panic!("Expected a code block");
    }
}

#[test]
fn theorem_environment_holds_one_paragraph() {
    let blocks = parse_blocks(b"::: theorem {#thm:x}\nBody\n:::");
    assert_eq!(blocks.len(), 1);
    if let Block::Environment {
        kind,
        label,
        content,
        caption,
    } = &blocks[0]
    {
        assert_eq!(*kind, EnvironmentKind::Theorem);
        assert_eq!(label.as_deref(), Some(b"thm:x".as_slice()));
        assert_eq!(content.len(), 1);
        assert!(matches!(&content[0], Block::Paragraph(_)));
        assert!(caption.is_none());
    } else {
        panic!("Expected an environment");
    }
}

#[test]
fn empty_input_has_no_blocks() {
    assert_eq!(parse_blocks(b"").len(), 0);
}

#[test]
fn environment_kind_names() {
    assert_eq!(EnvironmentKind::from_str(b"THEOREM"), EnvironmentKind::Theorem);
    assert_eq!(EnvironmentKind::from_str(b"lem"), EnvironmentKind::Lemma);
    assert_eq!(
        EnvironmentKind::from_str(b"Mystery"),
        EnvironmentKind::Custom(b"mystery".to_vec())
    );
    assert_eq!(
        EnvironmentKind::Theorem.display_name().as_slice(),
        b"Theorem"
    );
    assert!(!EnvironmentKind::Proof.is_numbered());
    assert!(!EnvironmentKind::Case.is_numbered());
    assert!(EnvironmentKind::Theorem.is_numbered());
}

#[test]
fn blockquote_and_list_nest_blocks() {
    let blocks = parse_blocks(b"> quoted text\n\n- first\n- second");
    assert_eq!(blocks.len(), 2);
    assert!(matches!(&blocks[0], Block::BlockQuote(_)));
    if let Block::List { ordered, items, .. } = &blocks[1] {
        assert!(!ordered);
        assert_eq!(items.len(), 2);
    } else {
        panic!("Expected a list");
    }
}
