//! Tests for macro expansion, numbering, labels, references, footnotes
//! and citations.

use markdown_academic::ast::{Block, Inline, Macro};
use markdown_academic::citations::{collect_citation_keys, get_citation_order};
use markdown_academic::error::{Error, ParseError, ResolutionError};
use markdown_academic::expand::{count_macro_args, expand_math_macros, parse_macro_args};
use markdown_academic::front::parse;
use markdown_academic::numbering::assign_numbers;
use markdown_academic::references::label_to_id;
use markdown_academic::resolve::{resolve, ResolveConfig};
use markdown_academic::strmap::StrMap;

fn macro_table(entries: &[(&[u8], usize, &[u8])]) -> StrMap<Macro> {
    let mut m: StrMap<Macro> = StrMap::new();
    for (name, arg_count, template) in entries {
        m.insert(
            name.to_vec(),
            Macro {
                arg_count: *arg_count,
                template: template.to_vec(),
            },
        );
    }
    m
}

#[test]
fn test_expand_simple_macro() {
    let macros = macro_table(&[(b"R", 0, b"\\mathbb{R}")]);
    let result = expand_math_macros(b"x \\in \\R", &macros);
    assert_eq!(result.as_slice(), b"x \\in \\mathbb{R}");
}

#[test]
fn test_expand_macro_with_args() {
    let macros = macro_table(&[(b"vec", 1, b"\\mathbf{#1}")]);
    let result = expand_math_macros(b"\\vec{x} + \\vec{y}", &macros);
    assert_eq!(result.as_slice(), b"\\mathbf{x} + \\mathbf{y}");
}

#[test]
fn test_expand_macro_with_multiple_args() {
    let macros = macro_table(&[(b"frac", 2, b"\\dfrac{#1}{#2}")]);
    let result = expand_math_macros(b"\\frac{a}{b}", &macros);
    assert_eq!(result.as_slice(), b"\\dfrac{a}{b}");
}

#[test]
fn test_parse_macro_args() {
    let (args, rest) = parse_macro_args(b"{x}{y} + z", 2).unwrap();
    assert_eq!(args.len(), 2);
    assert_eq!(args[0].as_slice(), b"x");
    assert_eq!(args[1].as_slice(), b"y");
    assert_eq!(rest.as_slice(), b" + z");
}

#[test]
fn test_count_macro_args() {
    assert_eq!(count_macro_args(b"\\mathbb{R}"), 0);
    assert_eq!(count_macro_args(b"\\mathbf{#1}"), 1);
    assert_eq!(count_macro_args(b"\\frac{#1}{#2}"), 2);
    assert_eq!(count_macro_args(b"#1 + #2 + #3"), 3);
}

#[test]
fn expansion_is_idempotent_at_fixed_point() {
    let macros = macro_table(&[(b"R", 0, b"\\mathbb{R}")]);
    let once = expand_math_macros(b"x \\in \\R", &macros);
    let twice = expand_math_macros(once.as_slice(), &macros);
    assert_eq!(once, twice);
}

#[test]
fn test_section_numbering() {
    let input = b"\n# First {#sec:first}\n\n## Sub One {#sec:sub1}\n\n## Sub Two {#sec:sub2}\n\n# Second {#sec:second}\n";
    let doc = parse(input).unwrap();
    let (section_numbers, _) = assign_numbers(&doc);
    assert_eq!(
        section_numbers.get(b"sec:first").map(|v| v.as_slice()),
        Some(b"1".as_slice())
    );
    assert_eq!(
        section_numbers.get(b"sec:sub1").map(|v| v.as_slice()),
        Some(b"1.1".as_slice())
    );
    assert_eq!(
        section_numbers.get(b"sec:sub2").map(|v| v.as_slice()),
        Some(b"1.2".as_slice())
    );
    assert_eq!(
        section_numbers.get(b"sec:second").map(|v| v.as_slice()),
        Some(b"2".as_slice())
    );
}

#[test]
fn test_environment_numbering() {
    let input = b"\n::: theorem {#thm:one}\nFirst theorem.\n:::\n\n::: theorem {#thm:two}\nSecond theorem.\n:::\n\n::: lemma {#lem:one}\nA lemma.\n:::\n";
    let doc = parse(input).unwrap();
    let (_, env_numbers) = assign_numbers(&doc);
    assert_eq!(env_numbers.get(b"thm:one"), Some(&1));
    assert_eq!(env_numbers.get(b"thm:two"), Some(&2));
    assert_eq!(env_numbers.get(b"lem:one"), Some(&1));
}

#[test]
fn flat_sections_number_one_to_n() {
    let input = b"# A {#a}\n\n# B {#b}\n\n# C {#c}";
    let doc = parse(input).unwrap();
    let (section_numbers, _) = assign_numbers(&doc);
    assert_eq!(section_numbers.get(b"a").map(|v| v.as_slice()), Some(b"1".as_slice()));
    assert_eq!(section_numbers.get(b"b").map(|v| v.as_slice()), Some(b"2".as_slice()));
    assert_eq!(section_numbers.get(b"c").map(|v| v.as_slice()), Some(b"3".as_slice()));
}

#[test]
fn test_label_to_id() {
    assert_eq!(label_to_id(b"sec:intro").as_slice(), b"sec-intro");
    assert_eq!(label_to_id(b"eq:euler").as_slice(), b"eq-euler");
    assert_eq!(label_to_id(b"fig-1").as_slice(), b"fig-1");
}

#[test]
fn test_collect_citation_keys() {
    let input = b"This is from [@knuth1984] and [@lamport1994].";
    let doc = parse(input).unwrap();
    let keys = collect_citation_keys(&doc);
    assert_eq!(keys.len(), 2);
    assert_eq!(keys[0].as_slice(), b"knuth1984");
    assert_eq!(keys[1].as_slice(), b"lamport1994");
}

#[test]
fn citation_order_is_first_appearance() {
    let input = b"See [@b] then [@a] then [@b] again.";
    let doc = parse(input).unwrap();
    let order = get_citation_order(&doc);
    assert_eq!(order.len(), 2);
    assert_eq!(order[0].as_slice(), b"b");
    assert_eq!(order[1].as_slice(), b"a");
}

#[test]
fn test_resolve_simple_document() {
    let input = b"\n# Introduction {#sec:intro}\n\nSome text with a reference to @sec:intro.\n";
    let doc = parse(input).unwrap();
    let config = ResolveConfig::default();
    let resolved = resolve(doc, StrMap::new(), &config).unwrap();
    assert!(resolved.labels.contains_key(b"sec:intro"));
}

#[test]
fn duplicate_label_is_always_fatal() {
    let input = b"# One {#dup}\n\n::: theorem {#dup}\nBody\n:::";
    let doc = parse(input).unwrap();
    let r = resolve(doc, StrMap::new(), &ResolveConfig::default());
    match r {
        Err(Error::Resolution(ResolutionError::DuplicateLabel(l))) => {
            assert_eq!(l.as_slice(), b"dup");
        }
        _ => panic!("Expected a duplicate-label error"),
    }
}

#[test]
fn unknown_reference_lenient_and_strict() {
    let input = b"See @nope here.";
    let doc = parse(input).unwrap();
    let resolved = resolve(doc, StrMap::new(), &ResolveConfig::default()).unwrap();
    let mut found = false;
    if let Block::Paragraph(inlines) = &resolved.document.blocks[0] {
        for i in inlines {
            if let Inline::Reference { label, resolved } = i {
                assert_eq!(label.as_slice(), b"nope");
                assert_eq!(resolved.as_deref(), Some(b"??nope".as_slice()));
                found = true;
            }
        }
    }
    assert!(found);

    let doc2 = parse(input).unwrap();
    let strict = ResolveConfig {
        base_path: None,
        strict_citations: false,
        strict_references: true,
    };
    match resolve(doc2, StrMap::new(), &strict) {
        Err(Error::Resolution(ResolutionError::UnknownReference(l))) => {
            assert_eq!(l.as_slice(), b"nope");
        }
        _ => panic!("Expected an unknown-reference error"),
    }
}

#[test]
fn unknown_citation_strict_is_fatal() {
    let input = b"As shown in [@missing].";
    let doc = parse(input).unwrap();
    let strict = ResolveConfig {
        base_path: None,
        strict_citations: true,
        strict_references: false,
    };
    match resolve(doc, StrMap::new(), &strict) {
        Err(Error::Resolution(ResolutionError::UnknownCitation(k))) => {
            assert_eq!(k.as_slice(), b"missing");
        }
        _ => panic!("Expected an unknown-citation error"),
    }
}

#[test]
fn known_references_get_display_text() {
    let input = b"# Intro {#sec:intro}\n\nSee @sec:intro.";
    let doc = parse(input).unwrap();
    let resolved = resolve(doc, StrMap::new(), &ResolveConfig::default()).unwrap();
    let mut found = false;
    if let Block::Paragraph(inlines) = &resolved.document.blocks[1] {
        for i in inlines {
            if let Inline::Reference { resolved, .. } = i {
                assert_eq!(resolved.as_deref(), Some(b"Section 1".as_slice()));
                found = true;
            }
        }
    }
    assert!(found);
}

#[test]
fn footnotes_are_collected_in_order() {
    let input = b"One^[first note] and two^[second note].";
    let doc = parse(input).unwrap();
    let resolved = resolve(doc, StrMap::new(), &ResolveConfig::default()).unwrap();
    assert!(resolved.footnotes.contains_key(b"fn-1"));
    assert!(resolved.footnotes.contains_key(b"fn-2"));
    assert!(!resolved.footnotes.contains_key(b"fn-3"));
}

#[test]
fn front_matter_fills_metadata() {
    let input = b"+++\ntitle = \"My Document\"\nauthor = \"Jane Doe\"\n\n[macros]\nR = \"\\\\mathbb{R}\"\nvec = \"\\\\mathbf{#1}\"\n+++\n\n# Hello\n\nSome text.";
    let doc = parse(input).unwrap();
    assert_eq!(doc.metadata.title.as_deref(), Some(b"My Document".as_slice()));
    assert_eq!(doc.metadata.authors.len(), 1);
    assert_eq!(doc.metadata.authors[0].as_slice(), b"Jane Doe");
    let r = doc.metadata.macros.get(b"R").unwrap();
    assert_eq!(r.template.as_slice(), b"\\mathbb{R}");
    assert_eq!(r.arg_count, 0);
    let v = doc.metadata.macros.get(b"vec").unwrap();
    assert_eq!(v.arg_count, 1);
    assert!(matches!(&doc.blocks[0], Block::Heading { .. }));
}

#[test]
fn absent_front_matter_keeps_content() {
    let doc = parse(b"# Hello\n\nSome text.").unwrap();
    assert_eq!(doc.metadata.macros.len(), 0);
    assert_eq!(doc.metadata.title, None);
    assert_eq!(doc.blocks.len(), 2);
}

#[test]
fn unclosed_front_matter_is_fatal() {
    match parse(b"+++\ntitle = \"Oops\"\n\n# Hello") {
        Err(ParseError::FrontMatter(_)) => {}
        _ => panic!("Expected a front-matter error"),
    }
}

#[test]
fn invalid_front_matter_toml_is_fatal() {
    match parse(b"+++\ntitle = = broken\n+++\n\nText.") {
        Err(ParseError::FrontMatter(_)) => {}
        _ => panic!("Expected a front-matter error"),
    }
}

#[test]
fn macros_expand_inside_document_math() {
    let input = b"+++\n[macros]\nR = \"\\\\mathbb{R}\"\n+++\n\nLet $x \\in \\R$ hold.";
    let doc = parse(input).unwrap();
    let resolved = resolve(doc, StrMap::new(), &ResolveConfig::default()).unwrap();
    let mut found = false;
    if let Block::Paragraph(inlines) = &resolved.document.blocks[0] {
        for i in inlines {
            if let Inline::InlineMath(m) = i {
                assert_eq!(m.as_slice(), b"x \\in \\mathbb{R}");
                found = true;
            }
        }
    }
    assert!(found);
}

#[test]
fn equations_and_tables_share_no_counter_with_theorems() {
    let input =
        b"$$x$$ {#eq:one}\n\n::: theorem {#thm:one}\nBody\n:::\n\n| a |\n| - |\n| b |\nTable: Cap {#tab:one}";
    let doc = parse(input).unwrap();
    let (_, env) = assign_numbers(&doc);
    assert_eq!(env.get(b"eq:one"), Some(&1));
    assert_eq!(env.get(b"thm:one"), Some(&1));
    assert_eq!(env.get(b"tab:one"), Some(&1));
}


#[test]
fn nested_headings_reset_deeper_levels() {
    let input = b"# A {#a}\n\n## B {#b}\n\n## C {#c}\n\n# D {#d}";
    let doc = parse(input).unwrap();
    let resolved = resolve(doc, StrMap::new(), &ResolveConfig::default()).unwrap();
    let sec = &resolved.section_numbers;
    assert_eq!(sec.get(b"a").map(|v| v.as_slice()), Some(b"1".as_slice()));
    assert_eq!(sec.get(b"b").map(|v| v.as_slice()), Some(b"1.1".as_slice()));
    assert_eq!(sec.get(b"c").map(|v| v.as_slice()), Some(b"1.2".as_slice()));
    assert_eq!(sec.get(b"d").map(|v| v.as_slice()), Some(b"2".as_slice()));
    assert_eq!(
        resolved.labels.get(b"b").map(|i| i.display.as_slice()),
        Some(b"Section 1.1".as_slice())
    );
}
