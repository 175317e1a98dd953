//! Tests for the bibliography parser.

use markdown_academic::bibtex::{clean_bibtex_value, parse_bibtex};

#[test]
fn test_parse_simple_entry() {
    let input = b"\n@article{knuth1984,\n    author = {Donald E. Knuth},\n    title = {Literate Programming},\n    journal = {The Computer Journal},\n    year = {1984},\n    volume = {27},\n    number = {2},\n    pages = {97--111}\n}\n";
    let entries = parse_bibtex(input).unwrap();
    assert_eq!(entries.len(), 1);
    let entry = entries.get(b"knuth1984").unwrap();
    assert_eq!(entry.entry_type.as_slice(), b"article");
    assert_eq!(entry.title.as_deref(), Some(b"Literate Programming".as_slice()));
    assert_eq!(entry.authors.len(), 1);
    assert_eq!(entry.authors[0].as_slice(), b"Donald E. Knuth");
    assert_eq!(entry.year.as_deref(), Some(b"1984".as_slice()));
}

#[test]
fn test_parse_multiple_authors() {
    let input = b"\n@book{dragon2006,\n    author = {Alfred V. Aho and Monica S. Lam and Ravi Sethi and Jeffrey D. Ullman},\n    title = {Compilers: Principles, Techniques, and Tools},\n    year = {2006}\n}\n";
    let entries = parse_bibtex(input).unwrap();
    let entry = entries.get(b"dragon2006").unwrap();
    assert_eq!(entry.authors.len(), 4);
}

#[test]
fn test_parse_with_comments() {
    let input = b"\n% This is a comment\n@article{test,\n    title = {Test}\n}\n% Another comment\n";
    let entries = parse_bibtex(input).unwrap();
    assert_eq!(entries.len(), 1);
}

#[test]
fn test_clean_bibtex_value() {
    assert_eq!(clean_bibtex_value(b"{DNA} Sequencing").as_slice(), b"DNA Sequencing");
    assert_eq!(
        clean_bibtex_value(b"The {Art} of Programming").as_slice(),
        b"The Art of Programming"
    );
}

#[test]
fn quoted_and_numeric_values_and_extra_fields() {
    let input = b"@misc{k1,\n  title = \"Quoted Title\",\n  year = 2001,\n  note = {kept around}\n}";
    let entries = parse_bibtex(input).unwrap();
    let e = entries.get(b"k1").unwrap();
    assert_eq!(e.title.as_deref(), Some(b"Quoted Title".as_slice()));
    assert_eq!(e.year.as_deref(), Some(b"2001".as_slice()));
    assert_eq!(
        e.extra.get(b"note").map(|v| v.as_slice()),
        Some(b"kept around".as_slice())
    );
}

#[test]
fn malformed_entries_are_skipped() {
    let input = b"@broken junk here\n@article{ok,\n  title = {Fine}\n}";
    let entries = parse_bibtex(input).unwrap();
    assert!(entries.get(b"broken").is_none());
    assert!(entries.get(b"ok").is_some());
}
