use depub::lattice::PubKind;
use depub::scanner::{classify, Occurrence, ScanError, Scanner, ANNOTATION_PATTERN};
use regex::RegexBuilder;
use depub::text::same_bytes;

fn scanner() -> Scanner {
    match Scanner::new() {
        Ok(scanner) => scanner,
        Err(ScanError::Pattern) => panic!("the annotation pattern did not compile"),
    }
}

#[test]
fn scanner_compiles() {
    assert!(Scanner::new().is_ok());
}

#[test]
fn finds_bare_pub_with_its_blank() {
    let found = scanner().next_occurrence("pub fn a() {}", 0);
    assert_eq!(
        found,
        Some(Occurrence { start: 0, end: 4, qualifier: None, kind: Some(PubKind::Pub) })
    );
}

#[test]
fn finds_bare_pub_without_a_blank() {
    let found = scanner().next_occurrence("x\npub\nfn a() {}", 0);
    assert_eq!(
        found,
        Some(Occurrence { start: 2, end: 5, qualifier: None, kind: Some(PubKind::Pub) })
    );
}

#[test]
fn finds_crate_qualifier() {
    let found = scanner().next_occurrence("pub(crate) fn b() {}", 0);
    assert_eq!(
        found,
        Some(Occurrence { start: 0, end: 11, qualifier: Some((4, 9)), kind: Some(PubKind::Crate) })
    );
}

#[test]
fn finds_super_qualifier() {
    let found = scanner().next_occurrence("  pub(super) struct S;", 0);
    assert_eq!(
        found,
        Some(Occurrence { start: 2, end: 13, qualifier: Some((6, 11)), kind: Some(PubKind::Super) })
    );
}

#[test]
fn tolerates_white_space_around_the_qualifier() {
    let found = scanner().next_occurrence("pub \t( crate  ) fn b() {}", 0);
    assert_eq!(
        found,
        Some(Occurrence { start: 0, end: 16, qualifier: Some((7, 12)), kind: Some(PubKind::Crate) })
    );
}

#[test]
fn tolerates_a_line_break_before_the_parenthesis() {
    let found = scanner().next_occurrence("pub\n(super)\nfn b() {}", 0);
    assert_eq!(
        found,
        Some(Occurrence { start: 0, end: 11, qualifier: Some((5, 10)), kind: Some(PubKind::Super) })
    );
}

#[test]
fn qualifier_does_not_span_lines() {
    let found = scanner().next_occurrence("pub(a\nb) fn c() {}", 0);
    assert_eq!(
        found,
        Some(Occurrence { start: 0, end: 3, qualifier: None, kind: Some(PubKind::Pub) })
    );
}

#[test]
fn reports_unsupported_qualifiers() {
    let found = scanner().next_occurrence("pub(in crate::a) fn b() {}", 0);
    assert_eq!(
        found,
        Some(Occurrence { start: 0, end: 17, qualifier: Some((4, 15)), kind: None })
    );
    let found = scanner().next_occurrence("pub(self) fn b() {}", 0);
    assert_eq!(found.map(|o| (o.kind, o.supported())), Some((None, false)));
    let found = scanner().next_occurrence("a pub(The Frog and Cow)", 0);
    assert_eq!(
        found,
        Some(Occurrence { start: 2, end: 23, qualifier: Some((6, 22)), kind: None })
    );
}

#[test]
fn reports_an_empty_qualifier_as_unsupported() {
    let found = scanner().next_occurrence("pub() fn b() {}", 0);
    assert_eq!(found, Some(Occurrence { start: 0, end: 6, qualifier: Some((4, 4)), kind: None }));
}

#[test]
fn each_annotation_is_matched_on_its_own() {
    let text = "pub(crate) fn a() {}\npub(super) fn b() {}\n";
    let first = scanner().next_occurrence(text, 0).unwrap();
    assert_eq!((first.start, first.end, first.kind), (0, 11, Some(PubKind::Crate)));
    let second = scanner().next_occurrence(text, first.end).unwrap();
    assert_eq!((second.start, second.end, second.kind), (21, 32, Some(PubKind::Super)));
    assert_eq!(scanner().next_occurrence(text, second.end), None);
}

#[test]
fn scan_starts_at_the_offset() {
    let text = "pub fn a() {}\npub fn b() {}";
    assert_eq!(scanner().next_occurrence(text, 0).map(|o| o.start), Some(0));
    assert_eq!(scanner().next_occurrence(text, 1).map(|o| o.start), Some(14));
    assert_eq!(scanner().next_occurrence(text, 14).map(|o| o.start), Some(14));
    assert_eq!(scanner().next_occurrence(text, 15), None);
}

#[test]
fn nothing_is_found_at_or_behind_the_end() {
    assert_eq!(scanner().next_occurrence("", 0), None);
    assert_eq!(scanner().next_occurrence("pub", 3), None);
    assert_eq!(scanner().next_occurrence("pub", 4), None);
    assert_eq!(scanner().next_occurrence("pub", usize::MAX), None);
}

#[test]
fn nothing_is_found_without_the_keyword() {
    assert_eq!(scanner().next_occurrence("fn a() {}\nstruct S;\n", 0), None);
}

#[test]
fn offsets_count_bytes() {
    let text = "// Grüße\npub(crate) fn a() {}";
    let found = scanner().next_occurrence(text, 0).unwrap();
    assert_eq!((found.start, found.end), (11, 22));
    assert_eq!(&text[found.start..found.end], "pub(crate) ");
    assert_eq!(found.qualifier.map(|(s, e)| &text[s..e]), Some("crate"));
    assert_eq!(found.kind, Some(PubKind::Crate));
}

#[test]
fn qualifier_may_hold_any_characters() {
    let text = "pub(größer) fn a() {}";
    let found = scanner().next_occurrence(text, 0).unwrap();
    assert_eq!(found.kind, None);
    assert_eq!(found.qualifier.map(|(s, e)| &text[s..e]), Some("größer"));
}

#[test]
fn from_capture_accepts_a_well_placed_report() {
    let found = Occurrence::from_capture("pub(crate) x", 0, Some(((0, 11), Some((4, 9)))));
    assert_eq!(
        found,
        Some(Occurrence { start: 0, end: 11, qualifier: Some((4, 9)), kind: Some(PubKind::Crate) })
    );
    let found = Occurrence::from_capture("pub x", 0, Some(((0, 4), None)));
    assert_eq!(
        found,
        Some(Occurrence { start: 0, end: 4, qualifier: None, kind: Some(PubKind::Pub) })
    );
}

#[test]
fn from_capture_rejects_what_is_no_annotation() {
    let text = "é pub x";
    assert_eq!(Occurrence::from_capture(text, 0, None), None);
    // empty
    assert_eq!(Occurrence::from_capture(text, 0, Some(((3, 3), None))), None);
    // backwards
    assert_eq!(Occurrence::from_capture(text, 0, Some(((6, 3), None))), None);
    // before the offset
    assert_eq!(Occurrence::from_capture(text, 4, Some(((3, 6), None))), None);
    // behind the end
    assert_eq!(Occurrence::from_capture(text, 0, Some(((3, 9), None))), None);
    // inside a character
    assert_eq!(Occurrence::from_capture(text, 0, Some(((1, 6), None))), None);
    // in order
    assert_eq!(
        Occurrence::from_capture(text, 0, Some(((3, 7), None))),
        Some(Occurrence { start: 3, end: 7, qualifier: None, kind: Some(PubKind::Pub) })
    );
}

#[test]
fn from_capture_reads_a_misplaced_qualifier_as_unsupported() {
    let found = Occurrence::from_capture("pub(crate) x", 0, Some(((0, 11), Some((9, 4)))));
    assert_eq!(found.map(|o| o.kind), Some(None));
    let found = Occurrence::from_capture("pub(crate) x", 0, Some(((0, 11), Some((4, 99)))));
    assert_eq!(found.map(|o| o.kind), Some(None));
}

#[test]
fn classify_reads_the_qualifier() {
    let text = b"pub(crate) pub(super) pub(self)";
    assert_eq!(classify(text, None), Some(PubKind::Pub));
    assert_eq!(classify(text, Some((4, 9))), Some(PubKind::Crate));
    assert_eq!(classify(text, Some((15, 20))), Some(PubKind::Super));
    assert_eq!(classify(text, Some((26, 30))), None);
    assert_eq!(classify(text, Some((4, 8))), None);
    assert_eq!(classify(text, Some((4, 10))), None);
    assert_eq!(classify(text, Some((4, 4))), None);
    assert_eq!(classify(text, Some((9, 4))), None);
    assert_eq!(classify(text, Some((30, 40))), None);
}

#[test]
fn from_qualifier_knows_three_spellings() {
    assert_eq!(PubKind::from_qualifier(None), Some(PubKind::Pub));
    assert_eq!(PubKind::from_qualifier(Some(b"crate")), Some(PubKind::Crate));
    assert_eq!(PubKind::from_qualifier(Some(b"super")), Some(PubKind::Super));
    assert_eq!(PubKind::from_qualifier(Some(b"self")), None);
    assert_eq!(PubKind::from_qualifier(Some(b"Crate")), None);
    assert_eq!(PubKind::from_qualifier(Some(b"in crate")), None);
    assert_eq!(PubKind::from_qualifier(Some(b"")), None);
}

#[test]
fn same_bytes_compares_whole_strings() {
    assert!(same_bytes(b"", b""));
    assert!(same_bytes(b"crate", b"crate"));
    assert!(!same_bytes(b"crate", b"crat"));
    assert!(!same_bytes(b"crat", b"crate"));
    assert!(!same_bytes(b"crate", b"crave"));
    assert!(!same_bytes(b"xrate", b"crate"));
}

#[test]
fn annotations_on_one_line_are_told_apart() {
    let text = "pub(crate) fn a(); pub(super) fn b();";
    let first = scanner().next_occurrence(text, 0).unwrap();
    assert_eq!((first.start, first.end, first.kind), (0, 11, Some(PubKind::Crate)));
    let second = scanner().next_occurrence(text, first.end).unwrap();
    assert_eq!((second.start, second.end, second.kind), (19, 30, Some(PubKind::Super)));
}

#[test]
fn only_one_blank_belongs_to_the_annotation() {
    let found = scanner().next_occurrence("pub   fn a() {}", 0).unwrap();
    assert_eq!((found.start, found.end), (0, 4));
    let found = scanner().next_occurrence("pub(crate)\tfn a() {}", 0).unwrap();
    assert_eq!((found.start, found.end), (0, 10));
}

#[test]
fn from_built_takes_the_regular_expression_over() {
    let built = RegexBuilder::new(ANNOTATION_PATTERN).multi_line(true).build();
    let scanner = match Scanner::from_built(built) {
        Ok(scanner) => scanner,
        Err(_) => panic!("the annotation pattern was to compile"),
    };
    let found = scanner.next_occurrence("x pub(super) y", 0).unwrap();
    assert_eq!((found.start, found.end, found.kind), (2, 13, Some(PubKind::Super)));
}

#[test]
fn from_built_turns_an_error_into_a_scan_error() {
    let built = RegexBuilder::new("pub(").multi_line(true).build();
    assert!(built.is_err());
    assert!(matches!(Scanner::from_built(built), Err(ScanError::Pattern)));
}
