use nsnfind::error::IlsError;
use nsnfind::nsn::{parse_nsn_list, Nsn, NsnKind};

#[test]
fn parses_formatted_nsn() {
    let n = Nsn::parse("4730-01-234-5678").expect("valid NSN");
    assert_eq!(n.normalized, "4730012345678");
    assert_eq!(n.kind, NsnKind::Nsn);
}

#[test]
fn parses_unformatted_nsn() {
    let n = Nsn::parse("4730012345678").expect("valid NSN");
    assert_eq!(n.normalized, "4730012345678");
    assert_eq!(n.kind, NsnKind::Nsn);
}

#[test]
fn parses_niin() {
    let n = Nsn::parse("012345678").expect("valid NIIN");
    assert_eq!(n.normalized, "012345678");
    assert_eq!(n.kind, NsnKind::Niin);
}

#[test]
fn accepts_spaces_and_hyphens() {
    let n = Nsn::parse(" 4730 01-234 5678 ").expect("valid NSN");
    assert_eq!(n.normalized, "4730012345678");
}

#[test]
fn rejects_alpha_characters() {
    assert!(Nsn::parse("ABCD01234567A").is_err());
}

#[test]
fn rejects_wrong_length() {
    assert!(Nsn::parse("1234").is_err());
    assert!(Nsn::parse("12345678901234").is_err());
    assert!(Nsn::parse("1234567890").is_err());
}

#[test]
fn rejects_empty() {
    assert!(Nsn::parse("").is_err());
    assert!(Nsn::parse("   ").is_err());
}

#[test]
fn list_skips_comments_and_blanks() {
    let text = "# header\n\n4730-01-234-5678\n  \n# another comment\n012345678\n";
    let entries = parse_nsn_list(text);
    assert_eq!(entries.len(), 2);
    assert_eq!(entries[0].line, 3);
    assert_eq!(entries[1].line, 6);
}

#[test]
fn list_preserves_invalid_entries() {
    let entries = parse_nsn_list("4730-01-234-5678\nBAD\n");
    assert_eq!(entries.len(), 2);
    assert!(entries[0].parsed.is_ok());
    assert!(entries[1].parsed.is_err());
}

fn reason_of(raw: &str) -> (String, &'static str) {
    match Nsn::parse(raw) {
        Err(IlsError::InvalidNsn { input, reason }) => (input, reason),
        other => panic!("expected InvalidNsn, got {other:?}"),
    }
}

#[test]
fn rejection_reasons_name_the_problem() {
    assert_eq!(reason_of("  \t "), (String::new(), "empty input"));
    assert_eq!(
        reason_of(" 4730-01-23X-5678 "),
        (
            "4730-01-23X-5678".to_owned(),
            "non-digit characters (after stripping hyphens and whitespace)"
        )
    );
    assert_eq!(
        reason_of("1234-5678"),
        ("1234-5678".to_owned(), "must be 13 digits (NSN) or 9 digits (NIIN)")
    );
}

#[test]
fn keeps_trimmed_input_and_tabs_are_separators() {
    let n = Nsn::parse("\t4730\t01 234-5678\r\n").expect("valid NSN");
    assert_eq!(n.input, "4730\t01 234-5678");
    assert_eq!(n.normalized, "4730012345678");
    assert_eq!(n.kind, NsnKind::Nsn);
}

#[test]
fn unicode_whitespace_is_trimmed_but_not_a_separator() {
    let n = Nsn::parse("\u{3000}012345678\u{a0}").expect("valid NIIN");
    assert_eq!(n.normalized, "012345678");
    assert!(Nsn::parse("0123\u{a0}45678").is_err());
}

#[test]
fn normalized_form_parses_to_itself() {
    for raw in ["4730-01-234-5678", " 0123 45678 "] {
        let n = Nsn::parse(raw).expect("valid");
        let again = Nsn::parse(&n.normalized).expect("still valid");
        assert_eq!(again.normalized, n.normalized);
        assert_eq!(again.input, n.normalized);
        assert_eq!(again.kind, n.kind);
    }
}

#[test]
fn list_handles_crlf_and_missing_final_newline() {
    let entries = parse_nsn_list("012345678\r\n#c\r\n\r\n  4730-01-234-5678  ");
    assert_eq!(entries.len(), 2);
    assert_eq!(entries[0].line, 1);
    assert_eq!(entries[0].raw, "012345678");
    assert_eq!(entries[1].line, 4);
    assert_eq!(entries[1].raw, "4730-01-234-5678");
    assert_eq!(entries[1].parsed.as_ref().unwrap().normalized, "4730012345678");
}

#[test]
fn empty_text_has_no_entries() {
    assert!(parse_nsn_list("").is_empty());
    assert!(parse_nsn_list("\n\n   \n# only comments\n").is_empty());
}
