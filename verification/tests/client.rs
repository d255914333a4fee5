use nsnfind::client::{
    accept_response, collect_sorted, query_target, soap_action_header, Outcome, QueryResult,
};
use nsnfind::error::IlsError;
use nsnfind::nsn::parse_nsn_list;
use nsnfind::soap::availability::SOAP_ACTION;

#[test]
fn success_statuses_pass_the_body_through() {
    assert_eq!(accept_response(200, "ok".to_owned()).unwrap(), "ok");
    assert_eq!(accept_response(299, "x".to_owned()).unwrap(), "x");
    match accept_response(500, "boom".to_owned()) {
        Err(IlsError::Status { status, body }) => {
            assert_eq!(status, 500);
            assert_eq!(body, "boom");
        }
        other => panic!("unexpected {other:?}"),
    }
    assert!(accept_response(199, String::new()).is_err());
    assert!(accept_response(300, String::new()).is_err());
}

#[test]
fn soap_action_is_quoted() {
    assert_eq!(
        soap_action_header(SOAP_ACTION),
        "\"http://namespace.ilsmart.com/v2/GetPartsAvailability\""
    );
}

#[test]
fn error_messages() {
    assert_eq!(
        IlsError::Status { status: 404, body: "nope".to_owned() }.message(),
        "unexpected HTTP status 404: nope"
    );
    assert_eq!(IlsError::Parse("bad".to_owned()).message(), "malformed SOAP response: bad");
    assert_eq!(
        IlsError::SoapFault { code: "s:Client".to_owned(), message: "Invalid".to_owned() }.message(),
        "SOAP fault s:Client: Invalid"
    );
    assert_eq!(
        IlsError::InvalidNsn { input: "X".to_owned(), reason: "empty input" }.message(),
        "invalid NSN 'X': empty input"
    );
}

#[test]
fn collect_sorted_restores_input_order() {
    let tagged = vec![(2usize, "c"), (0, "a"), (3, "d"), (1, "b")];
    assert_eq!(collect_sorted(tagged), vec!["a", "b", "c", "d"]);
    let ties = vec![(1usize, "x"), (0, "y"), (1, "z"), (0, "w")];
    assert_eq!(collect_sorted(ties), vec!["y", "w", "x", "z"]);
    assert!(collect_sorted::<u8>(Vec::new()).is_empty());
}

#[test]
fn outcomes_for_entries() {
    let mut entries = parse_nsn_list("012345678\nnope\n4730012345678\n").into_iter();
    let valid = entries.next().unwrap();
    assert_eq!(query_target(&valid), Some("012345678"));
    let r = QueryResult::for_entry(valid, Some(Ok(7u32)));
    assert!(matches!(r.outcome, Outcome::Success(7)));

    let invalid = entries.next().unwrap();
    assert_eq!(query_target(&invalid), None);
    let r: QueryResult<u32> = QueryResult::for_entry(invalid, None);
    match r.outcome {
        Outcome::Invalid(m) => assert_eq!(
            m,
            "invalid NSN 'nope': non-digit characters (after stripping hyphens and whitespace)"
        ),
        other => panic!("unexpected {other:?}"),
    }

    let failing = entries.next().unwrap();
    let r: QueryResult<u32> =
        QueryResult::for_entry(failing, Some(Err(IlsError::Parse("x".to_owned()))));
    match r.outcome {
        Outcome::Failure(m) => assert_eq!(m, "malformed SOAP response: x"),
        other => panic!("unexpected {other:?}"),
    }
    assert_eq!(r.entry.line, 3);
}
