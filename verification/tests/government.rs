use nsnfind::error::IlsError;
use nsnfind::soap::government::{
    build_request, parse_bool_ish, parse_response, ArrayOfMcrlItem, Dataset, Envelope, Fault,
    FaultsWrapper, GovernmentDataSearchResults, GovernmentResult, Mcrl, McrlItem, RespBody,
    RespWrapper, SearchResultsWrapper, SoapBody,
};
use nsnfind::soap::MS_ARRAYS_NS;

#[test]
fn dataset_code_roundtrip() {
    for code in [
        "AMDF", "CRF", "DLA", "ISDOD", "ISUSAF", "MCRL", "MLC", "MOE", "MRIL", "NHA", "PH",
        "TECH",
    ] {
        let d = Dataset::parse(code).expect("parse");
        assert_eq!(d.code(), code);
    }
    assert_eq!(Dataset::parse("mcrl"), Some(Dataset::Mcrl));
    assert!(Dataset::parse("UNKNOWN").is_none());
}

#[test]
fn dataset_parse_trims_and_ignores_case() {
    assert_eq!(Dataset::parse("  Ph\t"), Some(Dataset::Ph));
    assert_eq!(Dataset::parse("isUsaf"), Some(Dataset::Isusaf));
    assert_eq!(Dataset::parse("M CRL"), None);
    assert_eq!(Dataset::parse(""), None);
}

#[test]
fn government_request_contains_expected_fields() {
    let req = build_request(
        "ABCU01",
        "s3cret",
        "4730012345678",
        &[Dataset::Mcrl, Dataset::Ph],
    );
    assert!(req.contains(r#"<GetGovernmentData xmlns="http://namespace.ilsmart.com/v2">"#));
    assert!(req.contains(&format!(r#"<GovFilesToSearch xmlns:a="{}"#, MS_ARRAYS_NS)));
    assert!(req.contains("<a:string>MCRL</a:string>"));
    assert!(req.contains("<a:string>PH</a:string>"));
    assert!(req.contains("<PartNumber>4730012345678</PartNumber>"));
    assert!(req.contains("<Password>s3cret</Password>"));
    assert!(req.contains("<UserId>ABCU01</UserId>"));
}

#[test]
fn government_request_lists_datasets_in_order() {
    let req = build_request("u", "p", "n&", &[Dataset::Tech, Dataset::Amdf]);
    assert!(req.contains(
        "\">\n        <a:string>TECH</a:string>\n        <a:string>AMDF</a:string>\n      </GovFilesToSearch>\n"
    ));
    assert!(req.contains("<PartNumber>n&amp;</PartNumber>"));
}

fn response(body: Option<RespBody>) -> Envelope {
    Envelope {
        body: SoapBody {
            response: Some(RespWrapper { body }),
            fault: None,
        },
    }
}

fn mcrl_item(cage: &str, company: &str, part: &str) -> McrlItem {
    McrlItem {
        cage: Some(cage.to_owned()),
        company_name: Some(company.to_owned()),
        dac: None,
        historical: None,
        part_number: Some(part.to_owned()),
        rncc: None,
        rnvc: None,
    }
}

fn result_with_flag(flag: Option<&str>) -> GovernmentDataSearchResults {
    GovernmentDataSearchResults {
        item_name: None,
        fsc: None,
        niin: None,
        has_parts_availability: flag.map(|s| s.to_owned()),
        hist_ind: None,
        mcrl_data: None,
        nsn_info: None,
        procurement_history: None,
    }
}

#[test]
fn parses_mcrl_response() {
    let item = GovernmentDataSearchResults {
        item_name: Some("VALVE,GLOBE".to_owned()),
        fsc: Some("4730".to_owned()),
        niin: Some("012345678".to_owned()),
        has_parts_availability: Some("true".to_owned()),
        hist_ind: None,
        mcrl_data: Some(Mcrl {
            items: Some(ArrayOfMcrlItem {
                items: vec![
                    mcrl_item("1K2L3", "Acme Valve Co", "AC-123"),
                    mcrl_item("99ABC", "Widget Corp", "W-42"),
                ],
            }),
        }),
        nsn_info: None,
        procurement_history: None,
    };
    let r = parse_response(Ok(response(Some(RespBody {
        faults: None,
        search_results: Some(SearchResultsWrapper { items: vec![item] }),
    }))))
    .expect("parse ok");
    assert_eq!(r.items.len(), 1);
    let item = &r.items[0];
    assert_eq!(item.item_name.as_deref(), Some("VALVE,GLOBE"));
    assert_eq!(item.fsc.as_deref(), Some("4730"));
    assert_eq!(item.niin.as_deref(), Some("012345678"));
    assert_eq!(item.has_parts_availability.as_deref(), Some("true"));
    let mcrl = item.mcrl_data.as_ref().and_then(|m| m.items.as_ref());
    let mcrl = mcrl.expect("mcrl items present");
    assert_eq!(mcrl.items.len(), 2);
    assert_eq!(mcrl.items[0].cage.as_deref(), Some("1K2L3"));
    assert_eq!(mcrl.items[0].company_name.as_deref(), Some("Acme Valve Co"));
    assert_eq!(r.has_parts_availability(), Some(true));
}

#[test]
fn parses_empty_response() {
    let r = parse_response(Ok(response(Some(RespBody {
        faults: None,
        search_results: None,
    }))))
    .expect("parse ok");
    assert!(r.faults.is_empty());
    assert!(r.items.is_empty());
    assert_eq!(r.has_parts_availability(), None);
}

#[test]
fn detects_auth_fault() {
    let fault = Fault {
        message: Some("Not entitled".to_owned()),
        name: Some("AuthorizationFailure".to_owned()),
        severity: Some("Fatal".to_owned()),
        sub_type: None,
    };
    let r = parse_response(Ok(response(Some(RespBody {
        faults: Some(FaultsWrapper { items: vec![fault] }),
        search_results: None,
    }))))
    .expect("parse ok");
    assert_eq!(r.faults.len(), 1);
    assert_eq!(r.faults[0].severity.as_deref(), Some("Fatal"));
}

#[test]
fn government_missing_response_is_a_parse_error() {
    let env = Envelope { body: SoapBody { response: None, fault: None } };
    match parse_response(Ok(env)) {
        Err(IlsError::Parse(m)) => assert_eq!(m, "missing GetGovernmentDataResponse element"),
        other => panic!("expected Parse, got {other:?}"),
    }
}

#[test]
fn bool_ish_parsing() {
    assert_eq!(parse_bool_ish("true"), Some(true));
    assert_eq!(parse_bool_ish("TRUE"), Some(true));
    assert_eq!(parse_bool_ish("Yes"), Some(true));
    assert_eq!(parse_bool_ish("false"), Some(false));
    assert_eq!(parse_bool_ish(""), Some(false));
    assert_eq!(parse_bool_ish("maybe"), None);
}

#[test]
fn bool_ish_more_spellings() {
    for t in ["y", "1", "t", " T ", "\tyes\n"] {
        assert_eq!(parse_bool_ish(t), Some(true), "{t:?}");
    }
    for f in ["n", "0", "f", "NO", "   ", "False"] {
        assert_eq!(parse_bool_ish(f), Some(false), "{f:?}");
    }
    assert_eq!(parse_bool_ish("tru"), None);
    assert_eq!(parse_bool_ish("2"), None);
}

#[test]
fn has_parts_availability_reads_only_the_first_result() {
    let r = GovernmentResult {
        faults: Vec::new(),
        items: vec![result_with_flag(None), result_with_flag(Some("true"))],
    };
    assert_eq!(r.has_parts_availability(), None);
    let r = GovernmentResult {
        faults: Vec::new(),
        items: vec![result_with_flag(Some("No")), result_with_flag(Some("true"))],
    };
    assert_eq!(r.has_parts_availability(), Some(false));
    let r = GovernmentResult {
        faults: Vec::new(),
        items: vec![result_with_flag(Some("perhaps")), result_with_flag(Some("true"))],
    };
    assert_eq!(r.has_parts_availability(), None);
    let r = GovernmentResult { faults: Vec::new(), items: Vec::new() };
    assert_eq!(r.has_parts_availability(), None);
}
