use nsnfind::error::IlsError;
use nsnfind::soap::availability::{
    build_request, parse_response, Company, Envelope, Fault, FaultsWrapper, PartListing,
    PartListingsWrapper, PartSearchResult, PartsWrapper, RespBody, RespWrapper, SoapBody,
};
use nsnfind::soap::{fault_to_error, xml_escape, SoapFault};

#[test]
fn escapes_xml_special_chars() {
    assert_eq!(
        xml_escape(r#"a&b<c>d"e'f"#),
        "a&amp;b&lt;c&gt;d&quot;e&apos;f"
    );
}

#[test]
fn escape_leaves_plain_text_alone() {
    assert_eq!(xml_escape("4730012345678 ü;"), "4730012345678 ü;");
    assert_eq!(xml_escape(""), "");
    assert_eq!(xml_escape("&amp;"), "&amp;amp;");
}

#[test]
fn availability_request_contains_expected_fields() {
    let req = build_request("ABCU01", "s3cret", "4730012345678");
    assert!(req.contains(r#"<GetPartsAvailability xmlns="http://namespace.ilsmart.com/v2">"#));
    assert!(req.contains("<PartNumber>4730012345678</PartNumber>"));
    assert!(req.contains("<Password>s3cret</Password>"));
    assert!(req.contains("<UserId>ABCU01</UserId>"));
}

#[test]
fn request_escapes_values() {
    let req = build_request("u<1>", "p&p", "A\"B");
    assert!(req.contains("<UserId>u&lt;1&gt;</UserId>"));
    assert!(req.contains("<Password>p&amp;p</Password>"));
    assert!(req.contains("<PartNumber>A&quot;B</PartNumber>"));
}

#[test]
fn availability_request_is_exact() {
    let req = build_request("ABCU01", "s3cret", "012345678");
    let expected = "<?xml version=\"1.0\" encoding=\"utf-8\"?>\n\
<s:Envelope xmlns:s=\"http://schemas.xmlsoap.org/soap/envelope/\">\n  <s:Body>\n    \
<GetPartsAvailability xmlns=\"http://namespace.ilsmart.com/v2\">\n      \
<PartNumber>012345678</PartNumber>\n      <Password>s3cret</Password>\n      \
<UserId>ABCU01</UserId>\n    </GetPartsAvailability>\n  </s:Body>\n</s:Envelope>\n";
    assert_eq!(req, expected);
}

fn response(body: Option<RespBody>) -> Envelope {
    Envelope {
        body: SoapBody {
            response: Some(RespWrapper { body }),
            fault: None,
        },
    }
}

#[test]
fn parses_empty_success_response() {
    let a = parse_response(Ok(response(Some(RespBody {
        faults: None,
        part_listings: None,
    }))))
    .expect("parse ok");
    assert!(a.faults.is_empty());
    assert!(a.part_listings.is_empty());
}

fn part(part_number: &str, condition: &str, entered: &str, quantity: &str) -> PartSearchResult {
    PartSearchResult {
        alternate_part_number: None,
        condition_code: Some(condition.to_owned()),
        description: None,
        exchange_option: None,
        is_g_listing: None,
        is_m_listing: None,
        is_preferred_vendor: Some(false),
        maker: None,
        model: None,
        part_entered: Some(entered.to_owned()),
        part_number: Some(part_number.to_owned()),
        quantity: Some(quantity.to_owned()),
        search_part_id: None,
    }
}

#[test]
fn parses_populated_response() {
    let listing = PartListing {
        company: Some(Company {
            id: Some("ABCD".to_owned()),
            name: Some("Acme Aviation".to_owned()),
            supplier_cage: Some("1K2L3".to_owned()),
            accredited_vendor_level: None,
        }),
        parts: Some(PartsWrapper {
            items: vec![part("123-456", "NE", "4730012345678", "7")],
        }),
    };
    let a = parse_response(Ok(response(Some(RespBody {
        faults: None,
        part_listings: Some(PartListingsWrapper { items: vec![listing] }),
    }))))
    .expect("parse ok");
    assert_eq!(a.part_listings.len(), 1);
    let listing = &a.part_listings[0];
    let company = listing.company.as_ref().expect("company");
    assert_eq!(company.name.as_deref(), Some("Acme Aviation"));
    assert_eq!(company.supplier_cage.as_deref(), Some("1K2L3"));
    let parts = listing.parts.as_ref().expect("parts");
    assert_eq!(parts.items.len(), 1);
    let p = &parts.items[0];
    assert_eq!(p.part_number.as_deref(), Some("123-456"));
    assert_eq!(p.condition_code.as_deref(), Some("NE"));
    assert_eq!(p.quantity.as_deref(), Some("7"));
    assert_eq!(p.is_preferred_vendor, Some(false));
}

#[test]
fn parses_service_faults() {
    let fault = Fault {
        message: Some("No parts found".to_owned()),
        name: Some("NoResults".to_owned()),
        severity: Some("Info".to_owned()),
        sub_type: None,
    };
    let a = parse_response(Ok(response(Some(RespBody {
        faults: Some(FaultsWrapper { items: vec![fault] }),
        part_listings: None,
    }))))
    .expect("parse ok");
    assert_eq!(a.faults.len(), 1);
    assert_eq!(a.faults[0].message.as_deref(), Some("No parts found"));
}

#[test]
fn detects_soap_envelope_fault() {
    let env = Envelope {
        body: SoapBody {
            response: None,
            fault: Some(SoapFault {
                faultcode: Some("s:Client".to_owned()),
                faultstring: Some("Invalid credentials".to_owned()),
            }),
        },
    };
    match parse_response(Ok(env)) {
        Err(IlsError::SoapFault { code, message }) => {
            assert_eq!(code, "s:Client");
            assert_eq!(message, "Invalid credentials");
        }
        other => panic!("expected SoapFault, got {other:?}"),
    }
}

#[test]
fn envelope_fault_wins_over_response() {
    let env = Envelope {
        body: SoapBody {
            response: Some(RespWrapper { body: None }),
            fault: Some(SoapFault { faultcode: None, faultstring: Some("boom".to_owned()) }),
        },
    };
    match parse_response(Ok(env)) {
        Err(IlsError::SoapFault { code, message }) => {
            assert_eq!(code, "");
            assert_eq!(message, "boom");
        }
        other => panic!("expected SoapFault, got {other:?}"),
    }
}

#[test]
fn missing_response_element_is_a_parse_error() {
    let env = Envelope { body: SoapBody { response: None, fault: None } };
    match parse_response(Ok(env)) {
        Err(IlsError::Parse(m)) => assert_eq!(m, "missing GetPartsAvailabilityResponse element"),
        other => panic!("expected Parse, got {other:?}"),
    }
}

#[test]
fn undecodable_document_is_a_parse_error() {
    match parse_response(Err("unexpected end".to_owned())) {
        Err(IlsError::Parse(m)) => assert_eq!(m, "xml deserialize: unexpected end"),
        other => panic!("expected Parse, got {other:?}"),
    }
}

#[test]
fn absent_body_reads_as_empty() {
    let a = parse_response(Ok(response(None))).expect("parse ok");
    assert!(a.faults.is_empty() && a.part_listings.is_empty());
}

#[test]
fn fault_to_error_defaults_missing_parts_to_empty() {
    match fault_to_error(SoapFault { faultcode: Some("c".to_owned()), faultstring: None }) {
        IlsError::SoapFault { code, message } => {
            assert_eq!(code, "c");
            assert_eq!(message, "");
        }
        other => panic!("unexpected {other:?}"),
    }
}
