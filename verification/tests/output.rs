use nsnfind::client::{Outcome, QueryResult};
use nsnfind::error::IlsError;
use nsnfind::nsn::parse_nsn_list;
use nsnfind::output::{availability_json_records, write_availability_csv, AvailabilityJson};
use nsnfind::soap::availability::{
    Availability, Company, Fault, PartListing, PartSearchResult, PartsWrapper,
};

const HEADER: &str = "line,input,normalized,status,error,company_id,company_name,supplier_cage,accredited_vendor_level,part_number,alternate_part_number,condition_code,description,exchange_option,quantity,maker,model,part_entered,search_part_id,is_preferred_vendor,is_g_listing,is_m_listing\n";

fn part() -> PartSearchResult {
    PartSearchResult {
        alternate_part_number: Some("ALT-1".to_owned()),
        condition_code: Some("NE".to_owned()),
        description: Some("VALVE, GLOBE".to_owned()),
        exchange_option: None,
        is_g_listing: Some(true),
        is_m_listing: None,
        is_preferred_vendor: Some(false),
        maker: None,
        model: None,
        part_entered: Some("4730012345678".to_owned()),
        part_number: Some("123-456".to_owned()),
        quantity: Some("7".to_owned()),
        search_part_id: Some("99".to_owned()),
    }
}

fn company() -> Company {
    Company {
        id: Some("ABCD".to_owned()),
        name: Some("Acme Aviation".to_owned()),
        supplier_cage: Some("1K2L3".to_owned()),
        accredited_vendor_level: None,
    }
}

fn results() -> Vec<QueryResult<Availability>> {
    let mut entries = parse_nsn_list("4730-01-234-5678\nBAD\n012345678\n# x\n4730012345678\n").into_iter();
    let first = QueryResult::for_entry(
        entries.next().unwrap(),
        Some(Ok(Availability {
            faults: Vec::new(),
            part_listings: vec![
                PartListing { company: Some(company()), parts: Some(PartsWrapper { items: vec![part(), part()] }) },
                PartListing { company: None, parts: None },
            ],
        })),
    );
    let second = QueryResult::for_entry(entries.next().unwrap(), None);
    let third = QueryResult::for_entry(
        entries.next().unwrap(),
        Some(Ok(Availability {
            faults: vec![
                Fault { message: Some("No parts found".to_owned()), name: None, severity: None, sub_type: None },
                Fault { message: None, name: None, severity: None, sub_type: None },
                Fault { message: Some("try later".to_owned()), name: None, severity: None, sub_type: None },
            ],
            part_listings: Vec::new(),
        })),
    );
    let fourth = QueryResult::for_entry(
        entries.next().unwrap(),
        Some(Err(IlsError::Status { status: 503, body: "down".to_owned() })),
    );
    vec![first, second, third, fourth]
}

#[test]
fn csv_has_one_row_per_part_and_summary_rows() {
    let bytes = write_availability_csv(&results());
    let text = String::from_utf8(bytes).expect("utf-8");
    let mut expected = String::from(HEADER);
    let full = "1,4730-01-234-5678,4730012345678,ok,,ABCD,Acme Aviation,1K2L3,,123-456,ALT-1,NE,\"VALVE, GLOBE\",,7,,,4730012345678,99,false,true,\n";
    expected.push_str(full);
    expected.push_str(full);
    let blanks = |n: usize| ",".repeat(n);
    expected.push_str(&format!("1,4730-01-234-5678,4730012345678,ok{}\n", blanks(18)));
    expected.push_str(&format!(
        "2,BAD,,invalid,invalid NSN 'BAD': non-digit characters (after stripping hyphens and whitespace){}\n",
        blanks(17)
    ));
    expected.push_str(&format!("3,012345678,012345678,api_fault,No parts found; try later{}\n", blanks(17)));
    expected.push_str(&format!(
        "5,4730012345678,4730012345678,error,unexpected HTTP status 503: down{}\n",
        blanks(17)
    ));
    assert_eq!(text, expected);
    for line in text.lines() {
        assert_eq!(line.matches(',').count() - line.matches("\"VALVE, GLOBE\"").count(), 21);
    }
}

#[test]
fn csv_of_no_results_is_header_only() {
    let bytes = write_availability_csv(&[]);
    assert_eq!(String::from_utf8(bytes).unwrap(), HEADER);
}

#[test]
fn no_results_status_when_nothing_found() {
    let entry = parse_nsn_list("012345678").into_iter().next().unwrap();
    let r = QueryResult::for_entry(entry, Some(Ok(Availability { faults: Vec::new(), part_listings: Vec::new() })));
    let text = String::from_utf8(write_availability_csv(&[r])).unwrap();
    assert!(text.ends_with(&format!("1,012345678,012345678,no_results,{}\n", ",".repeat(17))));
}

#[test]
fn json_records_follow_results() {
    let rs = results();
    let records: Vec<AvailabilityJson> = availability_json_records(&rs);
    assert_eq!(records.len(), 4);
    assert_eq!(records[0].line, 1);
    assert_eq!(records[0].status, "ok");
    assert_eq!(records[0].normalized, Some("4730012345678"));
    assert_eq!(records[0].listings.len(), 2);
    assert!(records[0].error.is_none());
    assert_eq!(records[1].status, "invalid");
    assert_eq!(records[1].normalized, None);
    assert_eq!(records[1].input, "BAD");
    assert!(records[1].error.unwrap().starts_with("invalid NSN 'BAD'"));
    assert_eq!(records[2].status, "api_fault");
    assert_eq!(records[2].faults.len(), 3);
    assert_eq!(records[3].status, "error");
    assert_eq!(records[3].error, Some("unexpected HTTP status 503: down"));
    assert_eq!(records[3].normalized, Some("4730012345678"));
    assert!(records[3].listings.is_empty());
    assert!(matches!(rs[1].outcome, Outcome::Invalid(_)));
}

#[test]
fn csv_quotes_fields_with_delimiters_quotes_and_line_breaks() {
    let entry = parse_nsn_list("012345678").into_iter().next().unwrap();
    let r = QueryResult::for_entry(
        entry,
        Some(Err(IlsError::Status { status: 500, body: "say \"hi\", then\nleave".to_owned() })),
    );
    let text = String::from_utf8(write_availability_csv(&[r])).unwrap();
    assert!(text.ends_with(&format!(
        "1,012345678,012345678,error,\"unexpected HTTP status 500: say \"\"hi\"\", then\nleave\"{}\n",
        ",".repeat(17)
    )));
}

#[test]
fn csv_rows_are_grouped_per_result_in_order() {
    let text = String::from_utf8(write_availability_csv(&results())).unwrap();
    let firsts: Vec<&str> = text.lines().skip(1).map(|l| l.split(',').next().unwrap()).collect();
    assert_eq!(firsts, vec!["1", "1", "1", "2", "3", "5"]);
    let statuses: Vec<&str> = text.lines().skip(1).take(3).map(|l| l.split(',').nth(3).unwrap()).collect();
    assert_eq!(statuses, vec!["ok", "ok", "ok"]);
}
