//! `GetGovernmentData` — DoD reference catalog data for a single NSN/NIIN.
//!
//! The request takes an array of dataset codes (AMDF, CRF, DLA, ISDOD, ISUSAF,
//! MCRL, MLC, MOE, MRIL, NHA, PH, TECH). The response is a grab-bag of optional
//! collections corresponding to the requested datasets; the pieces modelled here
//! are `ItemName`, `Fsc`, `Niin`, `HasPartsAvailability`, MCRL (manufacturer
//! cross-reference), NSN Info, and Procurement History.

use vstd::prelude::*;

use super::{
    fault_to_error, holds_text_element, lemma_escaped_element, text_or_empty, xml_escape,
    xml_escaped, SoapFault, MS_ARRAYS_NS, SERVICE_NS,
};
use crate::error::IlsError;
use crate::text::{
    ascii_lower_seq, ascii_upper_seq, chars_eq_str, trim, trimmed_lower, trimmed_upper,
};

verus! {

pub const SOAP_ACTION: &'static str = "http://namespace.ilsmart.com/v2/GetGovernmentData";

/// Dataset codes accepted by `GovFilesToSearch`. At least one must be passed.
#[derive(Debug, Clone, Copy, PartialEq, Eq, Structural)]
pub enum Dataset {
    Amdf,
    Crf,
    Dla,
    Isdod,
    Isusaf,
    Mcrl,
    Mlc,
    Moe,
    Mril,
    Nha,
    Ph,
    Tech,
}

/// The wire code of a dataset.
pub open spec fn dataset_code(d: Dataset) -> Seq<char> {
    match d {
        Dataset::Amdf => "AMDF"@,
        Dataset::Crf => "CRF"@,
        Dataset::Dla => "DLA"@,
        Dataset::Isdod => "ISDOD"@,
        Dataset::Isusaf => "ISUSAF"@,
        Dataset::Mcrl => "MCRL"@,
        Dataset::Mlc => "MLC"@,
        Dataset::Moe => "MOE"@,
        Dataset::Mril => "MRIL"@,
        Dataset::Nha => "NHA"@,
        Dataset::Ph => "PH"@,
        Dataset::Tech => "TECH"@,
    }
}

/// The dataset whose code is exactly `s`, if any.
pub open spec fn dataset_named(s: Seq<char>) -> Option<Dataset> {
    if s == "AMDF"@ {
        Some(Dataset::Amdf)
    } else if s == "CRF"@ {
        Some(Dataset::Crf)
    } else if s == "DLA"@ {
        Some(Dataset::Dla)
    } else if s == "ISDOD"@ {
        Some(Dataset::Isdod)
    } else if s == "ISUSAF"@ {
        Some(Dataset::Isusaf)
    } else if s == "MCRL"@ {
        Some(Dataset::Mcrl)
    } else if s == "MLC"@ {
        Some(Dataset::Mlc)
    } else if s == "MOE"@ {
        Some(Dataset::Moe)
    } else if s == "MRIL"@ {
        Some(Dataset::Mril)
    } else if s == "NHA"@ {
        Some(Dataset::Nha)
    } else if s == "PH"@ {
        Some(Dataset::Ph)
    } else if s == "TECH"@ {
        Some(Dataset::Tech)
    } else {
        None
    }
}

/// What `Dataset::parse` yields: the code matched after trimming, case-insensitively.
pub open spec fn dataset_parse(input: Seq<char>) -> Option<Dataset> {
    dataset_named(ascii_upper_seq(trim(input)))
}

impl Dataset {
    pub fn code(&self) -> (r: &'static str)
        ensures
            r@ == dataset_code(*self),
    {
        match self {
            Dataset::Amdf => "AMDF",
            Dataset::Crf => "CRF",
            Dataset::Dla => "DLA",
            Dataset::Isdod => "ISDOD",
            Dataset::Isusaf => "ISUSAF",
            Dataset::Mcrl => "MCRL",
            Dataset::Mlc => "MLC",
            Dataset::Moe => "MOE",
            Dataset::Mril => "MRIL",
            Dataset::Nha => "NHA",
            Dataset::Ph => "PH",
            Dataset::Tech => "TECH",
        }
    }

    pub fn parse(input: &str) -> (r: Option<Self>)
        ensures
            r == dataset_parse(input@),
    {
        let s = trimmed_upper(input);
        if chars_eq_str(&s, "AMDF") {
            Some(Dataset::Amdf)
        } else if chars_eq_str(&s, "CRF") {
            Some(Dataset::Crf)
        } else if chars_eq_str(&s, "DLA") {
            Some(Dataset::Dla)
        } else if chars_eq_str(&s, "ISDOD") {
            Some(Dataset::Isdod)
        } else if chars_eq_str(&s, "ISUSAF") {
            Some(Dataset::Isusaf)
        } else if chars_eq_str(&s, "MCRL") {
            Some(Dataset::Mcrl)
        } else if chars_eq_str(&s, "MLC") {
            Some(Dataset::Mlc)
        } else if chars_eq_str(&s, "MOE") {
            Some(Dataset::Moe)
        } else if chars_eq_str(&s, "MRIL") {
            Some(Dataset::Mril)
        } else if chars_eq_str(&s, "NHA") {
            Some(Dataset::Nha)
        } else if chars_eq_str(&s, "PH") {
            Some(Dataset::Ph)
        } else if chars_eq_str(&s, "TECH") {
            Some(Dataset::Tech)
        } else {
            None
        }
    }
}

/// The `<a:string>` lines listing the requested datasets, in order.
pub open spec fn dataset_files(ds: Seq<Dataset>) -> Seq<char>
    decreases ds.len(),
{
    if ds.len() == 0 {
        seq![]
    } else {
        dataset_files(ds.drop_last()) + "        <a:string>"@ + dataset_code(ds.last())
            + "</a:string>\n"@
    }
}

/// The request body for one part number and a list of datasets.
pub open spec fn government_request(
    user_id: Seq<char>,
    password: Seq<char>,
    part_number: Seq<char>,
    datasets: Seq<Dataset>,
) -> Seq<char> {
    "<?xml version=\"1.0\" encoding=\"utf-8\"?>\n"@
        + "<s:Envelope xmlns:s=\"http://schemas.xmlsoap.org/soap/envelope/\">\n"@ + "  <s:Body>\n"@
        + "    <GetGovernmentData xmlns=\""@ + SERVICE_NS@ + "\">\n"@
        + "      <GovFilesToSearch xmlns:a=\""@ + MS_ARRAYS_NS@ + "\">\n"@ + dataset_files(datasets)
        + "      </GovFilesToSearch>\n"@ + "      <PartNumber>"@ + xml_escaped(part_number)
        + "</PartNumber>\n"@ + "      <Password>"@ + xml_escaped(password) + "</Password>\n"@
        + "      <UserId>"@ + xml_escaped(user_id) + "</UserId>\n"@ + "    </GetGovernmentData>\n"@
        + "  </s:Body>\n"@ + "</s:Envelope>\n"@
}

/// Every value reaches the `GetGovernmentData` request only in escaped form: the
/// `PartNumber`, `Password` and `UserId` elements each hold text that has no
/// markup character and decodes back to the value given.
pub proof fn lemma_government_request_escapes_values(
    user_id: Seq<char>,
    password: Seq<char>,
    part_number: Seq<char>,
    datasets: Seq<Dataset>,
)
    ensures
        holds_text_element(
            government_request(user_id, password, part_number, datasets),
            "<PartNumber>"@,
            "</PartNumber>"@,
            part_number,
        ),
        holds_text_element(
            government_request(user_id, password, part_number, datasets),
            "<Password>"@,
            "</Password>"@,
            password,
        ),
        holds_text_element(
            government_request(user_id, password, part_number, datasets),
            "<UserId>"@,
            "</UserId>"@,
            user_id,
        ),
{
    reveal_strlit("      <PartNumber>");
    reveal_strlit("<PartNumber>");
    reveal_strlit("</PartNumber>\n");
    reveal_strlit("</PartNumber>");
    reveal_strlit("      <Password>");
    reveal_strlit("<Password>");
    reveal_strlit("</Password>\n");
    reveal_strlit("</Password>");
    reveal_strlit("      <UserId>");
    reveal_strlit("<UserId>");
    reveal_strlit("</UserId>\n");
    reveal_strlit("</UserId>");
    let r = government_request(user_id, password, part_number, datasets);
    let head = "<?xml version=\"1.0\" encoding=\"utf-8\"?>\n"@
        + "<s:Envelope xmlns:s=\"http://schemas.xmlsoap.org/soap/envelope/\">\n"@ + "  <s:Body>\n"@
        + "    <GetGovernmentData xmlns=\""@ + SERVICE_NS@ + "\">\n"@
        + "      <GovFilesToSearch xmlns:a=\""@ + MS_ARRAYS_NS@ + "\">\n"@ + dataset_files(datasets)
        + "      </GovFilesToSearch>\n"@;
    let tail = "    </GetGovernmentData>\n"@ + "  </s:Body>\n"@ + "</s:Envelope>\n"@;
    let pn = xml_escaped(part_number);
    let pw = xml_escaped(password);
    let uid = xml_escaped(user_id);
    assert("      <PartNumber>"@ =~= "      "@ + "<PartNumber>"@) by { reveal_strlit("      "); }
    assert("</PartNumber>\n"@ =~= "</PartNumber>"@ + "\n"@) by { reveal_strlit("\n"); }
    assert("      <Password>"@ =~= "      "@ + "<Password>"@) by { reveal_strlit("      "); }
    assert("</Password>\n"@ =~= "</Password>"@ + "\n"@) by { reveal_strlit("\n"); }
    assert("      <UserId>"@ =~= "      "@ + "<UserId>"@) by { reveal_strlit("      "); }
    assert("</UserId>\n"@ =~= "</UserId>"@ + "\n"@) by { reveal_strlit("\n"); }
    let a = "      <PartNumber>"@;
    let b = "</PartNumber>\n"@;
    let c = "      <Password>"@;
    let d = "</Password>\n"@;
    let e = "      <UserId>"@;
    let f = "</UserId>\n"@;
    assert(r == head + a + pn + b + c + pw + d + e + uid + f + tail);
    assert(r =~= (head + "      "@) + "<PartNumber>"@ + pn + "</PartNumber>"@ + ("\n"@ + c + pw + d + e
        + uid + f + tail));
    lemma_escaped_element(head + "      "@, "<PartNumber>"@, part_number, "</PartNumber>"@, "\n"@ + c + pw
        + d + e + uid + f + tail);
    assert(r =~= (head + a + pn + b + "      "@) + "<Password>"@ + pw + "</Password>"@ + ("\n"@ + e + uid
        + f + tail));
    lemma_escaped_element(head + a + pn + b + "      "@, "<Password>"@, password, "</Password>"@, "\n"@
        + e + uid + f + tail);
    assert(r =~= (head + a + pn + b + c + pw + d + "      "@) + "<UserId>"@ + uid + "</UserId>"@ + ("\n"@
        + tail));
    lemma_escaped_element(head + a + pn + b + c + pw + d + "      "@, "<UserId>"@, user_id, "</UserId>"@,
        "\n"@ + tail);
}

/// Builds the SOAP envelope for `GetGovernmentData`. At least one dataset is required.
pub fn build_request(user_id: &str, password: &str, part_number: &str, datasets: &[Dataset]) -> (r:
    String)
    requires
        datasets@.len() > 0,
    ensures
        r@ == government_request(user_id@, password@, part_number@, datasets@),
{
    let mut files = String::new();
    let mut i: usize = 0;
    while i < datasets.len()
        invariant
            i <= datasets@.len(),
            files@ == dataset_files(datasets@.take(i as int)),
        decreases datasets@.len() - i,
    {
        assert(datasets@.take(i + 1).drop_last() =~= datasets@.take(i as int));
        files.append("        <a:string>");
        files.append(datasets[i].code());
        files.append("</a:string>\n");
        i = i + 1;
    }
    assert(datasets@.take(datasets@.len() as int) =~= datasets@);
    let mut out = "<?xml version=\"1.0\" encoding=\"utf-8\"?>\n".to_owned();
    out.append("<s:Envelope xmlns:s=\"http://schemas.xmlsoap.org/soap/envelope/\">\n");
    out.append("  <s:Body>\n");
    out.append("    <GetGovernmentData xmlns=\"");
    out.append(SERVICE_NS);
    out.append("\">\n");
    out.append("      <GovFilesToSearch xmlns:a=\"");
    out.append(MS_ARRAYS_NS);
    out.append("\">\n");
    out.append(files.as_str());
    out.append("      </GovFilesToSearch>\n");
    out.append("      <PartNumber>");
    out.append(xml_escape(part_number).as_str());
    out.append("</PartNumber>\n");
    out.append("      <Password>");
    out.append(xml_escape(password).as_str());
    out.append("</Password>\n");
    out.append("      <UserId>");
    out.append(xml_escape(user_id).as_str());
    out.append("</UserId>\n");
    out.append("    </GetGovernmentData>\n");
    out.append("  </s:Body>\n");
    out.append("</s:Envelope>\n");
    out
}

/// What `parse_bool_ish` yields for a text.
pub open spec fn bool_ish(s: Seq<char>) -> Option<bool> {
    let t = ascii_lower_seq(trim(s));
    if t == "true"@ || t == "yes"@ || t == "y"@ || t == "1"@ || t == "t"@ {
        Some(true)
    } else if t == "false"@ || t == "no"@ || t == "n"@ || t == "0"@ || t == "f"@ || t == ""@ {
        Some(false)
    } else {
        None
    }
}

/// A best-effort boolean: common spellings of true and false, case-insensitive,
/// surrounding whitespace ignored; blank reads as false.
pub fn parse_bool_ish(s: &str) -> (r: Option<bool>)
    ensures
        r == bool_ish(s@),
{
    let t = trimmed_lower(s);
    if chars_eq_str(&t, "true") || chars_eq_str(&t, "yes") || chars_eq_str(&t, "y")
        || chars_eq_str(&t, "1") || chars_eq_str(&t, "t") {
        Some(true)
    } else if chars_eq_str(&t, "false") || chars_eq_str(&t, "no") || chars_eq_str(&t, "n")
        || chars_eq_str(&t, "0") || chars_eq_str(&t, "f") || chars_eq_str(&t, "") {
        Some(false)
    } else {
        None
    }
}

/// High-level parsed response for one `GetGovernmentData` call.
#[derive(Debug)]
pub struct GovernmentResult {
    pub faults: Vec<Fault>,
    pub items: Vec<GovernmentDataSearchResults>,
}

impl GovernmentResult {
    /// The first result's `HasPartsAvailability` parsed as a best-effort boolean.
    /// The field is typed `xs:string` in the WSDL; "true"/"false" are documented
    /// and common variants are accepted case-insensitively. Only the first result
    /// decides: without results, or without the field on the first one, the
    /// answer is `None`.
    pub fn has_parts_availability(&self) -> (r: Option<bool>)
        ensures
            r == (if self.items@.len() == 0 {
                None
            } else {
                match self.items@[0].has_parts_availability {
                    Some(s) => bool_ish(s@),
                    None => None,
                }
            }),
    {
        if self.items.len() == 0 {
            return None;
        }
        match &self.items[0].has_parts_availability {
            Some(s) => parse_bool_ish(s.as_str()),
            None => None,
        }
    }
}

#[derive(Debug)]
pub struct Fault {
    pub message: Option<String>,
    pub name: Option<String>,
    pub severity: Option<String>,
    pub sub_type: Option<String>,
}

/// Top-level result for one NSN. Most fields are optional because they only
/// appear when the corresponding dataset was requested (and the server had data).
#[derive(Debug)]
pub struct GovernmentDataSearchResults {
    pub item_name: Option<String>,
    pub fsc: Option<String>,
    pub niin: Option<String>,
    pub has_parts_availability: Option<String>,
    pub hist_ind: Option<String>,
    pub mcrl_data: Option<Mcrl>,
    pub nsn_info: Option<NsnInfo>,
    pub procurement_history: Option<ProcurementHistoryData>,
}

#[derive(Debug)]
pub struct Mcrl {
    pub items: Option<ArrayOfMcrlItem>,
}

#[derive(Debug)]
pub struct ArrayOfMcrlItem {
    pub items: Vec<McrlItem>,
}

#[derive(Debug)]
pub struct McrlItem {
    pub cage: Option<String>,
    pub company_name: Option<String>,
    pub dac: Option<String>,
    pub historical: Option<String>,
    pub part_number: Option<String>,
    pub rncc: Option<String>,
    pub rnvc: Option<String>,
}

#[derive(Debug)]
pub struct NsnInfo {
    pub items: Option<ArrayOfNsnInfoItem>,
}

#[derive(Debug)]
pub struct ArrayOfNsnInfoItem {
    pub items: Vec<NsnInfoItem>,
}

#[derive(Debug)]
pub struct NsnInfoItem {
    pub adp_code: Option<String>,
    pub demilitarization_code: Option<String>,
    pub item_name_code: Option<String>,
    pub status: Option<String>,
}

#[derive(Debug)]
pub struct ProcurementHistoryData {
    pub entries: Option<ArrayOfProcurementItem>,
}

#[derive(Debug)]
pub struct ArrayOfProcurementItem {
    pub items: Vec<ProcurementItem>,
}

#[derive(Debug)]
pub struct ProcurementItem {
    pub award_date: Option<String>,
    pub cage: Option<String>,
    pub company_name: Option<String>,
    pub contract_number: Option<String>,
    pub quantity: Option<String>,
}

/// The decoded SOAP envelope of a `GetGovernmentData` response.
#[derive(Debug)]
pub struct Envelope {
    pub body: SoapBody,
}

#[derive(Debug)]
pub struct SoapBody {
    pub response: Option<RespWrapper>,
    pub fault: Option<SoapFault>,
}

#[derive(Debug)]
pub struct RespWrapper {
    pub body: Option<RespBody>,
}

#[derive(Debug)]
pub struct RespBody {
    pub faults: Option<FaultsWrapper>,
    pub search_results: Option<SearchResultsWrapper>,
}

#[derive(Debug)]
pub struct FaultsWrapper {
    pub items: Vec<Fault>,
}

#[derive(Debug)]
pub struct SearchResultsWrapper {
    pub items: Vec<GovernmentDataSearchResults>,
}

/// The faults a response body carries (none when the collection is absent).
pub open spec fn body_faults(body: Option<RespBody>) -> Seq<Fault> {
    match body {
        Some(b) => match b.faults {
            Some(f) => f.items@,
            None => seq![],
        },
        None => seq![],
    }
}

/// The search results a response body carries (none when the collection is absent).
pub open spec fn body_items(body: Option<RespBody>) -> Seq<GovernmentDataSearchResults> {
    match body {
        Some(b) => match b.search_results {
            Some(s) => s.items@,
            None => seq![],
        },
        None => seq![],
    }
}

/// `r` is what a decoded response (or the decoder's error text) amounts to.
pub open spec fn is_response_of(
    r: Result<GovernmentResult, IlsError>,
    decoded: Result<Envelope, String>,
) -> bool {
    match decoded {
        Err(msg) => r matches Err(IlsError::Parse(m)) && m@ == "xml deserialize: "@ + msg@,
        Ok(env) => match env.body.fault {
            Some(f) => r matches Err(IlsError::SoapFault { code, message }) && code@
                == text_or_empty(f.faultcode) && message@ == text_or_empty(f.faultstring),
            None => match env.body.response {
                None => r matches Err(IlsError::Parse(m)) && m@
                    == "missing GetGovernmentDataResponse element"@,
                Some(resp) => r matches Ok(g) && g.faults@ == body_faults(resp.body) && g.items@
                    == body_items(resp.body),
            },
        },
    }
}

/// A decoded answer keeps everything the service sent: when the envelope holds
/// no SOAP fault and does hold the response element, the result is `Ok`, its
/// search results are exactly the results collection's items (same length, same
/// order) and its faults exactly the faults collection's items; an absent
/// collection (or body) gives none.
pub proof fn lemma_response_keeps_collections(r: Result<GovernmentResult, IlsError>, decoded: Result<Envelope, String>)
    requires
        is_response_of(r, decoded),
    ensures
        match decoded {
            Ok(env) => match (env.body.fault, env.body.response) {
                (None, Some(resp)) => r matches Ok(g) && match resp.body {
                    Some(b) => {
                        &&& match b.search_results {
                            Some(s) => g.items@ == s.items@,
                            None => g.items@.len() == 0,
                        }
                        &&& match b.faults {
                            Some(f) => g.faults@ == f.items@,
                            None => g.faults@.len() == 0,
                        }
                    },
                    None => g.items@.len() == 0 && g.faults@.len() == 0,
                },
                _ => r is Err,
            },
            Err(_) => r is Err,
        },
{
}

/// Interprets a decoded `GetGovernmentData` response: an envelope fault becomes
/// `SoapFault`, a missing response element or an undecodable document becomes
/// `Parse`, and absent collections read as empty.
pub fn parse_response(decoded: Result<Envelope, String>) -> (r: Result<GovernmentResult, IlsError>)
    ensures
        is_response_of(r, decoded),
{
    let env = match decoded {
        Ok(env) => env,
        Err(msg) => {
            let mut m = "xml deserialize: ".to_owned();
            m.append(msg.as_str());
            return Err(IlsError::Parse(m));
        },
    };
    if let Some(fault) = env.body.fault {
        return Err(fault_to_error(fault));
    }
    let resp = match env.body.response {
        Some(resp) => resp,
        None => {
            return Err(IlsError::Parse("missing GetGovernmentDataResponse element".to_owned()));
        },
    };
    match resp.body {
        None => Ok(GovernmentResult { faults: Vec::new(), items: Vec::new() }),
        Some(body) => {
            let faults = match body.faults {
                Some(f) => f.items,
                None => Vec::new(),
            };
            let items = match body.search_results {
                Some(s) => s.items,
                None => Vec::new(),
            };
            Ok(GovernmentResult { faults, items })
        },
    }
}

/// Parsing a dataset's code gives back that dataset.
pub proof fn lemma_dataset_code_roundtrip(d: Dataset)
    ensures
        dataset_parse(dataset_code(d)) == Some(d),
{
    reveal_strlit("AMDF");
    reveal_strlit("CRF");
    reveal_strlit("DLA");
    reveal_strlit("ISDOD");
    reveal_strlit("ISUSAF");
    reveal_strlit("MCRL");
    reveal_strlit("MLC");
    reveal_strlit("MOE");
    reveal_strlit("MRIL");
    reveal_strlit("NHA");
    reveal_strlit("PH");
    reveal_strlit("TECH");
    let c = dataset_code(d);
    assert(forall|i: int| 0 <= i < c.len() ==> 'A' <= #[trigger] c[i] && c[i] <= 'Z');
    crate::text::lemma_trim_unchanged(c);
    crate::text::lemma_upper_unchanged(c);
    assert("AMDF"@.len() == 4 && "AMDF"@[0] == 'A' && "AMDF"@[1] == 'M');
    assert("CRF"@.len() == 3 && "CRF"@[0] == 'C' && "CRF"@[1] == 'R');
    assert("DLA"@.len() == 3 && "DLA"@[0] == 'D' && "DLA"@[1] == 'L');
    assert("ISDOD"@.len() == 5 && "ISDOD"@[0] == 'I' && "ISDOD"@[1] == 'S');
    assert("ISUSAF"@.len() == 6 && "ISUSAF"@[0] == 'I' && "ISUSAF"@[1] == 'S');
    assert("MCRL"@.len() == 4 && "MCRL"@[0] == 'M' && "MCRL"@[1] == 'C');
    assert("MLC"@.len() == 3 && "MLC"@[0] == 'M' && "MLC"@[1] == 'L');
    assert("MOE"@.len() == 3 && "MOE"@[0] == 'M' && "MOE"@[1] == 'O');
    assert("MRIL"@.len() == 4 && "MRIL"@[0] == 'M' && "MRIL"@[1] == 'R');
    assert("NHA"@.len() == 3 && "NHA"@[0] == 'N' && "NHA"@[1] == 'H');
    assert("PH"@.len() == 2 && "PH"@[0] == 'P' && "PH"@[1] == 'H');
    assert("TECH"@.len() == 4 && "TECH"@[0] == 'T' && "TECH"@[1] == 'E');
}

/// Dataset codes are matched without regard to case.
pub proof fn lemma_dataset_parse_ignores_case(input: Seq<char>)
    ensures
        dataset_parse(ascii_lower_seq(input)) == dataset_parse(input),
        dataset_parse(ascii_upper_seq(input)) == dataset_parse(input),
{
    crate::text::lemma_case_insensitive_trim(input);
    crate::text::lemma_trim_case_commute(input);
    crate::text::lemma_upper_idempotent(trim(input));
}

/// Boolean-ish values are read without regard to case.
pub proof fn lemma_bool_ish_ignores_case(s: Seq<char>)
    ensures
        bool_ish(ascii_upper_seq(s)) == bool_ish(s),
        bool_ish(ascii_lower_seq(s)) == bool_ish(s),
{
    crate::text::lemma_case_insensitive_trim(s);
    crate::text::lemma_trim_case_commute(s);
    crate::text::lemma_lower_idempotent(trim(s));
}

} // verus!
