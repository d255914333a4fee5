//! `GetPartsAvailability` — marketplace listings for a single part number.

use vstd::prelude::*;

use super::{
    fault_to_error, holds_text_element, lemma_escaped_element, text_or_empty, xml_escape, xml_escaped,
    SoapFault, SERVICE_NS,
};
use crate::error::IlsError;

verus! {

pub const SOAP_ACTION: &'static str = "http://namespace.ilsmart.com/v2/GetPartsAvailability";

/// The request body for one part number.
pub open spec fn availability_request(
    user_id: Seq<char>,
    password: Seq<char>,
    part_number: Seq<char>,
) -> Seq<char> {
    "<?xml version=\"1.0\" encoding=\"utf-8\"?>\n"@
        + "<s:Envelope xmlns:s=\"http://schemas.xmlsoap.org/soap/envelope/\">\n"@ + "  <s:Body>\n"@
        + "    <GetPartsAvailability xmlns=\""@ + SERVICE_NS@ + "\">\n"@ + "      <PartNumber>"@
        + xml_escaped(part_number) + "</PartNumber>\n"@ + "      <Password>"@ + xml_escaped(password)
        + "</Password>\n"@ + "      <UserId>"@ + xml_escaped(user_id) + "</UserId>\n"@
        + "    </GetPartsAvailability>\n"@ + "  </s:Body>\n"@ + "</s:Envelope>\n"@
}

/// Every value reaches the `GetPartsAvailability` request only in escaped form:
/// the `PartNumber`, `Password` and `UserId` elements each hold text that has no
/// markup character and decodes back to the value given.
pub proof fn lemma_availability_request_escapes_values(user_id: Seq<char>, password: Seq<char>, part_number: Seq<char>)
    ensures
        holds_text_element(availability_request(user_id, password, part_number), "<PartNumber>"@, "</PartNumber>"@, part_number),
        holds_text_element(availability_request(user_id, password, part_number), "<Password>"@, "</Password>"@, password),
        holds_text_element(availability_request(user_id, password, part_number), "<UserId>"@, "</UserId>"@, user_id),
{
    reveal_strlit("      <PartNumber>");
    reveal_strlit("<PartNumber>");
    reveal_strlit("</PartNumber>\n");
    reveal_strlit("</PartNumber>");
    reveal_strlit("      <Password>");
    reveal_strlit("<Password>");
    reveal_strlit("</Password>\n");
    reveal_strlit("</Password>");
    reveal_strlit("      <UserId>");
    reveal_strlit("<UserId>");
    reveal_strlit("</UserId>\n");
    reveal_strlit("</UserId>");
    let r = availability_request(user_id, password, part_number);
    let head = "<?xml version=\"1.0\" encoding=\"utf-8\"?>\n"@
        + "<s:Envelope xmlns:s=\"http://schemas.xmlsoap.org/soap/envelope/\">\n"@ + "  <s:Body>\n"@
        + "    <GetPartsAvailability xmlns=\""@ + SERVICE_NS@ + "\">\n"@;
    let tail = "    </GetPartsAvailability>\n"@ + "  </s:Body>\n"@ + "</s:Envelope>\n"@;
    let pn = xml_escaped(part_number);
    let pw = xml_escaped(password);
    let uid = xml_escaped(user_id);
    assert("      <PartNumber>"@ =~= "      "@ + "<PartNumber>"@) by { reveal_strlit("      "); }
    assert("</PartNumber>\n"@ =~= "</PartNumber>"@ + "\n"@) by { reveal_strlit("\n"); }
    assert("      <Password>"@ =~= "      "@ + "<Password>"@) by { reveal_strlit("      "); }
    assert("</Password>\n"@ =~= "</Password>"@ + "\n"@) by { reveal_strlit("\n"); }
    assert("      <UserId>"@ =~= "      "@ + "<UserId>"@) by { reveal_strlit("      "); }
    assert("</UserId>\n"@ =~= "</UserId>"@ + "\n"@) by { reveal_strlit("\n"); }
    let a = "      <PartNumber>"@;
    let b = "</PartNumber>\n"@;
    let c = "      <Password>"@;
    let d = "</Password>\n"@;
    let e = "      <UserId>"@;
    let f = "</UserId>\n"@;
    assert(r == head + a + pn + b + c + pw + d + e + uid + f + tail);
    assert(r =~= (head + "      "@) + "<PartNumber>"@ + pn + "</PartNumber>"@ + ("\n"@ + c + pw + d + e
        + uid + f + tail));
    lemma_escaped_element(head + "      "@, "<PartNumber>"@, part_number, "</PartNumber>"@, "\n"@ + c + pw
        + d + e + uid + f + tail);
    assert(r =~= (head + a + pn + b + "      "@) + "<Password>"@ + pw + "</Password>"@ + ("\n"@ + e + uid
        + f + tail));
    lemma_escaped_element(head + a + pn + b + "      "@, "<Password>"@, password, "</Password>"@, "\n"@
        + e + uid + f + tail);
    assert(r =~= (head + a + pn + b + c + pw + d + "      "@) + "<UserId>"@ + uid + "</UserId>"@ + ("\n"@
        + tail));
    lemma_escaped_element(head + a + pn + b + c + pw + d + "      "@, "<UserId>"@, user_id, "</UserId>"@,
        "\n"@ + tail);
}

/// Builds the SOAP envelope for `GetPartsAvailability`; every value is XML-escaped.
pub fn build_request(user_id: &str, password: &str, part_number: &str) -> (r: String)
    ensures
        r@ == availability_request(user_id@, password@, part_number@),
{
    let mut out = "<?xml version=\"1.0\" encoding=\"utf-8\"?>\n".to_owned();
    out.append("<s:Envelope xmlns:s=\"http://schemas.xmlsoap.org/soap/envelope/\">\n");
    out.append("  <s:Body>\n");
    out.append("    <GetPartsAvailability xmlns=\"");
    out.append(SERVICE_NS);
    out.append("\">\n");
    out.append("      <PartNumber>");
    out.append(xml_escape(part_number).as_str());
    out.append("</PartNumber>\n");
    out.append("      <Password>");
    out.append(xml_escape(password).as_str());
    out.append("</Password>\n");
    out.append("      <UserId>");
    out.append(xml_escape(user_id).as_str());
    out.append("</UserId>\n");
    out.append("    </GetPartsAvailability>\n");
    out.append("  </s:Body>\n");
    out.append("</s:Envelope>\n");
    out
}

/// The parsed result of one `GetPartsAvailability` call.
#[derive(Debug)]
pub struct Availability {
    pub faults: Vec<Fault>,
    pub part_listings: Vec<PartListing>,
}

/// A service-level fault reported inside the response body.
#[derive(Debug)]
pub struct Fault {
    pub message: Option<String>,
    pub name: Option<String>,
    pub severity: Option<String>,
    pub sub_type: Option<String>,
}

/// One supplier and the matching parts it lists.
#[derive(Debug)]
pub struct PartListing {
    pub company: Option<Company>,
    pub parts: Option<PartsWrapper>,
}

#[derive(Debug)]
pub struct Company {
    pub id: Option<String>,
    pub name: Option<String>,
    pub supplier_cage: Option<String>,
    pub accredited_vendor_level: Option<String>,
}

#[derive(Debug)]
pub struct PartsWrapper {
    pub items: Vec<PartSearchResult>,
}

#[derive(Debug)]
pub struct PartSearchResult {
    pub alternate_part_number: Option<String>,
    pub condition_code: Option<String>,
    pub description: Option<String>,
    pub exchange_option: Option<String>,
    pub is_g_listing: Option<bool>,
    pub is_m_listing: Option<bool>,
    pub is_preferred_vendor: Option<bool>,
    pub maker: Option<String>,
    pub model: Option<String>,
    pub part_entered: Option<String>,
    pub part_number: Option<String>,
    pub quantity: Option<String>,
    pub search_part_id: Option<String>,
}

/// The decoded SOAP envelope of a `GetPartsAvailability` response.
#[derive(Debug)]
pub struct Envelope {
    pub body: SoapBody,
}

#[derive(Debug)]
pub struct SoapBody {
    pub response: Option<RespWrapper>,
    pub fault: Option<SoapFault>,
}

#[derive(Debug)]
pub struct RespWrapper {
    pub body: Option<RespBody>,
}

#[derive(Debug)]
pub struct RespBody {
    pub faults: Option<FaultsWrapper>,
    pub part_listings: Option<PartListingsWrapper>,
}

#[derive(Debug)]
pub struct FaultsWrapper {
    pub items: Vec<Fault>,
}

#[derive(Debug)]
pub struct PartListingsWrapper {
    pub items: Vec<PartListing>,
}

/// The faults a response body carries (none when the collection is absent).
pub open spec fn body_faults(body: Option<RespBody>) -> Seq<Fault> {
    match body {
        Some(b) => match b.faults {
            Some(f) => f.items@,
            None => seq![],
        },
        None => seq![],
    }
}

/// The listings a response body carries (none when the collection is absent).
pub open spec fn body_listings(body: Option<RespBody>) -> Seq<PartListing> {
    match body {
        Some(b) => match b.part_listings {
            Some(p) => p.items@,
            None => seq![],
        },
        None => seq![],
    }
}

/// `r` is what a decoded response (or the decoder's error text) amounts to.
pub open spec fn is_response_of(r: Result<Availability, IlsError>, decoded: Result<Envelope, String>) -> bool {
    match decoded {
        Err(msg) => r matches Err(IlsError::Parse(m)) && m@ == "xml deserialize: "@ + msg@,
        Ok(env) => match env.body.fault {
            Some(f) => r matches Err(IlsError::SoapFault { code, message }) && code@
                == text_or_empty(f.faultcode) && message@ == text_or_empty(f.faultstring),
            None => match env.body.response {
                None => r matches Err(IlsError::Parse(m)) && m@
                    == "missing GetPartsAvailabilityResponse element"@,
                Some(resp) => r matches Ok(a) && a.faults@ == body_faults(resp.body)
                    && a.part_listings@ == body_listings(resp.body),
            },
        },
    }
}

/// A decoded answer keeps everything the service sent: when the envelope holds
/// no SOAP fault and does hold the response element, the result is `Ok`, its
/// listings are exactly the listings collection's items (same length, same
/// order) and its faults exactly the faults collection's items; an absent
/// collection (or body) gives none.
pub proof fn lemma_response_keeps_collections(r: Result<Availability, IlsError>, decoded: Result<Envelope, String>)
    requires
        is_response_of(r, decoded),
    ensures
        match decoded {
            Ok(env) => match (env.body.fault, env.body.response) {
                (None, Some(resp)) => r matches Ok(a) && match resp.body {
                    Some(b) => {
                        &&& match b.part_listings {
                            Some(p) => a.part_listings@ == p.items@,
                            None => a.part_listings@.len() == 0,
                        }
                        &&& match b.faults {
                            Some(f) => a.faults@ == f.items@,
                            None => a.faults@.len() == 0,
                        }
                    },
                    None => a.part_listings@.len() == 0 && a.faults@.len() == 0,
                },
                _ => r is Err,
            },
            Err(_) => r is Err,
        },
{
}

/// Interprets a decoded `GetPartsAvailability` response: an envelope fault becomes
/// `SoapFault`, a missing response element or an undecodable document becomes
/// `Parse`, and absent collections read as empty.
pub fn parse_response(decoded: Result<Envelope, String>) -> (r: Result<Availability, IlsError>)
    ensures
        is_response_of(r, decoded),
{
    let env = match decoded {
        Ok(env) => env,
        Err(msg) => {
            let mut m = "xml deserialize: ".to_owned();
            m.append(msg.as_str());
            return Err(IlsError::Parse(m));
        },
    };
    if let Some(fault) = env.body.fault {
        return Err(fault_to_error(fault));
    }
    let resp = match env.body.response {
        Some(resp) => resp,
        None => {
            return Err(IlsError::Parse("missing GetPartsAvailabilityResponse element".to_owned()));
        },
    };
    match resp.body {
        None => Ok(Availability { faults: Vec::new(), part_listings: Vec::new() }),
        Some(body) => {
            let faults = match body.faults {
                Some(f) => f.items,
                None => Vec::new(),
            };
            let part_listings = match body.part_listings {
                Some(p) => p.items,
                None => Vec::new(),
            };
            Ok(Availability { faults, part_listings })
        },
    }
}

} // verus!
