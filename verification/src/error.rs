//! The library's error type.

use vstd::prelude::*;

use crate::text::{decimal, u64_to_string};

verus! {

/// The HTTP client's error type (`reqwest::Error`), carried through opaque.
#[verifier::external_type_specification]
#[verifier::external_body]
pub struct ExReqwestError(reqwest::Error);

/// Everything that can go wrong while querying one part number.
#[derive(Debug)]
pub enum IlsError {
    Http(reqwest::Error),
    Status { status: u16, body: String },
    Parse(String),
    SoapFault { code: String, message: String },
    InvalidNsn { input: String, reason: &'static str },
}

/// The HTTP client error's own text: a trusted call of `reqwest::Error`'s `Display`
/// (through `to_string`). Nothing is stated of the text.
#[verifier::external_body]
fn http_error_text(e: &reqwest::Error) -> String {
    e.to_string()
}

/// `m` is the display message of `e`. Of a transport error only the prefix is
/// known; the rest is the HTTP client's own description.
pub open spec fn is_message_of(e: IlsError, m: Seq<char>) -> bool {
    match e {
        IlsError::Http(_) => exists|t: Seq<char>| m == "http transport: "@ + t,
        IlsError::Status { status, body } => m == "unexpected HTTP status "@ + decimal(status as nat)
            + ": "@ + body@,
        IlsError::Parse(s) => m == "malformed SOAP response: "@ + s@,
        IlsError::SoapFault { code, message } => m == "SOAP fault "@ + code@ + ": "@ + message@,
        IlsError::InvalidNsn { input, reason } => m == "invalid NSN '"@ + input@ + "': "@ + reason@,
    }
}

impl IlsError {
    /// The error's display message.
    pub fn message(&self) -> (r: String)
        ensures
            is_message_of(*self, r@),
    {
        match self {
            IlsError::Http(e) => {
                let t = http_error_text(e);
                let mut m = "http transport: ".to_owned();
                m.append(t.as_str());
                m
            },
            IlsError::Status { status, body } => {
                let mut m = "unexpected HTTP status ".to_owned();
                m.append(u64_to_string(*status as u64).as_str());
                m.append(": ");
                m.append(body.as_str());
                m
            },
            IlsError::Parse(s) => {
                let mut m = "malformed SOAP response: ".to_owned();
                m.append(s.as_str());
                m
            },
            IlsError::SoapFault { code, message } => {
                let mut m = "SOAP fault ".to_owned();
                m.append(code.as_str());
                m.append(": ");
                m.append(message.as_str());
                m
            },
            IlsError::InvalidNsn { input, reason } => {
                let mut m = "invalid NSN '".to_owned();
                m.append(input.as_str());
                m.append("': ");
                m.append(reason);
                m
            },
        }
    }
}

} // verus!
