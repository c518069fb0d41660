//! HTTP status codes.

use vstd::prelude::*;

use crate::text;

verus! {

/// An HTTP status code: a number of three digits.
#[derive(Debug, Clone, Copy, PartialEq, Eq, Structural)]
pub struct StatusCode {
    code: u16,
}

impl View for StatusCode {
    type V = u16;

    closed spec fn view(&self) -> u16 {
        self.code
    }
}

impl StatusCode {
    /// A status code has three digits.
    #[verifier::type_invariant]
    spec fn wf(self) -> bool {
        100 <= self.code <= 999
    }

    /// The status code of a number, if the number has three digits.
    pub fn from_u16(code: u16) -> (r: Option<StatusCode>)
        ensures
            r is Some <==> 100 <= code <= 999,
            r matches Some(status) ==> status@ == code,
    {
        if 100 <= code && code <= 999 {
            Some(StatusCode { code })
        } else {
            None
        }
    }

    /// The number of the status code.
    pub fn as_u16(&self) -> (r: u16)
        ensures
            r == self@,
            100 <= r <= 999,
    {
        proof {
            use_type_invariant(self);
        }
        self.code
    }

    /// Whether the status code is one of success.
    pub fn is_success(&self) -> (r: bool)
        ensures
            r == is_success_code(self@),
    {
        200 <= self.code && self.code < 300
    }
}

/// Whether `code` tells of success: the codes from 200 to 299 do.
pub open spec fn is_success_code(code: u16) -> bool {
    200 <= code < 300
}

/// The reason phrase with which `reqwest::StatusCode` displays the status code `code`.
pub uninterp spec fn reason_of(code: u16) -> Seq<char>;

/// The text in which the status code `code` is displayed: its number and its reason
/// phrase.
pub open spec fn status_text_of(code: u16) -> Seq<char> {
    text::decimal_of(code as nat) + " "@ + reason_of(code)
}

/// `reqwest::StatusCode` displays a status code as its number and a reason phrase that
/// depends on the number alone.
#[verifier::external_body]
pub(crate) fn status_text(code: u16) -> (r: String)
    requires
        100 <= code <= 999,
    ensures
        r@ == text::decimal_of(code as nat) + " "@ + reason_of(code),
{
    match reqwest::StatusCode::from_u16(code) {
        Ok(status) => format!("{}", status),
        Err(_) => String::new(),
    }
}

} // verus!
