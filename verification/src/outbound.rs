//! Framing of the outbound mailing-list call.
//!
//! The provider is an external collaborator: the library builds the exact
//! request body and judges the status code of the answer; sending the
//! request is the caller's affair.

use vstd::prelude::*;

verus! {

use vstd::string::*;
use crate::email::valid_email;

/// The JSON body of the subscription request for `email`: the address and
/// the fixed list id.
pub open spec fn brevo_body_of(email: Seq<char>) -> Seq<char> {
    "{\"email\":\""@ + email + "\",\"listIds\":[2]}"@
}

/// The JSON body to send to the provider for `email`.
///
/// Splicing the address between the quotes needs no escaping: a
/// well-formed address holds only letters, digits and `. _ % + - @`,
/// none of which JSON escapes.
pub fn brevo_request_body(email: &str) -> (r: String)
    requires
        valid_email(email@),
    ensures
        r@ == brevo_body_of(email@),
{
    let mut r = String::from_str("{\"email\":\"");
    r.append(email);
    r.append("\",\"listIds\":[2]}");
    r
}

/// Whether a provider status code reports success: any 2xx answer.
pub fn status_is_success(code: u16) -> (r: bool)
    ensures
        r == (200 <= code && code < 300),
{
    200 <= code && code < 300
}

} // verus!
