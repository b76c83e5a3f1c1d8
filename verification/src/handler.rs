//! The decisions of the mail endpoint.
//!
//! A request carries a client address and an email parameter. The rate
//! limiter decides first and records the request either way; only an
//! accepted request has its email validated, and only a valid email leads
//! to the outbound provider call, whose outcome the caller hands back as a
//! plain status code.

use vstd::prelude::*;

verus! {

use crate::email::valid_email;
use crate::email::is_valid_email;
use crate::outbound::status_is_success;
use crate::rate_limit::{accepts, step, ClientAddr, RateLimiter};

/// The error responses of the mail endpoint, named by their meaning.
#[derive(Clone, Copy, PartialEq, Eq, Structural, Debug)]
pub enum MailError {
    /// The client address could not be determined, or the email parameter
    /// failed syntax validation.
    BadRequest,
    /// The rate limiter rejected the request.
    TooManyRequests,
    /// The outbound provider call failed, whatever the cause.
    InternalServerError,
}

impl MailError {
    /// The HTTP status code of the response.
    pub fn status_code(&self) -> (c: u16)
        ensures
            c == (match *self {
                MailError::BadRequest => 400u16,
                MailError::TooManyRequests => 429u16,
                MailError::InternalServerError => 500u16,
            }),
    {
        match self {
            MailError::BadRequest => 400,
            MailError::TooManyRequests => 429,
            MailError::InternalServerError => 500,
        }
    }
}

/// Everything the endpoint decides before any outbound work: the rate
/// limiter first — recording the request whether or not it is accepted —
/// then, only for an accepted request, email syntax. `Ok` means the
/// outbound call may proceed.
pub fn mail_precheck(
    limiter: &mut RateLimiter,
    addr: ClientAddr,
    now: u64,
    email: &str,
) -> (r: Result<(), MailError>)
    ensures
        final(limiter).history(addr) == step(old(limiter).history(addr), now),
        forall|a: ClientAddr| a != addr ==> final(limiter).history(a) == old(limiter).history(a),
        r == Ok::<(), MailError>(()) <==> accepts(old(limiter).history(addr), now)
            && valid_email(email@),
        r == Err::<(), MailError>(MailError::TooManyRequests) <==> !accepts(
            old(limiter).history(addr),
            now,
        ),
        r == Err::<(), MailError>(MailError::BadRequest) <==> accepts(
            old(limiter).history(addr),
            now,
        ) && !valid_email(email@),
{
    match limiter.check_if_rate_limited(addr, now) {
        Err(_) => Err(MailError::TooManyRequests),
        Ok(()) => {
            if !is_valid_email(email) {
                Err(MailError::BadRequest)
            } else {
                Ok(())
            }
        },
    }
}

/// The final response once the outbound call has run: `outbound_status` is
/// the provider's HTTP status code, or `None` when no answer was obtained
/// (missing configuration, or a network failure). Any 2xx answer is
/// success; every failure collapses into one undifferentiated server
/// error.
pub fn mail_response(outbound_status: Option<u16>) -> (r: Result<String, MailError>)
    ensures
        r is Ok <==> (outbound_status matches Some(c) && 200 <= c && c < 300),
        r matches Ok(m) ==> m@ == "Email added to mailing list successfully!"@,
        r is Err ==> r == Err::<String, MailError>(MailError::InternalServerError),
{
    match outbound_status {
        Some(code) => {
            if status_is_success(code) {
                Ok("Email added to mailing list successfully!".to_owned())
            } else {
                Err(MailError::InternalServerError)
            }
        },
        None => Err(MailError::InternalServerError),
    }
}

} // verus!
