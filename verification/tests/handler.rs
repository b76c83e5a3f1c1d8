use mailgate::handler::{mail_precheck, mail_response, MailError};
use mailgate::outbound::brevo_request_body;
use mailgate::rate_limit::{client_addr_v4, RateLimiter, REQUEST_LIMIT};

#[test]
fn error_status_codes() {
    assert_eq!(MailError::BadRequest.status_code(), 400);
    assert_eq!(MailError::TooManyRequests.status_code(), 429);
    assert_eq!(MailError::InternalServerError.status_code(), 500);
}

#[test]
fn precheck_accepts_fresh_valid_request() {
    let mut limiter = RateLimiter::new();
    let addr = client_addr_v4(10, 0, 0, 1);
    let r = mail_precheck(&mut limiter, addr, 100_000, "user@example.com");
    assert_eq!(r, Ok(()));
    assert_eq!(limiter.recorded_count(addr), 1);
}

#[test]
fn invalid_email_after_rate_pass_makes_no_outbound_call() {
    // A request from 10.0.0.2 with an invalid email passes the rate check
    // (first request) and fails syntax validation; the outbound
    // collaborator is never invoked.
    let mut limiter = RateLimiter::new();
    let addr = client_addr_v4(10, 0, 0, 2);
    let mut outbound_calls: u32 = 0;
    let r = mail_precheck(&mut limiter, addr, 100_000, "not-an-email");
    if r.is_ok() {
        outbound_calls += 1;
    }
    assert_eq!(r, Err(MailError::BadRequest));
    assert_eq!(outbound_calls, 0);
    // The failed request was still recorded.
    assert_eq!(limiter.recorded_count(addr), 1);
}

#[test]
fn rate_rejection_comes_before_email_validation() {
    let mut limiter = RateLimiter::new();
    let addr = client_addr_v4(10, 0, 0, 3);
    let t0: u64 = 100_000;
    for i in 0..REQUEST_LIMIT as u64 {
        let _ = mail_precheck(&mut limiter, addr, t0 + i, "user@example.com");
    }
    // Over the limit, even a syntactically invalid email reports the rate
    // rejection.
    let r = mail_precheck(&mut limiter, addr, t0 + 500, "not-an-email");
    assert_eq!(r, Err(MailError::TooManyRequests));
    let r2 = mail_precheck(&mut limiter, addr, t0 + 501, "user@example.com");
    assert_eq!(r2, Err(MailError::TooManyRequests));
}

#[test]
fn response_accepts_any_2xx() {
    assert_eq!(
        mail_response(Some(200)),
        Ok("Email added to mailing list successfully!".to_string())
    );
    assert!(mail_response(Some(201)).is_ok());
    assert!(mail_response(Some(299)).is_ok());
}

#[test]
fn response_collapses_failures_into_server_error() {
    assert_eq!(mail_response(Some(300)), Err(MailError::InternalServerError));
    assert_eq!(mail_response(Some(404)), Err(MailError::InternalServerError));
    assert_eq!(mail_response(Some(199)), Err(MailError::InternalServerError));
    assert_eq!(mail_response(None), Err(MailError::InternalServerError));
}

#[test]
fn outbound_body_is_exact_json() {
    let body = brevo_request_body("user@example.com");
    assert_eq!(body, "{\"email\":\"user@example.com\",\"listIds\":[2]}");
}
