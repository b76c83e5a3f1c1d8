use mailgate::email::is_valid_email;

#[test]
fn plain_address_is_valid() {
    assert!(is_valid_email("user@example.com"));
}

#[test]
fn address_without_at_is_invalid() {
    assert!(!is_valid_email("bad-email"));
}

#[test]
fn address_without_domain_is_invalid() {
    assert!(!is_valid_email("user@"));
}

#[test]
fn address_without_tld_is_invalid() {
    assert!(!is_valid_email("user@domain"));
}

#[test]
fn address_without_local_part_is_invalid() {
    assert!(!is_valid_email("@domain.com"));
}

#[test]
fn local_part_symbols_are_permitted() {
    assert!(is_valid_email("us.er_1%tag+x-y@sub.domain-2.org"));
}

#[test]
fn single_letter_tld_is_invalid() {
    assert!(!is_valid_email("user@domain.c"));
}

#[test]
fn two_letter_tld_is_valid() {
    assert!(is_valid_email("user@domain.co"));
}

#[test]
fn digit_in_tld_is_invalid() {
    assert!(!is_valid_email("user@domain.c0m"));
}

#[test]
fn trailing_dot_is_invalid() {
    assert!(!is_valid_email("user@domain.com."));
}

#[test]
fn domain_labels_before_empty_dot_are_required() {
    assert!(!is_valid_email("user@.com"));
}

#[test]
fn consecutive_domain_dots_are_permitted() {
    // The domain labels admit any mix of letters, digits, dots and
    // hyphens, so a doubled dot passes the syntax check.
    assert!(is_valid_email("user@x..com"));
}

#[test]
fn two_ats_are_invalid() {
    assert!(!is_valid_email("user@@domain.com"));
    assert!(!is_valid_email("us@er@domain.com"));
}

#[test]
fn space_is_invalid() {
    assert!(!is_valid_email("user name@domain.com"));
}

#[test]
fn non_ascii_is_invalid() {
    assert!(!is_valid_email("\u{fc}ser@domain.com"));
    assert!(!is_valid_email("user@dom\u{e4}in.com"));
}

#[test]
fn empty_string_is_invalid() {
    assert!(!is_valid_email(""));
}
