//! Email syntax validation.
//!
//! A well-formed address is `local-part @ domain-labels . tld`: a nonempty
//! local part of letters, digits and `. _ % + -`; an `@`; nonempty domain
//! labels of letters, digits, dots and hyphens; a final dot; and a
//! top-level domain of at least two letters, running to the end.

use vstd::prelude::*;

verus! {

use vstd::string::*;

/// An ASCII letter (codes 65–90 and 97–122: `A`–`Z`, `a`–`z`).
pub open spec fn is_alpha(c: char) -> bool {
    (65 <= c as u32 && c as u32 <= 90) || (97 <= c as u32 && c as u32 <= 122)
}

/// An ASCII digit (codes 48–57: `0`–`9`).
pub open spec fn is_digit(c: char) -> bool {
    48 <= c as u32 && c as u32 <= 57
}

/// A character permitted in the local part, before the `@`.
pub open spec fn is_local_char(c: char) -> bool {
    is_alpha(c) || is_digit(c) || c == '.' || c == '_' || c == '%' || c == '+' || c == '-'
}

/// A character permitted in the domain labels, between the `@` and the
/// final dot.
pub open spec fn is_domain_char(c: char) -> bool {
    is_alpha(c) || is_digit(c) || c == '.' || c == '-'
}

/// `at` and `dot` witness `s` as a well-formed address: `at` holds the `@`
/// with a nonempty local part of permitted characters before it, `dot`
/// holds the final dot with nonempty domain labels between the two, and at
/// least two letters follow `dot` to the end.
pub open spec fn email_split_at(s: Seq<char>, at: int, dot: int) -> bool {
    &&& 1 <= at
    &&& at + 1 < dot
    &&& dot + 2 < s.len()
    &&& s[at] == '@'
    &&& s[dot] == '.'
    &&& (forall|k: int| 0 <= k < at ==> is_local_char(s[k]))
    &&& (forall|k: int| at < k < dot ==> is_domain_char(s[k]))
    &&& (forall|k: int| dot < k < s.len() ==> is_alpha(s[k]))
}

/// A well-formed address: some split into local part, `@`, domain labels,
/// dot and top-level domain exists.
pub open spec fn valid_email(s: Seq<char>) -> bool {
    exists|at: int, dot: int| email_split_at(s, at, dot)
}

/// In a well-formed address the `@` of any split is the first `@` of the
/// string: no permitted character on either side of it is an `@`.
proof fn lemma_at_position(s: Seq<char>, at: int, a: int, d: int)
    requires
        email_split_at(s, a, d),
        0 <= at < s.len(),
        s[at] == '@',
        forall|k: int| 0 <= k < at ==> s[k] != '@',
    ensures
        a == at,
{
    if a < at {
        assert(s[a] == '@');
        assert(s[a] != '@');
    }
    if a > at {
        assert(is_local_char(s[at]));
    }
}

/// In a well-formed address the dot of any split is the last dot of the
/// string: the top-level domain after it holds letters only.
proof fn lemma_dot_position(s: Seq<char>, at: int, dot: int, a: int, d: int)
    requires
        email_split_at(s, a, d),
        a == at,
        at < dot < s.len(),
        s[dot] == '.',
        forall|k: int| dot < k < s.len() ==> s[k] != '.',
    ensures
        d == dot,
{
    if d > dot {
        assert(s[d] == '.');
        assert(s[d] != '.');
    }
    if d < dot {
        assert(is_alpha(s[dot]));
    }
}

fn is_alpha_exec(c: char) -> (r: bool)
    ensures
        r == is_alpha(c),
{
    let u: u32 = c as u32;
    (65 <= u && u <= 90) || (97 <= u && u <= 122)
}

fn is_digit_exec(c: char) -> (r: bool)
    ensures
        r == is_digit(c),
{
    let u: u32 = c as u32;
    48 <= u && u <= 57
}

fn is_local_char_exec(c: char) -> (r: bool)
    ensures
        r == is_local_char(c),
{
    is_alpha_exec(c) || is_digit_exec(c) || c == '.' || c == '_' || c == '%' || c == '+'
        || c == '-'
}

fn is_domain_char_exec(c: char) -> (r: bool)
    ensures
        r == is_domain_char(c),
{
    is_alpha_exec(c) || is_digit_exec(c) || c == '.' || c == '-'
}

/// Whether `email` is a well-formed address.
///
/// The scan finds the first `@` and the last dot; any witnessing split must
/// use exactly those two positions, so checking the three ranges around
/// them decides the matter.
#[verifier::loop_isolation(false)]
pub fn is_valid_email(email: &str) -> (r: bool)
    ensures
        r == valid_email(email@),
{
    let ghost s = email@;
    let n = email.unicode_len();

    // Find the first `@`.
    let mut at: usize = 0;
    while at < n && email.get_char(at) != '@'
        invariant
            at <= n,
            forall|k: int| 0 <= k < at ==> s[k] != '@',
        decreases n - at,
    {
        at = at + 1;
    }
    if at == n {
        proof {
            assert forall|a: int, d: int| !email_split_at(s, a, d) by {
                if email_split_at(s, a, d) {
                    assert(s[a] == '@');
                    assert(s[a] != '@');
                }
            }
        }
        return false;
    }
    if at == 0 {
        proof {
            assert forall|a: int, d: int| !email_split_at(s, a, d) by {
                if email_split_at(s, a, d) {
                    lemma_at_position(s, 0, a, d);
                }
            }
        }
        return false;
    }

    // The local part: every character before the `@` must be permitted.
    let mut k: usize = 0;
    while k < at
        invariant
            k <= at,
            forall|k2: int| 0 <= k2 < k ==> is_local_char(s[k2]),
        decreases at - k,
    {
        if !is_local_char_exec(email.get_char(k)) {
            proof {
                assert forall|a: int, d: int| !email_split_at(s, a, d) by {
                    if email_split_at(s, a, d) {
                        lemma_at_position(s, at as int, a, d);
                        assert(is_local_char(s[k as int]));
                    }
                }
            }
            return false;
        }
        k = k + 1;
    }

    // Find the last dot after the `@`.
    let mut dot: usize = 0;
    let mut have_dot = false;
    let mut j: usize = at + 1;
    while j < n
        invariant
            at < j <= n,
            have_dot ==> at < dot < j && s[dot as int] == '.',
            have_dot ==> forall|k2: int| dot < k2 < j ==> s[k2] != '.',
            !have_dot ==> forall|k2: int| at < k2 < j ==> s[k2] != '.',
        decreases n - j,
    {
        if email.get_char(j) == '.' {
            dot = j;
            have_dot = true;
        }
        j = j + 1;
    }
    if !have_dot {
        proof {
            assert forall|a: int, d: int| !email_split_at(s, a, d) by {
                if email_split_at(s, a, d) {
                    lemma_at_position(s, at as int, a, d);
                    assert(s[d] == '.');
                    assert(s[d] != '.');
                }
            }
        }
        return false;
    }
    if dot - at < 2 || n - dot < 3 {
        proof {
            assert forall|a: int, d: int| !email_split_at(s, a, d) by {
                if email_split_at(s, a, d) {
                    lemma_at_position(s, at as int, a, d);
                    lemma_dot_position(s, at as int, dot as int, a, d);
                }
            }
        }
        return false;
    }

    // The domain labels: every character between `@` and the final dot.
    let mut k: usize = at + 1;
    while k < dot
        invariant
            at < k <= dot,
            forall|k2: int| at < k2 < k ==> is_domain_char(s[k2]),
        decreases dot - k,
    {
        if !is_domain_char_exec(email.get_char(k)) {
            proof {
                assert forall|a: int, d: int| !email_split_at(s, a, d) by {
                    if email_split_at(s, a, d) {
                        lemma_at_position(s, at as int, a, d);
                        lemma_dot_position(s, at as int, dot as int, a, d);
                        assert(is_domain_char(s[k as int]));
                    }
                }
            }
            return false;
        }
        k = k + 1;
    }

    // The top-level domain: at least two characters, letters only.
    let mut k: usize = dot + 1;
    while k < n
        invariant
            dot < k <= n,
            forall|k2: int| dot < k2 < k ==> is_alpha(s[k2]),
        decreases n - k,
    {
        if !is_alpha_exec(email.get_char(k)) {
            proof {
                assert forall|a: int, d: int| !email_split_at(s, a, d) by {
                    if email_split_at(s, a, d) {
                        lemma_at_position(s, at as int, a, d);
                        lemma_dot_position(s, at as int, dot as int, a, d);
                        assert(is_alpha(s[k as int]));
                    }
                }
            }
            return false;
        }
        k = k + 1;
    }
    proof {
        assert(email_split_at(s, at as int, dot as int));
    }
    true
}

} // verus!
