//! Credentials: reading HTTP Basic authentication and the rules for a new
//! password.

use vstd::prelude::*;
use vstd::utf8::{decode_utf8, valid_utf8};

verus! {

#[verifier::external_type_specification]
#[verifier::external_body]
pub struct ExDecodeError(base64::DecodeError);

/// The bytes that standard, padded base64 decoding gives for `s`, if it is
/// well formed.
pub uninterp spec fn base64_decoded(s: Seq<char>) -> Option<Seq<u8>>;

/// Relies on base64's `Engine::decode` with the `STANDARD` engine: the
/// decoded bytes, or an error for malformed input.
#[verifier::external_body]
fn decode_base64(s: &str) -> (r: Result<Vec<u8>, base64::DecodeError>)
    ensures
        match r {
            Ok(v) => base64_decoded(s@) == Some(v@),
            Err(_) => base64_decoded(s@) is None,
        },
{
    base64::Engine::decode(&base64::engine::general_purpose::STANDARD, s)
}

/// Relies on String::from_utf8: it accepts exactly valid UTF-8 and keeps
/// the characters it encodes.
#[verifier::external_body]
fn string_from_utf8(bytes: Vec<u8>) -> (r: Option<String>)
    ensures
        match r {
            Some(s) => valid_utf8(bytes@) && s@ == decode_utf8(bytes@),
            None => !valid_utf8(bytes@),
        },
{
    String::from_utf8(bytes).ok()
}

/// A user name and password as presented by a client.
pub struct Credentials {
    pub username: String,
    pub password: String,
}

/// Why an `Authorization` header yields no credentials.
#[derive(Debug, Clone, Copy, PartialEq, Eq, Structural)]
pub enum CredentialsError {
    MissingHeader,
    NotBasicScheme,
    NotBase64,
    NotUtf8,
    MissingPassword,
}

pub open spec fn basic_scheme() -> Seq<char> {
    seq!['B', 'a', 's', 'i', 'c', ' ']
}

pub open spec fn is_first_colon(s: Seq<char>, i: int) -> bool {
    &&& 0 <= i < s.len()
    &&& s[i] == ':'
    &&& forall|j: int| 0 <= j < i ==> (#[trigger] s[j]) != ':'
}

/// What a header value says: user name before the first `:` of the decoded
/// text, password after it.
pub open spec fn parsed_credentials(header: Option<Seq<char>>) -> Result<
    (Seq<char>, Seq<char>),
    CredentialsError,
> {
    match header {
        None => Err(CredentialsError::MissingHeader),
        Some(h) => if !(h.len() >= 6 && h.subrange(0, 6) == basic_scheme()) {
            Err(CredentialsError::NotBasicScheme)
        } else {
            match base64_decoded(h.subrange(6, h.len() as int)) {
                None => Err(CredentialsError::NotBase64),
                Some(bytes) => if !valid_utf8(bytes) {
                    Err(CredentialsError::NotUtf8)
                } else {
                    let text = decode_utf8(bytes);
                    if !(exists|i: int| is_first_colon(text, i)) {
                        Err(CredentialsError::MissingPassword)
                    } else {
                        let i = choose|i: int| is_first_colon(text, i);
                        Ok((text.subrange(0, i), text.subrange(i + 1, text.len() as int)))
                    }
                },
            }
        },
    }
}

pub open spec fn header_view(h: Option<&str>) -> Option<Seq<char>> {
    match h {
        Some(s) => Some(s@),
        None => None,
    }
}

fn has_basic_scheme(h: &str) -> (r: bool)
    ensures
        r == (h@.len() >= 6 && h@.subrange(0, 6) == basic_scheme()),
{
    if h.unicode_len() < 6 {
        return false;
    }
    let r = h.get_char(0) == 'B' && h.get_char(1) == 'a' && h.get_char(2) == 's' && h.get_char(3)
        == 'i' && h.get_char(4) == 'c' && h.get_char(5) == ' ';
    if r {
        assert(h@.subrange(0, 6) =~= basic_scheme());
    } else {
        assert(h@.subrange(0, 6) != basic_scheme()) by {
            if h@.subrange(0, 6) == basic_scheme() {
                assert(h@.subrange(0, 6)[0] == 'B');
                assert(h@.subrange(0, 6)[1] == 'a');
                assert(h@.subrange(0, 6)[2] == 's');
                assert(h@.subrange(0, 6)[3] == 'i');
                assert(h@.subrange(0, 6)[4] == 'c');
                assert(h@.subrange(0, 6)[5] == ' ');
            }
        }
    }
    r
}

/// Reads the credentials of an `Authorization: Basic ...` header value.
pub fn basic_authentication(authorization: Option<&str>) -> (r: Result<Credentials, CredentialsError>)
    ensures
        match parsed_credentials(header_view(authorization)) {
            Ok((user, password)) => r is Ok && r->Ok_0.username@ == user && r->Ok_0.password@
                == password,
            Err(e) => r is Err && r->Err_0 == e,
        },
{
    let h = match authorization {
        None => return Err(CredentialsError::MissingHeader),
        Some(h) => h,
    };
    if !has_basic_scheme(h) {
        return Err(CredentialsError::NotBasicScheme);
    }
    let encoded = h.substring_char(6, h.unicode_len());
    let bytes = match decode_base64(encoded) {
        Ok(b) => b,
        Err(_) => return Err(CredentialsError::NotBase64),
    };
    let text = match string_from_utf8(bytes) {
        Some(t) => t,
        None => return Err(CredentialsError::NotUtf8),
    };
    let n = text.unicode_len();
    let mut i: usize = 0;
    while i < n && text.as_str().get_char(i) != ':'
        invariant
            n == text@.len(),
            0 <= i <= n,
            forall|j: int| 0 <= j < i ==> (#[trigger] text@[j]) != ':',
        decreases n - i,
    {
        i = i + 1;
    }
    if i == n {
        assert(!(exists|k: int| is_first_colon(text@, k))) by {
            if exists|k: int| is_first_colon(text@, k) {
                let k = choose|k: int| is_first_colon(text@, k);
                assert(text@[k] != ':');
            }
        }
        return Err(CredentialsError::MissingPassword);
    }
    proof {
        assert(is_first_colon(text@, i as int));
        let k = choose|k: int| is_first_colon(text@, k);
        if k < i {
            assert(text@[k] != ':');
        } else if k > i {
            assert(text@[i as int] != ':');
        }
    }
    let username = String::from_str(text.as_str().substring_char(0, i));
    let password = String::from_str(text.as_str().substring_char(i + 1, n));
    Ok(Credentials { username, password })
}

/// Why a new password is refused.
#[derive(Debug, Clone, Copy, PartialEq, Eq, Structural)]
pub enum PasswordRuleError {
    /// The two entries differ.
    Mismatch,
    TooShort,
    TooLong,
}

/// Passwords of up to this many characters are refused.
pub const MIN_PASSWORD_EXCLUSIVE: u64 = 12;

/// Longest accepted password, in characters.
pub const MAX_PASSWORD_LENGTH: u64 = 128;

/// Relies on validator's `HasLen` for `String`: the number of characters.
#[verifier::external_body]
fn char_length(s: &String) -> (r: u64)
    ensures
        r == s@.len(),
{
    validator::HasLen::length(s)
}

/// The entries must match; then the length must be within bounds.
pub fn check_new_password(new_password: &String, new_password_check: &String) -> (r: Result<
    (),
    PasswordRuleError,
>)
    ensures
        r == (if new_password@ != new_password_check@ {
            Err::<(), PasswordRuleError>(PasswordRuleError::Mismatch)
        } else if new_password@.len() <= MIN_PASSWORD_EXCLUSIVE {
            Err(PasswordRuleError::TooShort)
        } else if new_password@.len() > MAX_PASSWORD_LENGTH {
            Err(PasswordRuleError::TooLong)
        } else {
            Ok(())
        }),
{
    if *new_password != *new_password_check {
        return Err(PasswordRuleError::Mismatch);
    }
    let n = char_length(new_password);
    if n <= MIN_PASSWORD_EXCLUSIVE {
        return Err(PasswordRuleError::TooShort);
    }
    if n > MAX_PASSWORD_LENGTH {
        return Err(PasswordRuleError::TooLong);
    }
    Ok(())
}

impl PasswordRuleError {
    /// The notice shown to the user.
    pub fn message(&self) -> (r: String)
        ensures
            r@ == match self {
                PasswordRuleError::Mismatch => "You entered two different new passwords - the field values must match."@,
                PasswordRuleError::TooShort => "Password must be at least 12 characters."@,
                PasswordRuleError::TooLong => "Password must be no more than 128 characters."@,
            },
    {
        match self {
            PasswordRuleError::Mismatch => String::from_str(
                "You entered two different new passwords - the field values must match.",
            ),
            PasswordRuleError::TooShort => String::from_str("Password must be at least 12 characters."),
            PasswordRuleError::TooLong => String::from_str(
                "Password must be no more than 128 characters.",
            ),
        }
    }
}

} // verus!
