//! Validated idempotency keys.

use vstd::prelude::*;

verus! {

/// Longest accepted idempotency key, in characters.
pub const MAX_KEY_LENGTH: usize = 50;

/// Why a raw string is not an acceptable idempotency key.
#[derive(Debug, Clone, Copy, PartialEq, Eq, Structural)]
pub enum KeyError {
    Empty,
    TooLong,
    DisallowedCharacter,
}

/// Characters allowed in a key: ASCII letters, digits, `-` and `_`.
pub open spec fn is_key_char(c: char) -> bool {
    ('a' <= c && c <= 'z') || ('A' <= c && c <= 'Z') || ('0' <= c && c <= '9') || c == '-' || c
        == '_'
}

/// The first rule that `s` breaks, if any.
pub open spec fn key_error(s: Seq<char>) -> Option<KeyError> {
    if s.len() == 0 {
        Some(KeyError::Empty)
    } else if s.len() > MAX_KEY_LENGTH {
        Some(KeyError::TooLong)
    } else if exists|i: int| 0 <= i < s.len() && !is_key_char(#[trigger] s[i]) {
        Some(KeyError::DisallowedCharacter)
    } else {
        None
    }
}

pub open spec fn is_valid_key(s: Seq<char>) -> bool {
    key_error(s) is None
}

fn is_key_char_exec(c: char) -> (r: bool)
    ensures
        r == is_key_char(c),
{
    ('a' <= c && c <= 'z') || ('A' <= c && c <= 'Z') || ('0' <= c && c <= '9') || c == '-' || c
        == '_'
}

/// A token that identifies one logical submission of a command.
pub struct IdempotencyKey {
    value: String,
}

impl View for IdempotencyKey {
    type V = Seq<char>;

    closed spec fn view(&self) -> Seq<char> {
        self.value@
    }
}

impl IdempotencyKey {
    #[verifier::type_invariant]
    spec fn inv(&self) -> bool {
        is_valid_key(self.value@)
    }

    /// Validates untrusted input; touches no storage.
    pub fn parse(s: String) -> (r: Result<IdempotencyKey, KeyError>)
        ensures
            match r {
                Ok(k) => k@ == s@ && is_valid_key(s@),
                Err(e) => key_error(s@) == Some(e),
            },
    {
        let n = s.unicode_len();
        if n == 0 {
            return Err(KeyError::Empty);
        }
        if n > MAX_KEY_LENGTH {
            return Err(KeyError::TooLong);
        }
        let mut i: usize = 0;
        while i < n
            invariant
                n == s@.len(),
                0 < n <= MAX_KEY_LENGTH,
                0 <= i <= n,
                forall|j: int| 0 <= j < i ==> is_key_char(#[trigger] s@[j]),
            decreases n - i,
        {
            let c = s.as_str().get_char(i);
            if !is_key_char_exec(c) {
                assert(!is_key_char(s@[i as int]));
                return Err(KeyError::DisallowedCharacter);
            }
            i = i + 1;
        }
        Ok(IdempotencyKey { value: s })
    }

    pub fn as_str(&self) -> (r: &str)
        ensures
            r@ == self@,
            is_valid_key(r@),
    {
        proof {
            use_type_invariant(self);
        }
        self.value.as_str()
    }

    pub fn into_string(self) -> (r: String)
        ensures
            r@ == self@,
    {
        self.value
    }
}

} // verus!
