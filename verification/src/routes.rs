//! What a request must look like before any work is done for it.

use crate::error::ValidationError;
use crate::models::TrackRequest;
use crate::text::{chars_of, to_uppercase, trim, trimmed, uppercased};
use vstd::prelude::*;

verus! {

/// The query of a processing request, as submitted.
#[derive(Debug, PartialEq, Eq)]
pub struct ProcessQuery {
    pub username: String,
    pub country: String,
}

/// The character is one of the letters A to Z or a to z.
pub open spec fn is_ascii_letter(c: char) -> bool {
    65 <= c as u32 <= 90 || 97 <= c as u32 <= 122
}

/// The text is a country code: two letters.
pub open spec fn valid_country(code: Seq<char>) -> bool {
    code.len() == 2 && is_ascii_letter(code[0]) && is_ascii_letter(code[1])
}

/// A country as a request is read: trimmed, in upper case.
pub open spec fn normalized_country(country: Seq<char>) -> Seq<char> {
    uppercased(trimmed(country))
}

/// Whether the text is a country code.
pub fn is_country_code(code: &str) -> (r: bool)
    ensures
        r == valid_country(code@),
{
    let v = chars_of(code);
    if v.len() != 2 {
        return false;
    }
    let a = v[0] as u32;
    let b = v[1] as u32;
    ((65 <= a && a <= 90) || (97 <= a && a <= 122)) && ((65 <= b && b <= 90) || (97 <= b && b
        <= 122))
}

/// Reads a request: trims the username, and trims the country and puts it
/// in upper case. Refuses a request without a username, and otherwise one
/// whose country is no code of two letters.
pub fn normalize_request(username: &str, country: &str) -> (r: Result<TrackRequest, ValidationError>)
    ensures
        match r {
            Ok(t) => {
                &&& t.username@ == trimmed(username@)
                &&& t.username@.len() > 0
                &&& t.country@ == normalized_country(country@)
                &&& valid_country(t.country@)
            },
            Err(ValidationError::UsernameRequired) => trimmed(username@).len() == 0,
            Err(ValidationError::InvalidCountry) => trimmed(username@).len() > 0 && !valid_country(
                normalized_country(country@),
            ),
        },
{
    let name = trim(username);
    let code = to_uppercase(trim(country).as_str());
    if name.as_str().unicode_len() == 0 {
        return Err(ValidationError::UsernameRequired);
    }
    if !is_country_code(code.as_str()) {
        return Err(ValidationError::InvalidCountry);
    }
    Ok(TrackRequest { username: name, country: code })
}

impl TrackRequest {
    /// The request as it is read; see [`normalize_request`].
    pub fn normalized(&self) -> (r: Result<TrackRequest, ValidationError>)
        ensures
            match r {
                Ok(t) => {
                    &&& t.username@ == trimmed(self.username@)
                    &&& t.username@.len() > 0
                    &&& t.country@ == normalized_country(self.country@)
                    &&& valid_country(t.country@)
                },
                Err(ValidationError::UsernameRequired) => trimmed(self.username@).len() == 0,
                Err(ValidationError::InvalidCountry) => trimmed(self.username@).len() > 0
                    && !valid_country(normalized_country(self.country@)),
            },
    {
        normalize_request(self.username.as_str(), self.country.as_str())
    }
}

impl ProcessQuery {
    /// The query as it is read; see [`normalize_request`].
    pub fn normalized(&self) -> (r: Result<TrackRequest, ValidationError>)
        ensures
            match r {
                Ok(t) => {
                    &&& t.username@ == trimmed(self.username@)
                    &&& t.username@.len() > 0
                    &&& t.country@ == normalized_country(self.country@)
                    &&& valid_country(t.country@)
                },
                Err(ValidationError::UsernameRequired) => trimmed(self.username@).len() == 0,
                Err(ValidationError::InvalidCountry) => trimmed(self.username@).len() > 0
                    && !valid_country(normalized_country(self.country@)),
            },
    {
        normalize_request(self.username.as_str(), self.country.as_str())
    }
}

} // verus!
