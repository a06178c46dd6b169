//! Credentials of HTTP Basic authentication.
use vstd::prelude::*;
use vstd::utf8::{decode_utf8, valid_utf8};
use crate::codec::{b64_decode, b64_std, utf8_text};
use crate::text::{find_char, first_index, is_prefix, strip_prefix};

verus! {

#[derive(Clone, Debug)]
pub struct BasicAuthentication {
    pub username: String,
    pub password: String,
}

/// Why an `Authorization` header could not be read as Basic credentials.
#[derive(Clone, Copy, Debug, PartialEq, Eq, Structural)]
pub enum AuthHeaderError {
    /// The header uses another scheme than `Basic`.
    NotBasic,
    /// The credentials are not valid base64.
    InvalidBase64,
    /// The decoded credentials are not UTF-8.
    InvalidUtf8,
    /// The decoded credentials hold no `:`.
    MissingColon,
}

impl AuthHeaderError {
    /// The response status of the refusal: always 400.
    pub fn status(self) -> (r: u16)
        ensures
            r == 400,
    {
        400
    }
}

/// The text `"Basic "`.
pub open spec fn basic_prefix() -> Seq<char> {
    seq!['B', 'a', 's', 'i', 'c', ' ']
}

/// The user name and password of a credentials text `user:password`, split at the first `:`.
pub open spec fn split_credentials(text: Seq<char>) -> Option<(Seq<char>, Seq<char>)> {
    match first_index(text, ':') {
        Some(i) => Some((text.subrange(0, i), text.subrange(i + 1, text.len() as int))),
        None => None,
    }
}

/// What a Basic `Authorization` header value stands for.
pub open spec fn basic_auth_spec(header: Seq<char>) -> Result<(Seq<char>, Seq<char>), AuthHeaderError> {
    if !is_prefix(basic_prefix(), header) {
        Err(AuthHeaderError::NotBasic)
    } else {
        let encoded = header.subrange(6, header.len() as int);
        if !(exists|b: Seq<u8>| b64_std(b) == encoded) {
            Err(AuthHeaderError::InvalidBase64)
        } else {
            let bytes = choose|b: Seq<u8>| b64_std(b) == encoded;
            if !valid_utf8(bytes) {
                Err(AuthHeaderError::InvalidUtf8)
            } else {
                match split_credentials(decode_utf8(bytes)) {
                    Some(c) => Ok(c),
                    None => Err(AuthHeaderError::MissingColon),
                }
            }
        }
    }
}

impl BasicAuthentication {
    /// Reads an `Authorization: Basic <base64(user:password)>` header value.
    pub fn parse(header: &str) -> (r: Result<BasicAuthentication, AuthHeaderError>)
        ensures
            match r {
                Ok(a) => basic_auth_spec(header@) == Ok::<(Seq<char>, Seq<char>), AuthHeaderError>(
                    (a.username@, a.password@),
                ),
                Err(e) => basic_auth_spec(header@) == Err::<(Seq<char>, Seq<char>), AuthHeaderError>(e),
            },
    {
        proof {
            reveal_strlit("Basic ");
        }
        assert("Basic "@ =~= basic_prefix());
        let encoded = match strip_prefix(header, "Basic ") {
            None => {
                return Err(AuthHeaderError::NotBasic);
            },
            Some(v) => v,
        };
        let bytes = match b64_decode(encoded) {
            None => {
                assert(forall|b: Seq<u8>| b64_std(b) != encoded@);
                return Err(AuthHeaderError::InvalidBase64);
            },
            Some(v) => v,
        };
        assert(b64_std(bytes@) == encoded@);
        let ghost chosen = choose|b: Seq<u8>| b64_std(b) == encoded@;
        assert(chosen == bytes@);
        let text = match utf8_text(bytes.as_slice()) {
            None => {
                return Err(AuthHeaderError::InvalidUtf8);
            },
            Some(t) => t,
        };
        let colon = match find_char(text.as_str(), ':') {
            None => {
                return Err(AuthHeaderError::MissingColon);
            },
            Some(i) => i,
        };
        proof {
            crate::text::lemma_first_index(text@, ':');
        }
        let n = text.as_str().unicode_len();
        let username = text.as_str().substring_char(0, colon).to_owned();
        let password = text.as_str().substring_char(colon + 1, n).to_owned();
        Ok(BasicAuthentication { username, password })
    }
}

} // verus!
