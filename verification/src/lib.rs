//! HTTP Basic access-authentication credential parsing.
//!
//! Extracts and validates `Basic` credentials from the raw value(s) of a
//! request's `Authorization` header, producing a structured
//! `(username, password)` pair or a classified failure. Authentication
//! itself (checking the pair against a credential store) is out of scope,
//! as is anything HTTP beyond the header value: the host hands in the raw
//! string values it collected and receives a typed outcome back.

use vstd::prelude::*;

verus! {

use vstd::string::StrSliceExecFns;
use vstd::string::StringExecFns;
use vstd::utf8::decode_utf8;
use vstd::utf8::encode_scalar;
use vstd::utf8::encode_utf8;
use vstd::utf8::encode_utf8_decode_utf8;
use vstd::utf8::encode_utf8_valid_utf8;
use vstd::utf8::valid_utf8;

/// Errors relating to the [`BasicAuth`] request guard.
#[derive(Debug, PartialEq, Eq)]
pub enum BasicAuthError {
    /// More than one `Authorization` header was present.
    BadCount,
    /// Header is invalid in formatting/encoding.
    Invalid,
}

/// Credentials carried by a `Basic` `Authorization` header: the `username`
/// and `password` used for authentication. Either field may be empty.
#[derive(Debug, PartialEq, Eq)]
pub struct BasicAuth {
    /// Required username
    pub username: String,
    /// Required password
    pub password: String,
}

/// What `base64::decode` returns for the given characters: the decoded bytes,
/// or `None` when the input is not valid standard-alphabet base64.
pub uninterp spec fn base64_decoding(s: Seq<char>) -> Option<Seq<u8>>;

/// What `base64::encode` returns for the given bytes.
pub uninterp spec fn base64_encoding(b: Seq<u8>) -> Seq<char>;

/// Relies on `base64::decode`: standard alphabet; the result depends on the
/// input characters alone. Its only panic needs an input of more than
/// `usize::MAX - 3` bytes, and a Rust slice never exceeds `isize::MAX` bytes.
#[verifier::external_body]
fn base64_decode(s: &str) -> (r: Option<Vec<u8>>)
    ensures
        (match r {
            Some(v) => base64_decoding(s@) == Some(v@),
            None => base64_decoding(s@) is None,
        }),
{
    base64::decode(s).ok()
}

/// Relies on `base64::encode`: standard alphabet with padding, so the output
/// takes four characters for every started group of three bytes; the result
/// depends on the input bytes alone, and `base64::decode` gives them back.
/// Its only panic needs an input of more than three quarters of `usize::MAX`
/// bytes, and a Rust slice never exceeds `isize::MAX` bytes.
#[verifier::external_body]
fn base64_encode(b: &[u8]) -> (r: String)
    ensures
        r@ == base64_encoding(b@),
        r@.len() == 4 * ((b@.len() + 2) / 3),
        base64_decoding(r@) == Some(b@),
{
    base64::encode(b)
}

/// Relies on `String::from_utf8`: `Ok` exactly when the bytes are a valid
/// UTF-8 encoding, and then the returned string is their decoding.
#[verifier::external_body]
fn bytes_to_string(bytes: Vec<u8>) -> (r: Option<String>)
    ensures
        r is Some <==> valid_utf8(bytes@),
        (match r {
            Some(s) => s@ == decode_utf8(bytes@),
            None => true,
        }),
{
    String::from_utf8(bytes).ok()
}

/// Splitting a character sequence at its first colon: everything before the
/// first `':'` is the username and everything after it (further colons
/// included) is the password; `None` when there is no colon at all.
pub open spec fn split_at_colon(s: Seq<char>) -> Option<(Seq<char>, Seq<char>)>
    decreases s.len(),
{
    if s.len() == 0 {
        None
    } else if s[0] == ':' {
        Some((Seq::<char>::empty(), s.drop_first()))
    } else {
        match split_at_colon(s.drop_first()) {
            Some(parts) => Some((seq![s[0]] + parts.0, parts.1)),
            None => None,
        }
    }
}

proof fn lemma_split_at_colon_none(s: Seq<char>)
    requires
        forall|i: int| 0 <= i < s.len() ==> s[i] != ':',
    ensures
        split_at_colon(s) is None,
    decreases s.len(),
{
    if s.len() != 0 {
        assert forall|i: int| 0 <= i < s.drop_first().len() implies s.drop_first()[i] != ':' by {
            assert(s.drop_first()[i] == s[i + 1]);
        }
        lemma_split_at_colon_none(s.drop_first());
    }
}

proof fn lemma_split_at_colon_found(s: Seq<char>, i: int)
    requires
        0 <= i < s.len(),
        s[i] == ':',
        forall|j: int| 0 <= j < i ==> s[j] != ':',
    ensures
        split_at_colon(s) == Some((s.subrange(0, i), s.subrange(i + 1, s.len() as int))),
    decreases i,
{
    if i == 0 {
        assert(s.subrange(0, 0) =~= Seq::<char>::empty());
        assert(s.subrange(1, s.len() as int) =~= s.drop_first());
    } else {
        let rest = s.drop_first();
        assert forall|j: int| 0 <= j < i - 1 implies rest[j] != ':' by {
            assert(rest[j] == s[j + 1]);
        }
        assert(rest[i - 1] == s[i]);
        lemma_split_at_colon_found(rest, i - 1);
        assert(seq![s[0]] + rest.subrange(0, i - 1) =~= s.subrange(0, i));
        assert(rest.subrange(i, rest.len() as int) =~= s.subrange(i + 1, s.len() as int));
    }
}

/// Law: splitting `username + ":" + password` at the first colon gives back
/// exactly `(username, password)` whenever the username itself holds no
/// colon, however many colons the password holds.
pub proof fn lemma_split_at_colon_round_trip(username: Seq<char>, password: Seq<char>)
    requires
        forall|i: int| 0 <= i < username.len() ==> username[i] != ':',
    ensures
        split_at_colon(username + seq![':'] + password) == Some((username, password)),
{
    let s = username + seq![':'] + password;
    let n: int = username.len() as int;
    assert(s[n] == ':');
    assert forall|j: int| 0 <= j < n implies s[j] != ':' by {
        assert(s[j] == username[j]);
    }
    lemma_split_at_colon_found(s, n);
    assert(s.subrange(0, n) =~= username);
    assert(s.subrange(n + 1, s.len() as int) =~= password);
}

/// The decoding of one base64 payload into credentials: base64-decode the
/// characters, require the bytes to be valid UTF-8, and split the text at
/// its first colon.
pub open spec fn payload_decoding(payload: Seq<char>) -> Option<(Seq<char>, Seq<char>)> {
    match base64_decoding(payload) {
        Some(bytes) => if valid_utf8(bytes) {
            split_at_colon(decode_utf8(bytes))
        } else {
            None
        },
        None => None,
    }
}

/// The decoding of one full `Authorization` header value: it must be at
/// least seven characters and start with the exact, case-sensitive prefix
/// `"Basic "`; everything after that prefix is the base64 payload.
pub open spec fn header_decoding(header: Seq<char>) -> Option<(Seq<char>, Seq<char>)> {
    if header.len() < 7 || header.subrange(0, 6) != "Basic "@ {
        None
    } else {
        payload_decoding(header.subrange(6, header.len() as int))
    }
}

/// The credential splitter: splits decoded text at its first colon into
/// `(username, password)`, or returns `None` when no colon occurs.
pub fn split_credentials(text: &str) -> (r: Option<(String, String)>)
    ensures
        (match r {
            Some(cred) => split_at_colon(text@) == Some((cred.0@, cred.1@)),
            None => split_at_colon(text@) is None,
        }),
{
    let len: usize = text.unicode_len();
    let mut i: usize = 0;
    loop
        invariant
            0 <= i <= len,
            len == text@.len(),
            forall|j: int| 0 <= j < i ==> text@[j] != ':',
        decreases len - i,
    {
        if i == len {
            proof {
                lemma_split_at_colon_none(text@);
            }
            return None;
        }
        if text.get_char(i) == ':' {
            let username = text.substring_char(0, i);
            let password = text.substring_char(i + 1, len);
            proof {
                lemma_split_at_colon_found(text@, i as int);
            }
            return Some((String::from_str(username), String::from_str(password)));
        }
        i = i + 1;
    }
}

/// Decodes a base64-encoded payload into a `(username, password)` pair, or
/// returns `None` if badly formatted: the payload must be valid base64, the
/// decoded bytes valid UTF-8, and the text must hold a colon.
pub fn decode_to_creds(base64_encoded: &str) -> (r: Option<(String, String)>)
    ensures
        (match r {
            Some(cred) => payload_decoding(base64_encoded@) == Some((cred.0@, cred.1@)),
            None => payload_decoding(base64_encoded@) is None,
        }),
{
    let bytes = match base64_decode(base64_encoded) {
        Some(bytes) => bytes,
        None => {
            return None;
        },
    };
    let text = match bytes_to_string(bytes) {
        Some(text) => text,
        None => {
            return None;
        },
    };
    split_credentials(text.as_str())
}

impl BasicAuth {
    /// Creates a new [`BasicAuth`] from the plaintext value of one HTTP
    /// `Authorization` header, or returns `None` if invalid: the value must
    /// start with `"Basic "` and carry a well-formed base64 payload.
    pub fn new(auth_header: &str) -> (r: Option<BasicAuth>)
        ensures
            (match r {
                Some(auth) => header_decoding(auth_header@) == Some(
                    (auth.username@, auth.password@),
                ),
                None => header_decoding(auth_header@) is None,
            }),
    {
        let len: usize = auth_header.unicode_len();
        if len < 7 {
            return None;
        }
        proof {
            reveal_strlit("Basic ");
        }
        if auth_header.get_char(0) != 'B' || auth_header.get_char(1) != 'a'
            || auth_header.get_char(2) != 's' || auth_header.get_char(3) != 'i'
            || auth_header.get_char(4) != 'c' || auth_header.get_char(5) != ' ' {
            proof {
                let h = auth_header@;
                let p = h.subrange(0, 6);
                assert(p[0] == h[0] && p[1] == h[1] && p[2] == h[2] && p[3] == h[3] && p[4] == h[4]
                    && p[5] == h[5]);
                assert(p != "Basic "@);
            }
            return None;
        }
        proof {
            let h = auth_header@;
            let p = h.subrange(0, 6);
            assert forall|k: int| 0 <= k < 6 implies p[k] == "Basic "@[k] by {
                assert(p[k] == h[k]);
            }
            assert(p =~= "Basic "@);
        }
        let payload = auth_header.substring_char(6, len);
        match decode_to_creds(payload) {
            Some(cred) => Some(BasicAuth { username: cred.0, password: cred.1 }),
            None => None,
        }
    }
}

/// The outcome of applying the Basic scheme to the `Authorization` header
/// values of one request.
#[derive(Debug, PartialEq, Eq)]
pub enum AuthOutcome {
    /// Exactly one header value was present and decoded successfully.
    Authenticated(BasicAuth),
    /// No header value was present: this scheme was not attempted, and the
    /// host may fall through to another mechanism.
    NotAttempted,
    /// The request is malformed: either several header values were present,
    /// or the single one did not decode.
    Rejected(BasicAuthError),
}

/// The guard entry point: maps the raw `Authorization` header values of one
/// request to an outcome. Zero values mean the scheme was not attempted;
/// exactly one is decoded; two or more are rejected outright, however valid
/// each value may be on its own.
pub fn resolve(header_values: &Vec<String>) -> (r: AuthOutcome)
    ensures
        header_values@.len() == 0 ==> r is NotAttempted,
        header_values@.len() == 1 ==> (match header_decoding(header_values@[0]@) {
            Some(cred) => (r matches AuthOutcome::Authenticated(auth) && auth.username@ == cred.0
                && auth.password@ == cred.1),
            None => r == AuthOutcome::Rejected(BasicAuthError::Invalid),
        }),
        header_values@.len() >= 2 ==> r == AuthOutcome::Rejected(BasicAuthError::BadCount),
{
    if header_values.len() == 0 {
        AuthOutcome::NotAttempted
    } else if header_values.len() == 1 {
        match BasicAuth::new(header_values[0].as_str()) {
            Some(auth) => AuthOutcome::Authenticated(auth),
            None => AuthOutcome::Rejected(BasicAuthError::Invalid),
        }
    } else {
        AuthOutcome::Rejected(BasicAuthError::BadCount)
    }
}

/// The header value that carries the given credentials: `"Basic "` followed
/// by the base64 encoding of the UTF-8 bytes of `username + ":" + password`.
pub open spec fn basic_header_of(username: Seq<char>, password: Seq<char>) -> Seq<char> {
    "Basic "@ + base64_encoding(encode_utf8(username + seq![':'] + password))
}

/// Builds the `Authorization` header value carrying the given credentials.
///
/// Law (round trip): for every username that holds no colon and every
/// password, decoding the built header yields exactly that pair.
pub fn encode_basic(username: &str, password: &str) -> (header: String)
    requires
        forall|i: int| 0 <= i < username@.len() ==> username@[i] != ':',
    ensures
        header@ == basic_header_of(username@, password@),
        header_decoding(header@) == Some((username@, password@)),
{
    let mut payload = String::from_str(username);
    payload.append(":");
    payload.append(password);
    proof {
        reveal_strlit(":");
        assert(":"@ =~= seq![':']);
    }
    let encoded = base64_encode(payload.as_str().as_bytes());
    let mut header = String::from_str("Basic ");
    header.append(encoded.as_str());
    proof {
        reveal_strlit("Basic ");
        let pv = username@ + seq![':'] + password@;
        assert(payload@ =~= pv);
        let bytes = encode_utf8(pv);
        assert(encoded@ == base64_encoding(bytes));
        assert(base64_decoding(encoded@) == Some(bytes));
        lemma_encode_utf8_nonempty(pv);
        encode_utf8_valid_utf8(pv);
        encode_utf8_decode_utf8(pv);
        lemma_split_at_colon_round_trip(username@, password@);
        assert(header@.subrange(0, 6) =~= "Basic "@);
        assert(header@.subrange(6, header@.len() as int) =~= encoded@);
    }
    header
}

proof fn lemma_encode_utf8_nonempty(chars: Seq<char>)
    requires
        chars.len() > 0,
    ensures
        encode_utf8(chars).len() > 0,
{
    assert(encode_scalar(chars[0] as u32).len() >= 1);
}

/// Law: a header value shorter than seven characters, or one that does not
/// start with the exact, case-sensitive prefix `"Basic "`, never decodes.
pub proof fn lemma_bad_prefix_rejected(header: Seq<char>)
    requires
        header.len() < 7 || header.subrange(0, 6) != "Basic "@,
    ensures
        header_decoding(header) is None,
{
}

/// Law: when the base64 payload decodes to bytes that are not a valid UTF-8
/// encoding, the header payload never decodes to credentials.
pub proof fn lemma_invalid_utf8_rejected(payload: Seq<char>, bytes: Seq<u8>)
    requires
        base64_decoding(payload) == Some(bytes),
        !valid_utf8(bytes),
    ensures
        payload_decoding(payload) is None,
{
}

/// Law: a decoded payload whose text holds no colon yields a decode failure,
/// never a credential pair with an empty password.
pub proof fn lemma_no_colon_rejected(payload: Seq<char>, bytes: Seq<u8>)
    requires
        base64_decoding(payload) == Some(bytes),
        valid_utf8(bytes),
        forall|i: int| 0 <= i < decode_utf8(bytes).len() ==> decode_utf8(bytes)[i] != ':',
    ensures
        payload_decoding(payload) is None,
{
    lemma_split_at_colon_none(decode_utf8(bytes));
}

} // verus!
