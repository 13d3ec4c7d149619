//! Authentication of the admin endpoint: the shared token, the `Basic`
//! credentials that carry it, and the check a request must pass.
use crate::search::{first_where, lemma_first_is};
use crate::text::{chars_of, hex, hex_string, starts_with};
use base64::Engine;
use rand::RngCore;
use subtle::ConstantTimeEq;
use vstd::prelude::*;
use vstd::utf8::{encode_utf8, valid_utf8};

verus! {

/// base64's `DecodeError`, carried through unopened.
#[verifier::external_type_specification]
#[verifier::external_body]
pub struct ExDecodeError(base64::DecodeError);

/// rand's `Error`, carried through unopened.
#[verifier::external_type_specification]
#[verifier::external_body]
pub struct ExRandError(rand::Error);

/// What the standard base64 alphabet, with padding, decodes `input` to;
/// `None` when `input` is not valid base64.
pub uninterp spec fn standard_decoding(input: Seq<u8>) -> Option<Seq<u8>>;

/// The standard base64 encoding of `input`, with padding.
pub uninterp spec fn standard_encoding(input: Seq<u8>) -> Seq<char>;

/// Decodes standard base64. Trusted: `decode` of base64's `STANDARD`
/// engine, whose result depends on the input alone; it is named, not
/// described.
#[verifier::external_body]
fn base64_decode(input: &[u8]) -> (r: Result<Vec<u8>, base64::DecodeError>)
    ensures
        match r {
            Ok(bytes) => standard_decoding(input@) == Some(bytes@),
            Err(_) => standard_decoding(input@) is None,
        },
{
    base64::engine::general_purpose::STANDARD.decode(input)
}

/// Encodes in standard base64. Trusted: `encode` of base64's `STANDARD`
/// engine, which panics only when the encoded length does not fit in
/// `usize`; its result depends on the input alone and is named, not
/// described.
#[verifier::external_body]
fn base64_encode(input: &[u8]) -> (r: String)
    requires
        input@.len() / 3 * 4 + 4 <= usize::MAX,
    ensures
        r@ == standard_encoding(input@),
{
    base64::engine::general_purpose::STANDARD.encode(input)
}

/// Whether `bytes` is well-formed UTF-8. Trusted: `std::str::from_utf8`
/// succeeds exactly on well-formed UTF-8.
#[verifier::external_body]
fn is_utf8(bytes: &Vec<u8>) -> (r: bool)
    ensures
        r == valid_utf8(bytes@),
{
    std::str::from_utf8(bytes).is_ok()
}

/// Whether two byte strings are equal, compared in time that depends on
/// their lengths only. Trusted: `ct_eq` of subtle on slices yields one
/// exactly when the two have the same length and the same bytes.
#[verifier::external_body]
fn constant_time_eq(a: &Vec<u8>, b: &Vec<u8>) -> (r: bool)
    ensures
        r == (a@ == b@),
{
    a.ct_eq(b).into()
}

/// `n` bytes from the operating system's random source. Trusted:
/// `try_fill_bytes` of rand's `OsRng` fills the whole buffer or fails.
/// Nothing is claimed of the bytes themselves.
#[verifier::external_body]
fn os_random_bytes(n: usize) -> (r: Result<Vec<u8>, rand::Error>)
    ensures
        r matches Ok(bytes) ==> bytes@.len() == n,
{
    let mut bytes = vec![0u8; n];
    match rand::rngs::OsRng.try_fill_bytes(&mut bytes) {
        Ok(()) => Ok(bytes),
        Err(e) => Err(e),
    }
}

/// The number of random bytes in a token.
pub const TOKEN_BYTES: usize = 32;

/// Why no token could be made.
#[derive(Clone, Copy, Debug, PartialEq, Eq, Structural)]
pub enum TokenError {
    /// The operating system gave no random bytes.
    EntropyUnavailable,
}

/// Whether `token` is the lowercase hexadecimal form of `TOKEN_BYTES` bytes.
pub open spec fn is_token(token: Seq<char>) -> bool {
    exists|bytes: Seq<u8>| bytes.len() == TOKEN_BYTES && token == #[trigger] hex(bytes)
}

/// The token that stands for `bytes`: their lowercase hexadecimal form.
pub fn token_of(bytes: &Vec<u8>) -> (token: String)
    ensures
        token@ == hex(bytes@),
        token@.len() == 2 * bytes@.len(),
{
    hex_string(bytes)
}

/// Makes a fresh token from the operating system's random source.
pub fn make_cryptographic_token() -> (r: Result<String, TokenError>)
    ensures
        r matches Ok(token) ==> is_token(token@) && token@.len() == 2 * TOKEN_BYTES,
{
    token_from_draw(os_random_bytes(TOKEN_BYTES))
}

/// The token made of what the random source gave: the hexadecimal form of
/// the bytes it drew, or the failure when it drew none.
pub fn token_from_draw(drawn: Result<Vec<u8>, rand::Error>) -> (r: Result<String, TokenError>)
    ensures
        match r {
            Ok(token) => drawn is Ok && token@ == hex(drawn->Ok_0@) && token@.len() == 2
                * drawn->Ok_0@.len(),
            Err(error) => drawn is Err && error == TokenError::EntropyUnavailable,
        },
{
    match drawn {
        Ok(bytes) => Ok(token_of(&bytes)),
        Err(_) => Err(TokenError::EntropyUnavailable),
    }
}

/// Why a request is not authorized.
#[derive(Clone, Copy, Debug, PartialEq, Eq, Structural)]
pub enum AuthError {
    /// No `Authorization` header with `Basic` credentials was sent.
    MissingHeader,
    /// The credentials are not base64.
    InvalidBase64,
    /// The decoded credentials are not UTF-8.
    InvalidUtf8,
    /// The decoded credentials hold no `:`.
    NoToken,
    /// What follows the first `:` is not the token.
    WrongToken,
}

impl AuthError {
    /// The text of the error.
    pub open spec fn spec_message(self) -> Seq<char> {
        match self {
            AuthError::MissingHeader => "Authorization header is required, like:\n\n  Authorization: Basic <base64 of \"any username:server token\">\n"@,
            AuthError::InvalidBase64 => "Invalid base64"@,
            AuthError::InvalidUtf8 => "Invalid UTF-8 inside base64"@,
            AuthError::NoToken => "No token"@,
            AuthError::WrongToken => "Wrong token"@,
        }
    }

    /// The plain-text body sent with the refusal.
    pub fn message(&self) -> (s: &'static str)
        ensures
            s@ == self.spec_message(),
    {
        match self {
            AuthError::MissingHeader => "Authorization header is required, like:\n\n  Authorization: Basic <base64 of \"any username:server token\">\n",
            AuthError::InvalidBase64 => "Invalid base64",
            AuthError::InvalidUtf8 => "Invalid UTF-8 inside base64",
            AuthError::NoToken => "No token",
            AuthError::WrongToken => "Wrong token",
        }
    }
}

/// Whether the byte at `j` is a `:`.
pub open spec fn colon_at(bytes: Seq<u8>, j: int) -> bool {
    bytes[j] == 0x3a
}

/// The position of the first `:` in `bytes`, or their number.
pub open spec fn separator(bytes: Seq<u8>) -> int {
    first_where(bytes.len() as int, |j: int| colon_at(bytes, j))
}

/// The check of decoded credentials `user:token`: they must be UTF-8,
/// hold a `:`, and carry the token after the first `:`. The user name is
/// not looked at.
pub open spec fn credentials_check(decoded: Seq<u8>, token: Seq<u8>) -> Result<(), AuthError> {
    let i = separator(decoded);
    if !valid_utf8(decoded) {
        Err(AuthError::InvalidUtf8)
    } else if i >= decoded.len() {
        Err(AuthError::NoToken)
    } else if decoded.subrange(i + 1, decoded.len() as int) == token {
        Ok(())
    } else {
        Err(AuthError::WrongToken)
    }
}

/// The check of `Basic` credentials, given what they decode to.
pub open spec fn basic_check(decoded: Option<Seq<u8>>, token: Seq<u8>) -> Result<(), AuthError> {
    match decoded {
        None => Err(AuthError::InvalidBase64),
        Some(bytes) => credentials_check(bytes, token),
    }
}

/// Checks decoded credentials against the token.
pub fn check_credentials(decoded: &Vec<u8>, token: &Vec<u8>) -> (r: Result<(), AuthError>)
    ensures
        r == credentials_check(decoded@, token@),
{
    if !is_utf8(decoded) {
        return Err(AuthError::InvalidUtf8);
    }
    let ghost hit = |j: int| colon_at(decoded@, j);
    let mut i: usize = 0;
    while i < decoded.len() && decoded[i] != 0x3a
        invariant
            i <= decoded.len(),
            hit == (|j: int| colon_at(decoded@, j)),
            forall|j: int| 0 <= j < i ==> !#[trigger] hit(j),
        decreases decoded.len() - i,
    {
        i += 1;
    }
    proof {
        lemma_first_is(0, decoded@.len() as int, hit, i as int);
    }
    if i == decoded.len() {
        return Err(AuthError::NoToken);
    }
    let mut given: Vec<u8> = Vec::new();
    let mut k: usize = i + 1;
    while k < decoded.len()
        invariant
            i < k <= decoded.len(),
            given@ == decoded@.subrange(i + 1, k as int),
        decreases decoded.len() - k,
    {
        given.push(decoded[k]);
        assert(given@ =~= decoded@.subrange(i + 1, k as int + 1));
        k += 1;
    }
    if constant_time_eq(&given, token) {
        Ok(())
    } else {
        Err(AuthError::WrongToken)
    }
}

/// Checks `Basic` credentials: `basic` must be the base64 form of
/// `user:token`.
pub fn check_basic_auth(basic: &str, token: &str) -> (r: Result<(), AuthError>)
    ensures
        r == basic_check(standard_decoding(encode_utf8(basic@)), encode_utf8(token@)),
{
    let expected = token.as_bytes_vec();
    match base64_decode(basic.as_bytes()) {
        Err(_) => Err(AuthError::InvalidBase64),
        Ok(decoded) => check_credentials(&decoded, &expected),
    }
}

/// The credentials an `Authorization` header carries, if it is of the
/// `Basic` scheme.
pub open spec fn basic_credentials(header: Option<Seq<char>>) -> Option<Seq<char>> {
    match header {
        Some(value) => if "Basic "@.is_prefix_of(value) {
            Some(value.subrange(6, value.len() as int))
        } else {
            None
        },
        None => None,
    }
}

/// Whether a request with this `Authorization` header may pass.
pub open spec fn authorization(header: Option<Seq<char>>, token: Seq<char>) -> Result<
    (),
    AuthError,
> {
    match basic_credentials(header) {
        None => Err(AuthError::MissingHeader),
        Some(basic) => basic_check(standard_decoding(encode_utf8(basic)), encode_utf8(token)),
    }
}

/// Decides whether a request with this `Authorization` header may pass.
pub fn authorize(header: Option<String>, token: &str) -> (r: Result<(), AuthError>)
    ensures
        r == authorization(header.deep_view(), token@),
{
    match header {
        None => Err(AuthError::MissingHeader),
        Some(value) => {
            if !starts_with(value.as_str(), "Basic ") {
                return Err(AuthError::MissingHeader);
            }
            proof {
                reveal_strlit("Basic ");
            }
            let length = value.as_str().unicode_len();
            let basic = value.as_str().substring_char(6, length);
            check_basic_auth(basic, token)
        },
    }
}

/// The `Authorization` header a client sends: `Basic`, then the base64
/// form of an empty user name, a `:`, and the token.
pub open spec fn authorization_header(token: Seq<char>) -> Seq<char> {
    "Basic "@ + standard_encoding(encode_utf8(":"@ + token))
}

/// The `Authorization` header that carries `encoded` credentials.
pub fn basic_header_of(encoded: &str) -> (header: String)
    ensures
        header@ == "Basic "@ + encoded@,
{
    "Basic ".to_owned().concat(encoded)
}

/// Builds the `Authorization` header a client sends.
pub fn basic_auth_header(token: &str) -> (header: String)
    requires
        encode_utf8(":"@ + token@).len() / 3 * 4 + 4 <= usize::MAX,
    ensures
        header@ == authorization_header(token@),
{
    let credentials = ":".to_owned().concat(token);
    let encoded = base64_encode(credentials.as_str().as_bytes());
    basic_header_of(encoded.as_str())
}

/// What the supervisor and its clients share to find and trust each other.
#[derive(Debug, PartialEq, Eq)]
pub struct AuthConfig {
    pub host: Option<String>,
    pub cert: String,
    pub private: Option<String>,
    pub token: String,
}

/// The auth configuration written when none exists yet.
pub fn generated_auth_config(cert: String, private: String, token: String) -> (config: AuthConfig)
    ensures
        config.host.deep_view() == Some("example.com"@),
        config.cert@ == cert@,
        config.private.deep_view() == Some(private@),
        config.token@ == token@,
{
    AuthConfig { host: Some("example.com".to_owned()), cert, private: Some(private), token }
}

/// The target text that stands when no target was stored.
pub fn default_target_text() -> (text: String)
    ensures
        text@ == "# No orchestration target set\nprocesses: []\n"@,
{
    "# No orchestration target set\nprocesses: []\n".to_owned()
}

/// The text after the first `:` of `host`, if it holds one.
pub open spec fn port_text(host: Seq<char>) -> Option<Seq<char>> {
    let i = crate::ipvs::colon_position(host);
    if i < host.len() {
        Some(host.subrange(i + 1, host.len() as int))
    } else {
        None
    }
}

/// The port part of the admin endpoint's `host:port`.
pub fn admin_port_text(host: &str) -> (port: Option<String>)
    ensures
        port.deep_view() == port_text(host@),
{
    let chars = chars_of(host);
    let ghost is_colon = |j: int| host@[j] == ':';
    let mut i: usize = 0;
    while i < chars.len() && chars[i] != ':'
        invariant
            i <= chars.len(),
            chars@ == host@,
            is_colon == (|j: int| host@[j] == ':'),
            forall|j: int| 0 <= j < i ==> !#[trigger] is_colon(j),
        decreases chars.len() - i,
    {
        i += 1;
    }
    proof {
        lemma_first_is(0, host@.len() as int, is_colon, i as int);
    }
    if i == chars.len() {
        None
    } else {
        Some(host.substring_char(i + 1, chars.len()).to_owned())
    }
}

/// The address of the admin endpoint's API on `port`.
pub fn api_url(port: &str) -> (url: String)
    ensures
        url@ == "https://hujingzhi:"@ + port@ + "/api"@,
{
    "https://hujingzhi:".to_owned().concat(port).concat("/api")
}

} // verus!
