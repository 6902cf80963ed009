use vstd::prelude::*;
use vstd::slice::slice_subrange;
use vstd::utf8::{decode_utf8, valid_utf8};
use argon2::PasswordVerifier;
use base64::Engine;
use crate::response::{HeaderPair, SavedResponse};

verus! {

/// A username and password taken from a `Basic` authorization header.
pub struct Credentials {
    pub username: String,
    pub password: String,
}

/// Why an authorization header gave no credentials.
#[derive(Debug, Clone, Copy, PartialEq, Eq, Structural)]
pub enum BasicAuthError {
    /// The `Authorization` header was missing.
    MissingHeader,
    /// The header held bytes other than visible ASCII.
    NotVisibleAscii,
    /// The scheme was not `Basic`.
    NotBasicScheme,
    /// The credentials were not valid base64.
    InvalidBase64,
    /// The decoded credentials were not valid UTF-8.
    InvalidUtf8,
    /// No `:` separated a password from the username.
    MissingPassword,
}

/// What base64 decoding with the standard alphabet and padding gives for
/// `input`, or `None` where `input` is not such base64.
pub uninterp spec fn base64_decoded(input: Seq<u8>) -> Option<Seq<u8>>;

/// Relies on `base64::engine::general_purpose::STANDARD.decode`: its result
/// depends on the input bytes alone.
#[verifier::external_body]
fn base64_decode(input: &[u8]) -> (r: Option<Vec<u8>>)
    ensures
        match r {
            Some(v) => base64_decoded(input@) == Some(v@),
            None => base64_decoded(input@) is None,
        },
{
    base64::engine::general_purpose::STANDARD.decode(input).ok()
}

/// Relies on `String::from_utf8`: it accepts exactly the valid UTF-8 byte
/// sequences, and decodes them.
#[verifier::external_body]
fn string_from_utf8(bytes: Vec<u8>) -> (r: Option<String>)
    ensures
        match r {
            Some(s) => valid_utf8(bytes@) && s@ == decode_utf8(bytes@),
            None => !valid_utf8(bytes@),
        },
{
    String::from_utf8(bytes).ok()
}

/// Every byte is a tab or a visible ASCII character, as header values must be
/// to be read as text.
pub open spec fn visible_ascii(b: Seq<u8>) -> bool {
    forall|i: int| 0 <= i < b.len() ==> (b[i] == 9 || (32 <= #[trigger] b[i] && b[i] < 127))
}

/// The bytes of `Basic `.
pub open spec fn basic_prefix() -> Seq<u8> {
    seq![66u8, 97u8, 115u8, 105u8, 99u8, 32u8]
}

/// `i` is where the first `:` of `s` stands.
pub open spec fn first_colon(s: Seq<char>, i: int) -> bool {
    &&& 0 <= i < s.len()
    &&& s[i] == ':'
    &&& forall|j: int| 0 <= j < i ==> #[trigger] s[j] != ':'
}

/// `s` split at its first `:` into username and password.
pub open spec fn split_credentials(s: Seq<char>) -> Option<(Seq<char>, Seq<char>)> {
    if exists|i: int| first_colon(s, i) {
        let i = choose|i: int| first_colon(s, i);
        Some((s.take(i), s.skip(i + 1)))
    } else {
        None
    }
}

/// The credentials in decoded bytes: valid UTF-8 text split at its first `:`.
pub open spec fn credentials_model(decoded: Seq<u8>) -> Result<
    (Seq<char>, Seq<char>),
    BasicAuthError,
> {
    if !valid_utf8(decoded) {
        Err(BasicAuthError::InvalidUtf8)
    } else {
        match split_credentials(decode_utf8(decoded)) {
            Some(p) => Ok(p),
            None => Err(BasicAuthError::MissingPassword),
        }
    }
}

/// The credentials in an `Authorization` header's value, if it is present.
pub open spec fn basic_auth_model(header: Option<Seq<u8>>) -> Result<
    (Seq<char>, Seq<char>),
    BasicAuthError,
> {
    match header {
        None => Err(BasicAuthError::MissingHeader),
        Some(h) => if !visible_ascii(h) {
            Err(BasicAuthError::NotVisibleAscii)
        } else if !(h.len() >= 6 && h.take(6) == basic_prefix()) {
            Err(BasicAuthError::NotBasicScheme)
        } else {
            match base64_decoded(h.skip(6)) {
                None => Err(BasicAuthError::InvalidBase64),
                Some(d) => credentials_model(d),
            }
        },
    }
}

/// The username and password of a result, as character sequences.
pub open spec fn credentials_view(r: Result<Credentials, BasicAuthError>) -> Result<
    (Seq<char>, Seq<char>),
    BasicAuthError,
> {
    match r {
        Ok(c) => Ok((c.username@, c.password@)),
        Err(e) => Err(e),
    }
}

/// Reads credentials out of base64-decoded bytes.
pub fn credentials_from_decoded(decoded: Vec<u8>) -> (r: Result<Credentials, BasicAuthError>)
    ensures
        credentials_view(r) == credentials_model(decoded@),
{
    let ghost bytes = decoded@;
    let text = match string_from_utf8(decoded) {
        None => return Err(BasicAuthError::InvalidUtf8),
        Some(t) => t,
    };
    let s = text.as_str();
    let n = s.unicode_len();
    let mut i: usize = 0;
    while i < n
        invariant
            n == s@.len(),
            bytes == decoded@,
            valid_utf8(bytes),
            s@ == decode_utf8(bytes),
            i <= n,
            forall|j: int| 0 <= j < i ==> #[trigger] s@[j] != ':',
        decreases n - i,
    {
        if s.get_char(i) == ':' {
            proof {
                assert(first_colon(s@, i as int));
                let k = choose|k: int| first_colon(s@, k);
                if k < i {
                    assert(s@[k] != ':');
                } else if i < k {
                    assert(s@[i as int] != ':');
                }
            }
            let username = String::from_str(s.substring_char(0, i));
            let password = String::from_str(s.substring_char(i + 1, n));
            proof {
                assert(username@ =~= s@.take(i as int));
                assert(password@ =~= s@.skip(i + 1));
            }
            return Ok(Credentials { username, password });
        }
        i = i + 1;
    }
    proof {
        assert forall|k: int| !first_colon(s@, k) by {
            if 0 <= k < s@.len() {
                assert(s@[k] != ':');
            }
        }
    }
    Err(BasicAuthError::MissingPassword)
}

/// Reads `Basic` credentials out of an `Authorization` header's value.
pub fn basic_authentication(header: Option<&[u8]>) -> (r: Result<Credentials, BasicAuthError>)
    ensures
        credentials_view(r) == basic_auth_model(
            match header {
                Some(h) => Some(h@),
                None => None,
            },
        ),
{
    let h = match header {
        None => return Err(BasicAuthError::MissingHeader),
        Some(h) => h,
    };
    let n = h.len();
    let mut i: usize = 0;
    while i < n
        invariant
            header == Some(h),
            n == h@.len(),
            i <= n,
            forall|j: int| 0 <= j < i ==> (h@[j] == 9 || (32 <= #[trigger] h@[j] && h@[j] < 127)),
        decreases n - i,
    {
        let b = h[i];
        if !(b == 9 || (32 <= b && b < 127)) {
            assert(!(h@[i as int] == 9 || (32 <= h@[i as int] && h@[i as int] < 127)));
            return Err(BasicAuthError::NotVisibleAscii);
        }
        i = i + 1;
    }
    assert(visible_ascii(h@));
    let prefix: [u8; 6] = [66, 97, 115, 105, 99, 32];
    if n < 6 {
        return Err(BasicAuthError::NotBasicScheme);
    }
    let mut k: usize = 0;
    while k < 6
        invariant
            header == Some(h),
            visible_ascii(h@),
            n == h@.len(),
            6 <= n,
            k <= 6,
            prefix@ == basic_prefix(),
            forall|j: int| 0 <= j < k ==> h@[j] == #[trigger] basic_prefix()[j],
        decreases 6 - k,
    {
        if h[k] != prefix[k] {
            proof {
                assert(h@.take(6)[k as int] != basic_prefix()[k as int]);
            }
            return Err(BasicAuthError::NotBasicScheme);
        }
        k = k + 1;
    }
    assert(h@.take(6) =~= basic_prefix());
    let rest = slice_subrange(h, 6, n);
    assert(rest@ =~= h@.skip(6));
    match base64_decode(rest) {
        None => Err(BasicAuthError::InvalidBase64),
        Some(d) => credentials_from_decoded(d),
    }
}

/// Why publishing through the API failed.
pub enum PublishError {
    /// The caller could not be authenticated.
    AuthError(String),
    /// Something else went wrong.
    UnexpectedError(String),
}

/// The header that asks the client for `Basic` credentials.
pub open spec fn authenticate_header() -> (Seq<char>, Seq<u8>) {
    ("www-authenticate"@, vstd::utf8::encode_utf8("Basic realm=\"publish\""@))
}

impl PublishError {
    /// The HTTP response for this error: 401 asking for `Basic` credentials
    /// after a failed authentication, 500 otherwise; neither has a body.
    pub fn error_response(&self) -> (r: SavedResponse)
        ensures
            r@.body.len() == 0,
            match self {
                PublishError::AuthError(_) => r@.status_code == 401 && r@.headers == seq![
                    authenticate_header(),
                ],
                PublishError::UnexpectedError(_) => r@.status_code == 500 && r@.headers.len()
                    == 0,
            },
    {
        let mut headers: Vec<HeaderPair> = Vec::new();
        match self {
            PublishError::UnexpectedError(_) => {
                let r = SavedResponse { status_code: 500, headers, body: Vec::new() };
                assert(r@.headers =~= Seq::<(Seq<char>, Seq<u8>)>::empty());
                r
            },
            PublishError::AuthError(_) => {
                headers.push(
                    HeaderPair {
                        name: String::from_str("www-authenticate"),
                        value: "Basic realm=\"publish\"".as_bytes_vec(),
                    },
                );
                let r = SavedResponse { status_code: 401, headers, body: Vec::new() };
                assert(r@.headers =~= seq![authenticate_header()]);
                r
            },
        }
    }
}

/// Whether `hash` is a well-formed PHC string, as `PasswordHash::new` decides.
pub uninterp spec fn phc_well_formed(hash: Seq<char>) -> bool;

/// Whether Argon2, run on `password` with the algorithm, parameters and salt
/// stored in the PHC string `hash`, gives the output stored there.
pub uninterp spec fn argon2_matches(hash: Seq<char>, password: Seq<u8>) -> bool;

/// Relies on `argon2::PasswordHash::new`: whether a string parses depends on
/// the string alone.
#[verifier::external_body]
fn parse_phc(hash: &str) -> (r: bool)
    ensures
        r == phc_well_formed(hash@),
{
    argon2::PasswordHash::new(hash).is_ok()
}

/// Relies on `argon2::Argon2::default().verify_password`: it recomputes the
/// hash of `password` from what `hash` stores, and the outcome depends on the
/// two arguments alone.
#[verifier::external_body]
fn argon2_verify(hash: &str, password: &[u8]) -> (r: bool)
    requires
        phc_well_formed(hash@),
    ensures
        r == argon2_matches(hash@, password@),
{
    match argon2::PasswordHash::new(hash) {
        Ok(parsed) => argon2::Argon2::default().verify_password(password, &parsed).is_ok(),
        Err(_) => false,
    }
}

/// The id and the stored password hash of the user that a username names.
pub struct StoredCredentials {
    pub user_id: u128,
    pub password_hash: String,
}

/// The outcome of checking a password: an unknown user or a wrong password
/// fails authentication, a stored hash that does not parse is unexpected,
/// and otherwise the user is who they claim to be.
pub open spec fn credentials_check_model(
    user_id: Option<u128>,
    hash_well_formed: bool,
    password_matches: bool,
) -> Result<u128, bool> {
    match user_id {
        None => Err(true),
        Some(id) => if !hash_well_formed {
            Err(false)
        } else if !password_matches {
            Err(true)
        } else {
            Ok(id)
        },
    }
}

/// `Err(true)` for an authentication failure, `Err(false)` for anything else.
pub open spec fn publish_error_kind(r: Result<u128, PublishError>) -> Result<u128, bool> {
    match r {
        Ok(id) => Ok(id),
        Err(PublishError::AuthError(_)) => Err(true),
        Err(PublishError::UnexpectedError(_)) => Err(false),
    }
}

/// Decides a credentials check from what was found: the user's id, if the
/// username is known, whether the stored hash parses, and whether the
/// password matches it.
pub fn decide_credentials(
    user_id: Option<u128>,
    hash_well_formed: bool,
    password_matches: bool,
) -> (r: Result<u128, PublishError>)
    ensures
        publish_error_kind(r) == credentials_check_model(
            user_id,
            hash_well_formed,
            password_matches,
        ),
{
    match user_id {
        None => Err(PublishError::AuthError(String::from_str("Unknown username."))),
        Some(id) => if !hash_well_formed {
            Err(
                PublishError::UnexpectedError(
                    String::from_str("Failed to parse hash in PHC string format."),
                ),
            )
        } else if !password_matches {
            Err(PublishError::AuthError(String::from_str("Invalid password.")))
        } else {
            Ok(id)
        },
    }
}

/// Checks `password` against the stored credentials of the user it claims to
/// be, if that user exists, and returns the user's id on success.
pub fn validate_credentials(stored: Option<StoredCredentials>, password: &str) -> (r: Result<
    u128,
    PublishError,
>)
    ensures
        publish_error_kind(r) == match stored {
            None => credentials_check_model(None, false, false),
            Some(s) => credentials_check_model(
                Some(s.user_id),
                phc_well_formed(s.password_hash@),
                argon2_matches(s.password_hash@, vstd::utf8::encode_utf8(password@)),
            ),
        },
{
    match stored {
        None => decide_credentials(None, false, false),
        Some(s) => {
            let well_formed = parse_phc(s.password_hash.as_str());
            if !well_formed {
                return decide_credentials(Some(s.user_id), false, false);
            }
            let matches = argon2_verify(s.password_hash.as_str(), password.as_bytes());
            decide_credentials(Some(s.user_id), true, matches)
        },
    }
}

/// The body of a publish request sent to the API.
pub struct BodyData {
    pub title: String,
    pub content: Content,
}

/// The two renderings of a newsletter issue.
pub struct Content {
    pub html: String,
    pub text: String,
}

} // verus!
