//! Basic authentication: which requests are let through.

use base64::Engine;
use vstd::prelude::*;
use vstd::utf8::{decode_utf8, valid_utf8};

use crate::text::{
    decode_text, lemma_position, lemma_position_is, opt_str, position, same, split_once, split_once_text,
    strip_prefix,
};
use crate::upload::stream::opt_bytes;

verus! {

/// What the standard base64 alphabet with padding decodes a text to; nothing where the
/// text is not encoded so.
pub uninterp spec fn base64_decoded(text: Seq<char>) -> Option<Seq<u8>>;

/// `base64::engine::general_purpose::STANDARD.decode`. The bytes, and whether there are
/// any, depend on the text alone.
#[verifier::external_body]
fn decode_base64(text: &str) -> (r: Option<Vec<u8>>)
    ensures
        opt_bytes(r) == base64_decoded(text@),
{
    base64::engine::general_purpose::STANDARD.decode(text).ok()
}

/// The bytes are `user:password` in UTF-8, cut at the first colon.
pub open spec fn credentials_match(
    username: Seq<char>,
    password: Seq<char>,
    decoded: Seq<u8>,
) -> bool {
    valid_utf8(decoded) && split_once(decode_utf8(decoded), ':') == Some((username, password))
}

/// Whether the decoded credentials of a request are the configured ones.
pub fn check_credentials(username: &str, password: &str, decoded: &[u8]) -> (r: bool)
    ensures
        r == credentials_match(username@, password@, decoded@),
        r ==> valid_utf8(decoded@) && split_once(decode_utf8(decoded@), ':') == Some(
            (username@, password@),
        ),
        !r ==> !valid_utf8(decoded@) || split_once(decode_utf8(decoded@), ':') != Some(
            (username@, password@),
        ),
{
    match decode_text(decoded) {
        Some(text) => match split_once_text(text.as_str(), ':') {
            Some((user, pass)) => same(user.as_str(), username) && same(pass.as_str(), password),
            None => false,
        },
        None => false,
    }
}

/// A request is let through: no credentials are configured, or its header holds them.
pub open spec fn let_through(
    username: Seq<char>,
    password: Seq<char>,
    header: Option<Seq<char>>,
) -> bool {
    if username.len() == 0 && password.len() == 0 {
        true
    } else {
        match header {
            Some(h) => "Basic "@.is_prefix_of(h) && (base64_decoded(h.skip(6)) matches Some(bytes)
                && credentials_match(username, password, bytes)),
            None => false,
        }
    }
}

/// Whether a request with the given `Authorization` header is let through. Everything is
/// while neither a user nor a password is configured.
pub fn is_authorized(username: &str, password: &str, header: Option<&str>) -> (r: bool)
    ensures
        r == let_through(username@, password@, opt_str(header)),
        username@.len() == 0 && password@.len() == 0 ==> r,
        (username@.len() > 0 || password@.len() > 0) && header is None ==> !r,
        (username@.len() > 0 || password@.len() > 0) && r ==> "Basic "@.is_prefix_of(header->0@)
            && base64_decoded(header->0@.skip(6)) is Some,
{
    if username.is_empty() && password.is_empty() {
        return true;
    }
    proof {
        reveal_strlit("Basic ");
    }
    match header {
        Some(value) => match strip_prefix(value, "Basic ") {
            Some(encoded) => match decode_base64(encoded.as_str()) {
                Some(bytes) => check_credentials(username, password, bytes.as_slice()),
                None => false,
            },
            None => false,
        },
        None => false,
    }
}

/// The answer to a request that is not let through.
#[derive(Debug)]
pub struct Unauthorized {
    pub status: u16,
    pub www_authenticate: &'static str,
    pub body: &'static str,
}

/// The answer to a request that is not let through, which asks for credentials.
pub fn unauthorized_response() -> (r: Unauthorized)
    ensures
        r.status == 401,
        r.www_authenticate@ == "Basic realm=\"chbackup\""@,
        r.body@ == "Unauthorized"@,
{
    Unauthorized {
        status: 401,
        www_authenticate: "Basic realm=\"chbackup\"",
        body: "Unauthorized",
    }
}

/// For a user without a colon in the name, the credentials are exactly `user:password`; the
/// password may hold colons. A user with a colon in the name never gets through.
pub proof fn law_credentials_are_user_colon_password(
    username: Seq<char>,
    password: Seq<char>,
    decoded: Seq<u8>,
)
    requires
        valid_utf8(decoded),
    ensures
        !username.contains(':') ==> (credentials_match(username, password, decoded)
            <==> decode_utf8(decoded) == username.push(':') + password),
        username.contains(':') ==> !credentials_match(username, password, decoded),
{
    let text = decode_utf8(decoded);
    lemma_position(text, ':');
    let at = position(text, ':') as int;
    if credentials_match(username, password, decoded) {
        assert(username == text.take(at) && password == text.skip(at + 1));
        assert(text =~= text.take(at).push(':') + text.skip(at + 1));
        if username.contains(':') {
            let k = choose|k: int| 0 <= k < username.len() && username[k] == ':';
            assert(text[k] == ':');
        }
    }
    if !username.contains(':') && text == username.push(':') + password {
        assert forall|j: int| 0 <= j < username.len() implies text[j] != ':' by {
            assert(text[j] == username[j]);
        }
        lemma_position_is(text, ':', username.len() as int);
        assert(text.take(username.len() as int) =~= username);
        assert(text.skip(username.len() as int + 1) =~= password);
    }
}

/// Without a header nothing gets through once a user or a password is configured.
pub proof fn law_missing_header_is_refused(username: Seq<char>, password: Seq<char>)
    requires
        username.len() > 0 || password.len() > 0,
    ensures
        !let_through(username, password, None),
{
}

} // verus!
