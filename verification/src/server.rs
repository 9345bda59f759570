//! Building the URL a poke is posted to when a remote relay daemon does
//! the sending: the room percent-encoded into the path, the port written
//! in when one is set, and an https scheme supplied when none is named.

use vstd::prelude::*;
use vstd::string::StringExecFns;
use crate::config::ServerConfig;
use crate::text::{dec_rep, starts_with_str, u16_dec};

verus! {

/// What `urlencoding::encode` yields on the given text: every byte
/// percent-encoded except ASCII alphanumerics and `-`, `_`, `.`, `~`.
pub uninterp spec fn percent_encoded_of(s: Seq<char>) -> Seq<char>;

/// A character the encoding keeps as it stands.
pub open spec fn is_unreserved(c: char) -> bool {
    (48 <= c as u32 && c as u32 <= 57) || (65 <= c as u32 && c as u32 <= 90) || (97 <= c as u32
        && c as u32 <= 122) || c == '-' || c == '_' || c == '.' || c == '~'
}

/// Relies on urlencoding::encode: the result is a function of the text
/// alone, and text of unreserved characters is kept as it stands.
#[verifier::external_body]
fn url_encode(s: &str) -> (r: String)
    ensures
        r@ == percent_encoded_of(s@),
        (forall|i: int| 0 <= i < s@.len() ==> is_unreserved(s@[i])) ==> r@ == s@,
{
    urlencoding::encode(s).into_owned()
}

/// The URL a poke to `room` is posted to: the server's URL, the port when
/// one is set, then the percent-encoded room; https is supplied when the
/// URL names no scheme.
pub open spec fn poke_url_spec(url: Seq<char>, port: Option<u16>, room: Seq<char>) -> Seq<char> {
    let base = (match port {
        Some(p) => url + ":"@ + dec_rep(p as int),
        None => url,
    }) + "/"@ + percent_encoded_of(room);
    if "http://"@.is_prefix_of(base) || "https://"@.is_prefix_of(base) {
        base
    } else {
        "https://"@ + base
    }
}

/// Builds the URL a poke to `room` is posted to.
pub fn poke_server_url(server: &ServerConfig, room: &str) -> (r: String)
    ensures
        r@ == poke_url_spec(server.url@, server.port, room@),
{
    let encoded = url_encode(room);
    let mut base = server.url.clone();
    match server.port {
        Some(p) => {
            base.append(":");
            base.append(u16_dec(p).as_str());
        },
        None => {},
    }
    base.append("/");
    base.append(encoded.as_str());
    if starts_with_str(base.as_str(), "http://") || starts_with_str(base.as_str(), "https://") {
        base
    } else {
        let mut out = "https://".to_owned();
        out.append(base.as_str());
        out
    }
}

} // verus!
