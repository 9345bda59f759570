//! The authentication step: a poke must present the room's token, either in
//! a header or as the leading word of its message, and the token is consumed
//! from the message on its way through.

use vstd::prelude::*;
use crate::config::{token_view, RoomConfig};
use crate::errors::DeliveryError;
use crate::headers::{header_lookup, Headers};
use crate::text::{starts_with_str, str_eq, strip_repeated, strip_repeated_str, trim_leading,
    trim_leading_str};

verus! {

/// The token offered in the headers: `authentication` first, then `auth`,
/// else empty.
pub open spec fn auth_header_token(h: Seq<(Seq<char>, Seq<char>)>) -> Seq<char> {
    match header_lookup(h, "authentication"@) {
        Some(v) => v,
        None => match header_lookup(h, "auth"@) {
            Some(v) => v,
            None => Seq::empty(),
        },
    }
}

/// What validation leaves of the message: unchanged on a header match or
/// without a stored token, stripped of the token and following whitespace
/// on a message-prefix match, nothing otherwise.
pub open spec fn validate_spec(
    auth: Option<Seq<char>>,
    h: Seq<(Seq<char>, Seq<char>)>,
    msg: Seq<char>,
) -> Option<Seq<char>> {
    match auth {
        None => Some(msg),
        Some(tok) => if auth_header_token(h) == tok {
            Some(msg)
        } else if tok.is_prefix_of(msg) {
            Some(trim_leading(strip_repeated(msg, tok)))
        } else {
            None
        },
    }
}

/// Checks the offered token against the room's stored one and hands back
/// the message with the token consumed.
pub fn validate_authentication(room_config: &RoomConfig, headers: &Headers, msg: &str) -> (r:
    Result<String, DeliveryError>)
    ensures
        r is Ok <==> validate_spec(token_view(room_config.auth), headers@, msg@) is Some,
        r is Ok ==> r->Ok_0@ == validate_spec(token_view(room_config.auth), headers@, msg@)->0,
        r is Err ==> r->Err_0 == DeliveryError::AuthRejected,
{
    match &room_config.auth {
        None => Ok(msg.to_owned()),
        Some(tok) => {
            let offered: String = match headers.get("authentication") {
                Some(v) => v,
                None => match headers.get("auth") {
                    Some(v) => v,
                    None => String::new(),
                },
            };
            proof {
                assert(offered@ == auth_header_token(headers@));
            }
            if str_eq(offered.as_str(), tok.as_str()) {
                Ok(msg.to_owned())
            } else if starts_with_str(msg, tok.as_str()) {
                let stripped = trim_leading_str(strip_repeated_str(msg, tok.as_str()));
                Ok(stripped.to_owned())
            } else {
                Err(DeliveryError::AuthRejected)
            }
        },
    }
}

/// Validation does not accept its own result. When the validator lets text
/// through by taking the token off its front, and the headers offer
/// nothing, then running the validator a second time over that text fails,
/// as long as that text does not begin with the token in turn.
pub proof fn lemma_stripped_message_rejected(
    tok: Seq<char>,
    h: Seq<(Seq<char>, Seq<char>)>,
    msg: Seq<char>,
)
    requires
        header_lookup(h, "authentication"@) is None,
        header_lookup(h, "auth"@) is None,
        validate_spec(Some(tok), h, msg) is Some,
        !tok.is_prefix_of(validate_spec(Some(tok), h, msg)->0),
    ensures
        validate_spec(Some(tok), h, validate_spec(Some(tok), h, msg)->0) is None,
{
    let m2 = validate_spec(Some(tok), h, msg)->0;
    assert(auth_header_token(h) == Seq::<char>::empty());
    if tok.len() == 0 {
        assert(tok.is_prefix_of(m2));
    }
    assert(auth_header_token(h) != tok);
}

} // verus!
