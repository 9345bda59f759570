//! The chat-side command surface: argument parsing for `poke`, the `set`
//! handler with its replies, the block toggles' replies, and the lines of
//! the room-info message. Each handler is a pure step from the caller's
//! text and the room's current settings to new settings and a reply; the
//! surrounding program reads and writes the room around it.

use vstd::prelude::*;
use vstd::string::StringExecFns;
use crate::config::{token_view, RoomConfig};
use crate::text::{ci_eq, str_ci_eq, str_eq, strip_repeated, strip_repeated_str, tokens,
    tokens_str, views_of};

verus! {

/// Tokens joined back with single spaces.
pub open spec fn join_spaces(ts: Seq<Seq<char>>) -> Seq<char>
    decreases ts.len(),
{
    if ts.len() == 0 {
        Seq::empty()
    } else if ts.len() == 1 {
        ts[0]
    } else {
        ts[0] + " "@ + join_spaces(ts.skip(1))
    }
}

proof fn lemma_join_push(ts: Seq<Seq<char>>, x: Seq<char>)
    ensures
        join_spaces(ts.push(x)) == (if ts.len() == 0 {
            x
        } else {
            join_spaces(ts) + " "@ + x
        }),
    decreases ts.len(),
{
    if ts.len() == 0 {
        assert(ts.push(x)[0] == x);
        assert(join_spaces(ts.push(x)) == x);
    } else {
        assert(ts.push(x).skip(1) =~= ts.skip(1).push(x));
        lemma_join_push(ts.skip(1), x);
        if ts.len() == 1 {
            assert(ts.skip(1).len() == 0);
            assert(join_spaces(ts.push(x)) == ts[0] + " "@ + x);
            assert(join_spaces(ts) == ts[0]);
        } else {
            assert(join_spaces(ts) + " "@ + x =~= ts[0] + " "@ + (join_spaces(ts.skip(1)) + " "@
                + x));
        }
    }
}

/// The room and message named by a `poke` command: the prefix is stripped,
/// the command word dropped, the next word names the room, and the rest —
/// whitespace collapsed — is the message.
pub open spec fn poke_args_spec(prefix: Seq<char>, msg: Seq<char>) -> (Seq<char>, Seq<char>) {
    let ts = tokens(strip_repeated(msg, prefix));
    let room = if ts.len() >= 2 {
        ts[1]
    } else {
        Seq::empty()
    };
    let body = if ts.len() >= 3 {
        join_spaces(ts.skip(2))
    } else {
        Seq::empty()
    };
    (room, body)
}

/// Reads the room and message out of a `poke` command.
pub fn parse_poke_args(prefix: &str, msg: &str) -> (r: (String, String))
    ensures
        (r.0@, r.1@) == poke_args_spec(prefix@, msg@),
{
    let rest = strip_repeated_str(msg, prefix);
    let toks = tokens_str(rest);
    let room: String = if toks.len() >= 2 {
        toks[1].clone()
    } else {
        String::new()
    };
    proof {
        if toks@.len() >= 2 {
            assert(views_of(toks@)[1] == toks@[1]@);
        }
    }
    let n = toks.len();
    if n < 3 {
        return (room, String::new());
    }
    let mut body: String = toks[2].clone();
    proof {
        assert(views_of(toks@)[2] == toks@[2]@);
        assert(views_of(toks@).skip(2).take(1) =~= seq![views_of(toks@)[2]]);
        assert(join_spaces(views_of(toks@).skip(2).take(1)) == views_of(toks@)[2]);
    }
    let mut j: usize = 3;
    while j < n
        invariant
            n == toks@.len(),
            3 <= j <= n,
            body@ == join_spaces(views_of(toks@).skip(2).take(j - 2)),
        decreases n - j,
    {
        let ghost sofar = views_of(toks@).skip(2).take(j - 2);
        body.append(" ");
        body.append(toks[j].as_str());
        proof {
            assert(views_of(toks@)[j as int] == toks@[j as int]@);
            assert(views_of(toks@).skip(2).take(j - 2 + 1) =~= sofar.push(
                views_of(toks@)[j as int],
            ));
            lemma_join_push(sofar, views_of(toks@)[j as int]);
            assert(sofar.len() > 0);
        }
        j = j + 1;
    }
    proof {
        assert(views_of(toks@).skip(2).take(n - 2) =~= views_of(toks@).skip(2));
    }
    (room, body)
}

/// What a `set` command does: the new room settings and the reply, from
/// the key word, the value word and the settings as they stand.
pub open spec fn set_outcome(
    prefix: Seq<char>,
    key: Seq<char>,
    value: Seq<char>,
    block: bool,
    auth: Option<Seq<char>>,
) -> (bool, Option<Seq<char>>, Seq<char>) {
    if key == "block"@ {
        if value.len() == 0 {
            (block, auth, "Block cannot be empty\n`"@ + prefix + "set block [on|off]`"@)
        } else if ci_eq(value, "on"@) {
            (true, auth, "Blocking messages"@)
        } else if ci_eq(value, "off"@) {
            (false, auth, "Unblocking messages"@)
        } else {
            (block, auth, "Invalid value, use 'on' or 'off'"@)
        }
    } else if key == "auth"@ || key == "authentication"@ || key == "password"@ || key == "pass"@ {
        if value.len() == 0 {
            (block, auth, "Token cannot be empty\n`"@ + prefix + "set auth [off|token]`"@)
        } else if ci_eq(value, "on"@) {
            (
                block,
                auth,
                "Tried setting the Auth Token to 'on', that was probably an accident"@,
            )
        } else if ci_eq(value, "off"@) {
            (block, None, "Auth Token removed"@)
        } else {
            (block, Some(value), "Auth Token set to "@ + value)
        }
    } else {
        (
            block,
            auth,
            "Usage:\n`"@ + prefix + "set [block|auth] <on|off|token>`\nCurrent values:\n- block: "@
                + (if block {
                "on"@
            } else {
                "off"@
            }) + (match auth {
                Some(t) => "\n- Authentication Token: "@ + t,
                None => Seq::empty(),
            }),
        )
    }
}

/// Handles a `set` command: reads the key and value words out of the text
/// and yields the settings to write back and the reply to send. The
/// caller always writes the settings back, changed or not; the write is
/// idempotent either way.
pub fn set_command(prefix: &str, msg: &str, config: &RoomConfig) -> (r: (RoomConfig, String))
    ensures
        ({
            let ts = tokens(strip_repeated(msg@, prefix@));
            let key = if ts.len() >= 2 {
                ts[1]
            } else {
                Seq::empty()
            };
            let value = if ts.len() >= 3 {
                ts[2]
            } else {
                Seq::empty()
            };
            (r.0.block, token_view(r.0.auth), r.1@) == set_outcome(
                prefix@,
                key,
                value,
                config.block,
                token_view(config.auth),
            )
        }),
{
    let rest = strip_repeated_str(msg, prefix);
    let toks = tokens_str(rest);
    let key: String = if toks.len() >= 2 {
        toks[1].clone()
    } else {
        String::new()
    };
    let value: String = if toks.len() >= 3 {
        toks[2].clone()
    } else {
        String::new()
    };
    proof {
        if toks@.len() >= 2 {
            assert(views_of(toks@)[1] == toks@[1]@);
        }
        if toks@.len() >= 3 {
            assert(views_of(toks@)[2] == toks@[2]@);
        }
    }
    if str_eq(key.as_str(), "block") {
        if value.as_str().unicode_len() == 0 {
            let mut reply = "Block cannot be empty\n`".to_owned();
            reply.append(prefix);
            reply.append("set block [on|off]`");
            (RoomConfig { block: config.block, auth: config.auth.clone() }, reply)
        } else if str_ci_eq(value.as_str(), "on") {
            (RoomConfig { block: true, auth: config.auth.clone() }, "Blocking messages".to_owned())
        } else if str_ci_eq(value.as_str(), "off") {
            (
                RoomConfig { block: false, auth: config.auth.clone() },
                "Unblocking messages".to_owned(),
            )
        } else {
            (RoomConfig { block: config.block, auth: config.auth.clone() }, "Invalid value, use 'on' or 'off'".to_owned())
        }
    } else if str_eq(key.as_str(), "auth") || str_eq(key.as_str(), "authentication") || str_eq(
        key.as_str(),
        "password",
    ) || str_eq(key.as_str(), "pass") {
        if value.as_str().unicode_len() == 0 {
            let mut reply = "Token cannot be empty\n`".to_owned();
            reply.append(prefix);
            reply.append("set auth [off|token]`");
            (RoomConfig { block: config.block, auth: config.auth.clone() }, reply)
        } else if str_ci_eq(value.as_str(), "on") {
            (
                RoomConfig { block: config.block, auth: config.auth.clone() },
                "Tried setting the Auth Token to 'on', that was probably an accident".to_owned(),
            )
        } else if str_ci_eq(value.as_str(), "off") {
            (RoomConfig { block: config.block, auth: None }, "Auth Token removed".to_owned())
        } else {
            let mut reply = "Auth Token set to ".to_owned();
            reply.append(value.as_str());
            (RoomConfig { block: config.block, auth: Some(value) }, reply)
        }
    } else {
        let mut reply = "Usage:\n`".to_owned();
        reply.append(prefix);
        reply.append("set [block|auth] <on|off|token>`\nCurrent values:\n- block: ");
        if config.block {
            reply.append("on");
        } else {
            reply.append("off");
        }
        match &config.auth {
            Some(t) => {
                reply.append("\n- Authentication Token: ");
                reply.append(t.as_str());
            },
            None => {},
        }
        (RoomConfig { block: config.block, auth: config.auth.clone() }, reply)
    }
}

/// The reply to a `block` or `unblock` command, for the given toggle and
/// whether the tag write succeeded.
pub fn block_command_reply(enable: bool, ok: bool) -> (r: String)
    ensures
        enable && ok ==> r@
            == "Pok'em has been blocked from sending messages to this room.\nSend `.unblock` to allow messages again."@,
        enable && !ok ==> r@ == "ERROR: Failed to block myself."@,
        !enable && ok ==> r@ == "Pok'em has been unblocked from sending messages to this room."@,
        !enable && !ok ==> r@ == "ERROR: Failed to unblock myself."@,
{
    if enable {
        if ok {
            "Pok'em has been blocked from sending messages to this room.\nSend `.unblock` to allow messages again.".to_owned()
        } else {
            "ERROR: Failed to block myself.".to_owned()
        }
    } else {
        if ok {
            "Pok'em has been unblocked from sending messages to this room.".to_owned()
        } else {
            "ERROR: Failed to unblock myself.".to_owned()
        }
    }
}

/// The lines of the room-info message: the alias when the room has one,
/// the id always, and the token when one is set.
pub open spec fn help_lines_spec(
    alias: Option<Seq<char>>,
    room_id: Seq<char>,
    auth: Option<Seq<char>>,
) -> Seq<Seq<char>> {
    (match alias {
        Some(a) => seq!["This Room's Alias is: "@ + a],
        None => Seq::empty(),
    }) + seq!["This Room's ID is: "@ + room_id] + (match auth {
        Some(t) => seq!["This Room's Authentication token is: "@ + t],
        None => Seq::empty(),
    })
}

/// Writes the room-info lines, one message each.
pub fn send_help(alias: &Option<String>, room_id: &str, config: &RoomConfig) -> (r: Vec<String>)
    ensures
        views_of(r@) == help_lines_spec(
            crate::normalize::opt_view(*alias),
            room_id@,
            token_view(config.auth),
        ),
{
    let mut out: Vec<String> = Vec::new();
    match alias {
        Some(a) => {
            let mut line = "This Room's Alias is: ".to_owned();
            line.append(a.as_str());
            out.push(line);
        },
        None => {},
    }
    let mut line = "This Room's ID is: ".to_owned();
    line.append(room_id);
    out.push(line);
    match &config.auth {
        Some(t) => {
            let mut line = "This Room's Authentication token is: ".to_owned();
            line.append(t.as_str());
            out.push(line);
        },
        None => {},
    }
    proof {
        assert(views_of(out@) =~= help_lines_spec(
            crate::normalize::opt_view(*alias),
            room_id@,
            token_view(config.auth),
        ));
    }
    out
}

} // verus!
