use pokem::commands::{block_command_reply, parse_poke_args, send_help, set_command};
use pokem::config::{bind_address, get_command_prefix, Config, DaemonConfig, MatrixConfig,
    RoomConfig, RoomTable, ServerConfig};
use pokem::resolve::{get_room_from_name, pick_room_from_args, resolve_topic, RoomEntry,
    RoomState};
use pokem::server::poke_server_url;

fn entry(id: &str, canonical: Option<&str>, alts: &[&str], state: RoomState) -> RoomEntry {
    RoomEntry {
        id: id.to_string(),
        canonical_alias: canonical.map(|s| s.to_string()),
        alt_aliases: alts.iter().map(|s| s.to_string()).collect(),
        state,
    }
}

fn known_rooms() -> Vec<RoomEntry> {
    vec![
        entry("!a:x", Some("#main:x.org"), &["#alt:x.org"], RoomState::Joined),
        entry("!b:x", None, &[], RoomState::Invited),
    ]
}

#[test]
fn raw_id_found_in_any_state() {
    let rooms = known_rooms();
    assert_eq!(get_room_from_name("!a:x", &rooms), Some(0));
    // an invited room is still found by its id, so the join-wait can run
    assert_eq!(get_room_from_name("!b:x", &rooms), Some(1));
    assert_eq!(get_room_from_name("!missing:x", &rooms), None);
}

#[test]
fn user_shaped_names_are_refused() {
    let rooms = known_rooms();
    assert_eq!(get_room_from_name("@someone:x.org", &rooms), None);
}

#[test]
fn alias_scan_matches_canonical_and_alternate() {
    let rooms = known_rooms();
    assert_eq!(get_room_from_name("#main:x.org", &rooms), Some(0));
    assert_eq!(get_room_from_name("#alt:x.org", &rooms), Some(0));
    // the sigil is supplied when absent
    assert_eq!(get_room_from_name("main:x.org", &rooms), Some(0));
    assert_eq!(get_room_from_name("#unknown:x.org", &rooms), None);
}

#[test]
fn names_without_a_domain_fail() {
    let rooms = known_rooms();
    assert_eq!(get_room_from_name("ops", &rooms), None);
    assert_eq!(get_room_from_name("", &rooms), None);
}

fn table(pairs: &[(&str, &str)]) -> Option<RoomTable> {
    let mut t = RoomTable::new();
    for (k, v) in pairs {
        t.push(k.to_string(), v.to_string());
    }
    Some(t)
}

#[test]
fn urgent_poke_takes_escalation_room() {
    let t = table(&[("ops", "!a:x"), ("ops-urgent", "!b:x")]);
    assert_eq!(resolve_topic("ops", true, &t), ("!b:x".to_string(), false));
}

#[test]
fn urgent_poke_without_escalation_room_pages_everyone() {
    let t = table(&[("ops", "!a:x")]);
    assert_eq!(resolve_topic("ops", true, &t), ("!a:x".to_string(), true));
}

#[test]
fn plain_poke_takes_plain_nickname() {
    let t = table(&[("ops", "!a:x"), ("ops-urgent", "!b:x")]);
    assert_eq!(resolve_topic("ops", false, &t), ("!a:x".to_string(), false));
}

#[test]
fn unknown_topic_passes_through() {
    let t = table(&[("other", "!a:x")]);
    assert_eq!(resolve_topic("ops", false, &t), ("ops".to_string(), false));
    assert_eq!(resolve_topic("ops", true, &t), ("ops".to_string(), true));
    assert_eq!(resolve_topic("ops", true, &None), ("ops".to_string(), true));
}

#[test]
fn named_room_maps_through_table() {
    let t = table(&[("ops", "!a:x")]);
    let r = pick_room_from_args(&Some("ops".to_string()), &None, &t);
    assert_eq!(r, Some(("!a:x".to_string(), false)));
    let r = pick_room_from_args(&Some("raw".to_string()), &None, &t);
    assert_eq!(r, Some(("raw".to_string(), false)));
}

#[test]
fn first_word_can_name_the_room() {
    let t = table(&[("ops", "!a:x"), ("default", "!d:x")]);
    let r = pick_room_from_args(&None, &Some("room:x.org".to_string()), &t);
    assert_eq!(r, Some(("room:x.org".to_string(), true)));
    let r = pick_room_from_args(&None, &Some("ops".to_string()), &t);
    assert_eq!(r, Some(("!a:x".to_string(), true)));
    let r = pick_room_from_args(&None, &Some("just-a-word".to_string()), &t);
    assert_eq!(r, Some(("!d:x".to_string(), false)));
}

#[test]
fn without_any_room_the_default_or_nothing() {
    let t = table(&[("default", "!d:x")]);
    assert_eq!(pick_room_from_args(&None, &None, &t), Some(("!d:x".to_string(), false)));
    assert_eq!(pick_room_from_args(&None, &None, &None), None);
    assert_eq!(
        pick_room_from_args(&None, &Some("word".to_string()), &None),
        None
    );
}

#[test]
fn poke_arguments_parse() {
    let (room, msg) = parse_poke_args("!pokem ", "!pokem poke myroom hello   world");
    assert_eq!(room, "myroom");
    assert_eq!(msg, "hello world");
    let (room, msg) = parse_poke_args("!pokem ", "!pokem poke");
    assert_eq!(room, "");
    assert_eq!(msg, "");
}

fn cfg(block: bool, auth: Option<&str>) -> RoomConfig {
    RoomConfig { block, auth: auth.map(|s| s.to_string()) }
}

#[test]
fn set_block_toggles() {
    let (c, reply) = set_command("!pokem ", "!pokem set block on", &cfg(false, None));
    assert!(c.block);
    assert_eq!(reply, "Blocking messages");
    let (c, reply) = set_command("!pokem ", "!pokem set block off", &cfg(true, None));
    assert!(!c.block);
    assert_eq!(reply, "Unblocking messages");
    let (c, reply) = set_command("!pokem ", "!pokem set block sideways", &cfg(true, None));
    assert!(c.block);
    assert_eq!(reply, "Invalid value, use 'on' or 'off'");
    let (_, reply) = set_command("!pokem ", "!pokem set block", &cfg(false, None));
    assert_eq!(reply, "Block cannot be empty\n`!pokem set block [on|off]`");
}

#[test]
fn set_auth_sets_and_clears() {
    let (c, reply) = set_command("!pokem ", "!pokem set auth s3cret", &cfg(false, None));
    assert_eq!(c.auth.as_deref(), Some("s3cret"));
    assert_eq!(reply, "Auth Token set to s3cret");
    let (c, reply) = set_command("!pokem ", "!pokem set auth off", &cfg(false, Some("s3cret")));
    assert_eq!(c.auth, None);
    assert_eq!(reply, "Auth Token removed");
    let (c, reply) = set_command("!pokem ", "!pokem set auth on", &cfg(false, Some("keep")));
    assert_eq!(c.auth.as_deref(), Some("keep"));
    assert_eq!(
        reply,
        "Tried setting the Auth Token to 'on', that was probably an accident"
    );
    let (_, reply) = set_command("!pokem ", "!pokem set auth", &cfg(false, None));
    assert_eq!(reply, "Token cannot be empty\n`!pokem set auth [off|token]`");
}

#[test]
fn legacy_key_words_still_set_the_token() {
    for key in ["authentication", "password", "pass"] {
        let msg = format!("!pokem set {} tok", key);
        let (c, _) = set_command("!pokem ", &msg, &cfg(false, None));
        assert_eq!(c.auth.as_deref(), Some("tok"), "key {}", key);
    }
}

#[test]
fn unknown_key_prints_usage_with_current_values() {
    let (_, reply) = set_command("!pokem ", "!pokem set bogus x", &cfg(true, Some("t")));
    assert_eq!(
        reply,
        "Usage:\n`!pokem set [block|auth] <on|off|token>`\nCurrent values:\n- block: on\n- Authentication Token: t"
    );
    let (_, reply) = set_command("!pokem ", "!pokem set", &cfg(false, None));
    assert_eq!(
        reply,
        "Usage:\n`!pokem set [block|auth] <on|off|token>`\nCurrent values:\n- block: off"
    );
}

#[test]
fn block_replies_are_fixed() {
    assert_eq!(
        block_command_reply(true, true),
        "Pok'em has been blocked from sending messages to this room.\nSend `.unblock` to allow messages again."
    );
    assert_eq!(block_command_reply(true, false), "ERROR: Failed to block myself.");
    assert_eq!(
        block_command_reply(false, true),
        "Pok'em has been unblocked from sending messages to this room."
    );
    assert_eq!(block_command_reply(false, false), "ERROR: Failed to unblock myself.");
}

#[test]
fn help_lines_list_alias_id_and_token() {
    let lines = send_help(
        &Some("#main:x.org".to_string()),
        "!a:x",
        &cfg(false, Some("p")),
    );
    assert_eq!(
        lines,
        vec![
            "This Room's Alias is: #main:x.org".to_string(),
            "This Room's ID is: !a:x".to_string(),
            "This Room's Authentication token is: p".to_string(),
        ]
    );
    let lines = send_help(&None, "!a:x", &cfg(false, None));
    assert_eq!(lines, vec!["This Room's ID is: !a:x".to_string()]);
}

fn matrix_cfg(prefix: Option<&str>) -> MatrixConfig {
    MatrixConfig {
        homeserver_url: "https://x.org".to_string(),
        username: "bot".to_string(),
        password: None,
        allow_list: None,
        room_size_limit: None,
        state_dir: None,
        command_prefix: prefix.map(|s| s.to_string()),
        format: None,
    }
}

#[test]
fn command_prefix_defaults() {
    assert_eq!(get_command_prefix(&matrix_cfg(None)), "!pokem");
    assert_eq!(get_command_prefix(&matrix_cfg(Some(".poke"))), ".poke");
}

#[test]
fn server_urls_are_built_and_encoded() {
    let s = ServerConfig { url: "https://pokem.dev".to_string(), port: None };
    assert_eq!(poke_server_url(&s, "ops"), "https://pokem.dev/ops");
    let s = ServerConfig { url: "example.com".to_string(), port: Some(8080) };
    assert_eq!(poke_server_url(&s, "my room"), "https://example.com:8080/my%20room");
    let s = ServerConfig { url: "http://inside".to_string(), port: None };
    assert_eq!(poke_server_url(&s, "!a:x"), "http://inside/%21a%3Ax");
}

#[test]
fn empty_config_has_nothing_set() {
    let c = Config::default();
    assert!(c.matrix.is_none() && c.server.is_none() && c.daemon.is_none() && c.rooms.is_none());
}

#[test]
fn listener_binding_defaults() {
    assert_eq!(bind_address(&None), ("0.0.0.0".to_string(), 80));
    let d = DaemonConfig { addr: None, port: Some(8000) };
    assert_eq!(bind_address(&Some(d)), ("0.0.0.0".to_string(), 8000));
    let d = DaemonConfig { addr: Some("127.0.0.1".to_string()), port: None };
    assert_eq!(bind_address(&Some(d)), ("127.0.0.1".to_string(), 80));
}
