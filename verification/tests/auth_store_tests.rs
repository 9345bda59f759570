use pokem::auth::validate_authentication;
use pokem::config::RoomConfig;
use pokem::errors::DeliveryError;
use pokem::headers::Headers;
use pokem::store::{apply_tag_ops, can_message_room, get_room_config, set_room_config};

fn cfg(block: bool, auth: Option<&str>) -> RoomConfig {
    RoomConfig { block, auth: auth.map(|s| s.to_string()) }
}

#[test]
fn no_token_passes_through() {
    let r = validate_authentication(&cfg(false, None), &Headers::new(), "hello");
    assert_eq!(r, Ok("hello".to_string()));
}

#[test]
fn header_token_leaves_message_alone() {
    let mut h = Headers::new();
    h.push("authentication".to_string(), "s3cret".to_string());
    let r = validate_authentication(&cfg(false, Some("s3cret")), &h, "s3cret looking text");
    assert_eq!(r, Ok("s3cret looking text".to_string()));
}

#[test]
fn short_header_name_works_too() {
    let mut h = Headers::new();
    h.push("auth".to_string(), "s3cret".to_string());
    let r = validate_authentication(&cfg(false, Some("s3cret")), &h, "hello");
    assert_eq!(r, Ok("hello".to_string()));
}

#[test]
fn leading_token_is_stripped_with_whitespace() {
    let r = validate_authentication(&cfg(false, Some("tok")), &Headers::new(), "tok   hello");
    assert_eq!(r, Ok("hello".to_string()));
}

#[test]
fn wrong_token_rejected() {
    let mut h = Headers::new();
    h.push("authentication".to_string(), "wrong".to_string());
    let r = validate_authentication(&cfg(false, Some("tok")), &h, "hello");
    assert_eq!(r, Err(DeliveryError::AuthRejected));
}

#[test]
fn token_consumed_exactly_once() {
    // first pass strips the token; a second pass over the stripped
    // message, with no header token, is rejected
    let c = cfg(false, Some("tok"));
    let stripped = validate_authentication(&c, &Headers::new(), "tok secret text").unwrap();
    assert_eq!(stripped, "secret text");
    let again = validate_authentication(&c, &Headers::new(), &stripped);
    assert_eq!(again, Err(DeliveryError::AuthRejected));
}

#[test]
fn repeated_leading_tokens_all_strip() {
    let r = validate_authentication(&cfg(false, Some("tok")), &Headers::new(), "toktok rest");
    assert_eq!(r, Ok("rest".to_string()));
}

fn tags(names: &[&str]) -> Vec<String> {
    names.iter().map(|s| s.to_string()).collect()
}

#[test]
fn empty_tags_read_as_defaults() {
    let (c, legacy) = get_room_config(&tags(&[]));
    assert!(!c.block);
    assert_eq!(c.auth, None);
    assert!(!legacy);
}

#[test]
fn block_and_token_tags_read_back() {
    let t = tags(&["dev.pokem.block", "dev.pokem.auth.s3cret", "m.favourite"]);
    let (c, legacy) = get_room_config(&t);
    assert!(c.block);
    assert_eq!(c.auth.as_deref(), Some("s3cret"));
    assert!(!legacy);
}

#[test]
fn first_token_tag_wins() {
    let t = tags(&["dev.pokem.auth.first", "dev.pokem.auth.second"]);
    let (c, _) = get_room_config(&t);
    assert_eq!(c.auth.as_deref(), Some("first"));
}

#[test]
fn set_then_get_round_trip() {
    let before = tags(&["dev.pokem.auth.stale", "m.favourite"]);
    let wanted = cfg(true, Some("fresh"));
    let ops = set_room_config(&before, &wanted);
    let after = apply_tag_ops(&before, &ops);
    let (read, legacy) = get_room_config(&after);
    assert!(read.block);
    assert_eq!(read.auth.as_deref(), Some("fresh"));
    assert!(!legacy);
    assert!(after.contains(&"m.favourite".to_string()));
    assert!(after.contains(&"dev.pokem.block".to_string()));
    assert!(!after.contains(&"dev.pokem.auth.stale".to_string()));
    // a second identical write changes nothing
    let ops2 = set_room_config(&after, &wanted);
    let after2 = apply_tag_ops(&after, &ops2);
    assert_eq!(after2, after);
}

#[test]
fn clearing_the_token_removes_every_token_tag() {
    let before = tags(&["dev.pokem.auth.one", "dev.pokem.pass.two"]);
    let ops = set_room_config(&before, &cfg(false, None));
    let after = apply_tag_ops(&before, &ops);
    let (read, legacy) = get_room_config(&after);
    assert_eq!(read.auth, None);
    assert!(!read.block);
    assert!(!legacy);
    assert!(after.is_empty());
}

#[test]
fn legacy_tag_migrates_to_current_shape() {
    // a room holding only the deprecated tag reads as its token and asks
    // for a rewrite; the rewrite leaves only the current shape, reading
    // identically
    let before = tags(&["dev.pokem.pass.X"]);
    let (read, legacy) = get_room_config(&before);
    assert_eq!(read.auth.as_deref(), Some("X"));
    assert!(legacy);
    let ops = set_room_config(&before, &read);
    let after = apply_tag_ops(&before, &ops);
    assert_eq!(after, vec!["dev.pokem.auth.X".to_string()]);
    let (read2, legacy2) = get_room_config(&after);
    assert_eq!(read2.auth.as_deref(), Some("X"));
    assert!(!legacy2);
}

#[test]
fn example_room_always_passes_policy() {
    let t = tags(&["dev.pokem.block"]);
    assert!(can_message_room("!JYrjsPjErpFSDdpwpI:jackson.dev", &t, 1000, Some(1)));
}

#[test]
fn blocked_room_refused() {
    assert!(!can_message_room("!r:x", &tags(&["dev.pokem.block"]), 2, None));
    assert!(can_message_room("!r:x", &tags(&["m.favourite"]), 2, None));
}

#[test]
fn over_ceiling_refused_whatever_the_tags() {
    assert!(!can_message_room("!r:x", &tags(&[]), 10, Some(5)));
    assert!(can_message_room("!r:x", &tags(&[]), 5, Some(5)));
}
