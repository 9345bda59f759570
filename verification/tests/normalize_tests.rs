use pokem::headers::Headers;
use pokem::normalize::{PokeBody, PokeRequest};

fn no_headers() -> Headers {
    Headers::new()
}

#[test]
fn json_body_taken_verbatim() {
    let body = PokeBody {
        title: Some("Alert".to_string()),
        message: "disk full".to_string(),
        priority: Some(4),
        tags: Some(vec!["warning".to_string()]),
    };
    let r = PokeRequest::from_request(Some(body), "/ops", "", &no_headers(), "ignored");
    assert_eq!(r.topic, "ops");
    assert_eq!(r.title.as_deref(), Some("Alert"));
    assert_eq!(r.message, "disk full");
    assert_eq!(r.priority, Some(4));
    assert_eq!(r.tags, Some(vec!["warning".to_string()]));
}

#[test]
fn json_priority_is_clamped() {
    let body = PokeBody { title: None, message: "m".to_string(), priority: Some(9), tags: None };
    let r = PokeRequest::from_request(Some(body), "/t", "", &no_headers(), "");
    assert_eq!(r.priority, Some(5));
    let body = PokeBody { title: None, message: "m".to_string(), priority: Some(0), tags: None };
    let r = PokeRequest::from_request(Some(body), "/t", "", &no_headers(), "");
    assert_eq!(r.priority, Some(1));
}

#[test]
fn end_to_end_query_poke() {
    // a poke posted with everything in the query string and no body
    let r = PokeRequest::from_request(
        None,
        "/ops",
        "message=disk+full&priority=urgent",
        &no_headers(),
        "",
    );
    assert_eq!(r.topic, "ops");
    assert_eq!(r.message, "disk full");
    assert_eq!(r.priority, Some(5));
    assert_eq!(r.title, None);
    assert_eq!(r.tags, None);
}

#[test]
fn priority_words_map_exactly() {
    let words = [("min", 1u8), ("low", 2), ("default", 3), ("high", 4), ("urgent", 5), ("max", 5)];
    for (w, expected) in words {
        let mut h = Headers::new();
        h.push("p".to_string(), w.to_string());
        let r = PokeRequest::from_request(None, "/t", "", &h, "body");
        assert_eq!(r.priority, Some(expected), "word {}", w);
    }
    let mut h = Headers::new();
    h.push("p".to_string(), "whenever".to_string());
    let r = PokeRequest::from_request(None, "/t", "", &h, "body");
    assert_eq!(r.priority, Some(3));
}

#[test]
fn priority_numeric_is_clamped() {
    let r = PokeRequest::from_request(None, "/t", "priority=9", &no_headers(), "b");
    assert_eq!(r.priority, Some(5));
    let r = PokeRequest::from_request(None, "/t", "priority=0", &no_headers(), "b");
    assert_eq!(r.priority, Some(1));
    let r = PokeRequest::from_request(None, "/t", "priority=2", &no_headers(), "b");
    assert_eq!(r.priority, Some(2));
}

#[test]
fn priority_word_case_folded() {
    let r = PokeRequest::from_request(None, "/t", "priority=URGENT", &no_headers(), "b");
    assert_eq!(r.priority, Some(5));
}

#[test]
fn message_precedence_query_over_header_over_body() {
    let mut h = Headers::new();
    h.push("message".to_string(), "from header".to_string());
    let r = PokeRequest::from_request(None, "/t", "message=from+query", &h, "from body");
    assert_eq!(r.message, "from query");
    let r = PokeRequest::from_request(None, "/t", "", &h, "from body");
    assert_eq!(r.message, "from header");
    let r = PokeRequest::from_request(None, "/t", "", &no_headers(), "from body");
    assert_eq!(r.message, "from body");
}

#[test]
fn header_variants_in_order() {
    let mut h = Headers::new();
    h.push("ti".to_string(), "short".to_string());
    h.push("x-title".to_string(), "long".to_string());
    // x-title is probed before ti, whatever the arrival order
    let r = PokeRequest::from_request(None, "/t", "", &h, "b");
    assert_eq!(r.title.as_deref(), Some("long"));
}

#[test]
fn header_names_fold_ascii_case() {
    let mut h = Headers::new();
    h.push("X-Message".to_string(), "hi".to_string());
    let r = PokeRequest::from_request(None, "/t", "", &h, "b");
    assert_eq!(r.message, "hi");
}

#[test]
fn last_query_pair_wins() {
    let r = PokeRequest::from_request(None, "/t", "message=a&message=b", &no_headers(), "body");
    assert_eq!(r.message, "b");
}

#[test]
fn topic_is_percent_decoded() {
    let r = PokeRequest::from_request(None, "/room%20name", "", &no_headers(), "b");
    assert_eq!(r.topic, "room name");
    let r = PokeRequest::from_request(None, "//double", "", &no_headers(), "b");
    assert_eq!(r.topic, "double");
}

#[test]
fn tags_split_on_commas() {
    let r = PokeRequest::from_request(None, "/t", "tags=a,b,,c", &no_headers(), "b");
    assert_eq!(
        r.tags,
        Some(vec!["a".to_string(), "b".to_string(), "".to_string(), "c".to_string()])
    );
}

#[test]
fn title_wraps_message() {
    let r = PokeRequest {
        topic: "t".to_string(),
        title: Some("Heading".to_string()),
        message: "body".to_string(),
        priority: None,
        tags: None,
    };
    assert_eq!(r.decorated_message(), "**Heading**\n\nbody");
}

#[test]
fn known_tags_become_glyphs() {
    let r = PokeRequest {
        topic: "t".to_string(),
        title: None,
        message: "watch out".to_string(),
        priority: None,
        tags: Some(vec!["warning".to_string()]),
    };
    assert_eq!(r.decorated_message(), "\u{26a0}\u{fe0f} watch out");
}

#[test]
fn glyphs_concatenate_and_unknown_tags_drop() {
    let r = PokeRequest {
        topic: "t".to_string(),
        title: None,
        message: "m".to_string(),
        priority: None,
        tags: Some(vec![
            "warning".to_string(),
            "nosuchshortcode".to_string(),
            "thumbsup".to_string(),
        ]),
    };
    assert_eq!(r.decorated_message(), "\u{26a0}\u{fe0f}\u{1f44d} m");
}

#[test]
fn only_unknown_tags_leave_message_alone() {
    let r = PokeRequest {
        topic: "t".to_string(),
        title: None,
        message: "m".to_string(),
        priority: None,
        tags: Some(vec!["nosuchshortcode".to_string()]),
    };
    assert_eq!(r.decorated_message(), "m");
}

#[test]
fn title_and_tags_compose() {
    let r = PokeRequest {
        topic: "t".to_string(),
        title: Some("T".to_string()),
        message: "m".to_string(),
        priority: None,
        tags: Some(vec!["warning".to_string()]),
    };
    assert_eq!(r.decorated_message(), "\u{26a0}\u{fe0f} **T**\n\nm");
}

#[test]
fn urgency_threshold() {
    let mut r = PokeRequest {
        topic: "t".to_string(),
        title: None,
        message: "m".to_string(),
        priority: Some(3),
        tags: None,
    };
    assert!(!r.is_urgent());
    r.priority = Some(4);
    assert!(r.is_urgent());
    r.priority = None;
    assert!(!r.is_urgent());
}
