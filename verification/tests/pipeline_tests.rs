use pokem::errors::DeliveryError;
use pokem::headers::Headers;
use pokem::pipeline::{format_message, http_reply, ping_room, reply_text, start_delivery,
    DeliveryAction, DeliveryCtx, DeliveryEvent, DeliveryStage, MsgFormat, ReplyBody};
use pokem::resolve::RoomState;
use pokem::store::TagOp;

fn ctx(message: &str) -> DeliveryCtx {
    DeliveryCtx {
        room_id: "!room:example.org".to_string(),
        headers: Headers::new(),
        message: message.to_string(),
        mention_room: false,
        default_format: None,
        room_size_limit: None,
    }
}

#[test]
fn join_wait_times_out_between_60_and_126_seconds() {
    // a room stuck "invited": the walk sleeps 2, 4, 8, 16 and 32 seconds,
    // then the sixth sighting times out — it never hangs
    let c = ctx("hello");
    let (mut stage, action) = start_delivery();
    assert!(matches!(action, DeliveryAction::CheckMembership));
    let mut slept: u64 = 0;
    let mut sleeps: Vec<u64> = Vec::new();
    loop {
        let (next, action) = ping_room(stage, DeliveryEvent::Membership(RoomState::Invited), &c);
        stage = next;
        match action {
            DeliveryAction::Sleep(secs) => {
                slept += secs;
                sleeps.push(secs);
                assert!(sleeps.len() < 10, "the join-wait must not run on");
            }
            DeliveryAction::Stop => break,
            other => panic!("unexpected action {:?}", other),
        }
    }
    assert!(matches!(stage, DeliveryStage::Failed(DeliveryError::JoinTimeout)));
    assert_eq!(sleeps, vec![2, 4, 8, 16, 32]);
    assert_eq!(slept, 62);
    assert!(slept >= 60 && slept < 126);
}

#[test]
fn joined_room_delivers() {
    let c = ctx("hello");
    let (stage, _) = start_delivery();
    let (stage, action) = ping_room(stage, DeliveryEvent::Membership(RoomState::Joined), &c);
    assert!(matches!(stage, DeliveryStage::Authorizing));
    assert!(matches!(action, DeliveryAction::ReadTags));
    let (stage, action) = ping_room(stage, DeliveryEvent::TagsRead(vec![]), &c);
    match &stage {
        DeliveryStage::Sending { content } => {
            assert_eq!(content.body, "hello");
            assert_eq!(content.format, MsgFormat::Markdown);
            assert!(!content.mention_room);
        }
        other => panic!("unexpected stage {:?}", other),
    }
    assert!(matches!(action, DeliveryAction::CheckPolicy));
    let (stage, action) = ping_room(
        stage,
        DeliveryEvent::PolicyData { tags: vec![], active_members: 2 },
        &c,
    );
    assert!(matches!(stage, DeliveryStage::Dispatching));
    match action {
        DeliveryAction::Send(content) => assert_eq!(content.body, "hello"),
        other => panic!("unexpected action {:?}", other),
    }
    let (stage, action) = ping_room(stage, DeliveryEvent::SendResult(true), &c);
    assert!(matches!(stage, DeliveryStage::Delivered));
    assert!(matches!(action, DeliveryAction::Stop));
}

#[test]
fn missing_token_fails_authorization() {
    let c = ctx("hello");
    let (stage, _) = ping_room(
        DeliveryStage::Authorizing,
        DeliveryEvent::TagsRead(vec!["dev.pokem.auth.k".to_string()]),
        &c,
    );
    assert!(matches!(stage, DeliveryStage::Failed(DeliveryError::AuthRejected)));
}

#[test]
fn leading_token_authorizes_and_is_consumed() {
    let c = ctx("k hello");
    let (stage, _) = ping_room(
        DeliveryStage::Authorizing,
        DeliveryEvent::TagsRead(vec!["dev.pokem.auth.k".to_string()]),
        &c,
    );
    match stage {
        DeliveryStage::Sending { content } => assert_eq!(content.body, "hello"),
        other => panic!("unexpected stage {:?}", other),
    }
}

#[test]
fn legacy_tag_triggers_migration_then_delivery() {
    let c = ctx("k hello");
    let (stage, action) = ping_room(
        DeliveryStage::Authorizing,
        DeliveryEvent::TagsRead(vec!["dev.pokem.pass.k".to_string()]),
        &c,
    );
    assert!(matches!(stage, DeliveryStage::Migrating { .. }));
    match &action {
        DeliveryAction::WriteTags(ops) => {
            assert_eq!(ops.len(), 3);
            assert!(matches!(&ops[0], TagOp::Remove(t) if t == "dev.pokem.block"));
            assert!(matches!(&ops[1], TagOp::Remove(t) if t == "dev.pokem.pass.k"));
            assert!(matches!(&ops[2], TagOp::Add(t) if t == "dev.pokem.auth.k"));
        }
        other => panic!("unexpected action {:?}", other),
    }
    let (stage, action) = ping_room(stage, DeliveryEvent::TagsWritten(true), &c);
    match stage {
        DeliveryStage::Sending { ref content } => assert_eq!(content.body, "hello"),
        ref other => panic!("unexpected stage {:?}", other),
    }
    assert!(matches!(action, DeliveryAction::CheckPolicy));
}

#[test]
fn failed_tag_write_is_surfaced_hard() {
    let c = ctx("hello");
    let (stage, _) = ping_room(
        DeliveryStage::Authorizing,
        DeliveryEvent::TagsRead(vec!["dev.pokem.pass.k".to_string()]),
        &ctx("k hello"),
    );
    let (stage, action) = ping_room(stage, DeliveryEvent::TagsWritten(false), &c);
    assert!(matches!(stage, DeliveryStage::Failed(DeliveryError::TagWriteFailure)));
    assert!(matches!(action, DeliveryAction::Stop));
}

#[test]
fn blocked_room_fails_policy_silently() {
    let c = ctx("hello");
    let (stage, _) = ping_room(DeliveryStage::Authorizing, DeliveryEvent::TagsRead(vec![]), &c);
    let (stage, action) = ping_room(
        stage,
        DeliveryEvent::PolicyData {
            tags: vec!["dev.pokem.block".to_string()],
            active_members: 2,
        },
        &c,
    );
    assert!(matches!(stage, DeliveryStage::Failed(DeliveryError::SendRejectedByPolicy)));
    assert!(matches!(action, DeliveryAction::Stop));
    // the HTTP answer does not disclose the refusal
    let reply = http_reply(false, &Some(DeliveryError::SendRejectedByPolicy));
    assert_eq!(reply, (200, ReplyBody::OkText));
}

#[test]
fn send_failure_ends_the_walk() {
    let c = ctx("hello");
    let (stage, _) = ping_room(DeliveryStage::Dispatching, DeliveryEvent::SendResult(false), &c);
    assert!(matches!(stage, DeliveryStage::Failed(DeliveryError::SendFailed)));
}

#[test]
fn http_answers_are_fixed() {
    assert_eq!(http_reply(true, &None), (200, ReplyBody::WebPage));
    assert_eq!(http_reply(false, &None), (200, ReplyBody::OkText));
    assert_eq!(
        http_reply(false, &Some(DeliveryError::RoomNotFound)),
        (404, ReplyBody::FailureText)
    );
    assert_eq!(
        http_reply(false, &Some(DeliveryError::JoinTimeout)),
        (404, ReplyBody::FailureText)
    );
    assert_eq!(reply_text(&ReplyBody::OkText), Some("OK"));
    assert_eq!(reply_text(&ReplyBody::FailureText), Some("Failed to send message"));
    assert_eq!(reply_text(&ReplyBody::WebPage), None);
}

#[test]
fn format_header_overrides_deployment_default() {
    let mut h = Headers::new();
    h.push("format".to_string(), "PLAIN".to_string());
    assert_eq!(format_message(&h, &Some("markdown".to_string())), MsgFormat::Plain);
    assert_eq!(format_message(&Headers::new(), &Some("plain".to_string())), MsgFormat::Plain);
    assert_eq!(format_message(&Headers::new(), &None), MsgFormat::Markdown);
    // an unknown name falls back to markdown
    let mut h = Headers::new();
    h.push("format".to_string(), "fancy".to_string());
    assert_eq!(format_message(&h, &None), MsgFormat::Markdown);
}

#[test]
fn error_descriptions_are_short_names() {
    assert_eq!(DeliveryError::MalformedRequest.describe(), "malformed request");
    assert_eq!(DeliveryError::RoomNotFound.describe(), "failed to find room");
    assert_eq!(DeliveryError::JoinTimeout.describe(), "failed to join room");
    assert_eq!(DeliveryError::AuthRejected.describe(), "incorrect authentication token");
    assert_eq!(DeliveryError::SendRejectedByPolicy.describe(), "refused by policy");
    assert_eq!(DeliveryError::SendFailed.describe(), "failed to send message");
    assert_eq!(DeliveryError::TagWriteFailure.describe(), "failed to write room tags");
}
