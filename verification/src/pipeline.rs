//! The delivery pipeline. A poke walks through joining, authorization,
//! formatting and the send policy before it reaches its room. The walk is
//! an explicit state machine: each step takes the current stage and one
//! observed event and decides the next stage and the one action the
//! surrounding program is to carry out — sleeping, reading or writing
//! tags, checking policy, or sending. Every decision lives here; the
//! surrounding program only performs the actions and reports what it saw.

use vstd::prelude::*;
use crate::auth::{validate_authentication, validate_spec};
use crate::config::RoomConfig;
use crate::errors::DeliveryError;
use crate::headers::{header_lookup, Headers};
use crate::config::RoomTable;
use crate::normalize::{decorated_spec, opt_view, opt_views, PokeRequest};
use crate::resolve::{resolve_topic, resolve_topic_spec, table_view, RoomState};
use crate::config::token_view;
use crate::store::{can_message_room, can_message_spec, get_room_config, scan_tags, set_ops_spec,
    set_room_config, op_views, TagOp};
use crate::text::{ci_eq, str_ci_eq, views_of};

verus! {

/// How the message body is rendered.
#[derive(Clone, Copy, Debug, PartialEq, Eq, Structural)]
pub enum MsgFormat {
    Markdown,
    Plain,
}

/// The format a delivery uses: the `format` header when one is set, else
/// the deployment default, else markdown; an unknown name falls back to
/// markdown.
pub open spec fn format_choice(header: Option<Seq<char>>, deployment: Option<Seq<char>>) -> MsgFormat {
    let f = match header {
        Some(v) => v,
        None => match deployment {
            Some(d) => d,
            None => "markdown"@,
        },
    };
    if ci_eq(f, "markdown"@) {
        MsgFormat::Markdown
    } else if ci_eq(f, "plain"@) {
        MsgFormat::Plain
    } else {
        MsgFormat::Markdown
    }
}

/// Chooses the message format from the `format` header and the deployment
/// default.
pub fn format_message(headers: &Headers, default_format: &Option<String>) -> (r: MsgFormat)
    ensures
        r == format_choice(header_lookup(headers@, "format"@), opt_view(*default_format)),
{
    let named: String = match headers.get("format") {
        Some(v) => v,
        None => match default_format {
            Some(d) => d.clone(),
            None => "markdown".to_owned(),
        },
    };
    if str_ci_eq(named.as_str(), "markdown") {
        MsgFormat::Markdown
    } else if str_ci_eq(named.as_str(), "plain") {
        MsgFormat::Plain
    } else {
        MsgFormat::Markdown
    }
}

/// A message ready to submit: body, rendering, and whether the whole room
/// is paged.
#[derive(Clone, Debug)]
pub struct FormattedMessage {
    pub format: MsgFormat,
    pub body: String,
    pub mention_room: bool,
}

/// What one delivery knows throughout its walk.
#[derive(Clone, Debug)]
pub struct DeliveryCtx {
    /// The resolved room's id, for the send policy.
    pub room_id: String,
    /// The request headers, for the token and the format.
    pub headers: Headers,
    /// The message as normalized and decorated.
    pub message: String,
    /// Whether the whole room is to be paged.
    pub mention_room: bool,
    /// The deployment's default format.
    pub default_format: Option<String>,
    /// The ceiling on room membership, when one is configured.
    pub room_size_limit: Option<usize>,
}

/// What the surrounding program observed and reports back.
#[derive(Debug)]
pub enum DeliveryEvent {
    /// The session's membership state in the room.
    Membership(RoomState),
    /// The room's current tag names.
    TagsRead(Vec<String>),
    /// Whether the requested tag writes all succeeded.
    TagsWritten(bool),
    /// The data the send policy reads: tags and active member count.
    PolicyData { tags: Vec<String>, active_members: usize },
    /// Whether the send itself succeeded.
    SendResult(bool),
}

/// What the surrounding program is to do next.
#[derive(Debug)]
pub enum DeliveryAction {
    /// Look the membership state up and report it.
    CheckMembership,
    /// Sleep this many seconds, then check membership again.
    Sleep(u64),
    /// Read the room's tags and report them.
    ReadTags,
    /// Carry these tag writes out and report whether all succeeded.
    WriteTags(Vec<TagOp>),
    /// Read the policy data and report it.
    CheckPolicy,
    /// Submit the message and report whether it went through.
    Send(FormattedMessage),
    /// The walk has ended; there is nothing left to do.
    Stop,
}

/// Where a delivery stands.
#[derive(Debug)]
pub enum DeliveryStage {
    /// The room is still pending; waiting out the invite with doubling
    /// backoff.
    AwaitingJoin { delay: u64, waited: u64 },
    /// Joined; waiting for the tags to check the token against.
    Authorizing,
    /// A deprecated tag was read; waiting for the rewrite to land.
    Migrating { config: RoomConfig },
    /// Authorized and formatted; waiting for the policy data.
    Sending { content: FormattedMessage },
    /// Policy passed and the send is out; waiting for its outcome.
    Dispatching,
    /// The message reached the room.
    Delivered,
    /// The walk ended without a delivery.
    Failed(DeliveryError),
}

/// The backoff delays the join-wait walks through.
pub open spec fn valid_delay(d: u64) -> bool {
    d == 2 || d == 4 || d == 8 || d == 16 || d == 32 || d == 64
}

/// The internal invariant of a stage: the join-wait only ever holds a
/// doubling delay and the sum of the sleeps behind it.
pub open spec fn stage_inv(stage: DeliveryStage) -> bool {
    match stage {
        DeliveryStage::AwaitingJoin { delay, waited } => valid_delay(delay) && waited == delay - 2,
        _ => true,
    }
}

/// One join-wait step: time out past the ceiling, else sleep and double.
pub open spec fn join_next(delay: u64, waited: u64) -> Option<(u64, u64)> {
    if delay > 60 {
        None
    } else {
        Some(((2 * delay) as u64, (waited + delay) as u64))
    }
}

/// Whether an event is the one the stage is waiting for.
pub open spec fn expected_event(stage: DeliveryStage, event: DeliveryEvent) -> bool {
    match (stage, event) {
        (DeliveryStage::AwaitingJoin { .. }, DeliveryEvent::Membership(_)) => true,
        (DeliveryStage::Authorizing, DeliveryEvent::TagsRead(_)) => true,
        (DeliveryStage::Migrating { .. }, DeliveryEvent::TagsWritten(_)) => true,
        (DeliveryStage::Sending { .. }, DeliveryEvent::PolicyData { .. }) => true,
        (DeliveryStage::Dispatching, DeliveryEvent::SendResult(_)) => true,
        _ => false,
    }
}

/// The stage a fresh delivery starts in, once its room is resolved.
pub fn start_delivery() -> (r: (DeliveryStage, DeliveryAction))
    ensures
        r.0 == (DeliveryStage::AwaitingJoin { delay: 2u64, waited: 0u64 }),
        stage_inv(r.0),
        r.1 is CheckMembership,
{
    (DeliveryStage::AwaitingJoin { delay: 2, waited: 0 }, DeliveryAction::CheckMembership)
}

/// Runs the token validator and the formatting step once the room's
/// settings are known.
fn authorize_and_format(config: &RoomConfig, ctx: &DeliveryCtx) -> (r: Result<
    FormattedMessage,
    DeliveryError,
>)
    ensures
        r is Ok <==> validate_spec(token_view(config.auth), ctx.headers@, ctx.message@) is Some,
        r is Ok ==> r->Ok_0.body@ == validate_spec(
            token_view(config.auth),
            ctx.headers@,
            ctx.message@,
        )->0,
        r is Ok ==> r->Ok_0.format == format_choice(
            header_lookup(ctx.headers@, "format"@),
            opt_view(ctx.default_format),
        ),
        r is Ok ==> r->Ok_0.mention_room == ctx.mention_room,
        r is Err ==> r->Err_0 == DeliveryError::AuthRejected,
{
    match validate_authentication(config, &ctx.headers, ctx.message.as_str()) {
        Ok(body) => {
            let format = format_message(&ctx.headers, &ctx.default_format);
            Ok(FormattedMessage { format, body, mention_room: ctx.mention_room })
        },
        Err(e) => Err(e),
    }
}

/// One step of the delivery walk: the current stage and one observed event
/// decide the next stage and the one action to carry out.
///
/// While the room is pending, an `Invited` sighting past the waiting
/// ceiling fails with a join timeout; below it the walk sleeps and doubles
/// its delay. Once joined, the tags are read; a deprecated tag first has
/// the store rewritten, and a failed rewrite is surfaced hard. The token
/// validator and the format choice follow, then the send policy, then the send
/// itself.
pub fn ping_room(stage: DeliveryStage, event: DeliveryEvent, ctx: &DeliveryCtx) -> (r: (
    DeliveryStage,
    DeliveryAction,
))
    requires
        stage_inv(stage),
    ensures
        stage_inv(r.0),
        !expected_event(stage, event) ==> r.0 == stage && r.1 is Stop,
        // waiting out the invite
        stage matches DeliveryStage::AwaitingJoin { delay, waited } ==> (event
            matches DeliveryEvent::Membership(s) ==> {
            &&& !(s is Invited) ==> r.0 is Authorizing && r.1 is ReadTags
            &&& (s is Invited && join_next(delay, waited) is None) ==> r.0 == DeliveryStage::Failed(
                DeliveryError::JoinTimeout,
            ) && r.1 is Stop
            &&& (s is Invited && join_next(delay, waited) is Some) ==> r.0 == (
            DeliveryStage::AwaitingJoin {
                delay: (join_next(delay, waited)->0).0,
                waited: (join_next(delay, waited)->0).1,
            }) && r.1 == DeliveryAction::Sleep(delay)
        }),
        // reading the room's settings
        stage matches DeliveryStage::Authorizing ==> (event matches DeliveryEvent::TagsRead(tags)
            ==> {
            let read = scan_tags(views_of(tags@));
            &&& read.legacy ==> (r.0 matches DeliveryStage::Migrating { config } && config.block
                == read.block && token_view(config.auth) == read.auth) && (r.1
                matches DeliveryAction::WriteTags(ops) && op_views(ops@) == set_ops_spec(
                views_of(tags@),
                read.block,
                read.auth,
            ))
            &&& !read.legacy ==> validator_outcome_ok(r, read.block, read.auth, *ctx)
        }),
        // waiting for the rewrite of a deprecated tag
        stage matches DeliveryStage::Migrating { config } ==> (event
            matches DeliveryEvent::TagsWritten(ok) ==> {
            &&& !ok ==> r.0 == DeliveryStage::Failed(DeliveryError::TagWriteFailure) && r.1 is Stop
            &&& ok ==> validator_outcome_ok(r, config.block, token_view(config.auth), *ctx)
        }),
        // the send policy
        stage matches DeliveryStage::Sending { content } ==> (event
            matches DeliveryEvent::PolicyData { tags, active_members } ==> {
            &&& can_message_spec(
                ctx.room_id@,
                views_of(tags@),
                active_members as int,
                ctx.room_size_limit,
            ) ==> r.0 is Dispatching && r.1 == DeliveryAction::Send(content)
            &&& !can_message_spec(
                ctx.room_id@,
                views_of(tags@),
                active_members as int,
                ctx.room_size_limit,
            ) ==> r.0 == DeliveryStage::Failed(DeliveryError::SendRejectedByPolicy) && r.1 is Stop
        }),
        // the send itself
        stage matches DeliveryStage::Dispatching ==> (event matches DeliveryEvent::SendResult(ok)
            ==> {
            &&& ok ==> r.0 is Delivered && r.1 is Stop
            &&& !ok ==> r.0 == DeliveryStage::Failed(DeliveryError::SendFailed) && r.1 is Stop
        }),
{
    match (stage, event) {
        (DeliveryStage::AwaitingJoin { delay, waited }, DeliveryEvent::Membership(s)) => {
            match s {
                RoomState::Invited => {
                    if delay > 60 {
                        (
                            DeliveryStage::Failed(DeliveryError::JoinTimeout),
                            DeliveryAction::Stop,
                        )
                    } else {
                        (
                            DeliveryStage::AwaitingJoin {
                                delay: 2 * delay,
                                waited: waited + delay,
                            },
                            DeliveryAction::Sleep(delay),
                        )
                    }
                },
                _ => (DeliveryStage::Authorizing, DeliveryAction::ReadTags),
            }
        },
        (DeliveryStage::Authorizing, DeliveryEvent::TagsRead(tags)) => {
            let (config, legacy) = get_room_config(&tags);
            if legacy {
                let ops = set_room_config(&tags, &config);
                (DeliveryStage::Migrating { config }, DeliveryAction::WriteTags(ops))
            } else {
                match authorize_and_format(&config, ctx) {
                    Ok(content) => (
                        DeliveryStage::Sending { content },
                        DeliveryAction::CheckPolicy,
                    ),
                    Err(e) => (DeliveryStage::Failed(e), DeliveryAction::Stop),
                }
            }
        },
        (DeliveryStage::Migrating { config }, DeliveryEvent::TagsWritten(ok)) => {
            if ok {
                match authorize_and_format(&config, ctx) {
                    Ok(content) => (
                        DeliveryStage::Sending { content },
                        DeliveryAction::CheckPolicy,
                    ),
                    Err(e) => (DeliveryStage::Failed(e), DeliveryAction::Stop),
                }
            } else {
                (
                    DeliveryStage::Failed(DeliveryError::TagWriteFailure),
                    DeliveryAction::Stop,
                )
            }
        },
        (DeliveryStage::Sending { content }, DeliveryEvent::PolicyData { tags, active_members }) => {
            if can_message_room(ctx.room_id.as_str(), &tags, active_members, ctx.room_size_limit) {
                (DeliveryStage::Dispatching, DeliveryAction::Send(content))
            } else {
                (
                    DeliveryStage::Failed(DeliveryError::SendRejectedByPolicy),
                    DeliveryAction::Stop,
                )
            }
        },
        (DeliveryStage::Dispatching, DeliveryEvent::SendResult(ok)) => {
            if ok {
                (DeliveryStage::Delivered, DeliveryAction::Stop)
            } else {
                (DeliveryStage::Failed(DeliveryError::SendFailed), DeliveryAction::Stop)
            }
        },
        (other, _) => (other, DeliveryAction::Stop),
    }
}

/// The join-wait after `k` sightings of a still-pending room, from the
/// start of a delivery: the delay and total sleep it holds, or nothing
/// once it has timed out.
pub open spec fn join_run(k: nat) -> Option<(u64, u64)>
    decreases k,
{
    if k == 0 {
        Some((2u64, 0u64))
    } else {
        match join_run((k - 1) as nat) {
            None => None,
            Some(s) => join_next(s.0, s.1),
        }
    }
}

/// Law: each join-wait step keeps the stage invariant, and the walk only
/// ever times out after sleeping at least the waiting ceiling and less
/// than twice it.
pub proof fn lemma_join_wait_bounds(delay: u64, waited: u64)
    requires
        valid_delay(delay),
        waited == delay - 2,
    ensures
        join_next(delay, waited) is None ==> 60 <= waited < 126,
        join_next(delay, waited) matches Some(n) ==> valid_delay(n.0) && n.1 == n.0 - 2,
{
}

/// Law: a room stuck pending never hangs the walk — after five sleeps of
/// 2, 4, 8, 16 and 32 seconds, 62 in all, the sixth sighting times out.
pub proof fn lemma_join_wait_terminates()
    ensures
        join_run(1) == Some((4u64, 2u64)),
        join_run(2) == Some((8u64, 6u64)),
        join_run(3) == Some((16u64, 14u64)),
        join_run(4) == Some((32u64, 30u64)),
        join_run(5) == Some((64u64, 62u64)),
        join_run(6) is None,
        60 <= (join_run(5)->0).1 < 126,
{
    assert(join_run(0) == Some((2u64, 0u64)));
    assert(join_run(1) == Some((4u64, 2u64)));
    assert(join_run(2) == Some((8u64, 6u64)));
    assert(join_run(3) == Some((16u64, 14u64)));
    assert(join_run(4) == Some((32u64, 30u64)));
    assert(join_run(5) == Some((64u64, 62u64)));
    assert(join_run(6) is None);
}

/// How the HTTP surface answers: a read serves the form page; a delivered
/// poke answers plainly; a policy refusal answers as if delivered, so that
/// no policy detail is disclosed; every other failure answers with the one
/// fixed failure status and body, causes not distinguished.
#[derive(Clone, Copy, Debug, PartialEq, Eq, Structural)]
pub enum ReplyBody {
    /// The minimal form page, served on a read.
    WebPage,
    /// The fixed success text.
    OkText,
    /// The fixed failure text.
    FailureText,
}

/// Decides the status code and body of the HTTP answer. `outcome` is the
/// delivery's failure, or nothing when it was delivered; reads never
/// attempt a delivery.
pub fn http_reply(is_get: bool, outcome: &Option<DeliveryError>) -> (r: (u16, ReplyBody))
    ensures
        is_get ==> r == (200u16, ReplyBody::WebPage),
        !is_get && outcome is None ==> r == (200u16, ReplyBody::OkText),
        !is_get && *outcome == Some(DeliveryError::SendRejectedByPolicy) ==> r == (
            200u16,
            ReplyBody::OkText,
        ),
        !is_get && outcome is Some && outcome->0 != DeliveryError::SendRejectedByPolicy ==> r == (
            404u16,
            ReplyBody::FailureText,
        ),
{
    if is_get {
        return (200, ReplyBody::WebPage);
    }
    match outcome {
        None => (200, ReplyBody::OkText),
        Some(DeliveryError::SendRejectedByPolicy) => (200, ReplyBody::OkText),
        Some(_) => (404, ReplyBody::FailureText),
    }
}

/// The fixed body text of an answer; the form page itself is presentation
/// and lives with the listener.
pub fn reply_text(b: &ReplyBody) -> (r: Option<&'static str>)
    ensures
        b is OkText ==> r is Some && r->0@ == "OK"@,
        b is FailureText ==> r is Some && r->0@ == "Failed to send message"@,
        b is WebPage ==> r is None,
{
    match b {
        ReplyBody::WebPage => None,
        ReplyBody::OkText => Some("OK"),
        ReplyBody::FailureText => Some("Failed to send message"),
    }
}

/// What a passed validation looks like: the walk stands at `Sending` with the
/// validated body, the chosen format and the mention flag; a refused token
/// ends the walk with `AuthRejected`.
pub open spec fn validator_outcome_ok(
    r: (DeliveryStage, DeliveryAction),
    block: bool,
    auth: Option<Seq<char>>,
    ctx: DeliveryCtx,
) -> bool {
    let outcome = validate_spec(auth, ctx.headers@, ctx.message@);
    &&& outcome is Some ==> (r.0 matches DeliveryStage::Sending { content } && content.body@
        == outcome->0 && content.format == format_choice(
        header_lookup(ctx.headers@, "format"@),
        opt_view(ctx.default_format),
    ) && content.mention_room == ctx.mention_room) && r.1 is CheckPolicy
    &&& outcome is None ==> r.0 == DeliveryStage::Failed(DeliveryError::AuthRejected) && r.1 is Stop
}

/// Readies one normalized notification for delivery: the message is
/// decorated with title and glyphs, the topic is mapped through the
/// nickname table — the escalation room probed first when the poke is
/// urgent — and the whole-room page is decided. The result names the room
/// to resolve, the text to send and whether everyone is paged.
pub fn prepare_poke(req: &PokeRequest, table: &Option<RoomTable>) -> (r: (String, String, bool))
    ensures
        (r.0@, r.2) == resolve_topic_spec(
            req.topic@,
            req.priority is Some && req.priority->0 > 3,
            table_view(*table),
        ),
        r.1@ == decorated_spec(opt_view(req.title), req.message@, opt_views(req.tags)),
{
    let urgent = req.is_urgent();
    let message = req.decorated_message();
    let (room, mention) = resolve_topic(req.topic.as_str(), urgent, table);
    (room, message, mention)
}

} // verus!
