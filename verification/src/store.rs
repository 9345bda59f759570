//! The per-room configuration store. A room's settings live in its tags:
//! `dev.pokem.block` marks a blocked room, `dev.pokem.auth.<token>` carries
//! the room's token, and the deprecated `dev.pokem.pass.<token>` is still
//! read and rewritten to the current shape on first sight.
//!
//! Reading is a pure scan of the tag names. Writing yields a list of tag
//! operations for the surrounding program to carry out against the room.

use vstd::prelude::*;
use crate::config::{token_view, RoomConfig};
use crate::text::{starts_with_str, str_eq, strip_repeated, strip_repeated_str, views_of};

verus! {

/// The tag that blocks a room.
pub open spec fn block_tag() -> Seq<char> {
    "dev.pokem.block"@
}

/// The namespace of token tags.
pub open spec fn auth_prefix() -> Seq<char> {
    "dev.pokem.auth."@
}

/// The deprecated namespace of token tags.
pub open spec fn pass_prefix() -> Seq<char> {
    "dev.pokem.pass."@
}

/// What one scan of the tags reads off.
pub struct TagScan {
    /// The block tag was seen.
    pub block: bool,
    /// The token of the first token tag seen, already stripped of its
    /// namespace.
    pub auth: Option<Seq<char>>,
    /// A deprecated tag was seen, so the stored shape wants rewriting.
    pub legacy: bool,
}

/// One scan step per tag, front first; the first token read wins.
pub open spec fn scan_acc(tags: Seq<Seq<char>>, st: TagScan) -> TagScan
    decreases tags.len(),
{
    if tags.len() == 0 {
        st
    } else {
        let t = tags[0];
        let st2 = if t == block_tag() {
            TagScan { block: true, ..st }
        } else if auth_prefix().is_prefix_of(t) {
            if st.auth is Some {
                st
            } else {
                TagScan { auth: Some(strip_repeated(t, auth_prefix())), ..st }
            }
        } else if pass_prefix().is_prefix_of(t) {
            if st.auth is Some {
                TagScan { legacy: true, ..st }
            } else {
                TagScan { auth: Some(strip_repeated(t, pass_prefix())), legacy: true, ..st }
            }
        } else {
            st
        };
        scan_acc(tags.skip(1), st2)
    }
}

/// What reading a room's tags yields.
pub open spec fn scan_tags(tags: Seq<Seq<char>>) -> TagScan {
    scan_acc(tags, TagScan { block: false, auth: None, legacy: false })
}

/// Reads the room settings out of the tag names. The second value says
/// whether a deprecated tag was seen, in which case the caller rewrites the
/// stored shape with [`set_room_config`].
///
/// When several token tags coexist the first one encountered wins; the
/// store is ambiguous by construction then, and the surrounding program
/// logs it.
pub fn get_room_config(tags: &Vec<String>) -> (r: (RoomConfig, bool))
    ensures
        r.0.block == scan_tags(views_of(tags@)).block,
        (match r.0.auth {
            Some(t) => scan_tags(views_of(tags@)).auth == Some(t@),
            None => scan_tags(views_of(tags@)).auth is None,
        }),
        r.1 == scan_tags(views_of(tags@)).legacy,
{
    let mut block = false;
    let mut auth: Option<String> = None;
    let mut legacy = false;
    let n = tags.len();
    let mut i: usize = 0;
    proof {
        assert(views_of(tags@).skip(0) =~= views_of(tags@));
    }
    while i < n
        invariant
            n == tags@.len(),
            i <= n,
            scan_tags(views_of(tags@)) == scan_acc(
                views_of(tags@).skip(i as int),
                TagScan {
                    block: block,
                    auth: (match auth {
                        Some(t) => Some(t@),
                        None => None,
                    }),
                    legacy: legacy,
                },
            ),
        decreases n - i,
    {
        let t = &tags[i];
        proof {
            assert(views_of(tags@).skip(i as int)[0] == t@);
            assert(views_of(tags@).skip(i as int).skip(1) =~= views_of(tags@).skip(i + 1));
        }
        if str_eq(t.as_str(), "dev.pokem.block") {
            block = true;
        } else if starts_with_str(t.as_str(), "dev.pokem.auth.") {
            if auth.is_none() {
                auth = Some(strip_repeated_str(t.as_str(), "dev.pokem.auth.").to_owned());
            }
        } else if starts_with_str(t.as_str(), "dev.pokem.pass.") {
            legacy = true;
            if auth.is_none() {
                auth = Some(strip_repeated_str(t.as_str(), "dev.pokem.pass.").to_owned());
            }
        }
        i = i + 1;
    }
    proof {
        assert(views_of(tags@).skip(n as int).len() == 0);
    }
    (RoomConfig { block, auth }, legacy)
}

/// One change to a room's tags, for the surrounding program to carry out.
/// Adding an already-present tag and removing an absent one change nothing.
#[derive(Clone, Debug)]
pub enum TagOp {
    Add(String),
    Remove(String),
}

/// The ghost shape of one tag operation.
pub struct TagOpView {
    pub add: bool,
    pub tag: Seq<char>,
}

impl View for TagOp {
    type V = TagOpView;

    open spec fn view(&self) -> TagOpView {
        match self {
            TagOp::Add(t) => TagOpView { add: true, tag: t@ },
            TagOp::Remove(t) => TagOpView { add: false, tag: t@ },
        }
    }
}

/// The views of a list of tag operations.
pub open spec fn op_views(ops: Seq<TagOp>) -> Seq<TagOpView> {
    Seq::new(ops.len(), |i: int| ops[i]@)
}

/// A tag list without any occurrence of `t`.
pub open spec fn remove_tag(tags: Seq<Seq<char>>, t: Seq<char>) -> Seq<Seq<char>>
    decreases tags.len(),
{
    if tags.len() == 0 {
        tags
    } else if tags[0] == t {
        remove_tag(tags.skip(1), t)
    } else {
        seq![tags[0]] + remove_tag(tags.skip(1), t)
    }
}

/// One operation applied to a tag list.
pub open spec fn apply_op(tags: Seq<Seq<char>>, op: TagOpView) -> Seq<Seq<char>> {
    if op.add {
        if tags.contains(op.tag) {
            tags
        } else {
            tags.push(op.tag)
        }
    } else {
        remove_tag(tags, op.tag)
    }
}

/// A list of operations applied in order.
pub open spec fn apply_ops(tags: Seq<Seq<char>>, ops: Seq<TagOpView>) -> Seq<Seq<char>>
    decreases ops.len(),
{
    if ops.len() == 0 {
        tags
    } else {
        apply_ops(apply_op(tags, ops[0]), ops.skip(1))
    }
}

/// The removals that clear stale token tags, and whether the wanted token
/// already stands: deprecated tags always leave, token tags leave unless
/// they carry exactly the wanted token.
pub open spec fn stale_ops(tags: Seq<Seq<char>>, auth: Option<Seq<char>>) -> (Seq<TagOpView>, bool)
    decreases tags.len(),
{
    if tags.len() == 0 {
        (Seq::empty(), false)
    } else {
        let t = tags[0];
        let rest = stale_ops(tags.skip(1), auth);
        if pass_prefix().is_prefix_of(t) {
            (seq![TagOpView { add: false, tag: t }] + rest.0, rest.1)
        } else if auth_prefix().is_prefix_of(t) {
            if auth is Some && strip_repeated(t, auth_prefix()) == auth->0 {
                (rest.0, true)
            } else {
                (seq![TagOpView { add: false, tag: t }] + rest.0, rest.1)
            }
        } else {
            (rest.0, rest.1)
        }
    }
}

/// The operations that write `block`/`auth` over the given tags: the block
/// tag toggled to the wanted state, stale token tags removed, and the
/// wanted token tag added when it does not stand already.
pub open spec fn set_ops_spec(tags: Seq<Seq<char>>, block: bool, auth: Option<Seq<char>>) -> Seq<
    TagOpView,
> {
    let blockop = if block {
        TagOpView { add: true, tag: block_tag() }
    } else {
        TagOpView { add: false, tag: block_tag() }
    };
    let stale = stale_ops(tags, auth);
    seq![blockop] + stale.0 + (if auth is Some && !stale.1 {
        seq![TagOpView { add: true, tag: auth_prefix() + auth->0 }]
    } else {
        Seq::empty()
    })
}

/// Plans the writes that bring a room's tags to the wanted settings.
/// The surrounding program carries the operations out in order; a failed
/// operation is surfaced hard, as a lost config write is worse than a
/// visible error.
pub fn set_room_config(tags: &Vec<String>, config: &RoomConfig) -> (ops: Vec<TagOp>)
    ensures
        op_views(ops@) == set_ops_spec(views_of(tags@), config.block, token_view(config.auth)),
{
    let ghost auth_v = token_view(config.auth);
    let mut ops: Vec<TagOp> = Vec::new();
    if config.block {
        ops.push(TagOp::Add("dev.pokem.block".to_owned()));
    } else {
        ops.push(TagOp::Remove("dev.pokem.block".to_owned()));
    }
    let mut placed = false;
    let n = tags.len();
    let mut i: usize = 0;
    proof {
        assert(views_of(tags@).skip(0) =~= views_of(tags@));
    }
    while i < n
        invariant
            n == tags@.len(),
            i <= n,
            auth_v == token_view(config.auth),
            ops@.len() >= 1,
            op_views(ops@)[0] == (if config.block {
                TagOpView { add: true, tag: block_tag() }
            } else {
                TagOpView { add: false, tag: block_tag() }
            }),
            stale_ops(views_of(tags@), auth_v).0 =~= op_views(ops@).skip(1) + stale_ops(
                views_of(tags@).skip(i as int),
                auth_v,
            ).0,
            stale_ops(views_of(tags@), auth_v).1 == (placed || stale_ops(
                views_of(tags@).skip(i as int),
                auth_v,
            ).1),
        decreases n - i,
    {
        let t = &tags[i];
        proof {
            assert(views_of(tags@).skip(i as int)[0] == t@);
            assert(views_of(tags@).skip(i as int).skip(1) =~= views_of(tags@).skip(i + 1));
        }
        if starts_with_str(t.as_str(), "dev.pokem.pass.") {
            ops.push(TagOp::Remove(t.clone()));
            proof {
                assert(op_views(ops@).skip(1) =~= op_views(ops@.drop_last()).skip(1).push(
                    ops@.last()@,
                ));
            }
        } else if starts_with_str(t.as_str(), "dev.pokem.auth.") {
            let matches_wanted = match &config.auth {
                Some(tok) => str_eq(
                    strip_repeated_str(t.as_str(), "dev.pokem.auth."),
                    tok.as_str(),
                ),
                None => false,
            };
            if matches_wanted {
                placed = true;
            } else {
                ops.push(TagOp::Remove(t.clone()));
                proof {
                    assert(op_views(ops@).skip(1) =~= op_views(ops@.drop_last()).skip(1).push(
                        ops@.last()@,
                    ));
                }
            }
        }
        i = i + 1;
    }
    proof {
        assert(stale_ops(views_of(tags@).skip(n as int), auth_v).0 =~= Seq::<TagOpView>::empty());
        assert(stale_ops(views_of(tags@), auth_v).0 =~= op_views(ops@).skip(1));
        assert(!stale_ops(views_of(tags@).skip(n as int), auth_v).1);
    }
    if !placed {
        if let Some(tok) = &config.auth {
            let tag = "dev.pokem.auth.".to_owned().concat(tok.as_str());
            ops.push(TagOp::Add(tag));
            proof {
                assert(ops@.last()@.tag == auth_prefix() + auth_v->0);
            }
        }
    }
    proof {
        assert(op_views(ops@) =~= set_ops_spec(views_of(tags@), config.block, auth_v));
    }
    ops
}

/// Carries a list of tag operations out on an in-memory tag list.
pub fn apply_tag_ops(tags: &Vec<String>, ops: &Vec<TagOp>) -> (r: Vec<String>)
    ensures
        views_of(r@) == apply_ops(views_of(tags@), op_views(ops@)),
{
    let mut cur: Vec<String> = clone_tags(tags);
    let n = ops.len();
    let mut i: usize = 0;
    proof {
        assert(op_views(ops@).skip(0) =~= op_views(ops@));
    }
    while i < n
        invariant
            n == ops@.len(),
            i <= n,
            apply_ops(views_of(tags@), op_views(ops@)) == apply_ops(
                views_of(cur@),
                op_views(ops@).skip(i as int),
            ),
        decreases n - i,
    {
        let ghost prev = views_of(cur@);
        proof {
            assert(op_views(ops@).skip(i as int)[0] == ops@[i as int]@);
            assert(op_views(ops@).skip(i as int).skip(1) =~= op_views(ops@).skip(i + 1));
        }
        match &ops[i] {
            TagOp::Add(t) => {
                if !contains_tag(&cur, t.as_str()) {
                    cur.push(t.clone());
                    proof {
                        assert(views_of(cur@) =~= views_of(cur@.drop_last()).push(t@));
                        assert(views_of(cur@) =~= apply_op(prev, ops@[i as int]@));
                    }
                } else {
                    proof {
                        assert(views_of(cur@) =~= apply_op(prev, ops@[i as int]@));
                    }
                }
            },
            TagOp::Remove(t) => {
                cur = remove_tag_all(&cur, t.as_str());
                proof {
                    assert(views_of(cur@) =~= apply_op(prev, ops@[i as int]@));
                }
            },
        }
        proof {
            assert(views_of(cur@) == apply_op(prev, op_views(ops@).skip(i as int)[0]));
            assert(apply_ops(prev, op_views(ops@).skip(i as int)) == apply_ops(
                views_of(cur@),
                op_views(ops@).skip(i + 1),
            ));
        }
        i = i + 1;
    }
    proof {
        assert(op_views(ops@).skip(n as int).len() == 0);
    }
    cur
}

/// A copy of a tag list.
fn clone_tags(tags: &Vec<String>) -> (r: Vec<String>)
    ensures
        views_of(r@) =~= views_of(tags@),
        r@.len() == tags@.len(),
{
    let mut out: Vec<String> = Vec::new();
    let n = tags.len();
    let mut i: usize = 0;
    while i < n
        invariant
            n == tags@.len(),
            i <= n,
            out@.len() == i,
            forall|j: int| 0 <= j < i ==> out@[j]@ == tags@[j]@,
        decreases n - i,
    {
        out.push(tags[i].clone());
        i = i + 1;
    }
    out
}

/// Whether `t` occurs in the list.
pub(crate) fn contains_tag(tags: &Vec<String>, t: &str) -> (r: bool)
    ensures
        r == views_of(tags@).contains(t@),
{
    let n = tags.len();
    let mut i: usize = 0;
    while i < n
        invariant
            n == tags@.len(),
            i <= n,
            forall|j: int| 0 <= j < i ==> views_of(tags@)[j] != t@,
        decreases n - i,
    {
        if str_eq(tags[i].as_str(), t) {
            proof {
                assert(views_of(tags@)[i as int] == t@);
            }
            return true;
        }
        i = i + 1;
    }
    proof {
        if views_of(tags@).contains(t@) {
            let j = choose|j: int| 0 <= j < views_of(tags@).len() && views_of(tags@)[j] == t@;
            assert(false);
        }
    }
    false
}

/// The list without any occurrence of `t`.
fn remove_tag_all(tags: &Vec<String>, t: &str) -> (r: Vec<String>)
    ensures
        views_of(r@) == remove_tag(views_of(tags@), t@),
{
    let mut out: Vec<String> = Vec::new();
    let n = tags.len();
    let mut i: usize = 0;
    proof {
        assert(views_of(tags@).skip(0) =~= views_of(tags@));
        assert(views_of(out@) =~= Seq::<Seq<char>>::empty());
    }
    while i < n
        invariant
            n == tags@.len(),
            i <= n,
            remove_tag(views_of(tags@), t@) =~= views_of(out@) + remove_tag(
                views_of(tags@).skip(i as int),
                t@,
            ),
        decreases n - i,
    {
        proof {
            assert(views_of(tags@).skip(i as int)[0] == tags@[i as int]@);
            assert(views_of(tags@).skip(i as int).skip(1) =~= views_of(tags@).skip(i + 1));
        }
        if !str_eq(tags[i].as_str(), t) {
            out.push(tags[i].clone());
            proof {
                assert(views_of(out@) =~= views_of(out@.drop_last()).push(tags@[i as int]@));
            }
        }
        i = i + 1;
    }
    proof {
        assert(views_of(tags@).skip(n as int).len() == 0);
    }
    out
}

/// The token that one tag contributes to a scan, namespace stripped.
pub open spec fn tag_token(t: Seq<char>) -> Option<Seq<char>> {
    if t == block_tag() {
        None
    } else if auth_prefix().is_prefix_of(t) {
        Some(strip_repeated(t, auth_prefix()))
    } else if pass_prefix().is_prefix_of(t) {
        Some(strip_repeated(t, pass_prefix()))
    } else {
        None
    }
}

/// The token of the first tag that carries one.
pub open spec fn first_token(tags: Seq<Seq<char>>) -> Option<Seq<char>>
    decreases tags.len(),
{
    if tags.len() == 0 {
        None
    } else {
        match tag_token(tags[0]) {
            Some(v) => Some(v),
            None => first_token(tags.skip(1)),
        }
    }
}

/// A tag that marks the stored shape as deprecated when scanned.
pub open spec fn sets_legacy(t: Seq<char>) -> bool {
    t != block_tag() && !auth_prefix().is_prefix_of(t) && pass_prefix().is_prefix_of(t)
}

proof fn lemma_contains_push(s: Seq<Seq<char>>, e: Seq<char>, x: Seq<char>)
    ensures
        s.push(e).contains(x) <==> (s.contains(x) || x == e),
{
    if s.push(e).contains(x) {
        let i = choose|i: int| 0 <= i < s.push(e).len() && s.push(e)[i] == x;
        if i < s.len() {
            assert(s[i] == x);
        }
    }
    if s.contains(x) {
        let i = choose|i: int| 0 <= i < s.len() && s[i] == x;
        assert(s.push(e)[i] == x);
    }
    if x == e {
        assert(s.push(e)[s.len() as int] == x);
    }
}

proof fn lemma_scan_block(tags: Seq<Seq<char>>, st: TagScan)
    ensures
        scan_acc(tags, st).block == (st.block || tags.contains(block_tag())),
    decreases tags.len(),
{
    if tags.len() > 0 {
        let t = tags[0];
        let st2 = if t == block_tag() {
            TagScan { block: true, ..st }
        } else if auth_prefix().is_prefix_of(t) {
            if st.auth is Some {
                st
            } else {
                TagScan { auth: Some(strip_repeated(t, auth_prefix())), ..st }
            }
        } else if pass_prefix().is_prefix_of(t) {
            if st.auth is Some {
                TagScan { legacy: true, ..st }
            } else {
                TagScan { auth: Some(strip_repeated(t, pass_prefix())), legacy: true, ..st }
            }
        } else {
            st
        };
        lemma_scan_block(tags.skip(1), st2);
        lemma_contains_head(tags, block_tag());
        assert(st2.block == (st.block || t == block_tag()));
    }
}

proof fn lemma_scan_legacy(tags: Seq<Seq<char>>, st: TagScan)
    ensures
        scan_acc(tags, st).legacy == (st.legacy || exists|i: int|
            0 <= i < tags.len() && sets_legacy(#[trigger] tags[i])),
    decreases tags.len(),
{
    if tags.len() > 0 {
        let t = tags[0];
        let st2 = if t == block_tag() {
            TagScan { block: true, ..st }
        } else if auth_prefix().is_prefix_of(t) {
            if st.auth is Some {
                st
            } else {
                TagScan { auth: Some(strip_repeated(t, auth_prefix())), ..st }
            }
        } else if pass_prefix().is_prefix_of(t) {
            if st.auth is Some {
                TagScan { legacy: true, ..st }
            } else {
                TagScan { auth: Some(strip_repeated(t, pass_prefix())), legacy: true, ..st }
            }
        } else {
            st
        };
        lemma_scan_legacy(tags.skip(1), st2);
        assert(st2.legacy == (st.legacy || sets_legacy(t)));
        if st2.legacy {
            if !st.legacy && sets_legacy(t) {
                assert(sets_legacy(tags[0]));
            }
        }
        if scan_acc(tags, st).legacy && !st2.legacy {
            let i = choose|i: int|
                0 <= i < tags.skip(1).len() && sets_legacy(#[trigger] tags.skip(1)[i]);
            assert(tags[i + 1] == tags.skip(1)[i]);
        }
        if !scan_acc(tags, st).legacy && (exists|i: int|
            0 <= i < tags.len() && sets_legacy(#[trigger] tags[i])) {
            let i = choose|i: int| 0 <= i < tags.len() && sets_legacy(#[trigger] tags[i]);
            assert(i != 0);
            assert(tags.skip(1)[i - 1] == tags[i]);
            assert(false);
        }
    }
}

proof fn lemma_scan_auth(tags: Seq<Seq<char>>, st: TagScan)
    ensures
        scan_acc(tags, st).auth == (if st.auth is Some {
            st.auth
        } else {
            first_token(tags)
        }),
    decreases tags.len(),
{
    if tags.len() > 0 {
        let t = tags[0];
        let st2 = if t == block_tag() {
            TagScan { block: true, ..st }
        } else if auth_prefix().is_prefix_of(t) {
            if st.auth is Some {
                st
            } else {
                TagScan { auth: Some(strip_repeated(t, auth_prefix())), ..st }
            }
        } else if pass_prefix().is_prefix_of(t) {
            if st.auth is Some {
                TagScan { legacy: true, ..st }
            } else {
                TagScan { auth: Some(strip_repeated(t, pass_prefix())), legacy: true, ..st }
            }
        } else {
            st
        };
        lemma_scan_auth(tags.skip(1), st2);
        assert(st2.auth == (if st.auth is Some {
            st.auth
        } else {
            match tag_token(t) {
                Some(v) => Some(v),
                None => None,
            }
        }));
    }
}

proof fn lemma_first_token_uniform(tags: Seq<Seq<char>>, tok: Seq<char>)
    requires
        forall|i: int| 0 <= i < tags.len() ==> (tag_token(#[trigger] tags[i]) is Some
            ==> tag_token(tags[i]) == Some(tok)),
    ensures
        first_token(tags) == (if exists|i: int|
            0 <= i < tags.len() && tag_token(#[trigger] tags[i]) is Some {
            Some(tok)
        } else {
            None::<Seq<char>>
        }),
    decreases tags.len(),
{
    if tags.len() > 0 {
        assert forall|i: int| 0 <= i < tags.skip(1).len() implies (tag_token(
            #[trigger] tags.skip(1)[i],
        ) is Some ==> tag_token(tags.skip(1)[i]) == Some(tok)) by {
            assert(tags.skip(1)[i] == tags[i + 1]);
        }
        lemma_first_token_uniform(tags.skip(1), tok);
        if tag_token(tags[0]) is Some {
            assert(first_token(tags) == Some(tok));
        } else {
            if exists|i: int| 0 <= i < tags.skip(1).len() && tag_token(
                #[trigger] tags.skip(1)[i],
            ) is Some {
                let i = choose|i: int|
                    0 <= i < tags.skip(1).len() && tag_token(#[trigger] tags.skip(1)[i]) is Some;
                assert(tags[i + 1] == tags.skip(1)[i]);
            }
            if exists|i: int| 0 <= i < tags.len() && tag_token(#[trigger] tags[i]) is Some {
                let i = choose|i: int| 0 <= i < tags.len() && tag_token(#[trigger] tags[i]) is Some;
                assert(i != 0);
                assert(tags.skip(1)[i - 1] == tags[i]);
            }
        }
    }
}

proof fn lemma_tag_literal_facts()
    ensures
        block_tag().len() == 15,
        auth_prefix().len() == 15,
        pass_prefix().len() == 15,
        block_tag()[10] == 'b',
        auth_prefix()[10] == 'a',
        pass_prefix()[10] == 'p',
        !auth_prefix().is_prefix_of(block_tag()),
        !pass_prefix().is_prefix_of(block_tag()),
{
    reveal_strlit("dev.pokem.block");
    reveal_strlit("dev.pokem.auth.");
    reveal_strlit("dev.pokem.pass.");
    if auth_prefix().is_prefix_of(block_tag()) {
        assert(block_tag().subrange(0, 15)[10] == auth_prefix()[10]);
        assert(block_tag().subrange(0, 15) =~= block_tag());
    }
    if pass_prefix().is_prefix_of(block_tag()) {
        assert(block_tag().subrange(0, 15)[10] == pass_prefix()[10]);
        assert(block_tag().subrange(0, 15) =~= block_tag());
    }
}

proof fn lemma_auth_tag_facts(tok: Seq<char>)
    ensures
        auth_prefix().is_prefix_of(auth_prefix() + tok),
        !pass_prefix().is_prefix_of(auth_prefix() + tok),
        auth_prefix() + tok != block_tag(),
        !auth_prefix().is_prefix_of(tok) ==> strip_repeated(auth_prefix() + tok, auth_prefix())
            == tok,
{
    lemma_tag_literal_facts();
    assert((auth_prefix() + tok).subrange(0, 15) =~= auth_prefix());
    if pass_prefix().is_prefix_of(auth_prefix() + tok) {
        assert((auth_prefix() + tok).subrange(0, 15)[10] == pass_prefix()[10]);
        assert((auth_prefix() + tok)[10] == auth_prefix()[10]);
        assert(false);
    }
    if auth_prefix() + tok == block_tag() {
        assert(tok.len() == 0);
        assert((auth_prefix() + tok)[10] == auth_prefix()[10]);
        assert(false);
    }
    if !auth_prefix().is_prefix_of(tok) {
        assert((auth_prefix() + tok).skip(15) =~= tok);
        assert(strip_repeated(auth_prefix() + tok, auth_prefix()) == strip_repeated(
            (auth_prefix() + tok).skip(15),
            auth_prefix(),
        ));
        assert(strip_repeated(tok, auth_prefix()) == tok);
    }
}

proof fn lemma_pass_tag_facts(tok: Seq<char>)
    ensures
        pass_prefix().is_prefix_of(pass_prefix() + tok),
        !auth_prefix().is_prefix_of(pass_prefix() + tok),
        pass_prefix() + tok != block_tag(),
        !pass_prefix().is_prefix_of(tok) ==> strip_repeated(pass_prefix() + tok, pass_prefix())
            == tok,
{
    lemma_tag_literal_facts();
    assert((pass_prefix() + tok).subrange(0, 15) =~= pass_prefix());
    if auth_prefix().is_prefix_of(pass_prefix() + tok) {
        assert((pass_prefix() + tok).subrange(0, 15)[10] == auth_prefix()[10]);
        assert((pass_prefix() + tok)[10] == pass_prefix()[10]);
        assert(false);
    }
    if pass_prefix() + tok == block_tag() {
        assert(tok.len() == 0);
        assert((pass_prefix() + tok)[10] == pass_prefix()[10]);
        assert(false);
    }
    if !pass_prefix().is_prefix_of(tok) {
        assert((pass_prefix() + tok).skip(15) =~= tok);
        assert(strip_repeated(pass_prefix() + tok, pass_prefix()) == strip_repeated(
            (pass_prefix() + tok).skip(15),
            pass_prefix(),
        ));
        assert(strip_repeated(tok, pass_prefix()) == tok);
    }
}

/// Whether `x` stands in the tags once [`set_ops_spec`] has been applied:
/// the block tag as wanted, every non-stale tag kept, and the wanted token
/// tag present.
pub open spec fn member_after_set(
    tags: Seq<Seq<char>>,
    block: bool,
    auth: Option<Seq<char>>,
    x: Seq<char>,
) -> bool {
    (x == block_tag() && block) || (tags.contains(x) && x != block_tag() && !is_stale(x, auth)) || (
    auth is Some && !stale_ops(tags, auth).1 && x == auth_prefix() + auth->0)
}

proof fn lemma_written_tags(tags: Seq<Seq<char>>, block: bool, auth: Option<Seq<char>>)
    ensures
        forall|x: Seq<char>| #[trigger] apply_ops(tags, set_ops_spec(tags, block, auth)).contains(
            x,
        ) <==> member_after_set(tags, block, auth, x),
{
    lemma_tag_literal_facts();
    let blockop = if block {
        TagOpView { add: true, tag: block_tag() }
    } else {
        TagOpView { add: false, tag: block_tag() }
    };
    let stale = stale_ops(tags, auth);
    let tail = if auth is Some && !stale.1 {
        seq![TagOpView { add: true, tag: auth_prefix() + auth->0 }]
    } else {
        Seq::<TagOpView>::empty()
    };
    lemma_stale_ops_shape(tags, auth);
    assert(set_ops_spec(tags, block, auth) == seq![blockop] + stale.0 + tail);
    lemma_apply_ops_concat(tags, seq![blockop] + stale.0, tail);
    lemma_apply_ops_concat(tags, seq![blockop], stale.0);
    let mid1 = apply_op(tags, blockop);
    assert(apply_ops(tags, seq![blockop]) == mid1) by {
        assert(seq![blockop].skip(1) =~= Seq::<TagOpView>::empty());
        assert(seq![blockop][0] == blockop);
        assert(apply_ops(mid1, Seq::<TagOpView>::empty()) == mid1);
    }
    let mid2 = apply_ops(mid1, stale.0);
    let ts2 = apply_ops(tags, set_ops_spec(tags, block, auth));
    assert(ts2 == apply_ops(mid2, tail));
    // membership in mid1
    assert forall|x: Seq<char>| #[trigger] mid1.contains(x) <==> (tags.contains(x) || (block && x
        == block_tag())) && !(x == block_tag() && !block) by {
        if block {
            if tags.contains(block_tag()) {
                assert(mid1 == tags);
            } else {
                assert(mid1 == tags.push(block_tag()));
                lemma_contains_push(tags, block_tag(), x);
            }
        } else {
            lemma_remove_tag_mem(tags, block_tag(), x);
        }
    }
    // membership in mid2
    assert forall|x: Seq<char>| #[trigger] mid2.contains(x) <==> (mid1.contains(x) && !(
    tags.contains(x) && is_stale(x, auth))) by {
        lemma_apply_removes_mem(mid1, stale.0, x);
        if exists|i: int| 0 <= i < stale.0.len() && stale.0[i].tag == x {
            let i = choose|i: int| 0 <= i < stale.0.len() && stale.0[i].tag == x;
            assert(stale.0[i] == stale_ops(tags, auth).0[i]);
            assert(tags.contains(x) && is_stale(x, auth));
        }
    }
    // membership in the final tags
    assert forall|x: Seq<char>| #[trigger] ts2.contains(x) <==> member_after_set(
        tags,
        block,
        auth,
        x,
    ) by {
        if auth is Some {
            lemma_auth_tag_facts(auth->0);
        }
        if auth is Some && !stale.1 {
            assert(tail.skip(1) =~= Seq::<TagOpView>::empty());
            assert(tail[0] == TagOpView { add: true, tag: auth_prefix() + auth->0 });
            let added = auth_prefix() + auth->0;
            assert(ts2 == apply_op(mid2, tail[0])) by {
                assert(apply_ops(mid2, tail) == apply_ops(apply_op(mid2, tail[0]), tail.skip(1)));
                assert(apply_ops(apply_op(mid2, tail[0]), Seq::<TagOpView>::empty()) == apply_op(
                    mid2,
                    tail[0],
                ));
            }
            if mid2.contains(added) {
                assert(ts2 == mid2);
            } else {
                assert(ts2 == mid2.push(added));
                lemma_contains_push(mid2, added, x);
            }
            if x == added {
                assert(ts2.contains(x)) by {
                    if mid2.contains(added) {
                    } else {
                        lemma_contains_push(mid2, added, added);
                    }
                }
            }
        } else {
            assert(ts2 == mid2);
        }
        // the block tag is never stale
        assert(!is_stale(block_tag(), auth));
    }
}

/// Law: writing a room's settings and reading them back yields exactly what
/// was written, whatever tags the room held before — the block flag as set,
/// the token as set, and no deprecated tag left behind. The one token shape
/// left out is a token that itself begins with the token namespace, which
/// the namespace-stripping read would shorten.
pub proof fn lemma_set_then_get(tags: Seq<Seq<char>>, block: bool, auth: Option<Seq<char>>)
    requires
        auth is Some ==> !auth_prefix().is_prefix_of(auth->0),
    ensures
        scan_tags(apply_ops(tags, set_ops_spec(tags, block, auth))).block == block,
        scan_tags(apply_ops(tags, set_ops_spec(tags, block, auth))).auth == auth,
        !scan_tags(apply_ops(tags, set_ops_spec(tags, block, auth))).legacy,
{
    lemma_tag_literal_facts();
    lemma_written_tags(tags, block, auth);
    lemma_stale_ops_shape(tags, auth);
    let ts2 = apply_ops(tags, set_ops_spec(tags, block, auth));
    let start = TagScan { block: false, auth: None, legacy: false };
    // the block flag
    lemma_scan_block(ts2, start);
    if block {
        assert(member_after_set(tags, block, auth, block_tag()));
    } else {
        if ts2.contains(block_tag()) {
            assert(member_after_set(tags, block, auth, block_tag()));
            if auth is Some {
                lemma_auth_tag_facts(auth->0);
            }
            assert(false);
        }
    }
    // no deprecated tag is left
    lemma_scan_legacy(ts2, start);
    if exists|i: int| 0 <= i < ts2.len() && sets_legacy(#[trigger] ts2[i]) {
        let i = choose|i: int| 0 <= i < ts2.len() && sets_legacy(#[trigger] ts2[i]);
        let x = ts2[i];
        assert(ts2.contains(x));
        assert(member_after_set(tags, block, auth, x));
        assert(is_stale(x, auth));
        if auth is Some {
            lemma_auth_tag_facts(auth->0);
        }
        assert(false);
    }
    // the token
    lemma_scan_auth(ts2, start);
    match auth {
        Some(tok) => {
            lemma_auth_tag_facts(tok);
            assert forall|i: int| 0 <= i < ts2.len() implies (tag_token(#[trigger] ts2[i]) is Some
                ==> tag_token(ts2[i]) == Some(tok)) by {
                let x = ts2[i];
                assert(ts2.contains(x));
                assert(member_after_set(tags, block, auth, x));
                if tag_token(x) is Some {
                    if tags.contains(x) && x != block_tag() && !is_stale(x, auth) {
                        assert(!pass_prefix().is_prefix_of(x));
                        assert(auth_prefix().is_prefix_of(x));
                        assert(strip_repeated(x, auth_prefix()) == tok);
                    }
                }
            }
            lemma_first_token_uniform(ts2, tok);
            // some tag carries the token
            if stale_ops(tags, auth).1 {
                let i = choose|i: int|
                    0 <= i < tags.len() && !pass_prefix().is_prefix_of(#[trigger] tags[i])
                        && auth_prefix().is_prefix_of(tags[i]) && strip_repeated(
                        tags[i],
                        auth_prefix(),
                    ) == auth->0;
                let y = tags[i];
                assert(tags.contains(y));
                assert(y != block_tag());
                assert(!is_stale(y, auth));
                assert(member_after_set(tags, block, auth, y));
                assert(ts2.contains(y));
                let j = choose|j: int| 0 <= j < ts2.len() && ts2[j] == y;
                assert(tag_token(ts2[j]) is Some);
            } else {
                let w = auth_prefix() + tok;
                assert(member_after_set(tags, block, auth, w));
                assert(ts2.contains(w));
                let j = choose|j: int| 0 <= j < ts2.len() && ts2[j] == w;
                assert(tag_token(ts2[j]) is Some);
            }
        },
        None => {
            assert forall|i: int| 0 <= i < ts2.len() implies !(tag_token(
                #[trigger] ts2[i],
            ) is Some) by {
                let x = ts2[i];
                assert(ts2.contains(x));
                assert(member_after_set(tags, block, auth, x));
                if tag_token(x) is Some {
                    assert(tags.contains(x) && x != block_tag() && !is_stale(x, auth));
                    assert(is_stale(x, auth));
                    assert(false);
                }
            }
            lemma_first_token_uniform(ts2, Seq::empty());
        },
    }
}

/// Law: a second write of the same settings changes nothing — once written,
/// the tags are a fixed point of the write.
pub proof fn lemma_set_stable(tags: Seq<Seq<char>>, block: bool, auth: Option<Seq<char>>)
    requires
        auth is Some ==> !auth_prefix().is_prefix_of(auth->0),
    ensures
        ({
            let ts2 = apply_ops(tags, set_ops_spec(tags, block, auth));
            apply_ops(ts2, set_ops_spec(ts2, block, auth)) == ts2
        }),
{
    lemma_tag_literal_facts();
    lemma_written_tags(tags, block, auth);
    lemma_stale_ops_shape(tags, auth);
    let ts2 = apply_ops(tags, set_ops_spec(tags, block, auth));
    lemma_stale_ops_shape(ts2, auth);
    if auth is Some {
        lemma_auth_tag_facts(auth->0);
    }
    // no tag of the written state is stale
    assert forall|x: Seq<char>| #[trigger] ts2.contains(x) implies !is_stale(x, auth) by {
        assert(member_after_set(tags, block, auth, x));
    }
    // so the second write removes nothing
    let stale2 = stale_ops(ts2, auth);
    if stale2.0.len() > 0 {
        assert(ts2.contains(stale2.0[0].tag) && is_stale(stale2.0[0].tag, auth));
        assert(false);
    }
    // and adds nothing: when a token is wanted, a tag carrying it stands
    if auth is Some {
        let tok = auth->0;
        if stale_ops(tags, auth).1 {
            let i = choose|i: int|
                0 <= i < tags.len() && !pass_prefix().is_prefix_of(#[trigger] tags[i])
                    && auth_prefix().is_prefix_of(tags[i]) && strip_repeated(
                    tags[i],
                    auth_prefix(),
                ) == auth->0;
            let y = tags[i];
            assert(member_after_set(tags, block, auth, y));
            assert(ts2.contains(y));
            let j = choose|j: int| 0 <= j < ts2.len() && ts2[j] == y;
            assert(stale2.1) by {
                assert(!pass_prefix().is_prefix_of(ts2[j]) && auth_prefix().is_prefix_of(ts2[j])
                    && strip_repeated(ts2[j], auth_prefix()) == auth->0);
            }
        } else {
            let w = auth_prefix() + tok;
            assert(member_after_set(tags, block, auth, w));
            assert(ts2.contains(w));
            let j = choose|j: int| 0 <= j < ts2.len() && ts2[j] == w;
            assert(stale2.1) by {
                assert(!pass_prefix().is_prefix_of(ts2[j]) && auth_prefix().is_prefix_of(ts2[j])
                    && strip_repeated(ts2[j], auth_prefix()) == auth->0);
            }
        }
    }
    // the second write is the block toggle alone
    let blockop = if block {
        TagOpView { add: true, tag: block_tag() }
    } else {
        TagOpView { add: false, tag: block_tag() }
    };
    assert(set_ops_spec(ts2, block, auth) =~= seq![blockop]);
    assert(apply_ops(ts2, seq![blockop]) == apply_op(ts2, blockop)) by {
        assert(seq![blockop].skip(1) =~= Seq::<TagOpView>::empty());
        assert(seq![blockop][0] == blockop);
        assert(apply_ops(apply_op(ts2, blockop), Seq::<TagOpView>::empty()) == apply_op(
            ts2,
            blockop,
        ));
    }
    if block {
        assert(member_after_set(tags, block, auth, block_tag()));
        assert(ts2.contains(block_tag()));
        assert(apply_op(ts2, blockop) == ts2);
    } else {
        if ts2.contains(block_tag()) {
            assert(member_after_set(tags, block, auth, block_tag()));
            assert(false);
        }
        lemma_remove_tag_absent(ts2, block_tag());
        assert(apply_op(ts2, blockop) == ts2);
    }
    assert(apply_ops(ts2, set_ops_spec(ts2, block, auth)) == ts2);
}

/// Law: a room holding only a deprecated `dev.pokem.pass.<token>` tag reads
/// as that token, asks for a rewrite, and the rewrite leaves the room
/// holding exactly `dev.pokem.auth.<token>` — the same token read before
/// and after, and no deprecated tag left. Tokens that themselves begin
/// with either namespace are left out, as the namespace-stripping read
/// would shorten them.
pub proof fn lemma_legacy_migration(tok: Seq<char>)
    requires
        !pass_prefix().is_prefix_of(tok),
        !auth_prefix().is_prefix_of(tok),
    ensures
        scan_tags(seq![pass_prefix() + tok]).auth == Some(tok),
        scan_tags(seq![pass_prefix() + tok]).legacy,
        !scan_tags(seq![pass_prefix() + tok]).block,
        apply_ops(
            seq![pass_prefix() + tok],
            set_ops_spec(seq![pass_prefix() + tok], false, Some(tok)),
        ) =~= seq![auth_prefix() + tok],
        scan_tags(seq![auth_prefix() + tok]).auth == Some(tok),
        !scan_tags(seq![auth_prefix() + tok]).legacy,
        !scan_tags(seq![auth_prefix() + tok]).block,
{
    lemma_tag_literal_facts();
    lemma_pass_tag_facts(tok);
    lemma_auth_tag_facts(tok);
    let old_tag = pass_prefix() + tok;
    let new_tag = auth_prefix() + tok;
    let tags = seq![old_tag];
    let start = TagScan { block: false, auth: None, legacy: false };
    // reading the deprecated shape
    assert(tags.skip(1) =~= Seq::<Seq<char>>::empty());
    let read = TagScan { auth: Some(tok), legacy: true, block: false };
    assert(scan_acc(tags, start) == scan_acc(tags.skip(1), read));
    assert(scan_acc(tags.skip(1), read) == read);
    // the rewrite drops the deprecated tag and adds the current one
    let bop = TagOpView { add: false, tag: block_tag() };
    let rop = TagOpView { add: false, tag: old_tag };
    let aop = TagOpView { add: true, tag: new_tag };
    assert(stale_ops(tags, Some(tok)).0 =~= seq![rop] && !stale_ops(tags, Some(tok)).1) by {
        assert(stale_ops(tags.skip(1), Some(tok)).0 =~= Seq::<TagOpView>::empty());
        assert(!stale_ops(tags.skip(1), Some(tok)).1);
    }
    let ops = set_ops_spec(tags, false, Some(tok));
    assert(ops =~= seq![bop, rop, aop]);
    let s1 = apply_op(tags, bop);
    assert(s1 =~= seq![old_tag]) by {
        if tags.contains(block_tag()) {
            lemma_contains_head(tags, block_tag());
            assert(false);
        }
        lemma_remove_tag_absent(tags, block_tag());
    }
    let s2 = apply_op(s1, rop);
    assert(s2 =~= Seq::<Seq<char>>::empty()) by {
        assert(remove_tag(s1, old_tag) == remove_tag(s1.skip(1), old_tag));
        assert(s1.skip(1) =~= Seq::<Seq<char>>::empty());
        assert(remove_tag(Seq::<Seq<char>>::empty(), old_tag) =~= Seq::<Seq<char>>::empty());
    }
    let s3 = apply_op(s2, aop);
    assert(s3 =~= seq![new_tag]) by {
        if s2.contains(new_tag) {
            let j = choose|j: int| 0 <= j < s2.len() && s2[j] == new_tag;
            assert(false);
        }
        assert(s2.push(new_tag) =~= seq![new_tag]);
    }
    let ts2 = apply_ops(tags, ops);
    assert(ts2 == s3) by {
        assert(ops[0] == bop && ops.skip(1)[0] == rop && ops.skip(1).skip(1)[0] == aop);
        assert(ops.skip(1).skip(1).skip(1) =~= Seq::<TagOpView>::empty());
        assert(apply_ops(tags, ops) == apply_ops(s1, ops.skip(1)));
        assert(apply_ops(s1, ops.skip(1)) == apply_ops(s2, ops.skip(1).skip(1)));
        assert(apply_ops(s2, ops.skip(1).skip(1)) == apply_ops(s3, ops.skip(1).skip(1).skip(1)));
        assert(apply_ops(s3, Seq::<TagOpView>::empty()) == s3);
        assert(ops.skip(1).skip(1).skip(1) == Seq::<TagOpView>::empty());
    }
    assert(ts2 =~= seq![new_tag]);
    // reading the rewritten shape
    let tags2 = seq![new_tag];
    assert(tags2.skip(1) =~= Seq::<Seq<char>>::empty());
    let read2 = TagScan { auth: Some(tok), legacy: false, block: false };
    assert(scan_acc(tags2, start) == scan_acc(tags2.skip(1), read2));
    assert(scan_acc(tags2.skip(1), read2) == read2);
}

/// The one example room that is always messaged.
pub open spec fn example_room() -> Seq<char> {
    "!JYrjsPjErpFSDdpwpI:jackson.dev"@
}

/// The send-allowed policy: the example room always passes; a room over
/// the member ceiling is refused whatever its tags say; a blocked room is
/// refused.
pub open spec fn can_message_spec(
    room_id: Seq<char>,
    tags: Seq<Seq<char>>,
    active_members: int,
    room_size_limit: Option<usize>,
) -> bool {
    if room_id == example_room() {
        true
    } else if room_size_limit is Some && active_members > room_size_limit->0 {
        false
    } else {
        !tags.contains(block_tag())
    }
}

/// Decides whether the room may be messaged at all.
pub fn can_message_room(
    room_id: &str,
    tags: &Vec<String>,
    active_members: usize,
    room_size_limit: Option<usize>,
) -> (r: bool)
    ensures
        r == can_message_spec(room_id@, views_of(tags@), active_members as int, room_size_limit),
{
    if str_eq(room_id, "!JYrjsPjErpFSDdpwpI:jackson.dev") {
        return true;
    }
    if let Some(limit) = room_size_limit {
        if active_members > limit {
            return false;
        }
    }
    !contains_tag(tags, "dev.pokem.block")
}

/// A tag that [`set_ops_spec`] clears away: a deprecated tag, or a token
/// tag that does not carry exactly the wanted token.
pub open spec fn is_stale(t: Seq<char>, auth: Option<Seq<char>>) -> bool {
    pass_prefix().is_prefix_of(t) || (auth_prefix().is_prefix_of(t) && !(auth is Some
        && strip_repeated(t, auth_prefix()) == auth->0))
}

proof fn lemma_contains_head<A>(s: Seq<A>, x: A)
    requires
        s.len() > 0,
    ensures
        s.contains(x) <==> (s[0] == x || s.skip(1).contains(x)),
{
    if s.contains(x) {
        let i = choose|i: int| 0 <= i < s.len() && s[i] == x;
        if i > 0 {
            assert(s.skip(1)[i - 1] == x);
        }
    }
    if s.skip(1).contains(x) {
        let i = choose|i: int| 0 <= i < s.skip(1).len() && s.skip(1)[i] == x;
        assert(s[i + 1] == x);
    }
}

proof fn lemma_remove_tag_mem(tags: Seq<Seq<char>>, t: Seq<char>, x: Seq<char>)
    ensures
        remove_tag(tags, t).contains(x) <==> (tags.contains(x) && x != t),
    decreases tags.len(),
{
    if tags.len() == 0 {
    } else {
        lemma_remove_tag_mem(tags.skip(1), t, x);
        lemma_contains_head(tags, x);
        if tags[0] == t {
        } else {
            lemma_contains_head(seq![tags[0]] + remove_tag(tags.skip(1), t), x);
            assert((seq![tags[0]] + remove_tag(tags.skip(1), t)).skip(1) =~= remove_tag(
                tags.skip(1),
                t,
            ));
        }
    }
}

proof fn lemma_remove_tag_absent(tags: Seq<Seq<char>>, t: Seq<char>)
    requires
        !tags.contains(t),
    ensures
        remove_tag(tags, t) == tags,
    decreases tags.len(),
{
    if tags.len() > 0 {
        lemma_contains_head(tags, t);
        assert(!tags.skip(1).contains(t));
        lemma_remove_tag_absent(tags.skip(1), t);
        assert(seq![tags[0]] + tags.skip(1) =~= tags);
    }
}

proof fn lemma_apply_ops_concat(tags: Seq<Seq<char>>, a: Seq<TagOpView>, b: Seq<TagOpView>)
    ensures
        apply_ops(tags, a + b) == apply_ops(apply_ops(tags, a), b),
    decreases a.len(),
{
    if a.len() == 0 {
        assert(a + b =~= b);
    } else {
        assert((a + b)[0] == a[0]);
        assert((a + b).skip(1) =~= a.skip(1) + b);
        lemma_apply_ops_concat(apply_op(tags, a[0]), a.skip(1), b);
    }
}

proof fn lemma_apply_removes_mem(tags: Seq<Seq<char>>, ops: Seq<TagOpView>, x: Seq<char>)
    requires
        forall|i: int| 0 <= i < ops.len() ==> !ops[i].add,
    ensures
        apply_ops(tags, ops).contains(x) <==> (tags.contains(x) && !(exists|i: int|
            0 <= i < ops.len() && ops[i].tag == x)),
    decreases ops.len(),
{
    if ops.len() == 0 {
    } else {
        assert(!ops[0].add);
        lemma_apply_removes_mem(remove_tag(tags, ops[0].tag), ops.skip(1), x);
        lemma_remove_tag_mem(tags, ops[0].tag, x);
        if exists|i: int| 0 <= i < ops.len() && ops[i].tag == x {
            let i = choose|i: int| 0 <= i < ops.len() && ops[i].tag == x;
            if i > 0 {
                assert(ops.skip(1)[i - 1].tag == x);
            }
        }
        if exists|i: int| 0 <= i < ops.skip(1).len() && ops.skip(1)[i].tag == x {
            let i = choose|i: int| 0 <= i < ops.skip(1).len() && ops.skip(1)[i].tag == x;
            assert(ops[i + 1].tag == x);
        }
    }
}

#[verifier::rlimit(50)]
proof fn lemma_stale_ops_shape(tags: Seq<Seq<char>>, auth: Option<Seq<char>>)
    ensures
        forall|i: int| #![trigger stale_ops(tags, auth).0[i]] 0 <= i < stale_ops(tags, auth).0.len()
            ==> (!stale_ops(tags, auth).0[i].add && tags.contains(stale_ops(tags, auth).0[i].tag)
            && is_stale(stale_ops(tags, auth).0[i].tag, auth)),
        forall|x: Seq<char>| #[trigger] tags.contains(x) && is_stale(x, auth) ==> exists|i: int|
            0 <= i < stale_ops(tags, auth).0.len() && stale_ops(tags, auth).0[i].tag == x,
        stale_ops(tags, auth).1 <==> (auth is Some && exists|i: int|
            0 <= i < tags.len() && !pass_prefix().is_prefix_of(#[trigger] tags[i])
                && auth_prefix().is_prefix_of(tags[i]) && strip_repeated(tags[i], auth_prefix())
                == auth->0),
    decreases tags.len(),
{
    if tags.len() == 0 {
        assert(stale_ops(tags, auth).0.len() == 0);
    } else {
        let ghost t = tags[0];
        lemma_stale_ops_shape(tags.skip(1), auth);
        assert forall|x: Seq<char>| #[trigger] tags.skip(1).contains(x) implies tags.contains(
            x,
        ) by {
            lemma_contains_head(tags, x);
        }
        assert(tags.contains(t)) by {
            assert(tags[0] == t);
        }
        let ghost removed = pass_prefix().is_prefix_of(t) || (auth_prefix().is_prefix_of(t) && !(
        auth is Some && strip_repeated(t, auth_prefix()) == auth->0));
        if removed {
            assert(stale_ops(tags, auth).0 == seq![TagOpView { add: false, tag: t }] + stale_ops(
                tags.skip(1),
                auth,
            ).0);
        } else {
            assert(stale_ops(tags, auth).0 == stale_ops(tags.skip(1), auth).0);
        }
        assert forall|i: int| #![trigger stale_ops(tags, auth).0[i]] 0 <= i < stale_ops(
            tags,
            auth,
        ).0.len() implies (!stale_ops(tags, auth).0[i].add && tags.contains(
            stale_ops(tags, auth).0[i].tag,
        ) && is_stale(stale_ops(tags, auth).0[i].tag, auth)) by {
            if removed {
                if i > 0 {
                    assert(stale_ops(tags, auth).0[i] == stale_ops(tags.skip(1), auth).0[i - 1]);
                    assert(tags.skip(1).contains(stale_ops(tags.skip(1), auth).0[i - 1].tag));
                } else {
                    assert(stale_ops(tags, auth).0[0].tag == t);
                    assert(is_stale(t, auth));
                }
            } else {
                assert(stale_ops(tags, auth).0[i] == stale_ops(tags.skip(1), auth).0[i]);
                assert(tags.skip(1).contains(stale_ops(tags.skip(1), auth).0[i].tag));
            }
        }
        assert forall|x: Seq<char>| #[trigger] tags.contains(x) && is_stale(x, auth) implies
            exists|i: int|
                0 <= i < stale_ops(tags, auth).0.len() && stale_ops(tags, auth).0[i].tag
                    == x by {
            lemma_contains_head(tags, x);
            if removed && x == t {
                assert(stale_ops(tags, auth).0[0].tag == x);
            } else {
                assert(x != t || !removed);
                if x == t {
                    // the head is kept, so it is not stale; yet x is stale,
                    // so x also stands somewhere in the rest
                    assert(!is_stale(t, auth));
                    assert(false);
                } else {
                    assert(tags.skip(1).contains(x));
                    let i = choose|i: int|
                        0 <= i < stale_ops(tags.skip(1), auth).0.len() && stale_ops(
                            tags.skip(1),
                            auth,
                        ).0[i].tag == x;
                    if removed {
                        assert(stale_ops(tags, auth).0[i + 1].tag == x);
                    } else {
                        assert(stale_ops(tags, auth).0[i].tag == x);
                    }
                }
            }
        }
        // the placed flag over the whole list
        let ghost head_match = auth is Some && !pass_prefix().is_prefix_of(t)
            && auth_prefix().is_prefix_of(t) && strip_repeated(t, auth_prefix()) == auth->0;
        if head_match {
            assert(stale_ops(tags, auth).1);
        } else {
            assert(stale_ops(tags, auth).1 == stale_ops(tags.skip(1), auth).1);
        }
        if stale_ops(tags, auth).1 {
            if !head_match {
                let i = choose|i: int|
                    0 <= i < tags.skip(1).len() && !pass_prefix().is_prefix_of(
                        #[trigger] tags.skip(1)[i],
                    ) && auth_prefix().is_prefix_of(tags.skip(1)[i]) && strip_repeated(
                        tags.skip(1)[i],
                        auth_prefix(),
                    ) == auth->0;
                assert(tags[i + 1] == tags.skip(1)[i]);
            }
        } else {
            if auth is Some && exists|i: int|
                0 <= i < tags.len() && !pass_prefix().is_prefix_of(#[trigger] tags[i])
                    && auth_prefix().is_prefix_of(tags[i]) && strip_repeated(
                    tags[i],
                    auth_prefix(),
                ) == auth->0 {
                let i = choose|i: int|
                    0 <= i < tags.len() && !pass_prefix().is_prefix_of(#[trigger] tags[i])
                        && auth_prefix().is_prefix_of(tags[i]) && strip_repeated(
                        tags[i],
                        auth_prefix(),
                    ) == auth->0;
                if i == 0 {
                    assert(head_match);
                    assert(false);
                } else {
                    assert(tags.skip(1)[i - 1] == tags[i]);
                    assert(stale_ops(tags.skip(1), auth).1);
                    assert(false);
                }
            }
        }
    }
}

} // verus!
