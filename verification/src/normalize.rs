//! The request normalizer: one inbound call, whatever its encoding, becomes
//! one notification record. A JSON body that carried the fields is taken
//! verbatim; otherwise each field is derived independently from the query
//! string, the named header variants, or the raw body. The topic always
//! comes from the URL path, percent-decoded, never from body or headers.

use vstd::prelude::*;
use crate::headers::{header_first, strs_views, Headers};
use crate::text::{ci_eq, parse_u8_spec, parse_u8_str, split_at_char, split_str, str_ci_eq,
    strip_repeated, strip_repeated_str, views_of};

verus! {

/// The views of a list of string pairs.
pub open spec fn pair_views(v: Seq<(String, String)>) -> Seq<(Seq<char>, Seq<char>)> {
    Seq::new(v.len(), |i: int| (v[i].0@, v[i].1@))
}

/// What `url::form_urlencoded::parse` yields on the given query text:
/// its name/value pairs, percent-decoded, `+` read as space.
pub uninterp spec fn query_pairs_of(q: Seq<char>) -> Seq<(Seq<char>, Seq<char>)>;

/// Relies on url::form_urlencoded::parse: the pairs are a function of the
/// query text alone, and empty text yields no pairs.
#[verifier::external_body]
fn parse_query(q: &str) -> (r: Vec<(String, String)>)
    ensures
        pair_views(r@) == query_pairs_of(q@),
        q@.len() == 0 ==> r@.len() == 0,
{
    url::form_urlencoded::parse(q.as_bytes()).into_owned().collect()
}

/// What `urlencoding::decode` yields on the given text: the percent-decoded
/// text, or nothing when the decoded bytes are not text.
pub uninterp spec fn percent_decoded_of(s: Seq<char>) -> Option<Seq<char>>;

/// Relies on urlencoding::decode: the result is a function of the text
/// alone, and text without `%` decodes to itself.
#[verifier::external_body]
fn url_decode(s: &str) -> (r: Option<String>)
    ensures
        r is Some <==> percent_decoded_of(s@) is Some,
        r is Some ==> r->0@ == percent_decoded_of(s@)->0,
        (forall|i: int| 0 <= i < s@.len() ==> s@[i] != '%') ==> (r is Some && r->0@ == s@),
{
    match urlencoding::decode(s) {
        Ok(d) => Some(d.into_owned()),
        Err(_) => None,
    }
}

/// What `emojis::get_by_shortcode` yields: the glyph filed under the given
/// shortcode, a function of the shortcode alone.
pub uninterp spec fn emoji_glyph_of(s: Seq<char>) -> Option<Seq<char>>;

/// Relies on emojis::get_by_shortcode: a lookup in the crate's fixed table.
#[verifier::external_body]
fn emoji_lookup(s: &str) -> (r: Option<String>)
    ensures
        r is Some <==> emoji_glyph_of(s@) is Some,
        r is Some ==> r->0@ == emoji_glyph_of(s@)->0,
{
    emojis::get_by_shortcode(s).map(|e| e.as_str().to_string())
}

/// The value filed under `key` in the query pairs, the last pair winning,
/// keys compared without regard to ASCII case.
pub open spec fn q_lookup(qp: Seq<(Seq<char>, Seq<char>)>, key: Seq<char>) -> Option<Seq<char>>
    decreases qp.len(),
{
    if qp.len() == 0 {
        None
    } else {
        match q_lookup(qp.skip(1), key) {
            Some(v) => Some(v),
            None => if ci_eq(qp[0].0, key) {
                Some(qp[0].1)
            } else {
                None
            },
        }
    }
}

/// Looks a query parameter up, the last occurrence winning.
fn q_get(qp: &Vec<(String, String)>, key: &str) -> (r: Option<String>)
    ensures
        r is Some <==> q_lookup(pair_views(qp@), key@) is Some,
        r is Some ==> r->0@ == q_lookup(pair_views(qp@), key@)->0,
{
    let n = qp.len();
    let mut cur: Option<String> = None;
    let mut i: usize = 0;
    proof {
        assert(pair_views(qp@).skip(0) =~= pair_views(qp@));
    }
    while i < n
        invariant
            n == qp@.len(),
            i <= n,
            (match q_lookup(pair_views(qp@), key@) {
                Some(v) => (match q_lookup(pair_views(qp@).skip(i as int), key@) {
                    Some(w) => v == w,
                    None => cur is Some && cur->0@ == v,
                }),
                None => q_lookup(pair_views(qp@).skip(i as int), key@) is None && cur is None,
            }),
        decreases n - i,
    {
        proof {
            assert(pair_views(qp@).skip(i as int)[0] == (qp@[i as int].0@, qp@[i as int].1@));
            assert(pair_views(qp@).skip(i as int).skip(1) =~= pair_views(qp@).skip(i + 1));
        }
        if str_ci_eq(qp[i].0.as_str(), key) {
            cur = Some(qp[i].1.clone());
        }
        i = i + 1;
    }
    proof {
        assert(pair_views(qp@).skip(n as int).len() == 0);
    }
    cur
}

/// Clamping into the allowed priority range.
pub open spec fn clamp_priority(p: u8) -> u8 {
    if p < 1 {
        1
    } else if p > 5 {
        5
    } else {
        p
    }
}

/// The priority named by a piece of text: its number when it parses as
/// one, clamped into range; else the named level; else the default.
pub open spec fn priority_of_text(s: Seq<char>) -> u8 {
    match parse_u8_spec(s) {
        Some(n) => clamp_priority(n),
        None => if ci_eq(s, "min"@) {
            1
        } else if ci_eq(s, "low"@) {
            2
        } else if ci_eq(s, "default"@) {
            3
        } else if ci_eq(s, "high"@) {
            4
        } else if ci_eq(s, "urgent"@) {
            5
        } else if ci_eq(s, "max"@) {
            5
        } else {
            3
        },
    }
}

/// Reads a priority out of query or header text.
pub fn priority_from_text(s: &str) -> (r: u8)
    ensures
        r == priority_of_text(s@),
{
    match parse_u8_str(s) {
        Some(n) => {
            if n < 1 {
                1
            } else if n > 5 {
                5
            } else {
                n
            }
        },
        None => {
            if str_ci_eq(s, "min") {
                1
            } else if str_ci_eq(s, "low") {
                2
            } else if str_ci_eq(s, "default") {
                3
            } else if str_ci_eq(s, "high") {
                4
            } else if str_ci_eq(s, "urgent") {
                5
            } else if str_ci_eq(s, "max") {
                5
            } else {
                3
            }
        },
    }
}

/// Law: the named priority levels map to exactly their numbers, and any
/// text that neither parses as a number nor names a level maps to the
/// default.
pub proof fn lemma_priority_words()
    ensures
        priority_of_text("min"@) == 1,
        priority_of_text("low"@) == 2,
        priority_of_text("default"@) == 3,
        priority_of_text("high"@) == 4,
        priority_of_text("urgent"@) == 5,
        priority_of_text("max"@) == 5,
        forall|s: Seq<char>|
            (parse_u8_spec(s) is None && !ci_eq(s, "min"@) && !ci_eq(s, "low"@) && !ci_eq(
                s,
                "default"@,
            ) && !ci_eq(s, "high"@) && !ci_eq(s, "urgent"@) && !ci_eq(s, "max"@)) ==> #[trigger]
            priority_of_text(s) == 3,
{
    reveal_strlit("min");
    reveal_strlit("low");
    reveal_strlit("default");
    reveal_strlit("high");
    reveal_strlit("urgent");
    reveal_strlit("max");
    assert(!crate::text::is_digit("min"@[0]));
    assert(!crate::text::is_digit("low"@[0]));
    assert(!crate::text::is_digit("default"@[0]));
    assert(!crate::text::is_digit("high"@[0]));
    assert(!crate::text::is_digit("urgent"@[0]));
    assert(!crate::text::is_digit("max"@[0]));
    assert(!ci_eq("low"@, "min"@)) by {
        assert(crate::text::lower_val("low"@[0]) != crate::text::lower_val("min"@[0]));
    }
    assert(!ci_eq("max"@, "min"@)) by {
        assert(crate::text::lower_val("max"@[1]) != crate::text::lower_val("min"@[1]));
    }
    assert(!ci_eq("max"@, "low"@)) by {
        assert(crate::text::lower_val("max"@[0]) != crate::text::lower_val("low"@[0]));
    }
}

/// The glyphs of the known shortcodes among `tags`, concatenated in order;
/// unknown shortcodes contribute nothing.
pub open spec fn glyphs_of(tags: Seq<Seq<char>>) -> Seq<char>
    decreases tags.len(),
{
    if tags.len() == 0 {
        Seq::empty()
    } else {
        (match emoji_glyph_of(tags[0]) {
            Some(g) => g,
            None => Seq::empty(),
        }) + glyphs_of(tags.skip(1))
    }
}

/// The delivered text of a notification: the title written bold above the
/// message, and the tags' glyphs written space-separated before it when any
/// resolve.
pub open spec fn decorated_spec(
    title: Option<Seq<char>>,
    message: Seq<char>,
    tags: Option<Seq<Seq<char>>>,
) -> Seq<char> {
    let with_title = match title {
        Some(t) => "**"@ + t + "**\n\n"@ + message,
        None => message,
    };
    match tags {
        Some(ts) => if glyphs_of(ts).len() > 0 {
            glyphs_of(ts) + " "@ + with_title
        } else {
            with_title
        },
        None => with_title,
    }
}

/// Resolves every tag through the shortcode table and concatenates the
/// glyphs found.
fn glyph_text(tags: &Vec<String>) -> (r: String)
    ensures
        r@ == glyphs_of(views_of(tags@)),
{
    let n = tags.len();
    let mut out = String::new();
    let mut i: usize = 0;
    proof {
        assert(views_of(tags@).skip(0) =~= views_of(tags@));
        assert(glyphs_of(views_of(tags@)) =~= out@ + glyphs_of(views_of(tags@).skip(0)));
    }
    while i < n
        invariant
            n == tags@.len(),
            i <= n,
            glyphs_of(views_of(tags@)) == out@ + glyphs_of(views_of(tags@).skip(i as int)),
        decreases n - i,
    {
        proof {
            assert(views_of(tags@).skip(i as int)[0] == tags@[i as int]@);
            assert(views_of(tags@).skip(i as int).skip(1) =~= views_of(tags@).skip(i + 1));
        }
        let ghost prev = out@;
        match emoji_lookup(tags[i].as_str()) {
            Some(g) => {
                out.append(g.as_str());
                proof {
                    assert(out@ == prev + emoji_glyph_of(tags@[i as int]@)->0);
                    assert(glyphs_of(views_of(tags@)) =~= out@ + glyphs_of(
                        views_of(tags@).skip(i + 1),
                    ));
                }
            },
            None => {
                proof {
                    assert(glyphs_of(views_of(tags@)) =~= out@ + glyphs_of(
                        views_of(tags@).skip(i + 1),
                    ));
                }
            },
        }
        i = i + 1;
    }
    proof {
        assert(views_of(tags@).skip(n as int).len() == 0);
        assert(glyphs_of(views_of(tags@)) =~= out@);
    }
    out
}

/// Law: decoration only writes ahead of the message — the message itself
/// stands unchanged at the end of the delivered text, whatever the title
/// and tags.
pub proof fn lemma_decoration_preserves_message(
    title: Option<Seq<char>>,
    message: Seq<char>,
    tags: Option<Seq<Seq<char>>>,
)
    ensures
        decorated_spec(title, message, tags).len() >= message.len(),
        decorated_spec(title, message, tags).subrange(
            decorated_spec(title, message, tags).len() - message.len(),
            decorated_spec(title, message, tags).len() as int,
        ) == message,
{
    let d = decorated_spec(title, message, tags);
    let with_title = match title {
        Some(t) => "**"@ + t + "**\n\n"@ + message,
        None => message,
    };
    assert(with_title.subrange(with_title.len() - message.len(), with_title.len() as int)
        =~= message);
    match tags {
        Some(ts) => {
            if glyphs_of(ts).len() > 0 {
                assert(d == glyphs_of(ts) + " "@ + with_title);
                assert(d.subrange(d.len() - message.len(), d.len() as int) =~= message);
            }
        },
        None => {},
    }
}

/// One notification, built once per call, consumed once.
#[derive(Clone, Debug)]
pub struct PokeRequest {
    /// Where the notification goes; always from the URL path.
    pub topic: String,
    /// Optional heading, later written above the message.
    pub title: Option<String>,
    /// The message body.
    pub message: String,
    /// Urgency, clamped into range when present.
    pub priority: Option<u8>,
    /// Shortcodes, later resolved to glyphs before the message.
    pub tags: Option<Vec<String>>,
}

/// The fields a JSON body can carry; the topic still comes from the path.
#[derive(Clone, Debug)]
pub struct PokeBody {
    pub title: Option<String>,
    pub message: String,
    pub priority: Option<u8>,
    pub tags: Option<Vec<String>>,
}

/// The view of an optional string.
pub open spec fn opt_view(o: Option<String>) -> Option<Seq<char>> {
    match o {
        Some(s) => Some(s@),
        None => None,
    }
}

/// The views of an optional list of strings.
pub open spec fn opt_views(o: Option<Vec<String>>) -> Option<Seq<Seq<char>>> {
    match o {
        Some(v) => Some(views_of(v@)),
        None => None,
    }
}

/// The topic named by the URL path: leading slashes dropped, then
/// percent-decoded; kept as it stands when decoding fails.
pub open spec fn topic_of(path: Seq<char>) -> Seq<char> {
    let t = strip_repeated(path, "/"@);
    match percent_decoded_of(t) {
        Some(d) => d,
        None => t,
    }
}

/// The title of a derived request: query first, then the header variants.
pub open spec fn title_of(
    qp: Seq<(Seq<char>, Seq<char>)>,
    h: Seq<(Seq<char>, Seq<char>)>,
) -> Option<Seq<char>> {
    match q_lookup(qp, "title"@) {
        Some(v) => Some(v),
        None => header_first(h, seq!["x-title"@, "title"@, "ti"@, "t"@]),
    }
}

/// The message of a derived request: query, then headers, then the body.
pub open spec fn message_of(
    qp: Seq<(Seq<char>, Seq<char>)>,
    h: Seq<(Seq<char>, Seq<char>)>,
    body: Seq<char>,
) -> Seq<char> {
    match q_lookup(qp, "message"@) {
        Some(v) => v,
        None => match header_first(h, seq!["x-message"@, "message"@, "m"@]) {
            Some(v) => v,
            None => body,
        },
    }
}

/// The priority of a derived request, when any source names one.
pub open spec fn priority_of(
    qp: Seq<(Seq<char>, Seq<char>)>,
    h: Seq<(Seq<char>, Seq<char>)>,
) -> Option<u8> {
    match q_lookup(qp, "priority"@) {
        Some(v) => Some(priority_of_text(v)),
        None => match header_first(h, seq!["x-priority"@, "priority"@, "prio"@, "p"@]) {
            Some(v) => Some(priority_of_text(v)),
            None => None,
        },
    }
}

/// The tag list of a derived request: the named text cut at commas.
pub open spec fn tags_of(
    qp: Seq<(Seq<char>, Seq<char>)>,
    h: Seq<(Seq<char>, Seq<char>)>,
) -> Option<Seq<Seq<char>>> {
    match q_lookup(qp, "tags"@) {
        Some(v) => Some(split_at_char(v, ',')),
        None => match header_first(h, seq!["x-tags"@, "tags"@, "tag"@, "ta"@]) {
            Some(v) => Some(split_at_char(v, ',')),
            None => None,
        },
    }
}

impl PokeRequest {
    /// Builds the one notification record of an inbound call. `json` holds
    /// the body's fields when the body was a JSON object carrying at least
    /// a message; those fields are taken verbatim, only the priority is
    /// clamped into range. Otherwise each field is derived independently:
    /// query parameter first, then the named header variants, and for the
    /// message the raw body last. The topic always comes from the path.
    pub fn from_request(
        json: Option<PokeBody>,
        path: &str,
        query: &str,
        headers: &Headers,
        body: &str,
    ) -> (r: PokeRequest)
        ensures
            r.topic@ == topic_of(path@),
            (match json {
                Some(b) => opt_view(r.title) == opt_view(b.title) && r.message@ == b.message@
                    && r.priority == (match b.priority {
                    Some(p) => Some(clamp_priority(p)),
                    None => None,
                }) && opt_views(r.tags) == opt_views(b.tags),
                None => opt_view(r.title) == title_of(query_pairs_of(query@), headers@)
                    && r.message@ == message_of(query_pairs_of(query@), headers@, body@)
                    && r.priority == priority_of(query_pairs_of(query@), headers@) && opt_views(
                    r.tags,
                ) == tags_of(query_pairs_of(query@), headers@),
            }),
    {
        let stripped = strip_repeated_str(path, "/");
        proof {
            reveal_strlit("/");
        }
        let topic = match url_decode(stripped) {
            Some(d) => d,
            None => stripped.to_owned(),
        };
        match json {
            Some(b) => {
                let priority = match b.priority {
                    Some(p) => Some(
                        if p < 1 {
                            1
                        } else if p > 5 {
                            5
                        } else {
                            p
                        },
                    ),
                    None => None,
                };
                PokeRequest { topic, title: b.title, message: b.message, priority, tags: b.tags }
            },
            None => {
                let qp = parse_query(query);
                let title_names: Vec<&str> = vec!["x-title", "title", "ti", "t"];
                let message_names: Vec<&str> = vec!["x-message", "message", "m"];
                let priority_names: Vec<&str> = vec!["x-priority", "priority", "prio", "p"];
                let tags_names: Vec<&str> = vec!["x-tags", "tags", "tag", "ta"];
                proof {
                    assert(strs_views(title_names@) =~= seq!["x-title"@, "title"@, "ti"@, "t"@]);
                    assert(strs_views(message_names@) =~= seq!["x-message"@, "message"@, "m"@]);
                    assert(strs_views(priority_names@) =~= seq![
                        "x-priority"@,
                        "priority"@,
                        "prio"@,
                        "p"@,
                    ]);
                    assert(strs_views(tags_names@) =~= seq!["x-tags"@, "tags"@, "tag"@, "ta"@]);
                }
                let title = match q_get(&qp, "title") {
                    Some(v) => Some(v),
                    None => headers.get_first(&title_names),
                };
                let message = match q_get(&qp, "message") {
                    Some(v) => v,
                    None => match headers.get_first(&message_names) {
                        Some(v) => v,
                        None => body.to_owned(),
                    },
                };
                let priority = match q_get(&qp, "priority") {
                    Some(v) => Some(priority_from_text(v.as_str())),
                    None => match headers.get_first(&priority_names) {
                        Some(v) => Some(priority_from_text(v.as_str())),
                        None => None,
                    },
                };
                let tags = match q_get(&qp, "tags") {
                    Some(v) => Some(split_str(v.as_str(), ',')),
                    None => match headers.get_first(&tags_names) {
                        Some(v) => Some(split_str(v.as_str(), ',')),
                        None => None,
                    },
                };
                PokeRequest { topic, title, message, priority, tags }
            },
        }
    }

    /// The message as delivered: the title, when one is present, written
    /// bold above the message; the glyphs of the known tags, when any
    /// resolve, written space-separated before it. Unknown shortcodes drop
    /// silently.
    pub fn decorated_message(&self) -> (m: String)
        ensures
            m@ == decorated_spec(opt_view(self.title), self.message@, opt_views(self.tags)),
    {
        let with_title = match &self.title {
            Some(t) => {
                let mut s = "**".to_owned();
                s.append(t.as_str());
                s.append("**\n\n");
                s.append(self.message.as_str());
                s
            },
            None => self.message.clone(),
        };
        match &self.tags {
            Some(tags) => {
                let glyphs = glyph_text(tags);
                if glyphs.as_str().unicode_len() > 0 {
                    let mut s = glyphs;
                    s.append(" ");
                    s.append(with_title.as_str());
                    s
                } else {
                    with_title
                }
            },
            None => with_title,
        }
    }

    /// Whether the notification pages with urgency.
    pub fn is_urgent(&self) -> (r: bool)
        ensures
            r == (self.priority is Some && self.priority->0 > 3),
    {
        match self.priority {
            Some(p) => p > 3,
            None => false,
        }
    }
}

} // verus!
