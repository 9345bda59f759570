//! The room resolver: a user-supplied name becomes a room, by raw id, by
//! configured nickname, or by alias scan across the joined rooms. Urgent
//! notifications probe an escalation room first and fall back to paging the
//! whole room.

use vstd::prelude::*;
use vstd::string::StringExecFns;
use crate::config::{table_lookup, RoomTable};
use crate::normalize::opt_view;
use crate::text::{chars_of, str_eq};

verus! {

/// Where this session stands in a room.
#[derive(Clone, Copy, Debug, PartialEq, Eq, Structural)]
pub enum RoomState {
    Joined,
    Invited,
    Left,
}

/// One room the session knows, as the surrounding program snapshots it.
#[derive(Clone, Debug)]
pub struct RoomEntry {
    /// The room's native id.
    pub id: String,
    /// Its canonical alias, when it has one.
    pub canonical_alias: Option<String>,
    /// Its alternate aliases.
    pub alt_aliases: Vec<String>,
    /// Whether the session has joined, is invited, or has left.
    pub state: RoomState,
}

/// A colon followed somewhere later by a dot, both at or after `from`.
pub open spec fn has_colon_then_dot(s: Seq<char>, from: int) -> bool {
    exists|i: int, j: int| from <= i < j < s.len() && s[i] == ':' && s[j] == '.'
}

/// The shape of a native room id: the `!` sigil, then a colon for the
/// server part.
pub open spec fn is_room_id_shape(s: Seq<char>) -> bool {
    s.len() >= 1 && s[0] == '!' && (exists|i: int| 1 <= i < s.len() && s[i] == ':')
}

/// The shape of a user identifier: the `@` sigil, a colon, then a dotted
/// server part.
pub open spec fn is_user_shape(s: Seq<char>) -> bool {
    s.len() >= 1 && s[0] == '@' && has_colon_then_dot(s, 1)
}

/// The shape of a room alias: the `#` sigil, a colon, then a dotted server
/// part.
pub open spec fn is_alias_shape(s: Seq<char>) -> bool {
    s.len() >= 1 && s[0] == '#' && has_colon_then_dot(s, 1)
}

/// Whether a colon stands anywhere at or after `from`.
fn find_colon(v: &Vec<char>, from: usize) -> (r: bool)
    ensures
        r == exists|i: int| from <= i < v@.len() && v@[i] == ':',
{
    let n = v.len();
    let mut i: usize = from;
    while i < n
        invariant
            n == v@.len(),
            i >= from,
            forall|j: int| from <= j < i ==> v@[j] != ':',
        decreases n - i,
    {
        if v[i] == ':' {
            return true;
        }
        i = i + 1;
    }
    false
}

/// Whether a colon and a later dot stand at or after `from`.
fn find_colon_then_dot(v: &Vec<char>, from: usize) -> (r: bool)
    ensures
        r == has_colon_then_dot(v@, from as int),
{
    let n = v.len();
    let mut i: usize = from;
    while i < n
        invariant
            n == v@.len(),
            i >= from,
            forall|j: int| from <= j < i ==> v@[j] != ':',
        decreases n - i,
    {
        if v[i] == ':' {
            // search for a dot after the first colon
            let mut k: usize = i + 1;
            while k < n
                invariant
                    n == v@.len(),
                    k >= i + 1,
                    i < n,
                    v@[i as int] == ':',
                    from <= i,
                    forall|j: int| i < j < k ==> v@[j] != '.',
                    forall|j: int| from <= j < i ==> v@[j] != ':',
                decreases n - k,
            {
                if v[k] == '.' {
                    return true;
                }
                k = k + 1;
            }
            proof {
                if has_colon_then_dot(v@, from as int) {
                    let (ci, dj) = choose|ci: int, dj: int|
                        from <= ci < dj < v@.len() && v@[ci] == ':' && v@[dj] == '.';
                    assert(ci >= i);
                    assert(v@[dj] != '.');
                }
            }
            return false;
        }
        i = i + 1;
    }
    proof {
        if has_colon_then_dot(v@, from as int) {
            let (ci, dj) = choose|ci: int, dj: int|
                from <= ci < dj < v@.len() && v@[ci] == ':' && v@[dj] == '.';
            assert(v@[ci] != ':');
        }
    }
    false
}

/// The first room whose id is exactly `name`, in any membership state.
pub open spec fn id_index(rooms: Seq<RoomEntry>, name: Seq<char>) -> Option<int>
    decreases rooms.len(),
{
    if rooms.len() == 0 {
        None
    } else if rooms[0].id@ == name {
        Some(0)
    } else {
        match id_index(rooms.skip(1), name) {
            Some(i) => Some(i + 1),
            None => None,
        }
    }
}

/// Whether a joined room answers to the alias `name`, canonical or
/// alternate.
pub open spec fn entry_alias_match(e: RoomEntry, name: Seq<char>) -> bool {
    e.state is Joined && ((e.canonical_alias is Some && e.canonical_alias->0@ == name) || (
    exists|k: int| 0 <= k < e.alt_aliases@.len() && e.alt_aliases@[k]@ == name))
}

/// The first joined room answering to the alias `name`.
pub open spec fn alias_index(rooms: Seq<RoomEntry>, name: Seq<char>) -> Option<int>
    decreases rooms.len(),
{
    if rooms.len() == 0 {
        None
    } else if entry_alias_match(rooms[0], name) {
        Some(0)
    } else {
        match alias_index(rooms.skip(1), name) {
            Some(i) => Some(i + 1),
            None => None,
        }
    }
}

/// Where `name` resolves among the known rooms: by raw id first; a name
/// shaped like a user identifier is refused; anything else is read as an
/// alias, the sigil supplied when absent, and looked for among the joined
/// rooms — but only when it names a domain.
pub open spec fn resolve_spec(name: Seq<char>, rooms: Seq<RoomEntry>) -> Option<int> {
    if name.len() == 0 {
        None
    } else if is_room_id_shape(name) {
        id_index(rooms, name)
    } else if is_user_shape(name) {
        None
    } else {
        let n2 = if name[0] == '#' {
            name
        } else {
            "#"@ + name
        };
        if is_alias_shape(n2) {
            alias_index(rooms, n2)
        } else {
            None
        }
    }
}

/// Translates a provided room name into the index of a known room: by id,
/// or by any of its aliases, main or alternate.
pub fn get_room_from_name(name: &str, rooms: &Vec<RoomEntry>) -> (r: Option<usize>)
    ensures
        r is Some <==> resolve_spec(name@, rooms@) is Some,
        r is Some ==> Some(r->0 as int) == resolve_spec(name@, rooms@),
        r is Some ==> r->0 < rooms@.len(),
{
    proof {
        reveal_strlit("#");
    }
    let v = chars_of(name);
    if v.len() == 0 {
        return None;
    }
    if v[0] == '!' && find_colon(&v, 1) {
        // a native room id: look it up directly, in any state
        proof {
            assert(is_room_id_shape(name@));
        }
        let n = rooms.len();
        let mut i: usize = 0;
        proof {
            assert(rooms@.skip(0) =~= rooms@);
        }
        while i < n
            invariant
                n == rooms@.len(),
                i <= n,
                is_room_id_shape(name@),
                name@.len() > 0,
                id_index(rooms@, name@) == (match id_index(rooms@.skip(i as int), name@) {
                    Some(y) => Some(y + i),
                    None => None::<int>,
                }),
            decreases n - i,
        {
            proof {
                assert(rooms@.skip(i as int)[0] == rooms@[i as int]);
                assert(rooms@.skip(i as int).skip(1) =~= rooms@.skip(i + 1));
            }
            if str_eq(rooms[i].id.as_str(), name) {
                proof {
                    assert(id_index(rooms@.skip(i as int), name@) == Some(0int));
                    assert(resolve_spec(name@, rooms@) == Some(i as int));
                }
                return Some(i);
            }
            i = i + 1;
        }
        proof {
            assert(rooms@.skip(n as int).len() == 0);
        }
        return None;
    }
    if v[0] == '@' && find_colon_then_dot(&v, 1) {
        // shaped like a user identifier: unsupported
        return None;
    }
    let name2: String = if v[0] == '#' {
        name.to_owned()
    } else {
        "#".to_owned().concat(name)
    };
    let v2 = chars_of(name2.as_str());
    proof {
        if name@[0] != '#' {
            assert(v2@ == "#"@ + name@);
            assert(v2@[0] == '#');
        }
        assert(!is_room_id_shape(name@));
    }
    if !find_colon_then_dot(&v2, 1) {
        return None;
    }
    let ghost n2 = if name@[0] == '#' {
        name@
    } else {
        "#"@ + name@
    };
    proof {
        assert(v2@ == name2@);
        assert(name2@ == n2);
        assert(is_alias_shape(n2));
        assert(resolve_spec(name@, rooms@) == alias_index(rooms@, name2@));
    }
    let n = rooms.len();
    let mut i: usize = 0;
    proof {
        assert(rooms@.skip(0) =~= rooms@);
    }
    while i < n
        invariant
            n == rooms@.len(),
            i <= n,
            resolve_spec(name@, rooms@) == alias_index(rooms@, name2@),
            alias_index(rooms@, name2@) == (match alias_index(rooms@.skip(i as int), name2@) {
                Some(y) => Some(y + i),
                None => None::<int>,
            }),
        decreases n - i,
    {
        proof {
            assert(rooms@.skip(i as int)[0] == rooms@[i as int]);
            assert(rooms@.skip(i as int).skip(1) =~= rooms@.skip(i + 1));
        }
        let hit = room_answers_to(&rooms[i], name2.as_str());
        if hit {
            proof {
                assert(alias_index(rooms@.skip(i as int), name2@) == Some(0int));
            }
            return Some(i);
        }
        i = i + 1;
    }
    proof {
        assert(rooms@.skip(n as int).len() == 0);
    }
    None
}

/// Whether one joined room answers to the given alias.
fn room_answers_to(e: &RoomEntry, name: &str) -> (r: bool)
    ensures
        r == entry_alias_match(*e, name@),
{
    let joined = match e.state {
        RoomState::Joined => true,
        _ => false,
    };
    if !joined {
        return false;
    }
    match &e.canonical_alias {
        Some(a) => {
            if str_eq(a.as_str(), name) {
                proof {
                    assert(e.state is Joined);
                    assert(e.canonical_alias is Some && e.canonical_alias->0@ == name@);
                    assert(entry_alias_match(*e, name@));
                }
                return true;
            }
        },
        None => {},
    }
    let n = e.alt_aliases.len();
    let mut k: usize = 0;
    while k < n
        invariant
            n == e.alt_aliases@.len(),
            k <= n,
            e.state is Joined,
            forall|j: int| 0 <= j < k ==> e.alt_aliases@[j]@ != name@,
        decreases n - k,
    {
        if str_eq(e.alt_aliases[k].as_str(), name) {
            proof {
                assert(e.alt_aliases@[k as int]@ == name@);
            }
            return true;
        }
        k = k + 1;
    }
    proof {
        if exists|j: int| 0 <= j < e.alt_aliases@.len() && e.alt_aliases@[j]@ == name@ {
            let j = choose|j: int| 0 <= j < e.alt_aliases@.len() && e.alt_aliases@[j]@ == name@;
            assert(false);
        }
    }
    false
}

/// Where a notification topic goes and whether the whole room is paged:
/// an urgent poke probes the `<topic>-urgent` nickname first and, failing
/// that, falls back to the plain nickname — or the topic itself — while
/// paging everyone; a plain poke takes the nickname when one is set.
pub open spec fn resolve_topic_spec(
    topic: Seq<char>,
    urgent: bool,
    table: Option<Seq<(Seq<char>, Seq<char>)>>,
) -> (Seq<char>, bool) {
    match table {
        None => (topic, urgent),
        Some(t) => if urgent {
            match table_lookup(t, topic + "-urgent"@) {
                Some(id) => (id, false),
                None => match table_lookup(t, topic) {
                    Some(id) => (id, true),
                    None => (topic, true),
                },
            }
        } else {
            match table_lookup(t, topic) {
                Some(id) => (id, false),
                None => (topic, false),
            }
        },
    }
}

/// The view of an optional nickname table.
pub open spec fn table_view(t: Option<RoomTable>) -> Option<Seq<(Seq<char>, Seq<char>)>> {
    match t {
        Some(tv) => Some(tv@),
        None => None,
    }
}

/// Maps a topic through the nickname table, probing the escalation room
/// first when the poke is urgent; the second value says whether the whole
/// room is to be paged.
pub fn resolve_topic(topic: &str, urgent: bool, table: &Option<RoomTable>) -> (r: (String, bool))
    ensures
        (r.0@, r.1) == resolve_topic_spec(topic@, urgent, table_view(*table)),
{
    match table {
        None => (topic.to_owned(), urgent),
        Some(t) => {
            if urgent {
                let key = topic.to_owned().concat("-urgent");
                match t.get(key.as_str()) {
                    Some(id) => (id, false),
                    None => match t.get(topic) {
                        Some(id) => (id, true),
                        None => (topic.to_owned(), true),
                    },
                }
            } else {
                match t.get(topic) {
                    Some(id) => (id, false),
                    None => (topic.to_owned(), false),
                }
            }
        },
    }
}

/// Which room a command-line invocation means: an explicitly named room is
/// mapped through the nickname table; otherwise the first word of the
/// message is taken when it is id-shaped or a nickname, consuming it; else
/// the `default` nickname stands in. `None` means no room was named
/// anywhere; the second value says whether the first word was consumed.
pub open spec fn pick_room_spec(
    named: Option<Seq<char>>,
    first_word: Option<Seq<char>>,
    table: Option<Seq<(Seq<char>, Seq<char>)>>,
) -> Option<(Seq<char>, bool)> {
    let t = match table {
        Some(tv) => tv,
        None => Seq::empty(),
    };
    match named {
        Some(room) => match table_lookup(t, room) {
            Some(id) => Some((id, false)),
            None => Some((room, false)),
        },
        None => match first_word {
            None => match table_lookup(t, "default"@) {
                Some(id) => Some((id, false)),
                None => None,
            },
            Some(w) => if has_colon_then_dot(w, 0) {
                Some((w, true))
            } else {
                match table_lookup(t, w) {
                    Some(id) => Some((id, true)),
                    None => match table_lookup(t, "default"@) {
                        Some(id) => Some((id, false)),
                        None => None,
                    },
                }
            },
        },
    }
}

/// Picks the target room of a command-line invocation; the flag in the
/// result says whether the message's first word named the room and is to
/// be dropped from the message.
pub fn pick_room_from_args(
    named: &Option<String>,
    first_word: &Option<String>,
    table: &Option<RoomTable>,
) -> (r: Option<(String, bool)>)
    ensures
        r is Some <==> pick_room_spec(opt_view(*named), opt_view(*first_word), table_view(*table))
            is Some,
        r is Some ==> Some(((r->0).0@, (r->0).1)) == pick_room_spec(
            opt_view(*named),
            opt_view(*first_word),
            table_view(*table),
        ),
{
    let empty_table = RoomTable::new();
    let t: &RoomTable = match table {
        Some(tv) => tv,
        None => &empty_table,
    };
    proof {
        assert(t@ =~= (match table_view(*table) {
            Some(tv) => tv,
            None => Seq::<(Seq<char>, Seq<char>)>::empty(),
        }));
    }
    match named {
        Some(room) => match t.get(room.as_str()) {
            Some(id) => Some((id, false)),
            None => Some((room.clone(), false)),
        },
        None => match first_word {
            None => match t.get("default") {
                Some(id) => Some((id, false)),
                None => None,
            },
            Some(w) => {
                let wv = chars_of(w.as_str());
                if find_colon_then_dot(&wv, 0) {
                    Some((w.clone(), true))
                } else {
                    match t.get(w.as_str()) {
                        Some(id) => Some((id, true)),
                        None => match t.get("default") {
                            Some(id) => Some((id, false)),
                            None => None,
                        },
                    }
                }
            },
        },
    }
}

/// Law: an urgent poke resolves to the escalation room when the table
/// files one, paging nobody in particular; with only the plain nickname
/// on file it resolves there and pages the whole room, so an urgent page
/// with no escalation room still pages everyone.
pub proof fn lemma_urgent_fallback(topic: Seq<char>, t: Seq<(Seq<char>, Seq<char>)>)
    ensures
        table_lookup(t, topic + "-urgent"@) is Some ==> resolve_topic_spec(topic, true, Some(t))
            == (table_lookup(t, topic + "-urgent"@)->0, false),
        table_lookup(t, topic + "-urgent"@) is None && table_lookup(t, topic) is Some
            ==> resolve_topic_spec(topic, true, Some(t)) == (table_lookup(t, topic)->0, true),
        table_lookup(t, topic + "-urgent"@) is None && table_lookup(t, topic) is None
            ==> resolve_topic_spec(topic, true, Some(t)) == (topic, true),
{
}

} // verus!
