//! Configuration records for the relay: connection settings, daemon
//! settings, the nickname table mapping room names to room ids, and the
//! per-room settings kept in room tags.

use vstd::prelude::*;
use crate::text::str_eq;

verus! {

/// Where a relay daemon that should be called on our behalf listens.
#[derive(Clone, Debug)]
pub struct ServerConfig {
    /// Server URL.
    pub url: String,
    /// Optional port.
    pub port: Option<u16>,
}

/// How the daemon itself binds its listener.
#[derive(Clone, Debug)]
pub struct DaemonConfig {
    /// IP to bind on; a missing value means every interface.
    pub addr: Option<String>,
    /// Port to bind on; a missing value means port 80.
    pub port: Option<u16>,
}

/// How the chat session is opened and how commands are addressed.
#[derive(Clone, Debug)]
pub struct MatrixConfig {
    /// Homeserver to log into.
    pub homeserver_url: String,
    /// Account name.
    pub username: String,
    /// Account password; asked for elsewhere when missing.
    pub password: Option<String>,
    /// Allow list of accounts answered to.
    pub allow_list: Option<String>,
    /// Ceiling on the member count of rooms that are messaged.
    pub room_size_limit: Option<usize>,
    /// State directory.
    pub state_dir: Option<String>,
    /// Prefix that chat commands start with; a missing value means the
    /// default prefix.
    pub command_prefix: Option<String>,
    /// Default message format when no header picks one.
    pub format: Option<String>,
}

/// The nickname table: room names mapped to room ids, first entry winning.
#[derive(Clone, Debug)]
pub struct RoomTable {
    pub entries: Vec<(String, String)>,
}

impl View for RoomTable {
    type V = Seq<(Seq<char>, Seq<char>)>;

    open spec fn view(&self) -> Seq<(Seq<char>, Seq<char>)> {
        Seq::new(self.entries@.len(), |i: int| (self.entries@[i].0@, self.entries@[i].1@))
    }
}

/// The id filed under `name`, the first matching entry winning.
pub open spec fn table_lookup(t: Seq<(Seq<char>, Seq<char>)>, name: Seq<char>) -> Option<Seq<char>>
    decreases t.len(),
{
    if t.len() == 0 {
        None
    } else if t[0].0 == name {
        Some(t[0].1)
    } else {
        table_lookup(t.skip(1), name)
    }
}

impl RoomTable {
    /// An empty table.
    pub fn new() -> (r: RoomTable)
        ensures
            r@ =~= Seq::<(Seq<char>, Seq<char>)>::empty(),
    {
        RoomTable { entries: Vec::new() }
    }

    /// Appends one name/id pair.
    pub fn push(&mut self, name: String, id: String)
        ensures
            final(self)@ =~= old(self)@.push((name@, id@)),
    {
        self.entries.push((name, id));
    }

    /// Looks a room id up by its configured name.
    pub fn get(&self, name: &str) -> (r: Option<String>)
        ensures
            r is Some <==> table_lookup(self@, name@) is Some,
            r is Some ==> r->0@ == table_lookup(self@, name@)->0,
    {
        let n = self.entries.len();
        let mut i: usize = 0;
        proof {
            assert(self@.skip(0) =~= self@);
        }
        while i < n
            invariant
                n == self.entries@.len(),
                i <= n,
                table_lookup(self@, name@) == table_lookup(self@.skip(i as int), name@),
            decreases n - i,
        {
            let hit = str_eq(self.entries[i].0.as_str(), name);
            proof {
                assert(self@.skip(i as int)[0] == self@[i as int]);
            }
            if hit {
                return Some(self.entries[i].1.clone());
            }
            proof {
                assert(self@.skip(i as int).skip(1) =~= self@.skip(i + 1));
            }
            i = i + 1;
        }
        proof {
            assert(self@.skip(n as int).len() == 0);
        }
        None
    }
}

/// Everything the relay is started with.
#[derive(Clone, Debug)]
pub struct Config {
    /// Chat session settings; present when the relay logs in itself.
    pub matrix: Option<MatrixConfig>,
    /// A remote relay daemon to call instead of logging in.
    pub server: Option<ServerConfig>,
    /// Listener settings for daemon mode.
    pub daemon: Option<DaemonConfig>,
    /// The nickname table.
    pub rooms: Option<RoomTable>,
}

impl Default for Config {
    /// A configuration with nothing set.
    fn default() -> (r: Config)
        ensures
            r.matrix is None && r.server is None && r.daemon is None && r.rooms is None,
    {
        Config { matrix: None, server: None, daemon: None, rooms: None }
    }
}

/// The view of an optional stored token.
pub open spec fn token_view(auth: Option<String>) -> Option<Seq<char>> {
    match auth {
        Some(t) => Some(t@),
        None => None,
    }
}

/// Settings of a single room, carried in its tags.
#[derive(Clone, Debug)]
pub struct RoomConfig {
    /// Whether the room refuses notifications.
    pub block: bool,
    /// Token a poke must present before it is delivered.
    pub auth: Option<String>,
}

impl Default for RoomConfig {
    /// A room with nothing set: not blocked, no token asked for.
    fn default() -> (r: RoomConfig)
        ensures
            r.block == false && r.auth is None,
    {
        RoomConfig { block: false, auth: None }
    }
}

/// The prefix chat commands are addressed with: the configured one, or the
/// well-known default.
pub fn get_command_prefix(config: &MatrixConfig) -> (r: String)
    ensures
        config.command_prefix is Some ==> r@ == config.command_prefix->0@,
        config.command_prefix is None ==> r@ == "!pokem"@,
{
    match &config.command_prefix {
        Some(p) => p.clone(),
        None => "!pokem".to_owned(),
    }
}

/// Where the daemon's listener binds: the configured address and port,
/// with every interface and the plain web port standing in when they are
/// not set.
pub fn bind_address(daemon: &Option<DaemonConfig>) -> (r: (String, u16))
    ensures
        r.0@ == (match daemon {
            Some(d) => match d.addr {
                Some(a) => a@,
                None => "0.0.0.0"@,
            },
            None => "0.0.0.0"@,
        }),
        r.1 == (match daemon {
            Some(d) => match d.port {
                Some(p) => p,
                None => 80u16,
            },
            None => 80u16,
        }),
{
    match daemon {
        Some(d) => {
            let addr = match &d.addr {
                Some(a) => a.clone(),
                None => "0.0.0.0".to_owned(),
            };
            let port = match d.port {
                Some(p) => p,
                None => 80,
            };
            (addr, port)
        },
        None => ("0.0.0.0".to_owned(), 80),
    }
}

} // verus!
