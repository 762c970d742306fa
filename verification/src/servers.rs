//! Saved game servers. On disk a server is kept in a flat form; in memory it
//! is either a plain address with a fixed version or a web endpoint that
//! tells the launcher its address and versions.
use vstd::prelude::*;
use crate::ids::{is_random_uuid, new_random_uuid, Uuid};
use crate::seqs::{first_index, lemma_first_index, lemma_first_index_at, lemma_first_index_none};
use crate::versions::clone_opt_string;

verus! {

/// How the launcher reaches a server.
#[derive(Debug)]
pub enum ServerInfo {
    /// A game server at a fixed address, played with a fixed version.
    Simple { ip: String, version: String },
    /// A web endpoint that serves the server's details; the user may prefer one
    /// of its versions.
    Endpoint { endpoint: String, preferred_version: Option<String> },
}

impl Clone for ServerInfo {
    fn clone(&self) -> (r: Self)
        ensures
            r == *self,
    {
        match self {
            ServerInfo::Simple { ip, version } => ServerInfo::Simple {
                ip: ip.clone(),
                version: version.clone(),
            },
            ServerInfo::Endpoint { endpoint, preferred_version } => ServerInfo::Endpoint {
                endpoint: endpoint.clone(),
                preferred_version: clone_opt_string(preferred_version),
            },
        }
    }
}

/// A saved server in the flat form it is stored in.
#[derive(Debug)]
pub struct FlatServer {
    pub uuid: Uuid,
    pub description: Option<String>,
    pub ip: Option<String>,
    pub version: Option<String>,
    pub endpoint: Option<String>,
}

/// All saved servers and the user's favourites, in the flat form they are stored in.
#[derive(Debug)]
pub struct FlatServers {
    pub servers: Vec<FlatServer>,
    pub favorites: Vec<Uuid>,
}

/// A saved server.
#[derive(Debug)]
pub struct Server {
    pub uuid: Uuid,
    pub description: Option<String>,
    pub info: ServerInfo,
}

impl Clone for Server {
    fn clone(&self) -> (r: Self)
        ensures
            r == *self,
    {
        Server {
            uuid: self.uuid,
            description: clone_opt_string(&self.description),
            info: self.info.clone(),
        }
    }
}

/// All saved servers, in order, and the user's favourites.
#[derive(Debug)]
pub struct Servers {
    pub servers: Vec<Server>,
    pub favorites: Vec<Uuid>,
}

/// The flat form of a server: a plain server keeps its address in `ip` and
/// its version in `version`; an endpoint keeps its address in `endpoint` and
/// its preferred version, if any, in `version`.
pub open spec fn flat_of(server: Server) -> FlatServer {
    match server.info {
        ServerInfo::Simple { ip, version } => FlatServer {
            uuid: server.uuid,
            description: server.description,
            ip: Some(ip),
            version: Some(version),
            endpoint: None,
        },
        ServerInfo::Endpoint { endpoint, preferred_version } => FlatServer {
            uuid: server.uuid,
            description: server.description,
            ip: None,
            version: preferred_version,
            endpoint: Some(endpoint),
        },
    }
}

impl From<Server> for FlatServer {
    fn from(server: Server) -> (r: Self) {
        let uuid = server.uuid;
        let description = server.description;
        match server.info {
            ServerInfo::Simple { ip, version } => FlatServer {
                uuid,
                description,
                ip: Some(ip),
                version: Some(version),
                endpoint: None,
            },
            ServerInfo::Endpoint { endpoint, preferred_version } => FlatServer {
                uuid,
                description,
                ip: None,
                version: preferred_version,
                endpoint: Some(endpoint),
            },
        }
    }
}

impl vstd::std_specs::convert::FromSpecImpl<Server> for FlatServer {
    open spec fn obeys_from_spec() -> bool {
        true
    }

    open spec fn from_spec(server: Server) -> FlatServer {
        flat_of(server)
    }
}

impl FlatServer {
    /// A flat server can be read back: it has an endpoint, or else both an
    /// address and a version.
    pub open spec fn readable(self) -> bool {
        self.endpoint is Some || (self.ip is Some && self.version is Some)
    }

    /// Whether the flat server can be read back.
    pub fn is_readable(&self) -> (b: bool)
        ensures
            b == self.readable(),
    {
        self.endpoint.is_some() || (self.ip.is_some() && self.version.is_some())
    }
}

/// The server a readable flat server stands for: an endpoint wherever
/// `endpoint` is set (any `ip` is then ignored), a plain server otherwise.
pub open spec fn server_of(flat: FlatServer) -> Server
    recommends
        flat.readable(),
{
    Server {
        uuid: flat.uuid,
        description: flat.description,
        info: match flat.endpoint {
            Some(endpoint) => ServerInfo::Endpoint { endpoint, preferred_version: flat.version },
            None => ServerInfo::Simple { ip: flat.ip.unwrap(), version: flat.version.unwrap() },
        },
    }
}

impl Server {
    /// Reads back a flat server.
    pub fn from_flat(flat: FlatServer) -> (r: Server)
        requires
            flat.readable(),
        ensures
            r == server_of(flat),
    {
        let info = match flat.endpoint {
            Some(endpoint) => ServerInfo::Endpoint { endpoint, preferred_version: flat.version },
            None => ServerInfo::Simple {
                ip: flat.ip.unwrap(),
                version: flat.version.unwrap(),
            },
        };
        Server { uuid: flat.uuid, description: flat.description, info }
    }

    /// The server's description.
    pub fn get_description(&self) -> (r: Option<String>)
        ensures
            r == self.description,
    {
        clone_opt_string(&self.description)
    }
}

/// A flat server written by `flat_of`: it never has both an address and an endpoint.
pub open spec fn canonical(flat: FlatServer) -> bool {
    flat.readable() && !(flat.endpoint is Some && flat.ip is Some)
}

/// Storing a server in flat form and reading it back gives the same server.
pub proof fn lemma_server_flat_round_trip(server: Server)
    ensures
        flat_of(server).readable(),
        server_of(flat_of(server)) == server,
{
}

/// Reading back a canonical flat server and storing it again gives the same
/// flat server; every flat server that `flat_of` writes is canonical.
pub proof fn lemma_flat_server_round_trip(flat: FlatServer)
    requires
        canonical(flat),
    ensures
        flat_of(server_of(flat)) == flat,
{
}

/// The flat forms of a list of servers.
pub open spec fn flat_list(servers: Seq<Server>) -> Seq<FlatServer> {
    servers.map_values(|s: Server| flat_of(s))
}

/// The servers that a list of readable flat servers stands for.
pub open spec fn server_list(flats: Seq<FlatServer>) -> Seq<Server> {
    flats.map_values(|f: FlatServer| server_of(f))
}

impl Servers {
    /// No servers and no favourites.
    pub fn new_empty() -> (r: Self)
        ensures
            r.servers@.len() == 0,
            r.favorites@.len() == 0,
    {
        Servers { servers: Vec::new(), favorites: Vec::new() }
    }

    /// The flat form of all servers, in order, with the favourites.
    pub fn to_flat(self) -> (r: FlatServers)
        ensures
            r.servers@ == flat_list(self.servers@),
            r.favorites == self.favorites,
    {
        let mut flats: Vec<FlatServer> = Vec::new();
        let mut k: usize = 0;
        while k < self.servers.len()
            invariant
                k <= self.servers.len(),
                flats@ == flat_list(self.servers@.take(k as int)),
            decreases self.servers.len() - k,
        {
            let s = self.servers[k].clone();
            flats.push(FlatServer::from(s));
            assert(flats@ =~= flat_list(self.servers@.take(k + 1)));
            k = k + 1;
        }
        assert(self.servers@.take(k as int) =~= self.servers@);
        FlatServers { servers: flats, favorites: self.favorites }
    }

    /// Reads back servers stored in flat form; every one must be readable.
    pub fn from_flat(flat: FlatServers) -> (r: Servers)
        requires
            forall|k: int| 0 <= k < flat.servers@.len() ==> (#[trigger] flat.servers@[k]).readable(),
        ensures
            r.servers@ == server_list(flat.servers@),
            r.favorites == flat.favorites,
    {
        let FlatServers { servers: flats, favorites } = flat;
        let ghost orig = flats@;
        let mut rest = flats;
        let mut rev: Vec<Server> = Vec::new();
        while rest.len() > 0
            invariant
                orig.len() == rest@.len() + rev@.len(),
                rest@ == orig.take(rest@.len() as int),
                forall|k: int| 0 <= k < orig.len() ==> (#[trigger] orig[k]).readable(),
                forall|k: int| 0 <= k < rev@.len() ==> #[trigger] rev@[k] == server_of(orig[orig.len() - 1 - k]),
            decreases rest.len(),
        {
            let ghost n: int = rest@.len() as int;
            let f = rest.pop().unwrap();
            assert(f == orig[n - 1]);
            assert(rest@ =~= orig.take(n - 1));
            rev.push(Server::from_flat(f));
        }
        let mut servers: Vec<Server> = Vec::new();
        while rev.len() > 0
            invariant
                orig.len() == rev@.len() + servers@.len(),
                forall|k: int| 0 <= k < rev@.len() ==> #[trigger] rev@[k] == server_of(orig[orig.len() - 1 - k]),
                servers@ == server_list(orig.take(servers@.len() as int)),
            decreases rev.len(),
        {
            let ghost n: int = servers@.len() as int;
            let s = rev.pop().unwrap();
            servers.push(s);
            assert(orig.take(n + 1).drop_last() =~= orig.take(n));
            assert(servers@ =~= server_list(orig.take(n + 1)));
        }
        assert(orig.take(orig.len() as int) =~= orig);
        Servers { servers, favorites }
    }
}

/// Storing all servers in flat form and reading them back gives the same
/// servers, in the same order, with the same favourites.
pub proof fn lemma_servers_flat_round_trip(servers: Seq<Server>)
    ensures
        forall|k: int| 0 <= k < flat_list(servers).len() ==> (#[trigger] flat_list(servers)[k]).readable(),
        server_list(flat_list(servers)) == servers,
{
    assert(server_list(flat_list(servers)) =~= servers);
}

/// What the user gives to add a server: a description and either an
/// endpoint or an address with a version.
#[derive(Debug)]
pub struct NewServerDetails {
    pub description: String,
    pub ip: Option<String>,
    pub version: Option<String>,
    pub endpoint: Option<String>,
}

/// Whether a server has UUID `uuid`.
pub open spec fn server_has_uuid(uuid: Uuid) -> spec_fn(Server) -> bool {
    |s: Server| s.uuid == uuid
}

/// Whether some server of `list` has UUID `uuid`.
pub open spec fn lists_uuid(list: Seq<Server>, uuid: Uuid) -> bool {
    exists|k: int| 0 <= k < list.len() && list[k].uuid == uuid
}

/// `mine` with the servers of `other` added at the end, in order, each only
/// if no server already there (including one added just before) has its UUID.
pub open spec fn merged(mine: Seq<Server>, other: Seq<Server>) -> Seq<Server>
    decreases other.len(),
{
    if other.len() == 0 {
        mine
    } else {
        let m = merged(mine, other.drop_last());
        if lists_uuid(m, other.last().uuid) {
            m
        } else {
            m.push(other.last())
        }
    }
}

/// The servers of `list` whose UUID is not `uuid`, in order.
pub open spec fn without_server(list: Seq<Server>, uuid: Uuid) -> Seq<Server>
    decreases list.len(),
{
    if list.len() == 0 {
        Seq::empty()
    } else {
        let r = without_server(list.drop_last(), uuid);
        if list.last().uuid == uuid {
            r
        } else {
            r.push(list.last())
        }
    }
}

/// The server that `details` describe, under UUID `uuid`: an endpoint where
/// an endpoint is given, a plain server otherwise.
pub open spec fn new_server(uuid: Uuid, details: NewServerDetails) -> Server {
    Server {
        uuid,
        description: Some(details.description),
        info: match details.endpoint {
            Some(endpoint) => ServerInfo::Endpoint { endpoint, preferred_version: None },
            None => ServerInfo::Simple { ip: details.ip.unwrap(), version: details.version.unwrap() },
        },
    }
}

/// Why a server could not be updated.
#[derive(Debug, PartialEq, Eq, Structural)]
pub enum ServerError {
    /// No saved server has this UUID.
    NotFound(Uuid),
}

fn contains_uuid(list: &Vec<Server>, uuid: Uuid) -> (b: bool)
    ensures
        b == lists_uuid(list@, uuid),
{
    let mut k: usize = 0;
    while k < list.len()
        invariant
            k <= list.len(),
            forall|m: int| 0 <= m < k ==> list@[m].uuid != uuid,
        decreases list.len() - k,
    {
        if list[k].uuid == uuid {
            return true;
        }
        k = k + 1;
    }
    false
}

impl Servers {
    /// Adds the servers of `other` whose UUID is not yet saved (see
    /// `merged`) and returns how many were added.
    pub fn merge(&mut self, other: &Servers) -> (count: usize)
        ensures
            final(self).servers@ == merged(old(self).servers@, other.servers@),
            count == final(self).servers@.len() - old(self).servers@.len(),
            final(self).favorites == old(self).favorites,
    {
        let mut count: usize = 0;
        let mut k: usize = 0;
        while k < other.servers.len()
            invariant
                k <= other.servers.len(),
                self.servers@ == merged(old(self).servers@, other.servers@.take(k as int)),
                count == self.servers@.len() - old(self).servers@.len(),
                count <= k,
                self.favorites == old(self).favorites,
            decreases other.servers.len() - k,
        {
            assert(other.servers@.take(k + 1).drop_last() =~= other.servers@.take(k as int));
            if !contains_uuid(&self.servers, other.servers[k].uuid) {
                self.servers.push(other.servers[k].clone());
                count = count + 1;
            }
            k = k + 1;
        }
        assert(other.servers@.take(k as int) =~= other.servers@);
        count
    }

    /// The first server whose UUID is `uuid`.
    pub fn get_entry(&self, uuid: Uuid) -> (res: Option<&Server>)
        ensures
            match first_index(self.servers@, server_has_uuid(uuid)) {
                Some(k) => res == Some(&self.servers@[k]),
                None => res is None,
            },
    {
        let mut k: usize = 0;
        while k < self.servers.len()
            invariant
                k <= self.servers.len(),
                forall|m: int| 0 <= m < k ==> self.servers@[m].uuid != uuid,
            decreases self.servers.len() - k,
        {
            if self.servers[k].uuid == uuid {
                proof {
                    lemma_first_index_at(self.servers@, server_has_uuid(uuid), k as int);
                }
                return Some(&self.servers[k]);
            }
            k = k + 1;
        }
        proof {
            lemma_first_index_none(self.servers@, server_has_uuid(uuid));
        }
        None
    }

    /// Drops every server whose UUID is `uuid`; the others keep their order.
    pub fn remove_entry(&mut self, uuid: Uuid)
        ensures
            final(self).servers@ == without_server(old(self).servers@, uuid),
            final(self).favorites == old(self).favorites,
    {
        let ghost orig = self.servers@;
        let ghost mut j: int = 0;
        let mut i: usize = 0;
        assert(orig.skip(0) =~= orig);
        assert(without_server(orig.take(0), uuid) =~= Seq::<Server>::empty());
        while i < self.servers.len()
            invariant
                0 <= j <= orig.len(),
                self.servers@ == without_server(orig.take(j), uuid) + orig.skip(j),
                i == without_server(orig.take(j), uuid).len(),
                self.favorites == old(self).favorites,
            decreases self.servers.len() - i,
        {
            assert(orig.take(j + 1).drop_last() =~= orig.take(j));
            assert(self.servers@[i as int] == orig[j]);
            if self.servers[i].uuid == uuid {
                self.servers.remove(i);
                assert(self.servers@ =~= without_server(orig.take(j + 1), uuid) + orig.skip(j + 1));
            } else {
                assert(self.servers@ =~= without_server(orig.take(j + 1), uuid) + orig.skip(j + 1));
                i = i + 1;
            }
            proof {
                j = j + 1;
            }
        }
        proof {
            if j < orig.len() {
                assert(self.servers@.len() > i);
            }
            assert(orig.take(j) =~= orig);
            assert(self.servers@ =~= without_server(orig, uuid));
        }
    }

    /// Adds the server that `details` describe, under a fresh random UUID,
    /// and returns that UUID. Without an endpoint, both an address and a
    /// version must be given.
    pub fn add_entry(&mut self, details: NewServerDetails) -> (uuid: Uuid)
        requires
            details.endpoint is Some || (details.ip is Some && details.version is Some),
        ensures
            final(self).servers@ == old(self).servers@.push(new_server(uuid, details)),
            final(self).favorites == old(self).favorites,
            is_random_uuid(uuid),
    {
        let uuid = new_random_uuid();
        let info = match details.endpoint {
            Some(endpoint) => ServerInfo::Endpoint { endpoint, preferred_version: None },
            None => ServerInfo::Simple {
                ip: details.ip.unwrap(),
                version: details.version.unwrap(),
            },
        };
        self.servers.push(Server { uuid, description: Some(details.description), info });
        uuid
    }

    /// Replaces the first server with the UUID of `entry` by `entry`; fails,
    /// changing nothing, when no server has that UUID.
    pub fn update_entry(&mut self, entry: Server) -> (res: Result<(), ServerError>)
        ensures
            match first_index(old(self).servers@, server_has_uuid(entry.uuid)) {
                Some(k) => res is Ok && final(self).servers@ == old(self).servers@.update(k, entry),
                None => res == Err::<(), ServerError>(ServerError::NotFound(entry.uuid))
                    && final(self).servers@ == old(self).servers@,
            },
            final(self).favorites == old(self).favorites,
    {
        let mut k: usize = 0;
        while k < self.servers.len()
            invariant
                k <= self.servers.len(),
                self.servers@ == old(self).servers@,
                self.favorites == old(self).favorites,
                forall|m: int| 0 <= m < k ==> self.servers@[m].uuid != entry.uuid,
            decreases self.servers.len() - k,
        {
            if self.servers[k].uuid == entry.uuid {
                proof {
                    lemma_first_index_at(self.servers@, server_has_uuid(entry.uuid), k as int);
                }
                self.servers.set(k, entry);
                return Ok(());
            }
            k = k + 1;
        }
        proof {
            lemma_first_index_none(self.servers@, server_has_uuid(entry.uuid));
        }
        Err(ServerError::NotFound(entry.uuid))
    }
}

/// Merging keeps the saved servers first, unchanged and in order.
pub proof fn lemma_merge_keeps_saved(mine: Seq<Server>, other: Seq<Server>)
    ensures
        merged(mine, other).len() >= mine.len(),
        merged(mine, other).take(mine.len() as int) == mine,
    decreases other.len(),
{
    if other.len() == 0 {
        assert(mine.take(mine.len() as int) =~= mine);
    } else {
        lemma_merge_keeps_saved(mine, other.drop_last());
        let m = merged(mine, other.drop_last());
        if !lists_uuid(m, other.last().uuid) {
            assert(m.push(other.last()).take(mine.len() as int) =~= m.take(mine.len() as int));
        }
    }
}

/// After merging, every server of `other`, and every saved server, has its
/// UUID listed.
pub proof fn lemma_merge_lists_all(mine: Seq<Server>, other: Seq<Server>)
    ensures
        forall|k: int| 0 <= k < other.len() ==> lists_uuid(merged(mine, other), #[trigger] other[k].uuid),
        forall|k: int| 0 <= k < mine.len() ==> lists_uuid(merged(mine, other), #[trigger] mine[k].uuid),
    decreases other.len(),
{
    if other.len() > 0 {
        lemma_merge_lists_all(mine, other.drop_last());
        let m = merged(mine, other.drop_last());
        let r = merged(mine, other);
        assert forall|u: Uuid| lists_uuid(m, u) implies lists_uuid(r, u) by {
            let k = choose|k: int| 0 <= k < m.len() && m[k].uuid == u;
            if !lists_uuid(m, other.last().uuid) {
                assert(r[k] == m[k]);
            }
        }
        assert forall|k: int| 0 <= k < other.len() implies lists_uuid(r, #[trigger] other[k].uuid) by {
            if k < other.len() - 1 {
                assert(other.drop_last()[k] == other[k]);
                assert(lists_uuid(m, other[k].uuid));
            } else if !lists_uuid(m, other.last().uuid) {
                assert(r[m.len() as int] == other.last());
            }
        }
        assert forall|k: int| 0 <= k < mine.len() implies lists_uuid(r, #[trigger] mine[k].uuid) by {
            assert(lists_uuid(m, mine[k].uuid));
        }
    }
}

/// Merging servers whose UUIDs are all saved already changes nothing.
pub proof fn lemma_merge_nothing_new(mine: Seq<Server>, other: Seq<Server>)
    requires
        forall|k: int| 0 <= k < other.len() ==> lists_uuid(mine, #[trigger] other[k].uuid),
    ensures
        merged(mine, other) == mine,
    decreases other.len(),
{
    if other.len() > 0 {
        assert forall|k: int| 0 <= k < other.drop_last().len() implies lists_uuid(
            mine,
            #[trigger] other.drop_last()[k].uuid,
        ) by {
            assert(other.drop_last()[k] == other[k]);
        }
        lemma_merge_nothing_new(mine, other.drop_last());
        assert(lists_uuid(mine, other[other.len() - 1].uuid));
    }
}

/// Merging the same servers a second time adds none.
pub proof fn lemma_merge_idempotent(mine: Seq<Server>, other: Seq<Server>)
    ensures
        merged(merged(mine, other), other) == merged(mine, other),
{
    lemma_merge_lists_all(mine, other);
    lemma_merge_nothing_new(merged(mine, other), other);
}

/// After a server is removed, no saved server has its UUID.
pub proof fn lemma_removed_server_gone(list: Seq<Server>, uuid: Uuid)
    ensures
        !lists_uuid(without_server(list, uuid), uuid),
    decreases list.len(),
{
    if list.len() > 0 {
        lemma_removed_server_gone(list.drop_last(), uuid);
        let r = without_server(list.drop_last(), uuid);
        if list.last().uuid != uuid {
            assert forall|k: int| 0 <= k < r.push(list.last()).len() implies r.push(
                list.last(),
            )[k].uuid != uuid by {
                if k < r.len() {
                    assert(r.push(list.last())[k] == r[k]);
                }
            }
        }
    }
}

/// After a server is updated, looking up its UUID gives the new entry.
pub proof fn lemma_update_then_get(list: Seq<Server>, entry: Server)
    requires
        first_index(list, server_has_uuid(entry.uuid)) is Some,
    ensures
        ({
            let k = first_index(list, server_has_uuid(entry.uuid)).unwrap();
            first_index(list.update(k, entry), server_has_uuid(entry.uuid)) == Some(k)
                && list.update(k, entry)[k] == entry
        }),
{
    let p = server_has_uuid(entry.uuid);
    lemma_first_index(list, p);
    let k = first_index(list, p).unwrap();
    let n = list.update(k, entry);
    assert forall|m: int| 0 <= m < k implies !p(n[m]) by {
        assert(n[m] == list[m]);
    }
    lemma_first_index_at(n, p, k);
}

/// A server added under a UUID not saved before is what looking up that UUID gives.
pub proof fn lemma_add_then_get(list: Seq<Server>, server: Server)
    requires
        !lists_uuid(list, server.uuid),
    ensures
        first_index(list.push(server), server_has_uuid(server.uuid)) == Some(list.len() as int),
{
    let p = server_has_uuid(server.uuid);
    let n = list.push(server);
    assert forall|m: int| 0 <= m < list.len() implies !p(n[m]) by {
        assert(n[m] == list[m]);
    }
    lemma_first_index_at(n, p, list.len() as int);
}

} // verus!