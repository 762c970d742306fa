//! Refresh tokens the launcher keeps, one per server.
use vstd::prelude::*;
use std::collections::HashMap;
use crate::ids::Uuid;

verus! {

/// The refresh token saved for each server, by the server's UUID.
#[derive(Debug)]
pub struct Tokens {
    pub tokens: HashMap<Uuid, String>,
}

impl Tokens {
    /// No tokens.
    pub fn new_empty() -> (r: Self)
        ensures
            r.tokens@ == Map::<Uuid, String>::empty(),
    {
        Tokens { tokens: HashMap::new() }
    }

    /// Saves `token` for the server `server_uuid`, replacing any token saved for it.
    pub fn save_token(&mut self, server_uuid: Uuid, token: &str)
        ensures
            final(self).tokens@.dom() == old(self).tokens@.dom().insert(server_uuid),
            final(self).tokens@[server_uuid]@ == token@,
            forall|u: Uuid| u != server_uuid && #[trigger] old(self).tokens@.contains_key(u)
                ==> final(self).tokens@[u] == old(self).tokens@[u],
    {
        self.tokens.insert(server_uuid, String::from_str(token));
    }

    /// The token saved for the server `server_uuid`, if any.
    pub fn get_token(&self, server_uuid: Uuid) -> (r: Option<String>)
        ensures
            match r {
                Some(t) => self.tokens@.contains_key(server_uuid) && t == self.tokens@[server_uuid],
                None => !self.tokens@.contains_key(server_uuid),
            },
    {
        match self.tokens.get(&server_uuid) {
            Some(t) => Some(t.clone()),
            None => None,
        }
    }

    /// Forgets the token of the server `server_uuid`.
    pub fn remove_token(&mut self, server_uuid: Uuid)
        ensures
            final(self).tokens@ == old(self).tokens@.remove(server_uuid),
    {
        self.tokens.remove(&server_uuid);
    }

    /// Forgets all tokens.
    pub fn clear(&mut self)
        ensures
            final(self).tokens@ == Map::<Uuid, String>::empty(),
    {
        self.tokens.clear();
    }
}

/// A saved token is what a later read for the same server gives, until it is
/// replaced or removed; tokens of other servers are untouched by saving or
/// removing.
pub proof fn lemma_token_read_after_write(
    before: Map<Uuid, String>,
    after: Map<Uuid, String>,
    server: Uuid,
    other: Uuid,
    token: Seq<char>,
)
    requires
        after.dom() == before.dom().insert(server),
        after[server]@ == token,
        forall|u: Uuid| u != server && #[trigger] before.contains_key(u) ==> after[u] == before[u],
        other != server,
    ensures
        after.contains_key(server) && after[server]@ == token,
        after.contains_key(other) == before.contains_key(other),
        before.contains_key(other) ==> after[other] == before[other],
        !after.remove(server).contains_key(server),
        after.remove(server).contains_key(other) == before.contains_key(other),
{
}

} // verus!
