//! The clients of one worker, by socket.

use vstd::prelude::*;
use std::collections::HashMap;
use crate::client::client::HttpClient;

verus! {

broadcast use vstd::std_specs::hash::group_hash_axioms;

pub struct ClientManager {
    clients: HashMap<i32, HttpClient>,
    file_path: String,
}

/// `std::collections::HashMap::get_mut` on a key that is present: the value
/// stored there, which writes through the reference replace, leaving every
/// other entry as it was.
#[verifier::external_body]
pub(crate) fn value_mut<'a>(m: &'a mut HashMap<i32, HttpClient>, key: i32) -> (r: &'a mut HttpClient)
    requires
        old(m)@.contains_key(key),
    ensures
        *r == old(m)@[key],
        final(m)@ == old(m)@.insert(key, *final(r)),
{
    m.get_mut(&key).unwrap()
}

impl ClientManager {
    /// The clients, by socket.
    pub closed spec fn clients(&self) -> Map<i32, HttpClient> {
        self.clients@
    }

    /// The document root the clients are served from.
    pub closed spec fn path(&self) -> Seq<char> {
        self.file_path@
    }

    pub fn new(file_path: &str) -> (r: ClientManager)
        ensures
            r.clients() == Map::<i32, HttpClient>::empty(),
            r.path() == file_path@,
    {
        ClientManager { clients: HashMap::new(), file_path: file_path.to_owned() }
    }

    /// Puts `client` in place of the client already kept for `sock`.
    pub fn add_client(&mut self, sock: i32, client: HttpClient)
        requires
            old(self).clients().contains_key(sock),
        ensures
            final(self).clients() == old(self).clients().insert(sock, client),
            final(self).path() == old(self).path(),
    {
        let _replaced = self.clients.insert(sock, client);
    }

    /// Forgets the client kept for `sock`.
    pub fn remove_client(&mut self, sock: i32)
        requires
            old(self).clients().contains_key(sock),
        ensures
            final(self).clients() == old(self).clients().remove(sock),
            final(self).path() == old(self).path(),
    {
        let _removed = self.clients.remove(&sock);
    }

    /// The client kept for `sock`, to work on in place.
    pub fn get_client(&mut self, sock: i32) -> (r: &mut HttpClient)
        requires
            old(self).clients().contains_key(sock),
        ensures
            *r == old(self).clients()[sock],
            final(self).clients() == old(self).clients().insert(sock, *final(r)),
            final(self).path() == old(self).path(),
    {
        value_mut(&mut self.clients, sock)
    }

    pub fn get_path(&self) -> (r: &str)
        ensures
            r@ == self.path(),
    {
        self.file_path.as_str()
    }
}

} // verus!
