use vstd::prelude::*;

use crate::models::flags::ConnectFlags;

verus! {

/// A client session: the per-client protocol state the broker keeps across
/// a connection, identified by its client id.  The socket address is the
/// textual peer address of the live connection; the subscriptions field
/// mirrors the topic names the client subscribed to, while the topic
/// registry stays authoritative.
#[derive(Debug)]
pub struct Client {
    pub id: String,
    pub will_topic: String,
    pub will_message: String,
    pub is_connected: bool,
    pub subscriptions: Vec<String>,
    pub keep_alive: u64,
    pub username: String,
    pub password: String,
    pub socket_addr: String,
    pub connect_flags: ConnectFlags,
}

/// Each client id names at most one session in the registry.
pub open spec fn session_ids_unique(clients: Seq<Client>) -> bool {
    forall|i: int, j: int| 0 <= i < j < clients.len() ==> clients[i].id@ != clients[j].id@
}

/// The first session with the given id, or -1 when there is none.
pub open spec fn find_client_index(clients: Seq<Client>, id: Seq<char>) -> int
    decreases clients.len(),
{
    if clients.len() == 0 {
        -1
    } else if clients[0].id@ == id {
        0
    } else {
        let r = find_client_index(clients.drop_first(), id);
        if r < 0 {
            -1
        } else {
            r + 1
        }
    }
}

/// What the first-match search promises: a hit names a session with the id
/// and nothing before it has the id; a miss means no session has it.
pub proof fn lemma_find_client_index(clients: Seq<Client>, id: Seq<char>)
    ensures
        ({
            let r = find_client_index(clients, id);
            &&& r >= 0 ==> {
                &&& r < clients.len()
                &&& clients[r].id@ == id
                &&& forall|j: int| 0 <= j < r ==> clients[j].id@ != id
            }
            &&& r < 0 ==> forall|j: int| 0 <= j < clients.len() ==> clients[j].id@ != id
        }),
    decreases clients.len(),
{
    if clients.len() > 0 && clients[0].id@ != id {
        let tail = clients.drop_first();
        lemma_find_client_index(tail, id);
        assert(forall|j: int| 0 <= j < tail.len() ==> #[trigger] tail[j] == clients[j + 1]);
        let rd = find_client_index(tail, id);
        if rd >= 0 {
            assert forall|j: int| 0 <= j < rd + 1 implies clients[j].id@ != id by {
                if j >= 1 {
                    assert(tail[j - 1].id@ != id);
                }
            }
        } else {
            assert forall|j: int| 0 <= j < clients.len() implies clients[j].id@ != id by {
                if j >= 1 {
                    assert(tail[j - 1].id@ != id);
                }
            }
        }
    }
}

/// The first session attached to the given peer address, or -1 when there
/// is none.
pub open spec fn find_client_by_addr(clients: Seq<Client>, addr: Seq<char>) -> int
    decreases clients.len(),
{
    if clients.len() == 0 {
        -1
    } else if clients[0].socket_addr@ == addr {
        0
    } else {
        let r = find_client_by_addr(clients.drop_first(), addr);
        if r < 0 {
            -1
        } else {
            r + 1
        }
    }
}

/// What the first-match search promises: a hit names a session with the
/// address and nothing before it has the address; a miss means no session
/// has it.
pub proof fn lemma_find_client_by_addr(clients: Seq<Client>, addr: Seq<char>)
    ensures
        ({
            let r = find_client_by_addr(clients, addr);
            &&& r >= 0 ==> {
                &&& r < clients.len()
                &&& clients[r].socket_addr@ == addr
                &&& forall|j: int| 0 <= j < r ==> clients[j].socket_addr@ != addr
            }
            &&& r < 0 ==> forall|j: int|
                0 <= j < clients.len() ==> clients[j].socket_addr@ != addr
        }),
    decreases clients.len(),
{
    if clients.len() > 0 && clients[0].socket_addr@ != addr {
        let tail = clients.drop_first();
        lemma_find_client_by_addr(tail, addr);
        assert(forall|j: int| 0 <= j < tail.len() ==> #[trigger] tail[j] == clients[j + 1]);
        let rd = find_client_by_addr(tail, addr);
        if rd >= 0 {
            assert forall|j: int| 0 <= j < rd + 1 implies clients[j].socket_addr@ != addr by {
                if j >= 1 {
                    assert(tail[j - 1].socket_addr@ != addr);
                }
            }
        } else {
            assert forall|j: int|
                0 <= j < clients.len() implies clients[j].socket_addr@ != addr by {
                if j >= 1 {
                    assert(tail[j - 1].socket_addr@ != addr);
                }
            }
        }
    }
}

impl Client {
    /// A fresh session, connected, with no subscriptions yet.
    pub fn new(
        client_id: String,
        will_topic: String,
        will_message: String,
        keep_alive: u64,
        username: String,
        password: String,
        socket_addr: String,
        connect_flags: ConnectFlags,
    ) -> (r: Client)
        ensures
            r.id == client_id,
            r.will_topic == will_topic,
            r.will_message == will_message,
            r.is_connected == true,
            r.subscriptions@ == Seq::<String>::empty(),
            r.keep_alive == keep_alive,
            r.username == username,
            r.password == password,
            r.socket_addr == socket_addr,
            r.connect_flags == connect_flags,
    {
        Client {
            id: client_id,
            will_topic,
            will_message,
            is_connected: true,
            subscriptions: Vec::new(),
            keep_alive,
            username,
            password,
            socket_addr,
            connect_flags,
        }
    }

    /// Marks the session as no longer attached to a live connection.
    pub fn handle_disconnect(&mut self)
        ensures
            final(self).is_connected == false,
            final(self).id == old(self).id,
            final(self).will_topic == old(self).will_topic,
            final(self).will_message == old(self).will_message,
            final(self).subscriptions == old(self).subscriptions,
            final(self).keep_alive == old(self).keep_alive,
            final(self).username == old(self).username,
            final(self).password == old(self).password,
            final(self).socket_addr == old(self).socket_addr,
            final(self).connect_flags == old(self).connect_flags,
    {
        self.is_connected = false;
    }
}

} // verus!
