//! The bridge: it forwards activity messages to its WebSocket clients and
//! keeps the last message of every socket, so that a client that connects
//! later is caught up. The HTTP server itself is left to the program around
//! the library.
use vstd::prelude::*;
use crate::activity::types::ActivityMessage;
use crate::text::str_eq;

verus! {

/// Where the bridge listens.
pub struct BridgeConfig {
    pub port: u16,
    pub bind_address: String,
}

/// The messages by socket id: the last message recorded under each id.
pub open spec fn by_socket(s: Seq<ActivityMessage>) -> Map<Seq<char>, ActivityMessage>
    decreases s.len(),
{
    if s.len() == 0 {
        Map::empty()
    } else {
        by_socket(s.drop_last()).insert(s.last().socket_id@, s.last())
    }
}

/// No two messages share a socket id.
pub open spec fn sockets_distinct(s: Seq<ActivityMessage>) -> bool {
    forall|i: int, j: int| 0 <= i < j < s.len() ==> s[i].socket_id@ != s[j].socket_id@
}

proof fn lemma_by_socket(s: Seq<ActivityMessage>)
    requires
        sockets_distinct(s),
    ensures
        forall|i: int| 0 <= i < s.len() ==> #[trigger] by_socket(s).dom().contains(s[i].socket_id@)
            && by_socket(s)[s[i].socket_id@] == s[i],
        forall|k: Seq<char>| #[trigger] by_socket(s).dom().contains(k) ==> exists|i: int| 0 <= i < s.len() && s[i].socket_id@ == k,
    decreases s.len(),
{
    if s.len() > 0 {
        let d = s.drop_last();
        assert forall|i: int, j: int| 0 <= i < j < d.len() implies d[i].socket_id@ != d[j].socket_id@ by {
            assert(d[i] == s[i] && d[j] == s[j]);
        }
        lemma_by_socket(d);
        assert(by_socket(s) == by_socket(d).insert(s.last().socket_id@, s.last()));
        assert forall|i: int| 0 <= i < s.len() implies #[trigger] by_socket(s).dom().contains(s[i].socket_id@)
            && by_socket(s)[s[i].socket_id@] == s[i] by {
            if i < d.len() {
                assert(d[i] == s[i]);
                assert(s[i].socket_id@ != s.last().socket_id@);
            }
        }
        assert forall|k: Seq<char>| #[trigger] by_socket(s).dom().contains(k) implies exists|i: int| 0 <= i < s.len() && s[i].socket_id@ == k by {
            if k != s.last().socket_id@ {
                let i = choose|i: int| 0 <= i < d.len() && d[i].socket_id@ == k;
                assert(d[i] == s[i]);
            } else {
                assert(s[s.len() - 1].socket_id@ == k);
            }
        }
    }
}

/// The last activity message of every socket.
pub struct LastMessages {
    messages: Vec<ActivityMessage>,
}

impl LastMessages {
    #[verifier::type_invariant]
    closed spec fn well_formed(&self) -> bool {
        sockets_distinct(self.messages@)
    }

    /// The last message recorded under each socket id.
    pub closed spec fn contents(&self) -> Map<Seq<char>, ActivityMessage> {
        by_socket(self.messages@)
    }

    /// No message recorded yet.
    pub fn new() -> (r: Self)
        ensures
            r.contents() == Map::<Seq<char>, ActivityMessage>::empty(),
    {
        LastMessages { messages: Vec::new() }
    }

    /// The number of sockets with a message.
    pub fn len(&self) -> (r: usize)
        ensures
            r == self.contents().dom().len(),
    {
        proof {
            use_type_invariant(self);
            lemma_by_socket_len(self.messages@);
        }
        self.messages.len()
    }

    /// The position of the message of the socket.
    fn position(&self, socket_id: &str) -> (r: Option<usize>)
        ensures
            match r {
                Some(i) => i < self.messages@.len() && self.messages@[i as int].socket_id@ == socket_id@,
                None => forall|i: int| 0 <= i < self.messages@.len() ==> self.messages@[i].socket_id@ != socket_id@,
            },
    {
        let n = self.messages.len();
        for i in 0..n
            invariant
                n == self.messages@.len(),
                forall|k: int| 0 <= k < i ==> self.messages@[k].socket_id@ != socket_id@,
        {
            if str_eq(self.messages[i].socket_id.as_str(), socket_id) {
                return Some(i);
            }
        }
        None
    }

    /// The last message recorded for the socket.
    pub fn get(&self, socket_id: &str) -> (r: Option<&ActivityMessage>)
        ensures
            match r {
                Some(m) => self.contents().dom().contains(socket_id@) && *m == self.contents()[socket_id@],
                None => !self.contents().dom().contains(socket_id@),
            },
    {
        proof {
            use_type_invariant(self);
            lemma_by_socket(self.messages@);
        }
        match self.position(socket_id) {
            Some(i) => {
                assert(by_socket(self.messages@).dom().contains(self.messages@[i as int].socket_id@));
                Some(&self.messages[i])
            },
            None => None,
        }
    }

    /// Records a message as the last one of its socket.
    pub fn record(&mut self, message: ActivityMessage)
        ensures
            final(self).contents() == old(self).contents().insert(message.socket_id@, message),
    {
        proof {
            use_type_invariant(&*self);
            lemma_by_socket(self.messages@);
        }
        let ghost before = self.messages@;
        let mut all: Vec<ActivityMessage> = Vec::new();
        std::mem::swap(&mut all, &mut self.messages);
        match self.position_in(&all, message.socket_id.as_str()) {
            Some(i) => {
                let ghost key = message.socket_id@;
                all.set(i, message);
                proof {
                    let s = all@;
                    assert forall|a: int, b: int| 0 <= a < b < s.len() implies s[a].socket_id@ != s[b].socket_id@ by {
                        if a != i && b != i {
                            assert(s[a] == before[a] && s[b] == before[b]);
                        } else if a == i {
                            assert(s[b] == before[b]);
                        } else {
                            assert(s[a] == before[a]);
                        }
                    }
                    lemma_by_socket(s);
                    assert(by_socket(s) =~= by_socket(before).insert(key, s[i as int])) by {
                        assert forall|k: Seq<char>| #[trigger] by_socket(s).dom().contains(k)
                            == by_socket(before).insert(key, s[i as int]).dom().contains(k) by {
                            if by_socket(s).dom().contains(k) {
                                let j = choose|j: int| 0 <= j < s.len() && s[j].socket_id@ == k;
                                if j != i {
                                    assert(s[j] == before[j]);
                                }
                            }
                            if by_socket(before).dom().contains(k) {
                                let j = choose|j: int| 0 <= j < before.len() && before[j].socket_id@ == k;
                                if j != i {
                                    assert(s[j] == before[j]);
                                } else {
                                    assert(k == key);
                                }
                            }
                        }
                        assert forall|k: Seq<char>| #[trigger] by_socket(s).dom().contains(k)
                            implies by_socket(s)[k] == by_socket(before).insert(key, s[i as int])[k] by {
                            let j = choose|j: int| 0 <= j < s.len() && s[j].socket_id@ == k;
                            if j != i {
                                assert(s[j] == before[j]);
                            }
                        }
                    }
                }
            },
            None => {
                all.push(message);
                proof {
                    let s = all@;
                    assert(s.drop_last() =~= before);
                    assert forall|a: int, b: int| 0 <= a < b < s.len() implies s[a].socket_id@ != s[b].socket_id@ by {
                        assert(s[a] == before[a]);
                        if b < before.len() {
                            assert(s[b] == before[b]);
                        }
                    }
                }
            },
        }
        self.messages = all;
    }

    /// The position of the message of the socket in `all`.
    fn position_in(&self, all: &Vec<ActivityMessage>, socket_id: &str) -> (r: Option<usize>)
        ensures
            match r {
                Some(i) => i < all@.len() && all@[i as int].socket_id@ == socket_id@,
                None => forall|i: int| 0 <= i < all@.len() ==> all@[i].socket_id@ != socket_id@,
            },
    {
        let n = all.len();
        for i in 0..n
            invariant
                n == all@.len(),
                forall|k: int| 0 <= k < i ==> all@[k].socket_id@ != socket_id@,
        {
            if str_eq(all[i].socket_id.as_str(), socket_id) {
                return Some(i);
            }
        }
        None
    }

    /// The messages a client that connects now is caught up with: the last
    /// message of every socket whose activity is set, each once.
    pub fn catch_up(&self) -> (r: Vec<&ActivityMessage>)
        ensures
            forall|i: int| 0 <= i < r@.len() ==> {
                let m = #[trigger] r@[i];
                &&& m.activity is Some
                &&& self.contents().dom().contains(m.socket_id@)
                &&& self.contents()[m.socket_id@] == *m
            },
            forall|k: Seq<char>| #[trigger] self.contents().dom().contains(k) && self.contents()[k].activity is Some
                ==> exists|i: int| 0 <= i < r@.len() && *(r@[i]) == self.contents()[k],
            forall|i: int, j: int| 0 <= i < j < r@.len() ==> r@[i].socket_id@ != r@[j].socket_id@,
    {
        proof {
            use_type_invariant(self);
            lemma_by_socket(self.messages@);
        }
        let ghost s = self.messages@;
        let mut r: Vec<&ActivityMessage> = Vec::new();
        let ghost mut pos: Seq<int> = Seq::empty();
        let n = self.messages.len();
        let mut i: usize = 0;
        while i < n
            invariant
                i <= n,
                n == s.len(),
                s == self.messages@,
                sockets_distinct(s),
                pos.len() == r@.len(),
                forall|x: int| 0 <= x < pos.len() ==> 0 <= #[trigger] pos[x] < i && s[pos[x]].activity is Some,
                forall|x: int| 0 <= x < r@.len() ==> *(#[trigger] r@[x]) == s[pos[x]],
                forall|x: int, y: int| 0 <= x < y < r@.len() ==> pos[x] < pos[y],
                forall|j: int| 0 <= j < i && (#[trigger] s[j]).activity is Some ==> exists|x: int| 0 <= x < r@.len() && pos[x] == j,
            decreases n - i,
        {
            let ghost old_pos = pos;
            let ghost old_len = r@.len();
            let ghost old_r = r@;
            if self.messages[i].has_activity() {
                r.push(&self.messages[i]);
                proof {
                    pos = pos.push(i as int);
                    assert(pos[old_len as int] == i);
                    assert forall|x: int| 0 <= x < pos.len() implies 0 <= #[trigger] pos[x] < i + 1 && s[pos[x]].activity is Some by {
                        if x < old_len {
                            assert(pos[x] == old_pos[x]);
                        }
                    }
                    assert forall|x: int| 0 <= x < r@.len() implies *(#[trigger] r@[x]) == s[pos[x]] by {
                        if x < old_len {
                            assert(r@[x] == old_r[x]);
                            assert(pos[x] == old_pos[x]);
                        }
                    }
                    assert forall|x: int, y: int| 0 <= x < y < r@.len() implies pos[x] < pos[y] by {
                        if y < old_len {
                            assert(pos[x] == old_pos[x] && pos[y] == old_pos[y]);
                        } else {
                            assert(old_r[x] == r@[x]);
                            assert(pos[x] == old_pos[x]);
                        }
                    }
                    assert forall|j: int| 0 <= j < i + 1 && (#[trigger] s[j]).activity is Some
                        implies exists|x: int| 0 <= x < r@.len() && pos[x] == j by {
                        if j < i {
                            let x = choose|x: int| 0 <= x < old_len && old_pos[x] == j;
                            assert(pos[x] == old_pos[x]);
                        } else {
                            assert(pos[old_len as int] == j);
                        }
                    }
                }
            }
            i = i + 1;
        }
        proof {
            assert forall|k: Seq<char>| #[trigger] self.contents().dom().contains(k) && self.contents()[k].activity is Some
                implies exists|x: int| 0 <= x < r@.len() && *(r@[x]) == self.contents()[k] by {
                let j = choose|j: int| 0 <= j < s.len() && s[j].socket_id@ == k;
                assert(self.contents()[k] == s[j]);
                let x = choose|x: int| 0 <= x < r@.len() && pos[x] == j;
                assert(*(r@[x]) == s[j]);
            }
            assert forall|i: int| 0 <= i < r@.len() implies {
                let m = #[trigger] r@[i];
                &&& m.activity is Some
                &&& self.contents().dom().contains(m.socket_id@)
                &&& self.contents()[m.socket_id@] == *m
            } by {
                assert(*(r@[i]) == s[pos[i]]);
                assert(by_socket(s).dom().contains(s[pos[i]].socket_id@));
            }
            assert forall|x: int, y: int| 0 <= x < y < r@.len() implies r@[x].socket_id@ != r@[y].socket_id@ by {
                assert(pos[x] < pos[y]);
            }
        }
        r
    }
}

proof fn lemma_by_socket_len(s: Seq<ActivityMessage>)
    requires
        sockets_distinct(s),
    ensures
        by_socket(s).dom().finite(),
        by_socket(s).dom().len() == s.len(),
    decreases s.len(),
{
    if s.len() > 0 {
        let d = s.drop_last();
        assert forall|i: int, j: int| 0 <= i < j < d.len() implies d[i].socket_id@ != d[j].socket_id@ by {
            assert(d[i] == s[i] && d[j] == s[j]);
        }
        lemma_by_socket_len(d);
        lemma_by_socket(d);
        if by_socket(d).dom().contains(s.last().socket_id@) {
            let i = choose|i: int| 0 <= i < d.len() && d[i].socket_id@ == s.last().socket_id@;
            assert(d[i] == s[i]);
        }
    } else {
        assert(by_socket(s).dom() =~= Set::<Seq<char>>::empty());
    }
}

/// Recording a message and then reading its socket gives the message back;
/// the other sockets keep their messages.
pub proof fn law_read_gives_back_last_write(before: Map<Seq<char>, ActivityMessage>, m: ActivityMessage, other: Seq<char>)
    requires
        other != m.socket_id@,
    ensures
        before.insert(m.socket_id@, m)[m.socket_id@] == m,
        before.insert(m.socket_id@, m).dom().contains(other) == before.dom().contains(other),
        before.dom().contains(other) ==> before.insert(m.socket_id@, m)[other] == before[other],
{
}

/// `tokio::sync::broadcast::channel`: a channel holding up to `capacity`
/// messages for slow receivers; the receiving end made with it is dropped.
/// It panics for a capacity of 0 or above `usize::MAX >> 1`, which the
/// `requires` leaves out.
#[verifier::external_body]
fn broadcast_channel(capacity: usize) -> tokio::sync::broadcast::Sender<ActivityMessage>
    requires
        0 < capacity <= usize::MAX / 2,
{
    tokio::sync::broadcast::channel(capacity).0
}

/// `tokio::sync::broadcast::Sender::clone`: another handle on the same
/// channel.
#[verifier::external_body]
fn clone_broadcast(sender: &tokio::sync::broadcast::Sender<ActivityMessage>) -> tokio::sync::broadcast::Sender<ActivityMessage> {
    sender.clone()
}

/// The bridge: its configuration and the channel its activity messages go
/// through.
pub struct BridgeServer {
    config: BridgeConfig,
    activity_tx: tokio::sync::broadcast::Sender<ActivityMessage>,
}

impl BridgeServer {
    /// A bridge with its channel for up to 100 waiting messages.
    pub fn new(config: BridgeConfig) -> (r: Self)
        ensures
            r.config() == config,
    {
        BridgeServer { config, activity_tx: broadcast_channel(100) }
    }

    /// The configuration.
    pub closed spec fn config(&self) -> BridgeConfig {
        self.config
    }

    /// The configuration.
    pub fn get_config(&self) -> (r: &BridgeConfig)
        ensures
            *r == self.config(),
    {
        &self.config
    }

    /// A handle to send activity messages through the bridge.
    pub fn get_sender(&self) -> tokio::sync::broadcast::Sender<ActivityMessage> {
        clone_broadcast(&self.activity_tx)
    }
}

} // verus!
