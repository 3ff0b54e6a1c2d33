use vstd::prelude::*;
use crate::key::ClientKey;

verus! {

/// One live session as the dispatcher holds it: the client's key, the serial
/// number the session was created under, and the producer handle of its
/// inbound queue.
pub struct Session<H> {
    key: ClientKey,
    id: u64,
    handle: H,
}

/// Where the dispatcher takes a packet from a client.
#[derive(PartialEq, Eq, Structural, Clone, Copy, Debug)]
pub enum Route {
    /// The registry holds a session for the client: deliver to it.
    Existing,
    /// The registry holds none: create a session, enroll it, then deliver.
    Create,
}

/// What the dispatcher does after a delivery to a session's queue failed.
#[derive(PartialEq, Eq, Structural, Clone, Copy, Debug)]
pub enum Recovery {
    /// The session had expired and was evicted: route the same packet again.
    Retry,
    /// The session was created for this very packet and cannot have expired:
    /// an internal fault, on which the process aborts.
    Abort,
}

/// How the dispatcher's handling of one packet ended.
#[derive(PartialEq, Eq, Structural, Clone, Copy, Debug)]
pub enum Dispatched {
    /// The packet went into the queue of the session with this serial number;
    /// `created` tells whether that session was created for it.
    Delivered { serial: u64, created: bool },
    /// The session created for the packet refused it: an internal fault.
    Fault,
    /// A session was needed and every serial number has been issued.
    Exhausted,
}

/// The dispatcher's registry: at most one live session per client key, each
/// created under a serial number that is never issued twice.
pub struct Registry<H> {
    sessions: Vec<Session<H>>,
    next_id: u64,
    model: Ghost<Map<ClientKey, (u64, H)>>,
}

impl<H> Registry<H> {
    /// Each client key with a session, mapped to that session's serial number
    /// and inbound handle.
    pub closed spec fn sessions(&self) -> Map<ClientKey, (u64, H)> {
        self.model@
    }

    /// The serial number the next session will be created under.
    pub closed spec fn next_serial(&self) -> nat {
        self.next_id as nat
    }

    /// Serial numbers of distinct clients differ, and each is below the next
    /// one to be issued.
    pub open spec fn serials_ok(&self) -> bool {
        &&& forall|k: ClientKey| #[trigger]
            self.sessions().contains_key(k) ==> self.sessions()[k].0 < self.next_serial()
        &&& forall|k1: ClientKey, k2: ClientKey|
            #![trigger self.sessions()[k1], self.sessions()[k2]]
            self.sessions().contains_key(k1) && self.sessions().contains_key(k2) && k1 != k2
                ==> self.sessions()[k1].0 != self.sessions()[k2].0
    }

    pub closed spec fn wf(&self) -> bool {
        &&& self.serials_ok()
        &&& forall|i: int|
            0 <= i < self.sessions@.len() ==> {
                let s = #[trigger] self.sessions@[i];
                &&& self.model@.contains_key(s.key)
                &&& self.model@[s.key] == (s.id, s.handle)
            }
        &&& forall|i: int, j: int|
            0 <= i < self.sessions@.len() && 0 <= j < self.sessions@.len() && i != j
                ==> #[trigger] self.sessions@[i].key != #[trigger] self.sessions@[j].key
        &&& forall|k: ClientKey| #[trigger]
            self.model@.contains_key(k) ==> exists|i: int|
                0 <= i < self.sessions@.len() && (#[trigger] self.sessions@[i]).key == k
    }

    /// An empty registry.
    pub fn new() -> (r: Registry<H>)
        ensures
            r.wf(),
            r.sessions() == Map::<ClientKey, (u64, H)>::empty(),
            r.next_serial() == 0,
    {
        Registry { sessions: Vec::new(), next_id: 0, model: Ghost(Map::empty()) }
    }

    /// Number of live sessions.
    pub fn len(&self) -> (n: usize)
        requires
            self.wf(),
        ensures
            n == self.sessions().len(),
    {
        proof {
            self.lemma_len();
        }
        self.sessions.len()
    }

    proof fn lemma_len(&self)
        requires
            self.wf(),
        ensures
            self.sessions@.len() == self.sessions().len(),
    {
        let keys = self.sessions@.map_values(|s: Session<H>| s.key);
        assert(keys.no_duplicates()) by {
            assert forall|i: int, j: int|
                0 <= i < keys.len() && 0 <= j < keys.len() && i != j implies keys[i] != keys[j] by {
                assert(self.sessions@[i].key != self.sessions@[j].key);
            }
        }
        assert(keys.to_set() =~= self.model@.dom()) by {
            assert forall|k: ClientKey| keys.to_set().contains(k) <==> self.model@.dom().contains(k) by {
                if self.model@.contains_key(k) {
                    let i = choose|i: int| 0 <= i < self.sessions@.len() && (#[trigger] self.sessions@[i]).key == k;
                    assert(keys[i] == k);
                }
                if keys.to_set().contains(k) {
                    let i = choose|i: int| 0 <= i < keys.len() && keys[i] == k;
                    assert(self.sessions@[i].key == k);
                }
            }
        }
        keys.unique_seq_to_set();
    }

    /// The serial number the next session will be created under.
    pub fn next_id(&self) -> (n: u64)
        ensures
            n == self.next_serial(),
    {
        self.next_id
    }

    fn find(&self, key: &ClientKey) -> (r: Option<usize>)
        requires
            self.wf(),
        ensures
            match r {
                Some(i) => i < self.sessions@.len() && self.sessions@[i as int].key == *key,
                None => !self.sessions().contains_key(*key),
            },
    {
        let mut i: usize = 0;
        while i < self.sessions.len()
            invariant
                self.wf(),
                i <= self.sessions@.len(),
                forall|j: int| 0 <= j < i ==> (#[trigger] self.sessions@[j]).key != *key,
            decreases self.sessions@.len() - i,
        {
            if self.sessions[i].key == *key {
                return Some(i);
            }
            i = i + 1;
        }
        None
    }

    /// Looks up the client of a packet: `Existing` exactly when the registry
    /// holds a session for it.
    pub fn route(&self, key: &ClientKey) -> (r: Route)
        requires
            self.wf(),
        ensures
            (r == Route::Existing) == self.sessions().contains_key(*key),
    {
        match self.find(key) {
            Some(_) => Route::Existing,
            None => Route::Create,
        }
    }

    /// The inbound handle of the client's session, if the registry holds one.
    pub fn handle(&self, key: &ClientKey) -> (r: Option<&H>)
        requires
            self.wf(),
        ensures
            r is Some == self.sessions().contains_key(*key),
            r matches Some(h) ==> *h == self.sessions()[*key].1,
    {
        match self.find(key) {
            Some(i) => Some(&self.sessions[i].handle),
            None => None,
        }
    }

    /// The serial number of the client's session, if the registry holds one.
    pub fn serial(&self, key: &ClientKey) -> (r: Option<u64>)
        requires
            self.wf(),
        ensures
            r is Some == self.sessions().contains_key(*key),
            r matches Some(n) ==> n == self.sessions()[*key].0,
    {
        match self.find(key) {
            Some(i) => Some(self.sessions[i].id),
            None => None,
        }
    }

    /// Records the session just created for a client that had none, under the
    /// next serial number, and returns that number.
    pub fn enroll(&mut self, key: ClientKey, handle: H) -> (id: u64)
        requires
            old(self).wf(),
            !old(self).sessions().contains_key(key),
            old(self).next_serial() < u64::MAX,
        ensures
            final(self).wf(),
            id == old(self).next_serial(),
            final(self).next_serial() == old(self).next_serial() + 1,
            final(self).sessions() == old(self).sessions().insert(key, (id, handle)),
    {
        let id = self.next_id;
        let ghost old_self = *self;
        let ghost entry = (id, handle);
        self.sessions.push(Session { key, id, handle });
        self.next_id = id + 1;
        proof {
            self.model@ = self.model@.insert(key, entry);
            let n = self.sessions@.len() - 1;
            assert forall|k: ClientKey| #[trigger]
                self.model@.contains_key(k) implies exists|i: int|
                    0 <= i < self.sessions@.len() && (#[trigger] self.sessions@[i]).key == k by {
                if k == key {
                    assert(self.sessions@[n].key == k);
                } else {
                    let i = choose|i: int|
                        0 <= i < old_self.sessions@.len() && (#[trigger] old_self.sessions@[i]).key == k;
                    assert(self.sessions@[i] == old_self.sessions@[i]);
                }
            }
            assert forall|i: int|
                0 <= i < self.sessions@.len() implies {
                let s = #[trigger] self.sessions@[i];
                &&& self.model@.contains_key(s.key)
                &&& self.model@[s.key] == (s.id, s.handle)
            } by {
                if i < n {
                    assert(self.sessions@[i] == old_self.sessions@[i]);
                    assert(old_self.model@.contains_key(old_self.sessions@[i].key));
                }
            }
            assert forall|i: int, j: int|
                0 <= i < self.sessions@.len() && 0 <= j < self.sessions@.len() && i != j
                    implies #[trigger] self.sessions@[i].key != #[trigger] self.sessions@[j].key by {
                if i < n && j < n {
                    assert(old_self.sessions@[i] == self.sessions@[i]);
                    assert(old_self.sessions@[j] == self.sessions@[j]);
                } else if i < n {
                    assert(old_self.model@.contains_key(old_self.sessions@[i].key));
                } else {
                    assert(old_self.model@.contains_key(old_self.sessions@[j].key));
                }
            }
        }
        id
    }

    /// Decides what follows a failed delivery to the client's session. Where
    /// that session was created for this very packet the failure is a fault and
    /// nothing changes; otherwise the session had expired, its entry is removed,
    /// and the packet is routed again.
    pub fn delivery_failed(&mut self, key: &ClientKey, created_now: bool) -> (r: Recovery)
        requires
            old(self).wf(),
        ensures
            final(self).wf(),
            final(self).next_serial() == old(self).next_serial(),
            created_now ==> r == Recovery::Abort && final(self).sessions() == old(self).sessions(),
            !created_now ==> r == Recovery::Retry && final(self).sessions() == old(self).sessions().remove(*key),
    {
        if created_now {
            return Recovery::Abort;
        }
        match self.find(key) {
            Some(i) => {
                let ghost old_self = *self;
                let _gone = self.sessions.remove(i);
                proof {
                    self.model@ = self.model@.remove(*key);
                    self.lemma_after_remove(old_self, i as int, *key);
                }
            },
            None => {
                assert(self.model@.remove(*key) =~= self.model@);
            },
        }
        Recovery::Retry
    }

    /// Handles one packet from the client `key`. An existing session gets the
    /// payload through `deliver`; where its queue is closed (the session expired)
    /// the entry is evicted. A client without a live session gets exactly one new
    /// session from `create`, enrolled under the next serial number, and the
    /// payload is delivered to it. `deliver` hands the payload back when the
    /// queue refuses it.
    pub fn on_packet<C, D>(&mut self, key: ClientKey, payload: Vec<u8>, create: C, deliver: D) -> (r:
        Dispatched) where C: Fn(ClientKey) -> H, D: Fn(&H, Vec<u8>) -> Option<Vec<u8>>
        requires
            old(self).wf(),
            forall|k: ClientKey| create.requires((k,)),
            forall|h: &H, p: Vec<u8>| deliver.requires((h, p)),
            forall|h: &H, p: Vec<u8>, b: Option<Vec<u8>>| #[trigger]
                deliver.ensures((h, p), b) ==> (b matches Some(q) ==> q == p),
        ensures
            final(self).wf(),
            packet_outcome(*old(self), *final(self), key, r),
            r matches Dispatched::Delivered { created: false, .. } ==> deliver.ensures(
                (&old(self).sessions()[key].1, payload),
                None::<Vec<u8>>,
            ),
            old(self).sessions().contains_key(key) && !(r matches Dispatched::Delivered {
                created: false,
                ..
            }) ==> exists|b: Vec<u8>|
                deliver.ensures((&old(self).sessions()[key].1, payload), Some(b)),
            r matches Dispatched::Delivered { created: true, .. } ==> {
                &&& create.ensures((key,), final(self).sessions()[key].1)
                &&& deliver.ensures((&final(self).sessions()[key].1, payload), None::<Vec<u8>>)
            },
            r == Dispatched::Fault ==> {
                &&& create.ensures((key,), final(self).sessions()[key].1)
                &&& exists|b: Vec<u8>| deliver.ensures((&final(self).sessions()[key].1, payload), Some(b))
            },
    {
        let mut payload = payload;
        match self.find(&key) {
            Some(i) => {
                match deliver(&self.sessions[i].handle, payload) {
                    None => {
                        return Dispatched::Delivered { serial: self.sessions[i].id, created: false };
                    },
                    Some(back) => {
                        payload = back;
                        let _ = self.delivery_failed(&key, false);
                    },
                }
            },
            None => {
                assert(self.sessions().remove(key) =~= self.sessions());
            },
        }
        if self.next_id == u64::MAX {
            return Dispatched::Exhausted;
        }
        let ghost before = self.sessions();
        let handle = create(key);
        let serial = self.enroll(key, handle);
        match self.find(&key) {
            Some(i) => {
                match deliver(&self.sessions[i].handle, payload) {
                    None => Dispatched::Delivered { serial, created: true },
                    Some(_) => Dispatched::Fault,
                }
            },
            None => Dispatched::Fault,
        }
    }

    proof fn lemma_after_remove(&self, before: Self, i: int, key: ClientKey)
        requires
            before.wf(),
            0 <= i < before.sessions@.len(),
            before.sessions@[i].key == key,
            self.sessions@ == before.sessions@.remove(i),
            self.model@ == before.model@.remove(key),
            self.next_id == before.next_id,
        ensures
            self.wf(),
    {
        assert forall|k: ClientKey| #[trigger]
            self.sessions().contains_key(k) implies self.sessions()[k].0 < self.next_serial() by {
            assert(before.sessions().contains_key(k));
        }
        assert forall|k1: ClientKey, k2: ClientKey|
            self.sessions().contains_key(k1) && self.sessions().contains_key(k2) && k1 != k2
                implies #[trigger] self.sessions()[k1].0 != #[trigger] self.sessions()[k2].0 by {
            assert(before.sessions()[k1] == self.sessions()[k1]);
            assert(before.sessions()[k2] == self.sessions()[k2]);
        }
        assert forall|j: int|
            0 <= j < self.sessions@.len() implies {
            let s = #[trigger] self.sessions@[j];
            &&& self.model@.contains_key(s.key)
            &&& self.model@[s.key] == (s.id, s.handle)
        } by {
            let jj = if j < i { j } else { j + 1 };
            assert(self.sessions@[j] == before.sessions@[jj]);
            assert(before.sessions@[jj].key != before.sessions@[i].key);
        }
        assert forall|a: int, b: int|
            0 <= a < self.sessions@.len() && 0 <= b < self.sessions@.len() && a != b
                implies #[trigger] self.sessions@[a].key != #[trigger] self.sessions@[b].key by {
            let aa = if a < i { a } else { a + 1 };
            let bb = if b < i { b } else { b + 1 };
            assert(self.sessions@[a] == before.sessions@[aa]);
            assert(self.sessions@[b] == before.sessions@[bb]);
            assert(before.sessions@[aa].key != before.sessions@[bb].key);
        }
        assert forall|k: ClientKey| #[trigger]
            self.model@.contains_key(k) implies exists|j: int|
                0 <= j < self.sessions@.len() && (#[trigger] self.sessions@[j]).key == k by {
            let m = choose|m: int| 0 <= m < before.sessions@.len() && (#[trigger] before.sessions@[m]).key == k;
            assert(m != i);
            let j = if m < i { m } else { m - 1 };
            assert(self.sessions@[j] == before.sessions@[m]);
        }
    }
}

/// How the registry `after` handling a packet from `key` relates to the
/// registry `before` it, for each way the handling can end. Only the entry of
/// `key` can change. A session is created, under the next serial number, only
/// where the client had none or its session refused the packet; otherwise the
/// registry stays as it was.
pub open spec fn packet_outcome<H>(before: Registry<H>, after: Registry<H>, key: ClientKey, r: Dispatched) -> bool {
    &&& match r {
        Dispatched::Delivered { serial, created: false } => {
            &&& before.sessions().contains_key(key)
            &&& serial == before.sessions()[key].0
            &&& after.sessions() == before.sessions()
            &&& after.next_serial() == before.next_serial()
        },
        Dispatched::Delivered { serial, created: true } => {
            &&& serial == before.next_serial()
            &&& after.next_serial() == before.next_serial() + 1
            &&& after.sessions().contains_key(key)
            &&& after.sessions()[key].0 == serial
            &&& after.sessions() == before.sessions().remove(key).insert(key, after.sessions()[key])
        },
        Dispatched::Fault => {
            &&& after.next_serial() == before.next_serial() + 1
            &&& after.sessions().contains_key(key)
            &&& after.sessions()[key].0 == before.next_serial()
            &&& after.sessions() == before.sessions().remove(key).insert(key, after.sessions()[key])
        },
        Dispatched::Exhausted => {
            &&& before.next_serial() == u64::MAX
            &&& after.next_serial() == before.next_serial()
            &&& after.sessions() == before.sessions().remove(key)
        },
    }
    &&& !before.sessions().contains_key(key) ==> !(r matches Dispatched::Delivered {
        created: false,
        ..
    })
}

/// Two clients with different source addresses never share a session: the
/// sessions the registry holds for them carry different serial numbers, and
/// so different inbound queues and upstream sockets.
pub proof fn lemma_clients_never_share<H>(reg: Registry<H>, a: ClientKey, b: ClientKey)
    requires
        reg.wf(),
        reg.sessions().contains_key(a),
        reg.sessions().contains_key(b),
        a != b,
    ensures
        reg.sessions()[a].0 != reg.sessions()[b].0,
{
    assert(reg.serials_ok());
}

/// A packet from a client whose session has expired (`on_packet` creates a
/// session only where the old one refused the packet) replaces that session
/// by exactly one new session: the registry still holds one session per
/// client, the same clients as before, the new session's serial number is
/// above every serial number held before, and every other client's session is
/// as it was.
pub proof fn lemma_expired_client_gets_one_new_session<H>(
    before: Registry<H>,
    after: Registry<H>,
    key: ClientKey,
    r: Dispatched,
)
    requires
        before.wf(),
        before.sessions().contains_key(key),
        packet_outcome(before, after, key, r),
        r matches Dispatched::Delivered { created: true, .. },
    ensures
        after.sessions().dom() == before.sessions().dom(),
        after.sessions().len() == before.sessions().len(),
        after.sessions()[key].0 != before.sessions()[key].0,
        forall|k: ClientKey| #[trigger]
            before.sessions().contains_key(k) ==> after.sessions()[key].0 > before.sessions()[k].0,
        forall|k: ClientKey|
            k != key && #[trigger] before.sessions().contains_key(k) ==> after.sessions()[k]
                == before.sessions()[k],
{
    assert(before.serials_ok());
    assert(after.sessions().dom() =~= before.sessions().dom());
}

/// A packet whose client's session takes it changes nothing in the registry:
/// while a client keeps its session alive, every packet of it goes to that
/// one session, under the same serial number.
pub proof fn lemma_live_session_kept<H>(before: Registry<H>, after: Registry<H>, key: ClientKey, r: Dispatched)
    requires
        packet_outcome(before, after, key, r),
        r matches Dispatched::Delivered { created: false, .. },
    ensures
        after.sessions() == before.sessions(),
        after.sessions().contains_key(key),
        r matches Dispatched::Delivered { serial, .. } && serial == after.sessions()[key].0,
{
}

} // verus!
