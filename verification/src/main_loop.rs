//! The hub: the single owner of the client registry.
//!
//! All mutation of the registry is funneled through one inbound queue and
//! happens here, one message at a time, which is what eliminates the need
//! for locks. Routing applies the backpressure-by-drop policy: a delivery
//! is attempted without blocking, and a client that cannot accept it is
//! evicted (and its session torn down) by the end of that same pass.

use vstd::prelude::*;

use crate::{ClientHandle, ClientId, DeliveryError, FromServer, ToServer};

verus! {

/// The hub's registry: the authoritative set of live clients, keyed by
/// their unique ids. Owned and mutated by the hub task alone.
pub struct Registry {
    clients: Vec<ClientHandle>,
}

/// What one routing pass reports: the clients whose channel accepted the
/// delivery, and the clients evicted because theirs did not.
pub struct RouteReport {
    pub delivered: Vec<ClientId>,
    pub evicted: Vec<ClientId>,
}

/// What the hub decides after one inbound message: carry on, or stop the
/// whole service with the reported error.
#[derive(Debug)]
pub enum HubOutcome {
    Proceed,
    Fatal(String),
}

/// The clients a broadcast from `from` is attempted to: every registered
/// client except the sender.
pub open spec fn broadcast_targets(ids: Seq<ClientId>, from: ClientId) -> Seq<ClientId> {
    ids.filter(|id: ClientId| id != from)
}

/// The backpressure-by-drop policy: whether one delivery outcome costs the
/// client its registry entry — exactly when the channel refused it.
pub fn eviction_due(outcome: &Result<(), DeliveryError>) -> (evict: bool)
    ensures
        evict == (outcome is Err),
{
    outcome.is_err()
}

/// `s.push(e)` holds exactly the elements of `s` and `e`.
proof fn lemma_push_contains<A>(s: Seq<A>, e: A, x: A)
    ensures
        s.push(e).contains(x) <==> (s.contains(x) || x == e),
{
    if s.contains(x) {
        let i: int = choose|i: int| 0 <= i < s.len() && s[i] == x;
        assert(s.push(e)[i] == x);
    }
    if x == e {
        assert(s.push(e)[s.len() as int] == x);
    }
    if s.push(e).contains(x) {
        let i: int = choose|i: int| 0 <= i < s.push(e).len() && s.push(e)[i] == x;
        if i < s.len() {
            assert(s[i] == x);
        }
    }
}

/// Appending an element not yet present keeps a sequence duplicate-free.
proof fn lemma_push_no_duplicates<A>(s: Seq<A>, e: A)
    requires
        s.no_duplicates(),
        !s.contains(e),
    ensures
        s.push(e).no_duplicates(),
{
    assert forall|i: int, j: int|
        0 <= i < s.push(e).len() && 0 <= j < s.push(e).len() && i != j implies s.push(e)[i]
        != s.push(e)[j] by {
        if i < s.len() && j < s.len() {
        } else if i < s.len() {
            assert(s.contains(s[i]));
        } else if j < s.len() {
            assert(s.contains(s[j]));
        }
    }
}

/// The broadcast targets grow by a newly considered client exactly when it
/// is not the sender.
proof fn lemma_targets_push(s: Seq<ClientId>, e: ClientId, from: ClientId)
    ensures
        broadcast_targets(s.push(e), from) == if e != from {
            broadcast_targets(s, from).push(e)
        } else {
            broadcast_targets(s, from)
        },
{
    reveal(Seq::filter);
    assert(s.push(e).drop_last() =~= s);
    assert(s.push(e).last() == e);
}

/// Dropping the last element keeps a sequence duplicate-free, and what
/// remains no longer holds that element.
proof fn lemma_drop_last_no_duplicates<A>(s: Seq<A>)
    requires
        s.len() > 0,
        s.no_duplicates(),
    ensures
        s.drop_last().no_duplicates(),
        !s.drop_last().contains(s.last()),
{
    if s.drop_last().contains(s.last()) {
        let i: int = choose|i: int| 0 <= i < s.drop_last().len() && s.drop_last()[i] == s.last();
        assert(s[i] == s[s.len() - 1]);
        assert(false);
    }
}

/// Law (fan-out): with the registry holding a duplicate-free set of ids, a
/// broadcast from `from` targets exactly the other registered clients, each
/// exactly once, and never the sender; with the sender registered among N
/// clients, that is exactly N - 1 targets.
pub proof fn lemma_broadcast_targets(ids: Seq<ClientId>, from: ClientId)
    requires
        ids.no_duplicates(),
    ensures
        forall|x: ClientId|
            #[trigger] broadcast_targets(ids, from).contains(x) <==> (ids.contains(x) && x
                != from),
        broadcast_targets(ids, from).no_duplicates(),
        !broadcast_targets(ids, from).contains(from),
        ids.contains(from) ==> broadcast_targets(ids, from).len() == ids.len() - 1,
        !ids.contains(from) ==> broadcast_targets(ids, from).len() == ids.len(),
    decreases ids.len(),
{
    let pred = |id: ClientId| id != from;
    reveal(Seq::filter);
    if ids.len() == 0 {
        assert(!ids.contains(from));
        assert(forall|x: ClientId| !(#[trigger] ids.contains(x)));
    } else {
        let s = ids.drop_last();
        let e = ids.last();
        lemma_drop_last_no_duplicates(ids);
        lemma_broadcast_targets(s, from);
        assert(ids =~= s.push(e));
        lemma_targets_push(s, e, from);
        assert forall|x: ClientId| #[trigger]
            broadcast_targets(ids, from).contains(x) <==> (ids.contains(x) && x != from) by {
            lemma_push_contains(s, e, x);
            if pred(e) {
                lemma_push_contains(broadcast_targets(s, from), e, x);
            }
        }
        if pred(e) {
            assert(!broadcast_targets(s, from).contains(e));
            lemma_push_no_duplicates(broadcast_targets(s, from), e);
        }
        lemma_push_contains(s, e, from);
    }
}

/// Law (no delivery after eviction): a broadcast never targets a client
/// that is no longer in the registry.
pub proof fn lemma_no_delivery_after_eviction(ids: Seq<ClientId>, from: ClientId, gone: ClientId)
    requires
        ids.no_duplicates(),
        !ids.contains(gone),
    ensures
        !broadcast_targets(ids, from).contains(gone),
{
    lemma_broadcast_targets(ids, from);
}

impl Registry {
    /// The ids of the registered clients, in registry order.
    pub closed spec fn ids(&self) -> Seq<ClientId> {
        self.clients@.map_values(|h: ClientHandle| h.id)
    }

    /// Well-formedness: no two entries share an id. Holds throughout,
    /// because ids are unique by construction and eviction only removes.
    pub open spec fn wf(&self) -> bool {
        self.ids().no_duplicates()
    }

    /// An empty registry, as the hub starts with.
    pub fn new() -> (reg: Registry)
        ensures
            reg.wf(),
            reg.ids() == Seq::<ClientId>::empty(),
    {
        let reg = Registry { clients: Vec::new() };
        proof {
            assert(reg.ids() =~= Seq::<ClientId>::empty());
        }
        reg
    }

    /// Whether a client with this id is currently registered.
    pub fn contains(&self, id: ClientId) -> (present: bool)
        ensures
            present == self.ids().contains(id),
    {
        let mut i: usize = 0;
        while i < self.clients.len()
            invariant
                i <= self.clients.len(),
                forall|k: int| 0 <= k < i ==> self.ids()[k] != id,
            decreases self.clients.len() - i,
        {
            if self.clients[i].id == id {
                proof {
                    assert(self.ids()[i as int] == id);
                }
                return true;
            }
            i = i + 1;
        }
        proof {
            assert(!self.ids().contains(id));
        }
        false
    }

    /// How many clients are registered.
    pub fn count(&self) -> (n: usize)
        ensures
            n == self.ids().len(),
    {
        self.clients.len()
    }

    /// Removes and returns the entry with this id, if any.
    fn take(&mut self, id: ClientId) -> (taken: Option<ClientHandle>)
        requires
            old(self).wf(),
        ensures
            final(self).wf(),
            forall|x: ClientId|
                final(self).ids().contains(x) <==> (old(self).ids().contains(x) && x != id),
            match taken {
                Some(h) => h.id == id && old(self).ids().contains(id),
                None => !old(self).ids().contains(id),
            },
    {
        let ghost old_clients = self.clients@;
        let ghost old_ids = self.ids();
        let mut kept: Vec<ClientHandle> = Vec::new();
        let mut taken: Option<ClientHandle> = None;
        proof {
            assert(self.clients@ =~= old_clients.skip(0));
            assert(old_clients.take(0).map_values(|h: ClientHandle| h.id)
                =~= Seq::<ClientId>::empty());
        }
        while self.clients.len() > 0
            invariant
                old_ids == old_clients.map_values(|h: ClientHandle| h.id),
                old_ids.no_duplicates(),
                self.clients@.len() <= old_clients.len(),
                self.clients@ == old_clients.skip(old_clients.len() - self.clients@.len()),
                ({
                    let processed = old_ids.take(old_clients.len() - self.clients@.len());
                    let kept_ids = kept@.map_values(|h: ClientHandle| h.id);
                    &&& kept_ids.no_duplicates()
                    &&& forall|x: ClientId|
                        kept_ids.contains(x) <==> (processed.contains(x) && x != id)
                    &&& match taken {
                        Some(h) => h.id == id && processed.contains(id),
                        None => !processed.contains(id),
                    }
                }),
            decreases self.clients.len(),
        {
            let ghost k: int = old_clients.len() - self.clients@.len();
            let ghost processed = old_ids.take(k);
            let ghost kept_ids = kept@.map_values(|h: ClientHandle| h.id);
            let h = self.clients.remove(0);
            proof {
                assert(old_clients.skip(k)[0] == old_clients[k]);
                assert(h == old_clients[k]);
                assert(old_clients.skip(k).remove(0) =~= old_clients.skip(k + 1));
                assert(old_ids.take(k + 1) =~= processed.push(old_ids[k]));
                assert(old_ids[k] == h.id);
                lemma_push_contains(processed, h.id, id);
            }
            if h.id == id {
                proof {
                    if taken is Some {
                        // cannot happen: two entries with one id would break wf
                        let i: int = choose|i: int| 0 <= i < k && old_ids[i] == id;
                        assert(old_ids[i] == old_ids[k]);
                        assert(false);
                    }
                }
                taken = Some(h);
                proof {
                    assert forall|x: ClientId| kept_ids.contains(x) <==> (old_ids.take(k + 1)
                        .contains(x) && x != id) by {
                        lemma_push_contains(processed, id, x);
                    }
                    lemma_push_contains(processed, id, id);
                }
            } else {
                proof {
                    let new_kept_ids = kept@.push(h).map_values(|hh: ClientHandle| hh.id);
                    assert(new_kept_ids =~= kept_ids.push(h.id));
                    if kept_ids.contains(h.id) {
                        // h.id would already have been processed, against wf
                        assert(processed.contains(h.id));
                        let i: int = choose|i: int| 0 <= i < k && old_ids[i] == h.id;
                        assert(old_ids[i] == old_ids[k]);
                        assert(false);
                    }
                    lemma_push_no_duplicates(kept_ids, h.id);
                    assert forall|x: ClientId| new_kept_ids.contains(x) <==> (old_ids.take(k + 1)
                        .contains(x) && x != id) by {
                        lemma_push_contains(kept_ids, h.id, x);
                        lemma_push_contains(processed, h.id, x);
                    }
                }
                kept.push(h);
            }
        }
        proof {
            assert(old_ids.take(old_clients.len() as int) =~= old_ids);
        }
        self.clients = kept;
        taken
    }

    /// Registers a client. Ids are unique by construction, so no entry can
    /// already carry this id; should one ever exist, it is evicted (its
    /// session torn down) in favour of the newcomer, keeping the registry
    /// well-formed unconditionally.
    pub fn insert(&mut self, client: ClientHandle)
        requires
            old(self).wf(),
        ensures
            final(self).wf(),
            forall|x: ClientId|
                final(self).ids().contains(x) <==> (old(self).ids().contains(x) || x
                    == client.id),
    {
        match self.take(client.id) {
            Some(stale) => stale.kill(),
            None => {},
        }
        let ghost mid_ids = self.ids();
        self.clients.push(client);
        proof {
            assert(self.ids() =~= mid_ids.push(client.id));
            assert(!mid_ids.contains(client.id));
            lemma_push_no_duplicates(mid_ids, client.id);
            assert forall|x: ClientId| self.ids().contains(x) <==> (old(self).ids().contains(x)
                || x == client.id) by {
                lemma_push_contains(mid_ids, client.id, x);
            }
        }
    }

    /// One broadcast pass: attempts a non-blocking delivery of the payload
    /// to every registered client but the sender, exactly once each; every
    /// client whose channel refused it is evicted (and its session torn
    /// down) before the pass ends, so a slow client never stalls the rest.
    pub fn route(&mut self, from: ClientId, payload: &Vec<u8>) -> (report: RouteReport)
        requires
            old(self).wf(),
        ensures
            final(self).wf(),
            forall|x: ClientId|
                #[trigger] final(self).ids().contains(x) <==> (old(self).ids().contains(x)
                    && !report.evicted@.contains(x)),
            forall|x: ClientId|
                (report.delivered@.contains(x) || report.evicted@.contains(x)) <==> (#[trigger] old(
                    self,
                ).ids().contains(x) && x != from),
            forall|x: ClientId|
                !(#[trigger] report.delivered@.contains(x) && report.evicted@.contains(x)),
            report.delivered@.no_duplicates(),
            report.evicted@.no_duplicates(),
            !report.evicted@.contains(from),
            report.delivered@.len() + report.evicted@.len() == broadcast_targets(
                old(self).ids(),
                from,
            ).len(),
    {
        let ghost old_clients = self.clients@;
        let ghost old_ids = self.ids();
        let mut kept: Vec<ClientHandle> = Vec::new();
        let mut delivered: Vec<ClientId> = Vec::new();
        let mut evicted: Vec<ClientId> = Vec::new();
        proof {
            assert(self.clients@ =~= old_clients.skip(0));
            assert(old_ids.take(0) =~= Seq::<ClientId>::empty());
            reveal(Seq::filter);
            assert(broadcast_targets(old_ids.take(0), from).len() == 0);
        }
        while self.clients.len() > 0
            invariant
                old_ids == old_clients.map_values(|h: ClientHandle| h.id),
                old_ids.no_duplicates(),
                self.clients@.len() <= old_clients.len(),
                self.clients@ == old_clients.skip(old_clients.len() - self.clients@.len()),
                ({
                    let processed = old_ids.take(old_clients.len() - self.clients@.len());
                    let kept_ids = kept@.map_values(|h: ClientHandle| h.id);
                    &&& kept_ids.no_duplicates()
                    &&& delivered@.no_duplicates()
                    &&& evicted@.no_duplicates()
                    &&& forall|x: ClientId|
                        #[trigger] kept_ids.contains(x) <==> (processed.contains(x)
                            && !evicted@.contains(x))
                    &&& forall|x: ClientId|
                        (delivered@.contains(x) || evicted@.contains(x)) <==> (#[trigger] processed
                            .contains(x) && x != from)
                    &&& forall|x: ClientId|
                        !(#[trigger] delivered@.contains(x) && evicted@.contains(x))
                    &&& !evicted@.contains(from)
                    &&& delivered@.len() + evicted@.len() == broadcast_targets(
                        processed,
                        from,
                    ).len()
                }),
            decreases self.clients.len(),
        {
            let ghost k: int = old_clients.len() - self.clients@.len();
            let ghost processed = old_ids.take(k);
            let ghost kept_ids = kept@.map_values(|h: ClientHandle| h.id);
            let mut h = self.clients.remove(0);
            proof {
                assert(old_clients.skip(k)[0] == old_clients[k]);
                assert(h == old_clients[k]);
                assert(old_clients.skip(k).remove(0) =~= old_clients.skip(k + 1));
                assert(old_ids.take(k + 1) =~= processed.push(old_ids[k]));
                assert(old_ids[k] == h.id);
                if processed.contains(h.id) {
                    let i: int = choose|i: int| 0 <= i < k && old_ids[i] == h.id;
                    assert(old_ids[i] == old_ids[k]);
                    assert(false);
                }
                lemma_targets_push(processed, h.id, from);
                lemma_push_contains(processed, h.id, from);
            }
            let ghost hid = h.id;
            if h.id == from {
                proof {
                    assert(kept@.push(h).map_values(|hh: ClientHandle| hh.id) =~= kept_ids.push(
                        hid,
                    ));
                    if kept_ids.contains(hid) {
                        assert(processed.contains(hid));
                        assert(false);
                    }
                    lemma_push_no_duplicates(kept_ids, hid);
                    assert forall|x: ClientId| #[trigger]
                        kept_ids.push(hid).contains(x) <==> (old_ids.take(k + 1).contains(x)
                            && !evicted@.contains(x)) by {
                        lemma_push_contains(kept_ids, hid, x);
                        lemma_push_contains(processed, hid, x);
                    }
                    assert forall|x: ClientId|
                        (delivered@.contains(x) || evicted@.contains(x)) <==> (#[trigger] old_ids
                            .take(k + 1).contains(x) && x != from) by {
                        lemma_push_contains(processed, hid, x);
                    }
                }
                kept.push(h);
            } else {
                let outcome = h.send(FromServer::Message(payload.clone()));
                proof {
                    assert(h.id == hid);
                    if delivered@.contains(hid) || evicted@.contains(hid) {
                        assert(processed.contains(hid));
                        assert(false);
                    }
                }
                if !eviction_due(&outcome) {
                    proof {
                            assert(kept@.push(h).map_values(|hh: ClientHandle| hh.id)
                                =~= kept_ids.push(hid));
                            if kept_ids.contains(hid) {
                                assert(processed.contains(hid));
                                assert(false);
                            }
                            lemma_push_no_duplicates(kept_ids, hid);
                            lemma_push_no_duplicates(delivered@, hid);
                            assert forall|x: ClientId| #[trigger]
                                kept_ids.push(hid).contains(x) <==> (old_ids.take(k + 1).contains(
                                x,
                            ) && !evicted@.contains(x)) by {
                                lemma_push_contains(kept_ids, hid, x);
                                lemma_push_contains(processed, hid, x);
                            }
                            assert forall|x: ClientId|
                                (delivered@.push(hid).contains(x) || evicted@.contains(x)) <==> (
                                #[trigger] old_ids.take(k + 1).contains(x) && x != from) by {
                                lemma_push_contains(delivered@, hid, x);
                                lemma_push_contains(processed, hid, x);
                            }
                            assert forall|x: ClientId|
                                !(#[trigger] delivered@.push(hid).contains(x)
                                    && evicted@.contains(x)) by {
                                lemma_push_contains(delivered@, hid, x);
                            }
                        }
                    delivered.push(h.id);
                    kept.push(h);
                } else {
                    proof {
                            lemma_push_no_duplicates(evicted@, hid);
                            assert forall|x: ClientId| #[trigger]
                                kept_ids.contains(x) <==> (old_ids.take(k + 1).contains(x)
                                    && !evicted@.push(hid).contains(x)) by {
                                lemma_push_contains(evicted@, hid, x);
                                lemma_push_contains(processed, hid, x);
                                if kept_ids.contains(x) && x == hid {
                                    assert(processed.contains(x));
                                    assert(false);
                                }
                            }
                            assert forall|x: ClientId|
                                (delivered@.contains(x) || evicted@.push(hid).contains(x)) <==> (
                                #[trigger] old_ids.take(k + 1).contains(x) && x != from) by {
                                lemma_push_contains(evicted@, hid, x);
                                lemma_push_contains(processed, hid, x);
                            }
                            assert forall|x: ClientId|
                                !(#[trigger] delivered@.contains(x) && evicted@.push(hid).contains(
                                x,
                            )) by {
                                lemma_push_contains(evicted@, hid, x);
                            }
                            lemma_push_contains(evicted@, hid, from);
                        }
                    evicted.push(h.id);
                    h.kill();
                }
            }
        }
        proof {
            assert(old_ids.take(old_clients.len() as int) =~= old_ids);
        }
        self.clients = kept;
        RouteReport { delivered, evicted }
    }

    /// Tears every remaining session down and empties the registry: the
    /// whole-service shutdown. The hub applies it when a fatal error ends
    /// the service, and the shell applies it when the inbound channel
    /// closes at process end.
    pub fn shutdown(&mut self)
        ensures
            final(self).wf(),
            final(self).ids() == Seq::<ClientId>::empty(),
    {
        while self.clients.len() > 0
            decreases self.clients.len(),
        {
            let h = self.clients.remove(0);
            h.kill();
        }
        proof {
            assert(self.ids() =~= Seq::<ClientId>::empty());
        }
    }

    /// One turn of the hub's loop, applied to the next inbound message in
    /// arrival order: a new client is registered; a chat message is routed
    /// to every other client — the returned report carrying the full
    /// partition of the other clients into delivered and evicted — and a
    /// fatal error ends the service: every session is torn down and the
    /// error is handed back as the terminal outcome.
    pub fn hub_step(&mut self, msg: ToServer) -> (r: (HubOutcome, RouteReport))
        requires
            old(self).wf(),
        ensures
            final(self).wf(),
            match msg {
                ToServer::NewClient(client) => {
                    &&& r.0 matches HubOutcome::Proceed
                    &&& forall|x: ClientId|
                        #[trigger] final(self).ids().contains(x) <==> (old(self).ids().contains(x)
                            || x == client.id)
                    &&& r.1.delivered@ == Seq::<ClientId>::empty()
                    &&& r.1.evicted@ == Seq::<ClientId>::empty()
                },
                ToServer::Message(from, _payload) => {
                    &&& r.0 matches HubOutcome::Proceed
                    &&& forall|x: ClientId|
                        #[trigger] final(self).ids().contains(x) <==> (old(self).ids().contains(x)
                            && !r.1.evicted@.contains(x))
                    &&& forall|x: ClientId|
                        (r.1.delivered@.contains(x) || r.1.evicted@.contains(x)) <==> (
                        #[trigger] old(self).ids().contains(x) && x != from)
                    &&& forall|x: ClientId|
                        !(#[trigger] r.1.delivered@.contains(x) && r.1.evicted@.contains(x))
                    &&& r.1.delivered@.no_duplicates()
                    &&& r.1.evicted@.no_duplicates()
                    &&& !r.1.evicted@.contains(from)
                    &&& r.1.delivered@.len() + r.1.evicted@.len() == broadcast_targets(
                        old(self).ids(),
                        from,
                    ).len()
                },
                ToServer::FatalError(err) => {
                    &&& r.0 matches HubOutcome::Fatal(reported) && reported == err
                    &&& final(self).ids() == Seq::<ClientId>::empty()
                    &&& r.1.delivered@ == Seq::<ClientId>::empty()
                    &&& r.1.evicted@ == Seq::<ClientId>::empty()
                },
            },
    {
        match msg {
            ToServer::NewClient(client) => {
                self.insert(client);
                (HubOutcome::Proceed, empty_report())
            },
            ToServer::Message(from, payload) => {
                let report = self.route(from, &payload);
                (HubOutcome::Proceed, report)
            },
            ToServer::FatalError(err) => {
                self.shutdown();
                (HubOutcome::Fatal(err), empty_report())
            },
        }
    }
}

/// A report of a pass that attempted nothing and evicted nobody.
fn empty_report() -> (report: RouteReport)
    ensures
        report.delivered@ == Seq::<ClientId>::empty(),
        report.evicted@ == Seq::<ClientId>::empty(),
{
    let report = RouteReport { delivered: Vec::new(), evicted: Vec::new() };
    proof {
        assert(report.delivered@ =~= Seq::<ClientId>::empty());
        assert(report.evicted@ =~= Seq::<ClientId>::empty());
    }
    report
}

} // verus!
