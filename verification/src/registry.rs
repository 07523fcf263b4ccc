//! Registry of live subscribers and the fan-out over it.
//!
//! All mutations and broadcast passes are serialized through one
//! consuming task (see `server`), so a broadcast pass never observes a
//! partially mutated registry. Each subscriber owns a bounded outbound
//! queue; a full queue drops the one frame for that subscriber only, and
//! a closed subscriber is turned into a removal event rather than an
//! error: one subscriber's failure never touches the others.

use vstd::prelude::*;
use vstd::seq_lib::*;

verus! {

/// One live subscriber: its id, its bounded outbound frame queue, and
/// whether its transport side is known to be gone (`closed`).
pub struct ClientConn {
    pub id: u64,
    pub queue: Vec<Vec<u8>>,
    pub closed: bool,
}

/// The mathematical shadow of one subscriber.
#[verifier::ext_equal]
pub ghost struct ClientView {
    pub id: u64,
    pub queue: Seq<Seq<u8>>,
    pub closed: bool,
}

impl View for ClientConn {
    type V = ClientView;

    open spec fn view(&self) -> ClientView {
        ClientView { id: self.id, queue: self.queue.deep_view(), closed: self.closed }
    }
}

impl DeepView for ClientConn {
    type V = ClientView;

    open spec fn deep_view(&self) -> ClientView {
        self@
    }
}

impl ClientConn {
    /// Append one frame to this subscriber's outbound queue.
    fn enqueue(&mut self, f: Vec<u8>)
        ensures
            final(self)@.id == old(self)@.id,
            final(self)@.closed == old(self)@.closed,
            final(self)@.queue == old(self)@.queue.push(f@),
    {
        self.queue.push(f);
        proof {
            assert(self@.queue =~~= old(self)@.queue.push(f@));
        }
    }

    /// A freshly accepted subscriber: empty queue, transport open.
    pub fn new(id: u64) -> (c: Self)
        ensures
            c@.id == id,
            c@.queue == Seq::<Seq<u8>>::empty(),
            !c@.closed,
    {
        let c = ClientConn { id, queue: Vec::new(), closed: false };
        proof {
            assert(c@.queue =~~= Seq::<Seq<u8>>::empty());
        }
        c
    }
}

/// Whether some registered subscriber carries this id.
pub open spec fn contains_id(s: Seq<ClientView>, id: u64) -> bool {
    exists|i: int| 0 <= i < s.len() && s[i].id == id
}

/// The position of the subscriber with this id (unique when ids are).
pub open spec fn index_of_id(s: Seq<ClientView>, id: u64) -> int {
    choose|i: int| 0 <= i < s.len() && s[i].id == id
}

/// The registered ids, in registry order.
pub open spec fn ids_seq(s: Seq<ClientView>) -> Seq<u64> {
    s.map_values(|c: ClientView| c.id)
}

/// The set of ids of the currently registered subscribers.
pub open spec fn live_ids(s: Seq<ClientView>) -> Set<u64> {
    ids_seq(s).to_set()
}

/// At most one subscriber per id.
pub open spec fn uniq_ids(s: Seq<ClientView>) -> bool {
    forall|i: int, j: int| 0 <= i < j < s.len() ==> s[i].id != s[j].id
}

/// Every outbound queue respects the per-subscriber bound.
pub open spec fn queues_bounded(s: Seq<ClientView>, bound: nat) -> bool {
    forall|i: int| 0 <= i < s.len() ==> #[trigger] s[i].queue.len() <= bound
}

/// Where one subscriber stands after a broadcast pass: an open
/// subscriber with room gets exactly the frame appended; a full one
/// drops this one frame; a closed one is left untouched (and reported
/// for removal).
pub open spec fn deliver(c: ClientView, frame: Seq<u8>, bound: nat) -> ClientView {
    if !c.closed && c.queue.len() < bound {
        ClientView { id: c.id, queue: c.queue.push(frame), closed: c.closed }
    } else {
        c
    }
}

/// Ids of the closed subscribers, in registry order: each send to a
/// closed queue becomes one removal event.
pub open spec fn closed_ids(s: Seq<ClientView>) -> Seq<u64>
    decreases s.len(),
{
    if s.len() == 0 {
        Seq::empty()
    } else if s.last().closed {
        closed_ids(s.drop_last()).push(s.last().id)
    } else {
        closed_ids(s.drop_last())
    }
}

/// One subscriber after its oldest queued frame left.
pub open spec fn pop_front_of(c: ClientView) -> ClientView {
    ClientView { id: c.id, queue: c.queue.drop_first(), closed: c.closed }
}

/// The live subscribers, keyed by id, each with a bounded outbound
/// frame queue.
pub struct Registry {
    clients: Vec<ClientConn>,
    queue_bound: usize,
}

impl View for Registry {
    type V = Seq<ClientView>;

    closed spec fn view(&self) -> Seq<ClientView> {
        self.clients.deep_view()
    }
}

impl Registry {
    /// The per-subscriber bound on queued outbound frames.
    pub closed spec fn spec_queue_bound(self) -> usize {
        self.queue_bound
    }

    pub open spec fn wf(self) -> bool {
        &&& self.spec_queue_bound() >= 1
        &&& uniq_ids(self@)
        &&& queues_bounded(self@, self.spec_queue_bound() as nat)
    }

    /// An empty registry whose subscribers will queue at most
    /// `queue_bound` outbound frames each.
    pub fn new(queue_bound: usize) -> (r: Self)
        requires
            queue_bound >= 1,
        ensures
            r.wf(),
            r@ == Seq::<ClientView>::empty(),
            r.spec_queue_bound() == queue_bound,
    {
        let r = Registry { clients: Vec::new(), queue_bound };
        proof {
            assert(r@ =~= Seq::<ClientView>::empty());
        }
        r
    }

    pub fn queue_bound(&self) -> (b: usize)
        ensures
            b == self.spec_queue_bound(),
    {
        self.queue_bound
    }

    /// How many subscribers are registered.
    pub fn len(&self) -> (n: usize)
        ensures
            n == self@.len(),
    {
        self.clients.len()
    }

    /// Whether a subscriber with this id is registered.
    pub fn contains(&self, id: u64) -> (b: bool)
        ensures
            b == contains_id(self@, id),
    {
        self.find_index(id).is_some()
    }

    /// The position of the subscriber with this id, if any.
    fn find_index(&self, id: u64) -> (r: Option<usize>)
        ensures
            r is Some <==> contains_id(self@, id),
            r matches Some(i) ==> i < self@.len() && self@[i as int].id == id,
    {
        let n = self.clients.len();
        let mut i: usize = 0;
        while i < n
            invariant
                n == self@.len(),
                i <= n,
                forall|j: int| 0 <= j < i ==> self@[j].id != id,
            decreases n - i,
        {
            if self.clients[i].id == id {
                proof {
                    assert(self@[i as int].id == id);
                }
                return Some(i);
            }
            i = i + 1;
        }
        None
    }

    /// Register a subscriber. The collision policy is explicit: a
    /// duplicate id is refused, never silently overwritten; a client
    /// whose pending queue already exceeds the bound is refused too.
    pub fn insert(&mut self, c: ClientConn) -> (ok: bool)
        requires
            old(self).wf(),
        ensures
            final(self).wf(),
            final(self).spec_queue_bound() == old(self).spec_queue_bound(),
            ok == (!contains_id(old(self)@, c@.id) && c@.queue.len()
                <= old(self).spec_queue_bound()),
            ok ==> final(self)@ == old(self)@.push(c@),
            !ok ==> final(self)@ == old(self)@,
    {
        if self.find_index(c.id).is_some() {
            return false;
        }
        if c.queue.len() > self.queue_bound {
            return false;
        }
        let ghost prev = self@;
        self.clients.push(c);
        proof {
            assert(self@ =~~= prev.push(c@));
        }
        true
    }

    /// Deregister the subscriber with this id, if present; its queued
    /// frames are discarded with it.
    pub fn remove(&mut self, id: u64) -> (found: bool)
        requires
            old(self).wf(),
        ensures
            final(self).wf(),
            final(self).spec_queue_bound() == old(self).spec_queue_bound(),
            found == contains_id(old(self)@, id),
            !found ==> final(self)@ == old(self)@,
            found ==> final(self)@ == old(self)@.remove(index_of_id(old(self)@, id)),
            forall|x: u64|
                contains_id(final(self)@, x) <==> (contains_id(old(self)@, x) && x != id),
    {
        let r = self.find_index(id);
        match r {
            None => {
                proof {
                    assert forall|x: u64|
                        contains_id(self@, x) <==> (contains_id(self@, x) && x != id) by {
                        if contains_id(self@, x) && x == id {
                            assert(contains_id(self@, id));
                        }
                    }
                }
                false
            },
            Some(i) => {
                let ghost prev = self@;
                let ghost k = index_of_id(prev, id);
                proof {
                    assert(0 <= k < prev.len() && prev[k].id == id);
                    assert(k == i as int);
                    prev.remove_ensures(k);
                }
                self.clients.remove(i);
                proof {
                    assert(self@ =~~= prev.remove(k));
                    assert forall|x: u64|
                        contains_id(self@, x) <==> (contains_id(prev, x) && x != id) by {
                        if contains_id(self@, x) {
                            let j = choose|j: int| 0 <= j < self@.len() && self@[j].id == x;
                            let j0 = if j < k {
                                j
                            } else {
                                j + 1
                            };
                            assert(prev[j0].id == x);
                            assert(x != id);
                        }
                        if contains_id(prev, x) && x != id {
                            let j = choose|j: int| 0 <= j < prev.len() && prev[j].id == x;
                            let j1 = if j < k {
                                j
                            } else {
                                j - 1
                            };
                            assert(self@[j1].id == x);
                        }
                    }
                }
                true
            },
        }
    }

    /// Note that a subscriber's transport side is gone: its queue will
    /// accept no further frame, and the next broadcast pass reports it
    /// for removal.
    pub fn mark_closed(&mut self, id: u64) -> (found: bool)
        requires
            old(self).wf(),
        ensures
            final(self).wf(),
            final(self).spec_queue_bound() == old(self).spec_queue_bound(),
            found == contains_id(old(self)@, id),
            !found ==> final(self)@ == old(self)@,
            found ==> final(self)@ == old(self)@.update(
                index_of_id(old(self)@, id),
                (ClientView {
                    id,
                    queue: old(self)@[index_of_id(old(self)@, id)].queue,
                    closed: true,
                }),
            ),
    {
        let r = self.find_index(id);
        match r {
            None => false,
            Some(i) => {
                let ghost prev = self@;
                let ghost k = index_of_id(prev, id);
                proof {
                    assert(0 <= k < prev.len() && prev[k].id == id);
                    assert(k == i as int);
                }
                let c = &mut self.clients[i];
                c.closed = true;
                proof {
                    assert(self@ =~~= prev.update(
                        k,
                        (ClientView { id, queue: prev[k].queue, closed: true }),
                    ));
                }
                true
            },
        }
    }

    /// Fan one frame out to every registered subscriber: every open
    /// subscriber with room gets exactly these bytes appended to its
    /// queue; a full queue drops this one frame for that subscriber
    /// only; closed subscribers are returned so the caller can turn
    /// each into a removal event. The pass itself never fails and
    /// touches no other subscriber.
    pub fn broadcast_frame(&mut self, frame: &Vec<u8>) -> (stale: Vec<u64>)
        requires
            old(self).wf(),
        ensures
            final(self).wf(),
            final(self).spec_queue_bound() == old(self).spec_queue_bound(),
            final(self)@.len() == old(self)@.len(),
            forall|i: int|
                0 <= i < old(self)@.len() ==> final(self)@[i] == deliver(
                    old(self)@[i],
                    frame@,
                    old(self).spec_queue_bound() as nat,
                ),
            stale@ == closed_ids(old(self)@),
    {
        let ghost orig = self@;
        let ghost bound = self.spec_queue_bound() as nat;
        let mut stale: Vec<u64> = Vec::new();
        let n = self.clients.len();
        let mut i: usize = 0;
        while i < n
            invariant
                n == orig.len(),
                self@.len() == orig.len(),
                self.spec_queue_bound() as nat == bound,
                self.spec_queue_bound() >= 1,
                i <= n,
                forall|j: int| 0 <= j < i ==> self@[j] == deliver(orig[j], frame@, bound),
                forall|j: int| i <= j < orig.len() ==> self@[j] == orig[j],
                stale@ == closed_ids(orig.take(i as int)),
            decreases n - i,
        {
            let ghost pre = self@;
            let closed_now = self.clients[i].closed;
            if closed_now {
                let cid = self.clients[i].id;
                stale.push(cid);
            } else if self.clients[i].queue.len() < self.queue_bound {
                let f = copy_frame(frame);
                let c = &mut self.clients[i];
                c.enqueue(f);
                proof {
                    assert(self@ =~~= pre.update(i as int, self@[i as int]));
                }
            }
            proof {
                let i1 = i as int + 1;
                assert(orig.take(i1).drop_last() =~= orig.take(i as int));
                assert(orig.take(i1).last() == orig[i as int]);
                assert(stale@ == closed_ids(orig.take(i1)));
                assert(self@[i as int] == deliver(orig[i as int], frame@, bound));
            }
            i = i + 1;
        }
        proof {
            assert(orig.take(n as int) =~= orig);
        }
        stale
    }

    /// Hand the outbound pump the oldest queued frame for this
    /// subscriber, if it has one.
    pub fn pop_frame(&mut self, id: u64) -> (r: Option<Vec<u8>>)
        requires
            old(self).wf(),
        ensures
            final(self).wf(),
            final(self).spec_queue_bound() == old(self).spec_queue_bound(),
            r is Some <==> (contains_id(old(self)@, id) && old(self)@[index_of_id(
                old(self)@,
                id,
            )].queue.len() > 0),
            r matches Some(f) ==> ({
                let k = index_of_id(old(self)@, id);
                &&& f@ == old(self)@[k].queue[0]
                &&& final(self)@ == old(self)@.update(k, pop_front_of(old(self)@[k]))
            }),
            r is None ==> final(self)@ == old(self)@,
    {
        let idx = self.find_index(id);
        match idx {
            None => None,
            Some(i) => {
                let ghost prev = self@;
                let ghost k = index_of_id(prev, id);
                proof {
                    assert(0 <= k < prev.len() && prev[k].id == id);
                    assert(k == i as int);
                }
                if self.clients[i].queue.len() == 0 {
                    return None;
                }
                let c = &mut self.clients[i];
                let f = c.queue.remove(0);
                proof {
                    assert(f@ == prev[k].queue[0]);
                    assert(self@[k].queue =~~= prev[k].queue.drop_first());
                    assert(self@ =~~= prev.update(k, pop_front_of(prev[k])));
                }
                Some(f)
            },
        }
    }
}

/// One connection-lifecycle event, as the consuming task applies it to
/// the registry.
pub ghost enum RegistryEvent {
    Connect(ClientView),
    Disconnect(u64),
    Broadcast(Seq<u8>),
}

/// The registry contents after one event, exactly as the handlers
/// produce them: a connect admits a fresh id (duplicates and over-long
/// pending queues are refused), a disconnect removes the one matching
/// subscriber, a broadcast touches queues but never membership.
pub open spec fn apply_event(s: Seq<ClientView>, bound: nat, e: RegistryEvent) -> Seq<ClientView> {
    match e {
        RegistryEvent::Connect(c) => if !contains_id(s, c.id) && c.queue.len() <= bound {
            s.push(c)
        } else {
            s
        },
        RegistryEvent::Disconnect(id) => if contains_id(s, id) {
            s.remove(index_of_id(s, id))
        } else {
            s
        },
        RegistryEvent::Broadcast(frame) => Seq::new(s.len(), |i: int| deliver(s[i], frame, bound)),
    }
}

/// The registry contents after a whole interleaving of events.
pub open spec fn run_events(s: Seq<ClientView>, bound: nat, es: Seq<RegistryEvent>) -> Seq<
    ClientView,
>
    decreases es.len(),
{
    if es.len() == 0 {
        s
    } else {
        run_events(apply_event(s, bound, es.first()), bound, es.drop_first())
    }
}

/// One event keeps the registry invariants, and moves the set of live
/// ids exactly as the event says: an admitted connect adds its one id,
/// a disconnect of a present id removes that one id, everything else
/// leaves the set alone.
pub proof fn lemma_apply_event(s: Seq<ClientView>, bound: nat, e: RegistryEvent)
    requires
        uniq_ids(s),
        queues_bounded(s, bound),
    ensures
        uniq_ids(apply_event(s, bound, e)),
        queues_bounded(apply_event(s, bound, e), bound),
        live_ids(apply_event(s, bound, e)) == (match e {
            RegistryEvent::Connect(c) => if !contains_id(s, c.id) && c.queue.len() <= bound {
                live_ids(s).insert(c.id)
            } else {
                live_ids(s)
            },
            RegistryEvent::Disconnect(id) => if contains_id(s, id) {
                live_ids(s).remove(id)
            } else {
                live_ids(s)
            },
            RegistryEvent::Broadcast(frame) => live_ids(s),
        }),
{
    let t = apply_event(s, bound, e);
    match e {
        RegistryEvent::Connect(c) => {
            if !contains_id(s, c.id) && c.queue.len() <= bound {
                assert forall|i: int, j: int| 0 <= i < j < t.len() implies t[i].id != t[j].id by {
                    if j == s.len() as int {
                        assert(!(s[i].id == c.id));
                    }
                }
                assert forall|x: u64| live_ids(t).contains(x) <==> live_ids(s).insert(
                    c.id,
                ).contains(x) by {
                    lemma_ids_membership(s, x);
                    lemma_ids_membership(t, x);
                    if contains_id(t, x) {
                        let i = choose|i: int| 0 <= i < t.len() && t[i].id == x;
                        if i < s.len() {
                            assert(contains_id(s, x));
                        }
                    }
                    if contains_id(s, x) {
                        let i = choose|i: int| 0 <= i < s.len() && s[i].id == x;
                        assert(t[i].id == x);
                    }
                    if x == c.id {
                        assert(t[s.len() as int].id == x);
                    }
                }
                assert(live_ids(t) =~= live_ids(s).insert(c.id));
            }
        },
        RegistryEvent::Disconnect(id) => {
            if contains_id(s, id) {
                let k = index_of_id(s, id);
                assert(0 <= k < s.len() && s[k].id == id);
                s.remove_ensures(k);
                assert forall|i: int, j: int| 0 <= i < j < t.len() implies t[i].id != t[j].id by {
                    let i0 = if i < k {
                        i
                    } else {
                        i + 1
                    };
                    let j0 = if j < k {
                        j
                    } else {
                        j + 1
                    };
                    assert(t[i] == s[i0] && t[j] == s[j0]);
                }
                assert forall|x: u64| live_ids(t).contains(x) <==> live_ids(s).remove(
                    id,
                ).contains(x) by {
                    lemma_ids_membership(s, x);
                    lemma_ids_membership(t, x);
                    if contains_id(t, x) {
                        let i = choose|i: int| 0 <= i < t.len() && t[i].id == x;
                        let i0 = if i < k {
                            i
                        } else {
                            i + 1
                        };
                        assert(s[i0].id == x);
                        assert(x != id);
                    }
                    if contains_id(s, x) && x != id {
                        let i = choose|i: int| 0 <= i < s.len() && s[i].id == x;
                        let i1 = if i < k {
                            i
                        } else {
                            i - 1
                        };
                        assert(t[i1].id == x);
                    }
                }
                assert(live_ids(t) =~= live_ids(s).remove(id));
            }
        },
        RegistryEvent::Broadcast(frame) => {
            assert forall|x: u64| live_ids(t).contains(x) <==> live_ids(s).contains(x) by {
                lemma_ids_membership(s, x);
                lemma_ids_membership(t, x);
                if contains_id(t, x) {
                    let i = choose|i: int| 0 <= i < t.len() && t[i].id == x;
                    assert(s[i].id == x);
                }
                if contains_id(s, x) {
                    let i = choose|i: int| 0 <= i < s.len() && s[i].id == x;
                    assert(t[i].id == x);
                }
            }
            assert(live_ids(t) =~= live_ids(s));
        },
    }
}

/// Fan-out law: one broadcast pass delivers the exact byte sequence to
/// every open subscriber with room in its queue; a subscriber whose
/// queue is full drops that one frame and nothing else; a closed
/// subscriber is left untouched; and no pass ever changes who is
/// registered. The pass is total: it has no failing outcome.
pub proof fn lemma_broadcast_delivery(s: Seq<ClientView>, frame: Seq<u8>, bound: nat, i: int)
    requires
        0 <= i < s.len(),
    ensures
        apply_event(s, bound, RegistryEvent::Broadcast(frame)).len() == s.len(),
        apply_event(s, bound, RegistryEvent::Broadcast(frame))[i].id == s[i].id,
        apply_event(s, bound, RegistryEvent::Broadcast(frame))[i].closed == s[i].closed,
        !s[i].closed && s[i].queue.len() < bound ==> apply_event(
            s,
            bound,
            RegistryEvent::Broadcast(frame),
        )[i].queue == s[i].queue.push(frame),
        s[i].closed || s[i].queue.len() >= bound ==> apply_event(
            s,
            bound,
            RegistryEvent::Broadcast(frame),
        )[i].queue == s[i].queue,
{
}

/// A send to an already-closed subscriber is caught, never an error:
/// a broadcast pass reports exactly the ids of the closed subscribers,
/// each owed one removal event.
pub proof fn lemma_closed_reported(s: Seq<ClientView>, x: u64)
    ensures
        closed_ids(s).contains(x) <==> exists|i: int|
            0 <= i < s.len() && s[i].closed && s[i].id == x,
    decreases s.len(),
{
    if s.len() > 0 {
        let rest = s.drop_last();
        let r = closed_ids(rest);
        lemma_closed_reported(rest, x);
        if closed_ids(s).contains(x) {
            if s.last().closed && x == s.last().id {
                assert(s[s.len() - 1].closed && s[s.len() - 1].id == x);
            } else {
                assert(r.contains(x));
                let i = choose|i: int| 0 <= i < rest.len() && rest[i].closed && rest[i].id == x;
                assert(s[i].closed && s[i].id == x);
            }
        }
        if exists|i: int| 0 <= i < s.len() && s[i].closed && s[i].id == x {
            let i = choose|i: int| 0 <= i < s.len() && s[i].closed && s[i].id == x;
            if i == s.len() - 1 {
                assert(closed_ids(s).last() == x);
            } else {
                assert(rest[i].closed && rest[i].id == x);
                assert(r.contains(x));
                let j = choose|j: int| 0 <= j < r.len() && r[j] == x;
                assert(closed_ids(s)[j] == x);
            }
        }
    }
}

/// An id is live exactly when some registered subscriber carries it.
pub proof fn lemma_ids_membership(s: Seq<ClientView>, x: u64)
    ensures
        live_ids(s).contains(x) <==> contains_id(s, x),
{
    if contains_id(s, x) {
        let i = choose|i: int| 0 <= i < s.len() && s[i].id == x;
        assert(ids_seq(s)[i] == x);
        assert(ids_seq(s).contains(x));
    }
    if ids_seq(s).contains(x) {
        let i = choose|i: int| 0 <= i < ids_seq(s).len() && ids_seq(s)[i] == x;
        assert(s[i].id == x);
    }
}

/// A whole interleaving keeps the registry invariants.
pub proof fn lemma_run_events_wf(s: Seq<ClientView>, bound: nat, es: Seq<RegistryEvent>)
    requires
        uniq_ids(s),
        queues_bounded(s, bound),
    ensures
        uniq_ids(run_events(s, bound, es)),
        queues_bounded(run_events(s, bound, es), bound),
    decreases es.len(),
{
    if es.len() > 0 {
        lemma_apply_event(s, bound, es.first());
        lemma_run_events_wf(apply_event(s, bound, es.first()), bound, es.drop_first());
    }
}

/// Registry-size law: after any interleaving of connect, disconnect
/// and broadcast events applied to an empty registry, ids stay unique
/// and the number of registered subscribers equals the number of
/// distinct live ids — the registry's size is exactly the count of the
/// currently active clients.
pub proof fn lemma_registry_size(bound: nat, es: Seq<RegistryEvent>)
    ensures
        uniq_ids(run_events(Seq::<ClientView>::empty(), bound, es)),
        queues_bounded(run_events(Seq::<ClientView>::empty(), bound, es), bound),
        live_ids(run_events(Seq::<ClientView>::empty(), bound, es)).finite(),
        live_ids(run_events(Seq::<ClientView>::empty(), bound, es)).len() == run_events(
            Seq::<ClientView>::empty(),
            bound,
            es,
        ).len(),
{
    broadcast use vstd::seq_lib::seq_to_set_is_finite;

    lemma_run_events_wf(Seq::<ClientView>::empty(), bound, es);
    let r = run_events(Seq::<ClientView>::empty(), bound, es);
    assert forall|i: int, j: int|
        0 <= i < ids_seq(r).len() && 0 <= j < ids_seq(r).len() && i != j implies ids_seq(r)[i]
        != ids_seq(r)[j] by {
        assert(ids_seq(r)[i] == r[i].id && ids_seq(r)[j] == r[j].id);
    }
    assert(ids_seq(r).no_duplicates());
    ids_seq(r).unique_seq_to_set();
}

/// An owned copy of one frame's bytes.
fn copy_frame(src: &Vec<u8>) -> (r: Vec<u8>)
    ensures
        r@ == src@,
{
    let mut r: Vec<u8> = Vec::new();
    let mut i: usize = 0;
    while i < src.len()
        invariant
            i <= src@.len(),
            r@ == src@.take(i as int),
        decreases src@.len() - i,
    {
        r.push(src[i]);
        proof {
            assert(r@ =~= src@.take(i as int + 1));
        }
        i = i + 1;
    }
    proof {
        assert(src@.take(src@.len() as int) =~= src@);
    }
    r
}

} // verus!
