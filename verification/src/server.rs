//! The broadcast server's control plane.
//!
//! Every registry mutation and every broadcast pass flows as a
//! `ControlMessage` through one consuming task, which calls
//! `handle_message`: mutations and fan-out passes are therefore
//! serialized and never observe each other half-done. The surrounding
//! accept loop, socket pumps and channels are unverified plumbing; the
//! decisions they need are here.

use crate::registry::{
    apply_event, closed_ids, contains_id, deliver, index_of_id, ClientConn, Registry,
    RegistryEvent,
};
use vstd::prelude::*;

verus! {

/// The single message type through which all registry mutations and
/// broadcasts flow.
pub enum ControlMessage {
    /// A freshly accepted connection to register.
    NewClient(ClientConn),
    /// Text received from one client, to be reported.
    InboundText(u64, String),
    /// One audio frame to fan out to every subscriber.
    Broadcast(Vec<u8>),
    /// A connection whose transport is gone; deregister it.
    RemoveClient(u64),
}

/// What handling one control message came to.
pub enum Effect {
    /// A `NewClient` was admitted, or refused on a duplicate id or an
    /// over-long pending queue.
    Registered(u64, bool),
    /// Inbound text from a client, and whether that client is registered.
    Inbound(u64, String, bool),
    /// The closed subscribers a broadcast pass found, each owed a
    /// `RemoveClient` follow-up.
    Stale(Vec<u64>),
    /// A `RemoveClient` was applied, or the id was unknown.
    Removed(u64, bool),
}

/// Apply one control message to the registry. This is the consuming
/// task's whole step: admit or refuse a new client, report inbound
/// text, fan a frame out, or deregister a client.
pub fn handle_message(reg: &mut Registry, msg: ControlMessage) -> (eff: Effect)
    requires
        old(reg).wf(),
    ensures
        final(reg).wf(),
        final(reg).spec_queue_bound() == old(reg).spec_queue_bound(),
        (msg matches ControlMessage::NewClient(c) ==> ({
            let ok = !contains_id(old(reg)@, c@.id) && c@.queue.len() <= old(
                reg,
            ).spec_queue_bound();
            &&& eff == Effect::Registered(c@.id, ok)
            &&& (ok ==> final(reg)@ == old(reg)@.push(c@))
            &&& (!ok ==> final(reg)@ == old(reg)@)
        })),
        (msg matches ControlMessage::InboundText(id, t) ==> ({
            &&& final(reg)@ == old(reg)@
            &&& eff == Effect::Inbound(id, t, contains_id(old(reg)@, id))
        })),
        (msg matches ControlMessage::Broadcast(frame) ==> ({
            &&& final(reg)@.len() == old(reg)@.len()
            &&& forall|i: int|
                0 <= i < old(reg)@.len() ==> final(reg)@[i] == deliver(
                    old(reg)@[i],
                    frame@,
                    old(reg).spec_queue_bound() as nat,
                )
            &&& eff matches Effect::Stale(v) && v@ == closed_ids(old(reg)@)
        })),
        (msg matches ControlMessage::RemoveClient(id) ==> ({
            let found = contains_id(old(reg)@, id);
            &&& eff == Effect::Removed(id, found)
            &&& (found ==> final(reg)@ == old(reg)@.remove(index_of_id(old(reg)@, id)))
            &&& (!found ==> final(reg)@ == old(reg)@)
            &&& forall|x: u64|
                contains_id(final(reg)@, x) <==> (contains_id(old(reg)@, x) && x != id)
        })),
        // the handler is exactly the event model that the registry-size
        // law quantifies over
        (msg matches ControlMessage::NewClient(c) ==> final(reg)@ == apply_event(
            old(reg)@,
            old(reg).spec_queue_bound() as nat,
            RegistryEvent::Connect(c@),
        )),
        (msg matches ControlMessage::Broadcast(frame) ==> final(reg)@ == apply_event(
            old(reg)@,
            old(reg).spec_queue_bound() as nat,
            RegistryEvent::Broadcast(frame@),
        )),
        (msg matches ControlMessage::RemoveClient(id) ==> final(reg)@ == apply_event(
            old(reg)@,
            old(reg).spec_queue_bound() as nat,
            RegistryEvent::Disconnect(id),
        )),
        (msg matches ControlMessage::InboundText(id, t) ==> final(reg)@ == old(reg)@),
{
    match msg {
        ControlMessage::NewClient(c) => {
            let id = c.id;
            let ok = reg.insert(c);
            Effect::Registered(id, ok)
        },
        ControlMessage::InboundText(id, t) => {
            let known = reg.contains(id);
            Effect::Inbound(id, t, known)
        },
        ControlMessage::Broadcast(frame) => {
            let stale = reg.broadcast_frame(&frame);
            proof {
                assert(reg@ =~= apply_event(
                    old(reg)@,
                    old(reg).spec_queue_bound() as nat,
                    RegistryEvent::Broadcast(frame@),
                ));
            }
            Effect::Stale(stale)
        },
        ControlMessage::RemoveClient(id) => {
            let found = reg.remove(id);
            Effect::Removed(id, found)
        },
    }
}

/// What the per-connection reader pump observed from its transport.
pub enum TransportEvent {
    /// A frame arrived, rendered as text.
    Frame(String),
    /// The stream errored or ended.
    Gone,
}

/// The reader pump's one decision: which control message a transport
/// event becomes, and whether the pump keeps reading afterwards.
pub fn connection_event(client_id: u64, ev: TransportEvent) -> (r: (ControlMessage, bool))
    ensures
        (match ev {
            TransportEvent::Frame(t) => r.0 == ControlMessage::InboundText(client_id, t) && r.1,
            TransportEvent::Gone => r.0 == ControlMessage::RemoveClient(client_id) && !r.1,
        }),
{
    match ev {
        TransportEvent::Frame(t) => (ControlMessage::InboundText(client_id, t), true),
        TransportEvent::Gone => (ControlMessage::RemoveClient(client_id), false),
    }
}

/// Relies on `rand::random`: a pseudo-random 64-bit value. Nothing is
/// assumed of it — not its distribution, and not distinctness between
/// calls.
#[verifier::external_body]
fn next_id() -> u64 {
    rand::random()
}

/// A subscriber with a freshly drawn random id, an empty queue and an
/// open transport. The id is random: whether it collides with an
/// already registered one is checked at registration, which refuses
/// duplicates whatever id was drawn.
pub fn fresh_client() -> (c: ClientConn)
    ensures
        c@.queue == Seq::<Seq<u8>>::empty(),
        !c@.closed,
{
    ClientConn::new(next_id())
}

} // verus!
