//! A multi-client TCP chat relay speaking the TELNET wire protocol.
//!
//! The library holds the verified core: the TELNET byte-stream decoder
//! (`telnet`), the per-connection session logic (`client`), and the hub that
//! owns the client registry and routes chat messages (`main_loop`). The
//! asynchronous plumbing around the core (sockets, task spawning, channel
//! receive loops) lives outside the library and drives these functions.

use vstd::prelude::*;

pub mod client;
pub mod main_loop;
pub mod telnet;

verus! {

/// Identifier for one connected client, unique for the process lifetime.
///
/// Minted by `ServerHandle::next_id` from a shared monotonic counter and
/// never reused, so no two live clients ever share an id.
#[derive(Copy, Clone, Debug, Eq, PartialEq, Hash, Structural)]
pub struct ClientId(usize);

/// A message consumed by the hub, produced by the acceptor or a session.
pub enum ToServer {
    /// A freshly accepted client to add to the registry.
    NewClient(ClientHandle),
    /// A chat line from the given client, to be relayed to every other one.
    Message(ClientId, Vec<u8>),
    /// An unrecoverable failure (e.g. of the listener); ends the whole service.
    FatalError(String),
}

/// A message delivered from the hub to one client's session.
pub enum FromServer {
    Message(Vec<u8>),
}

/// A hub-to-client delivery was refused: the client's outbound channel is
/// full (slow client) or closed (dead client).
#[derive(Copy, Clone, Debug, Eq, PartialEq, Structural)]
pub struct DeliveryError;

#[verifier::external_type_specification]
#[verifier::external_body]
#[verifier::reject_recursive_types(T)]
pub struct ExSender<T>(tokio::sync::mpsc::Sender<T>);

#[verifier::external_type_specification]
#[verifier::external_body]
pub struct ExAbortHandle(futures::future::AbortHandle);

/// Relies on tokio's `Sender::clone`: the clone is an endpoint of the same
/// channel. Needed so `ServerHandle` can derive `Clone`; nothing more is
/// claimed of the result.
pub assume_specification<T>[ <tokio::sync::mpsc::Sender<T> as std::clone::Clone>::clone ](
    sender: &tokio::sync::mpsc::Sender<T>,
) -> tokio::sync::mpsc::Sender<T>;

/// Relies on tokio's `Sender::try_send`: the message is queued for the
/// receiving session exactly when a capacity slot is free and the receiver
/// is still alive; the call never blocks.
#[verifier::external_body]
fn chan_try_send(chan: &tokio::sync::mpsc::Sender<FromServer>, msg: FromServer) -> (accepted:
    bool) {
    chan.try_send(msg).is_ok()
}

/// Relies on futures' `AbortHandle::abort`: tells every task registered with
/// this handle to stop at its next suspension point.
#[verifier::external_body]
fn abort_session(kill: &futures::future::AbortHandle) {
    kill.abort()
}

/// Shared capability to talk to the hub and to mint client identities.
///
/// Cloning shares (never duplicates) the identity counter and the channel
/// endpoint. The channel end is public so the unverified async shell can
/// await on `chan.send`, which has no place in the verified core.
#[derive(Clone, Debug)]
pub struct ServerHandle {
    /// Sender into the hub's single inbound channel.
    pub chan: tokio::sync::mpsc::Sender<ToServer>,
    /// The shared identity counter; mint ids only through `next_id`.
    pub next_id: std::sync::Arc<core::sync::atomic::AtomicUsize>,
}

impl ServerHandle {
    /// Builds the handle around the hub's inbound channel, with a fresh
    /// identity counter starting at zero.
    pub fn new(chan: tokio::sync::mpsc::Sender<ToServer>) -> (handle: ServerHandle)
        ensures
            handle.chan == chan,
    {
        ServerHandle {
            chan,
            next_id: std::sync::Arc::new(core::sync::atomic::AtomicUsize::new(0)),
        }
    }

    /// Mints a fresh `ClientId` by a lock-free increment of the shared
    /// counter; every call across all holders of this handle (and its
    /// clones) observes a distinct counter value, so ids are never reused.
    pub fn next_id(&self) -> ClientId {
        let id: usize = self.next_id.fetch_add(1, core::sync::atomic::Ordering::Relaxed);
        ClientId(id)
    }
}

/// The hub's record for one connected client: its identity, peer address,
/// the sender of its outbound delivery channel, and the capability that
/// tears its session down. Owned exclusively by the hub.
#[derive(Debug)]
pub struct ClientHandle {
    pub id: ClientId,
    pub addr: String,
    pub chan: tokio::sync::mpsc::Sender<FromServer>,
    pub kill: futures::future::AbortHandle,
}

impl ClientHandle {
    /// Assembles the record the acceptor registers with the hub.
    pub fn new(
        id: ClientId,
        addr: String,
        chan: tokio::sync::mpsc::Sender<FromServer>,
        kill: futures::future::AbortHandle,
    ) -> (handle: ClientHandle)
        ensures
            handle.id == id,
            handle.addr == addr,
            handle.chan == chan,
            handle.kill == kill,
    {
        ClientHandle { id, addr, chan, kill }
    }

    /// Attempts a non-blocking delivery to this client's session. The
    /// result reports whatever the channel decided: `Err` when the channel
    /// is full or closed, so a slow or dead client never stalls the caller.
    pub fn send(&mut self, msg: FromServer) -> (r: Result<(), DeliveryError>)
        ensures
            *final(self) == *old(self),
    {
        if chan_try_send(&self.chan, msg) {
            Ok(())
        } else {
            Err(DeliveryError)
        }
    }

    /// Tears the client's session down by aborting its task group. This is
    /// the only sanctioned way to force-terminate a session from outside,
    /// and the hub invokes it whenever it evicts the client.
    pub fn kill(self) {
        abort_session(&self.kill)
    }
}

} // verus!
