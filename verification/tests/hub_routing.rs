//! The hub's registry and routing policy, driven over real channels.

use futures::future::AbortHandle;
use telnet_chat::main_loop::{HubOutcome, Registry};
use telnet_chat::{ClientHandle, ClientId, FromServer, ServerHandle, ToServer};
use tokio::sync::mpsc::error::TryRecvError;
use tokio::sync::mpsc::Receiver;

fn fresh_server_handle() -> ServerHandle {
    let (send, _recv) = tokio::sync::mpsc::channel::<ToServer>(64);
    ServerHandle::new(send)
}

struct TestClient {
    id: ClientId,
    recv: Receiver<FromServer>,
    abort: AbortHandle,
}

fn add_client(registry: &mut Registry, server: &ServerHandle, capacity: usize) -> TestClient {
    let id = server.next_id();
    let (send, recv) = tokio::sync::mpsc::channel::<FromServer>(capacity);
    let (abort, _registration) = AbortHandle::new_pair();
    registry.insert(ClientHandle::new(id, String::from("test-peer"), send, abort.clone()));
    TestClient { id, recv, abort }
}

fn recv_payload(client: &mut TestClient) -> Option<Vec<u8>> {
    match client.recv.try_recv() {
        Ok(FromServer::Message(payload)) => Some(payload),
        Err(TryRecvError::Empty) => None,
        Err(TryRecvError::Disconnected) => None,
    }
}

#[test]
fn ids_are_fresh_and_distinct() {
    let server = fresh_server_handle();
    let a = server.next_id();
    let b = server.next_id();
    let c = server.clone().next_id();
    assert_ne!(a, b);
    assert_ne!(a, c);
    assert_ne!(b, c);
}

#[test]
fn registry_tracks_insertions() {
    let server = fresh_server_handle();
    let mut registry = Registry::new();
    assert_eq!(registry.count(), 0);
    let a = add_client(&mut registry, &server, 4);
    let b = add_client(&mut registry, &server, 4);
    assert_eq!(registry.count(), 2);
    assert!(registry.contains(a.id));
    assert!(registry.contains(b.id));
    assert!(!registry.contains(server.next_id()));
}

#[test]
fn broadcast_reaches_everyone_but_the_sender() {
    let server = fresh_server_handle();
    let mut registry = Registry::new();
    let mut a = add_client(&mut registry, &server, 4);
    let mut b = add_client(&mut registry, &server, 4);
    let mut c = add_client(&mut registry, &server, 4);

    let report = registry.route(a.id, &b"hi".to_vec());

    assert_eq!(report.delivered.len(), 2);
    assert!(report.delivered.contains(&b.id));
    assert!(report.delivered.contains(&c.id));
    assert!(report.evicted.is_empty());
    assert_eq!(recv_payload(&mut a), None);
    assert_eq!(recv_payload(&mut b), Some(b"hi".to_vec()));
    assert_eq!(recv_payload(&mut c), Some(b"hi".to_vec()));
    // each recipient got it exactly once
    assert_eq!(recv_payload(&mut b), None);
    assert_eq!(recv_payload(&mut c), None);
}

#[test]
fn saturated_client_is_evicted_by_end_of_pass() {
    let server = fresh_server_handle();
    let mut registry = Registry::new();
    let a = add_client(&mut registry, &server, 4);
    let mut b = add_client(&mut registry, &server, 1);

    let first = registry.route(a.id, &b"one".to_vec());
    assert_eq!(first.delivered, vec![b.id]);
    assert!(first.evicted.is_empty());

    // b has not drained its channel of capacity one: the next pass overflows
    // it, and b is gone before the pass ends, its session aborted
    let second = registry.route(a.id, &b"two".to_vec());
    assert!(second.delivered.is_empty());
    assert_eq!(second.evicted, vec![b.id]);
    assert!(!registry.contains(b.id));
    assert!(b.abort.is_aborted());

    // subsequent messages are never delivered to it
    let third = registry.route(a.id, &b"three".to_vec());
    assert!(third.delivered.is_empty());
    assert!(third.evicted.is_empty());
    assert_eq!(recv_payload(&mut b), Some(b"one".to_vec()));
    assert_eq!(recv_payload(&mut b), None);
}

#[test]
fn dead_client_is_evicted_on_next_delivery() {
    let server = fresh_server_handle();
    let mut registry = Registry::new();
    let a = add_client(&mut registry, &server, 4);
    let b = add_client(&mut registry, &server, 4);
    drop(b.recv);

    let report = registry.route(a.id, &b"hello".to_vec());
    assert_eq!(report.evicted, vec![b.id]);
    assert!(report.delivered.is_empty());
    assert!(!registry.contains(b.id));
    assert!(b.abort.is_aborted());
    assert!(registry.contains(a.id));
}

#[test]
fn sender_is_never_evicted_even_when_saturated() {
    let server = fresh_server_handle();
    let mut registry = Registry::new();
    let a = add_client(&mut registry, &server, 1);
    let b = add_client(&mut registry, &server, 4);
    // saturate a's own channel
    let _ = registry.route(b.id, &b"fill".to_vec());
    // a broadcasting does not touch a's channel
    let report = registry.route(a.id, &b"out".to_vec());
    assert_eq!(report.delivered, vec![b.id]);
    assert!(report.evicted.is_empty());
    assert!(registry.contains(a.id));
}

#[test]
fn eviction_is_due_exactly_on_refusal() {
    assert!(!telnet_chat::main_loop::eviction_due(&Ok(())));
    assert!(telnet_chat::main_loop::eviction_due(&Err(telnet_chat::DeliveryError)));
}

#[test]
fn hub_step_handles_each_inbound_variant() {
    let server = fresh_server_handle();
    let mut registry = Registry::new();

    let id = server.next_id();
    let (send, mut recv) = tokio::sync::mpsc::channel::<FromServer>(4);
    let (abort, _registration) = AbortHandle::new_pair();
    let client = ClientHandle::new(id, String::from("test-peer"), send, abort.clone());
    let (outcome, report) = registry.hub_step(ToServer::NewClient(client));
    assert!(matches!(outcome, HubOutcome::Proceed));
    assert!(registry.contains(id));
    assert!(report.delivered.is_empty());
    assert!(report.evicted.is_empty());

    let sender = add_client(&mut registry, &server, 4);
    let (outcome, report) = registry.hub_step(ToServer::Message(sender.id, b"hey".to_vec()));
    assert!(matches!(outcome, HubOutcome::Proceed));
    assert_eq!(report.delivered, vec![id]);
    assert!(report.evicted.is_empty());
    match recv.try_recv() {
        Ok(FromServer::Message(payload)) => assert_eq!(payload, b"hey".to_vec()),
        other => panic!("expected the relayed payload, got {:?}", other.is_ok()),
    }

    let (outcome, _report) = registry.hub_step(ToServer::FatalError(String::from(
        "listener failed",
    )));
    match outcome {
        HubOutcome::Fatal(err) => assert_eq!(err, "listener failed"),
        HubOutcome::Proceed => panic!("a fatal error must stop the hub"),
    }
    // the fatal error tore the whole service down: the registry is empty
    // and every session was aborted
    assert_eq!(registry.count(), 0);
    assert!(!registry.contains(id));
    assert!(!registry.contains(sender.id));
    assert!(abort.is_aborted());
    assert!(sender.abort.is_aborted());
}

#[test]
fn shutdown_tears_every_session_down() {
    let server = fresh_server_handle();
    let mut registry = Registry::new();
    let a = add_client(&mut registry, &server, 4);
    let b = add_client(&mut registry, &server, 4);

    registry.shutdown();

    assert_eq!(registry.count(), 0);
    assert!(a.abort.is_aborted());
    assert!(b.abort.is_aborted());
}

#[test]
fn chat_exchange_then_disconnect() {
    // Two clients connect; a sends "hi"; b must receive it exactly once,
    // framed as "hi\r\n" by the write duty. Then a disconnects; b speaks
    // again without any system-wide error, and a is gone from the registry.
    let server = fresh_server_handle();
    let mut registry = Registry::new();
    let a = add_client(&mut registry, &server, 64);
    let mut b = add_client(&mut registry, &server, 64);

    let (outcome, report) = registry.hub_step(ToServer::Message(a.id, b"hi".to_vec()));
    assert!(matches!(outcome, HubOutcome::Proceed));
    assert_eq!(report.delivered, vec![b.id]);
    let payload = recv_payload(&mut b).expect("b must receive the chat line");
    assert_eq!(telnet_chat::client::encode_message(&payload), b"hi\r\n".to_vec());
    assert_eq!(recv_payload(&mut b), None);

    drop(a.recv);
    let (outcome, report) = registry.hub_step(ToServer::Message(b.id, b"still here".to_vec()));
    assert!(matches!(outcome, HubOutcome::Proceed));
    assert_eq!(report.evicted, vec![a.id]);
    assert!(!registry.contains(a.id));
    assert!(registry.contains(b.id));
}
