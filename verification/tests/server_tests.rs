use aprocess::registry::{ClientConn, Registry};
use aprocess::server::{connection_event, fresh_client, handle_message, ControlMessage, Effect, TransportEvent};

#[test]
fn broadcast_then_disconnect_scenario() {
    let mut reg = Registry::new(8);
    // client connects and is assigned id 7
    let eff = handle_message(&mut reg, ControlMessage::NewClient(ClientConn::new(7)));
    assert!(matches!(eff, Effect::Registered(7, true)));
    // the server receives a broadcast of [1, 2, 3]
    let eff = handle_message(&mut reg, ControlMessage::Broadcast(vec![1, 2, 3]));
    match eff {
        Effect::Stale(stale) => assert!(stale.is_empty()),
        other => panic!("expected a stale list, got another effect: {}", effect_name(&other)),
    }
    // the client's queue holds exactly [1, 2, 3]
    assert_eq!(reg.pop_frame(7), Some(vec![1, 2, 3]));
    assert_eq!(reg.pop_frame(7), None);
    // the client disconnects; the registry no longer contains id 7
    let eff = handle_message(&mut reg, ControlMessage::RemoveClient(7));
    assert!(matches!(eff, Effect::Removed(7, true)));
    assert!(!reg.contains(7));
    // a further broadcast succeeds with zero recipients
    let eff = handle_message(&mut reg, ControlMessage::Broadcast(vec![4, 5]));
    match eff {
        Effect::Stale(stale) => assert!(stale.is_empty()),
        other => panic!("expected a stale list, got another effect: {}", effect_name(&other)),
    }
    assert_eq!(reg.len(), 0);
}

fn effect_name(e: &Effect) -> &'static str {
    match e {
        Effect::Registered(_, _) => "registered",
        Effect::Inbound(_, _, _) => "inbound",
        Effect::Stale(_) => "stale",
        Effect::Removed(_, _) => "removed",
    }
}

#[test]
fn new_client_with_duplicate_id_is_refused() {
    let mut reg = Registry::new(8);
    let eff = handle_message(&mut reg, ControlMessage::NewClient(ClientConn::new(3)));
    assert!(matches!(eff, Effect::Registered(3, true)));
    let eff = handle_message(&mut reg, ControlMessage::NewClient(ClientConn::new(3)));
    assert!(matches!(eff, Effect::Registered(3, false)));
    assert_eq!(reg.len(), 1);
}

#[test]
fn inbound_text_reports_whether_sender_is_known() {
    let mut reg = Registry::new(8);
    let eff = handle_message(&mut reg, ControlMessage::InboundText(4, String::from("hi")));
    match eff {
        Effect::Inbound(id, text, known) => {
            assert_eq!(id, 4);
            assert_eq!(text, "hi");
            assert!(!known);
        },
        other => panic!("expected inbound, got {}", effect_name(&other)),
    }
    let _ = handle_message(&mut reg, ControlMessage::NewClient(ClientConn::new(4)));
    let eff = handle_message(&mut reg, ControlMessage::InboundText(4, String::from("again")));
    assert!(matches!(eff, Effect::Inbound(4, _, true)));
}

#[test]
fn closed_client_surfaces_as_removal_event() {
    let mut reg = Registry::new(8);
    let _ = handle_message(&mut reg, ControlMessage::NewClient(ClientConn::new(1)));
    let _ = handle_message(&mut reg, ControlMessage::NewClient(ClientConn::new(2)));
    assert!(reg.mark_closed(1));
    let eff = handle_message(&mut reg, ControlMessage::Broadcast(vec![6]));
    match eff {
        Effect::Stale(stale) => {
            // feeding each reported id back removes exactly that client
            assert_eq!(stale, vec![1]);
            for id in stale {
                let eff = handle_message(&mut reg, ControlMessage::RemoveClient(id));
                assert!(matches!(eff, Effect::Removed(_, true)));
            }
        },
        other => panic!("expected a stale list, got {}", effect_name(&other)),
    }
    assert!(!reg.contains(1));
    assert!(reg.contains(2));
    assert_eq!(reg.pop_frame(2), Some(vec![6]));
}

#[test]
fn transport_frame_becomes_inbound_text() {
    let (msg, keep_going) = connection_event(12, TransportEvent::Frame(String::from("ping")));
    match msg {
        ControlMessage::InboundText(id, text) => {
            assert_eq!(id, 12);
            assert_eq!(text, "ping");
        },
        _ => panic!("expected inbound text"),
    }
    assert!(keep_going);
}

#[test]
fn transport_gone_becomes_removal_and_stops_pump() {
    let (msg, keep_going) = connection_event(12, TransportEvent::Gone);
    assert!(matches!(msg, ControlMessage::RemoveClient(12)));
    assert!(!keep_going);
}

#[test]
fn fresh_client_starts_clean_and_registers() {
    let mut reg = Registry::new(8);
    let c = fresh_client();
    assert!(!c.closed);
    assert!(c.queue.is_empty());
    let id = c.id;
    assert!(reg.insert(c));
    assert!(reg.contains(id));
    assert_eq!(reg.pop_frame(id), None);
}
