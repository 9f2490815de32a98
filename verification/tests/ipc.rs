use wm::app_command::InvokeCommand;
use wm::container::{ContainerKind, WindowContainer, ROOT};
use wm::error::{ConnectionFault, ProtocolFault, StructuralFault, WmError};
use wm::ipc_server::{IpcMessage, IpcServer, Outbound, Request, ServerMessage};
use wm::snapshot::ContainerRecord;
use wm::user_config::UserConfig;
use wm::window_state::WindowState;
use wm::wire::{decode, encode_request, filter_from_byte, filter_to_byte, state_from_byte, state_to_byte};
use wm::wire_reply::{encode_message, error_to_bytes, kind_to_byte};
use wm::wm_event::{EventFilter, WmEvent};
use wm::wm_state::WmState;

use WindowState::{Floating, Fullscreen, Minimized, Tiling};

fn protocol(f: ProtocolFault) -> Result<IpcMessage, WmError> {
    Err(WmError::Protocol(f))
}

fn word(x: u64) -> Vec<u8> {
    x.to_le_bytes().to_vec()
}

fn frame(parts: &[&[u8]]) -> Vec<u8> {
    parts.iter().flat_map(|p| p.iter().copied()).collect()
}

/// root -> monitor(1) -> workspace(2) -> [window(3), window(4)]
fn state_with_layout() -> WmState {
    let mut state = WmState::new();
    let m = state.tree.add_monitor();
    let ws = state.tree.add_workspace();
    let a = state.tree.add_window(100, Tiling);
    let b = state.tree.add_window(200, Tiling);
    assert_eq!(state.tree.attach(m, ROOT, 0), Ok(()));
    assert_eq!(state.tree.attach(ws, m, 0), Ok(()));
    assert_eq!(state.tree.attach(a, ws, 0), Ok(()));
    assert_eq!(state.tree.attach(b, ws, 1), Ok(()));
    state
}

#[test]
fn decode_queries_and_subscriptions() {
    assert_eq!(decode(&[1]), Ok(IpcMessage::Monitors));
    assert_eq!(decode(&[2]), Ok(IpcMessage::Windows));
    assert_eq!(decode(&[4]), Ok(IpcMessage::Subscribe(EventFilter::All)));
    assert_eq!(decode(&[4, 0]), Ok(IpcMessage::Subscribe(EventFilter::All)));
    assert_eq!(decode(&[4, 1]), Ok(IpcMessage::Subscribe(EventFilter::WindowState)));
    assert_eq!(decode(&[4, 2]), Ok(IpcMessage::Subscribe(EventFilter::Tree)));
}

#[test]
fn decode_commands() {
    assert_eq!(
        decode(&[3, 1, 4, 0, 0, 0, 0, 0, 0, 0]),
        Ok(IpcMessage::InvokeCommand(InvokeCommand::ToggleFloating(4)))
    );
    assert_eq!(
        decode(&[3, 2, 0, 1, 0, 0, 0, 0, 0, 0]),
        Ok(IpcMessage::InvokeCommand(InvokeCommand::ToggleFullscreen(256)))
    );
    assert_eq!(
        decode(&[3, 3, 5, 0, 0, 0, 0, 0, 0, 0]),
        Ok(IpcMessage::InvokeCommand(InvokeCommand::ToggleMinimized(5)))
    );
    assert_eq!(
        decode(&[3, 4, 6, 0, 0, 0, 0, 0, 0, 0]),
        Ok(IpcMessage::InvokeCommand(InvokeCommand::ToggleTiling(6)))
    );
    assert_eq!(
        decode(&[3, 5, 7, 0, 0, 0, 0, 0, 0, 0, 3]),
        Ok(IpcMessage::InvokeCommand(InvokeCommand::SetState(7, Fullscreen)))
    );
    assert_eq!(
        decode(&frame(&[&[3, 6], &word(9), &word(2), &word(1)])),
        Ok(IpcMessage::InvokeCommand(InvokeCommand::MoveWindow { window: 9, parent: 2, index: 1 }))
    );
}

#[test]
fn decode_refuses_what_is_no_request() {
    assert_eq!(decode(&[]), protocol(ProtocolFault::Empty));
    assert_eq!(decode(&[0]), protocol(ProtocolFault::UnknownRequest));
    assert_eq!(decode(&[5]), protocol(ProtocolFault::UnknownRequest));
    assert_eq!(decode(&[1, 0]), protocol(ProtocolFault::BadLength));
    assert_eq!(decode(&[2, 2]), protocol(ProtocolFault::BadLength));
    assert_eq!(decode(&[4, 0, 0]), protocol(ProtocolFault::BadLength));
    assert_eq!(decode(&[4, 3]), protocol(ProtocolFault::UnknownFilter));
    assert_eq!(decode(&[3]), protocol(ProtocolFault::BadLength));
    assert_eq!(decode(&[3, 0]), protocol(ProtocolFault::UnknownCommand));
    assert_eq!(decode(&[3, 7, 1, 0, 0, 0, 0, 0, 0, 0]), protocol(ProtocolFault::UnknownCommand));
    assert_eq!(decode(&[3, 1, 4, 0, 0]), protocol(ProtocolFault::BadLength));
    assert_eq!(decode(&[3, 1, 4, 0, 0, 0, 0, 0, 0, 0, 0]), protocol(ProtocolFault::BadLength));
    assert_eq!(decode(&[3, 5, 7, 0, 0, 0, 0, 0, 0, 0]), protocol(ProtocolFault::BadLength));
    assert_eq!(decode(&[3, 5, 7, 0, 0, 0, 0, 0, 0, 0, 4]), protocol(ProtocolFault::UnknownState));
    assert_eq!(decode(&[3, 6, 1, 2, 3]), protocol(ProtocolFault::BadLength));
}

#[test]
fn decode_refuses_an_identifier_beyond_the_address_width() {
    let huge = word(u64::MAX);
    let decoded = decode(&frame(&[&[3, 1], &huge]));
    if usize::BITS < 64 {
        assert_eq!(decoded, protocol(ProtocolFault::IdOutOfRange));
    } else {
        assert_eq!(
            decoded,
            Ok(IpcMessage::InvokeCommand(InvokeCommand::ToggleFloating(usize::MAX)))
        );
    }
}

#[test]
fn encoded_requests_decode_to_themselves() {
    let requests = [
        IpcMessage::Monitors,
        IpcMessage::Windows,
        IpcMessage::Subscribe(EventFilter::All),
        IpcMessage::Subscribe(EventFilter::WindowState),
        IpcMessage::Subscribe(EventFilter::Tree),
        IpcMessage::InvokeCommand(InvokeCommand::ToggleFloating(0)),
        IpcMessage::InvokeCommand(InvokeCommand::ToggleFullscreen(1)),
        IpcMessage::InvokeCommand(InvokeCommand::ToggleMinimized(70000)),
        IpcMessage::InvokeCommand(InvokeCommand::ToggleTiling(usize::MAX)),
        IpcMessage::InvokeCommand(InvokeCommand::SetState(3, Minimized)),
        IpcMessage::InvokeCommand(InvokeCommand::MoveWindow { window: 3, parent: 2, index: 9 }),
    ];
    for request in requests {
        assert_eq!(decode(&encode_request(&request)), Ok(request));
    }
}

#[test]
fn encode_request_writes_the_documented_bytes() {
    assert_eq!(encode_request(&IpcMessage::Monitors), vec![1]);
    assert_eq!(encode_request(&IpcMessage::Windows), vec![2]);
    assert_eq!(encode_request(&IpcMessage::Subscribe(EventFilter::Tree)), vec![4, 2]);
    assert_eq!(
        encode_request(&IpcMessage::InvokeCommand(InvokeCommand::SetState(258, Floating))),
        vec![3, 5, 2, 1, 0, 0, 0, 0, 0, 0, 1]
    );
    assert_eq!(
        encode_request(&IpcMessage::InvokeCommand(InvokeCommand::MoveWindow {
            window: 1,
            parent: 2,
            index: 3
        })),
        frame(&[&[3, 6], &word(1), &word(2), &word(3)])
    );
}

#[test]
fn state_and_filter_bytes() {
    for (b, s) in [(0, Tiling), (1, Floating), (2, Minimized), (3, Fullscreen)] {
        assert_eq!(state_to_byte(s), b);
        assert_eq!(state_from_byte(b), Some(s));
    }
    assert_eq!(state_from_byte(4), None);
    for (b, f) in [(0, EventFilter::All), (1, EventFilter::WindowState), (2, EventFilter::Tree)] {
        assert_eq!(filter_to_byte(f), b);
        assert_eq!(filter_from_byte(b), Some(f));
    }
    assert_eq!(filter_from_byte(3), None);
}

#[test]
fn started_server_takes_connections_in_order() {
    let mut server = IpcServer::start(4);
    assert!(server.is_accepting());
    assert_eq!(server.pending_len(), 0);
    assert!(!server.has_connection(0));
    assert_eq!(server.accept(), Ok(0));
    assert_eq!(server.accept(), Ok(1));
    assert!(server.has_connection(0));
    assert!(server.has_connection(1));
    assert!(!server.has_connection(2));
    assert_eq!(server.subscription(0), None);
}

#[test]
fn received_requests_wait_in_order() {
    let mut server = IpcServer::start(4);
    let a = server.accept().unwrap();
    let b = server.accept().unwrap();
    assert_eq!(server.receive(a, &[2]), Ok(()));
    assert_eq!(server.receive(b, &[1]), Ok(()));
    assert_eq!(server.receive(a, &[4, 1]), Ok(()));
    assert_eq!(server.pending_len(), 3);
    assert_eq!(server.next_request(), Some(Request { conn: a, message: IpcMessage::Windows }));
    assert_eq!(server.next_request(), Some(Request { conn: b, message: IpcMessage::Monitors }));
    assert_eq!(
        server.next_request(),
        Some(Request { conn: a, message: IpcMessage::Subscribe(EventFilter::WindowState) })
    );
    assert_eq!(server.next_request(), None);
}

#[test]
fn receive_refuses_unknown_connection_and_full_queue() {
    let mut server = IpcServer::start(1);
    let a = server.accept().unwrap();
    assert_eq!(
        server.receive(a + 1, &[1]),
        Err(WmError::Connection(ConnectionFault::UnknownConnection))
    );
    assert_eq!(server.receive(a, &[1]), Ok(()));
    assert_eq!(server.receive(a, &[2]), Err(WmError::Connection(ConnectionFault::QueueFull)));
    assert_eq!(server.pending_len(), 1);
    assert!(server.has_connection(a));
    assert_eq!(server.next_request(), Some(Request { conn: a, message: IpcMessage::Monitors }));
    assert_eq!(server.receive(a, &[2]), Ok(()));
}

#[test]
fn malformed_frame_ends_only_its_own_connection() {
    let mut server = IpcServer::start(8);
    let mut state = state_with_layout();
    let config = UserConfig::permissive();
    let a = server.accept().unwrap();
    let b = server.accept().unwrap();
    let _ = server.process_message(b, IpcMessage::Subscribe(EventFilter::Tree), &mut state, &config);
    assert_eq!(server.receive(a, &[1]), Ok(()));
    assert_eq!(server.receive(b, &[2]), Ok(()));
    assert_eq!(server.receive(a, &[2]), Ok(()));
    assert_eq!(server.receive(b, &[1]), Ok(()));
    assert_eq!(server.receive(a, &[9, 9]), Err(WmError::Protocol(ProtocolFault::UnknownRequest)));
    assert!(!server.has_connection(a));
    assert!(server.has_connection(b));
    assert_eq!(server.subscription(b), Some(EventFilter::Tree));
    assert_eq!(server.next_request(), Some(Request { conn: b, message: IpcMessage::Windows }));
    assert_eq!(server.next_request(), Some(Request { conn: b, message: IpcMessage::Monitors }));
    assert_eq!(server.next_request(), None);
    assert_eq!(
        server.receive(a, &[1]),
        Err(WmError::Connection(ConnectionFault::UnknownConnection))
    );
    assert!(server.is_accepting());
    assert_eq!(server.accept(), Ok(2));
}

#[test]
fn disconnect_releases_subscription_and_requests() {
    let mut server = IpcServer::start(8);
    let mut state = state_with_layout();
    let config = UserConfig::permissive();
    let a = server.accept().unwrap();
    let b = server.accept().unwrap();
    let _ = server.process_message(a, IpcMessage::Subscribe(EventFilter::All), &mut state, &config);
    let _ = server.process_message(b, IpcMessage::Subscribe(EventFilter::All), &mut state, &config);
    assert_eq!(server.receive(a, &[1]), Ok(()));
    server.disconnect(a);
    server.disconnect(a);
    server.disconnect(77);
    assert_eq!(server.subscription(a), None);
    assert_eq!(server.pending_len(), 0);
    let event = WmEvent::WindowMoved { window: 3, parent: 2, index: 0 };
    assert_eq!(
        server.process_event(event),
        vec![Outbound { conn: b, message: ServerMessage::Event(event) }]
    );
}

#[test]
fn request_of_a_gone_connection_is_dropped() {
    let mut server = IpcServer::start(8);
    let mut state = state_with_layout();
    let config = UserConfig::permissive();
    let a = server.accept().unwrap();
    server.disconnect(a);
    let out = server.process_message(
        a,
        IpcMessage::InvokeCommand(InvokeCommand::ToggleFloating(3)),
        &mut state,
        &config,
    );
    assert_eq!(out, vec![]);
    assert_eq!(
        state.tree.window_of(3),
        Some(WindowContainer { state: Tiling, prev_state: None, handle: 100 })
    );
    assert_eq!(state.pending_sync.len(), 0);
}

#[test]
fn queries_are_answered_with_snapshots() {
    let mut server = IpcServer::start(8);
    let mut state = state_with_layout();
    let config = UserConfig::permissive();
    let a = server.accept().unwrap();
    assert_eq!(
        server.process_message(a, IpcMessage::Monitors, &mut state, &config),
        vec![Outbound {
            conn: a,
            message: ServerMessage::Monitors(vec![ContainerRecord {
                id: 1,
                kind: ContainerKind::Monitor,
                parent: Some(0),
                child_count: 1,
                window: None,
            }]),
        }]
    );
    let windows = server.process_message(a, IpcMessage::Windows, &mut state, &config);
    match &windows[..] {
        [Outbound { conn, message: ServerMessage::Windows(records) }] => {
            assert_eq!(*conn, a);
            assert_eq!(records.iter().map(|r| r.id).collect::<Vec<_>>(), vec![3, 4]);
            assert_eq!(records[1].window.map(|w| w.handle), Some(200));
        }
        other => panic!("unexpected reply {:?}", other),
    }
}

#[test]
fn subscriber_gets_the_event_after_the_acknowledgement() {
    let mut server = IpcServer::start(8);
    let mut state = state_with_layout();
    let config = UserConfig::permissive();
    let subscriber = server.accept().unwrap();
    let invoker = server.accept().unwrap();
    assert_eq!(
        server.process_message(subscriber, IpcMessage::Subscribe(EventFilter::All), &mut state, &config),
        vec![Outbound { conn: subscriber, message: ServerMessage::Subscribed }]
    );
    assert_eq!(server.subscription(subscriber), Some(EventFilter::All));
    let out = server.process_message(
        invoker,
        IpcMessage::InvokeCommand(InvokeCommand::ToggleFloating(3)),
        &mut state,
        &config,
    );
    assert_eq!(
        out,
        vec![
            Outbound { conn: invoker, message: ServerMessage::CommandAck },
            Outbound {
                conn: subscriber,
                message: ServerMessage::Event(WmEvent::WindowStateChanged {
                    window: 3,
                    from: Tiling,
                    to: Floating
                }),
            },
        ]
    );
    assert_eq!(
        state.tree.window_of(3),
        Some(WindowContainer { state: Floating, prev_state: Some(Tiling), handle: 100 })
    );
    assert!(state.pending_sync.is_marked(3));
}

#[test]
fn refused_command_is_answered_and_raises_no_event() {
    let mut server = IpcServer::start(8);
    let mut state = state_with_layout();
    let config = UserConfig { allow_floating: false, allow_minimized: true, allow_fullscreen: true };
    let subscriber = server.accept().unwrap();
    let invoker = server.accept().unwrap();
    let _ = server.process_message(subscriber, IpcMessage::Subscribe(EventFilter::All), &mut state, &config);
    assert_eq!(
        server.process_message(
            invoker,
            IpcMessage::InvokeCommand(InvokeCommand::ToggleFloating(3)),
            &mut state,
            &config
        ),
        vec![Outbound {
            conn: invoker,
            message: ServerMessage::CommandFailed(WmError::PolicyRejection(Floating)),
        }]
    );
    assert_eq!(
        server.process_message(
            invoker,
            IpcMessage::InvokeCommand(InvokeCommand::ToggleFloating(ROOT)),
            &mut state,
            &config
        ),
        vec![Outbound {
            conn: invoker,
            message: ServerMessage::CommandFailed(WmError::StructuralIntegrity(
                StructuralFault::NotAWindow
            )),
        }]
    );
    assert_eq!(state.pending_sync.len(), 0);
}

#[test]
fn events_reach_a_subscriber_in_the_order_of_the_commands() {
    let mut server = IpcServer::start(8);
    let mut state = state_with_layout();
    let config = UserConfig::permissive();
    let invoker = server.accept().unwrap();
    let all = server.accept().unwrap();
    let states_only = server.accept().unwrap();
    let _idle = server.accept().unwrap();
    let _ = server.process_message(all, IpcMessage::Subscribe(EventFilter::All), &mut state, &config);
    let _ = server.process_message(
        states_only,
        IpcMessage::Subscribe(EventFilter::WindowState),
        &mut state,
        &config,
    );
    let commands = [
        InvokeCommand::ToggleFloating(3),
        InvokeCommand::MoveWindow { window: 4, parent: 2, index: 0 },
        InvokeCommand::ToggleTiling(4),
        InvokeCommand::ToggleFullscreen(3),
        InvokeCommand::ToggleFloating(4),
    ];
    let mut sent: Vec<Outbound> = Vec::new();
    for command in commands {
        sent.extend(server.process_message(
            invoker,
            IpcMessage::InvokeCommand(command),
            &mut state,
            &config,
        ));
    }
    let events_for = |conn: usize| -> Vec<WmEvent> {
        sent.iter()
            .filter(|o| o.conn == conn)
            .filter_map(|o| match &o.message {
                ServerMessage::Event(e) => Some(*e),
                _ => None,
            })
            .collect()
    };
    let first = WmEvent::WindowStateChanged { window: 3, from: Tiling, to: Floating };
    let second = WmEvent::WindowMoved { window: 4, parent: 2, index: 0 };
    let fourth = WmEvent::WindowStateChanged { window: 3, from: Floating, to: Fullscreen };
    let fifth = WmEvent::WindowStateChanged { window: 4, from: Tiling, to: Floating };
    assert_eq!(events_for(all), vec![first, second, fourth, fifth]);
    assert_eq!(events_for(states_only), vec![first, fourth, fifth]);
    assert_eq!(events_for(invoker), vec![]);
    assert_eq!(sent.iter().filter(|o| o.message == ServerMessage::CommandAck).count(), 5);
    assert_eq!(sent.iter().filter(|o| o.conn == invoker).count(), 5);
}

#[test]
fn process_event_fans_out_in_connection_order() {
    let mut server = IpcServer::start(8);
    let mut state = state_with_layout();
    let config = UserConfig::permissive();
    let a = server.accept().unwrap();
    let b = server.accept().unwrap();
    let c = server.accept().unwrap();
    let _ = server.process_message(c, IpcMessage::Subscribe(EventFilter::All), &mut state, &config);
    let _ = server.process_message(a, IpcMessage::Subscribe(EventFilter::Tree), &mut state, &config);
    let _ = server.process_message(b, IpcMessage::Subscribe(EventFilter::WindowState), &mut state, &config);
    let moved = WmEvent::WindowMoved { window: 3, parent: 2, index: 1 };
    assert_eq!(
        server.process_event(moved),
        vec![
            Outbound { conn: a, message: ServerMessage::Event(moved) },
            Outbound { conn: c, message: ServerMessage::Event(moved) },
        ]
    );
}

#[test]
fn stop_cancels_waiting_requests_and_refuses_the_rest() {
    let mut server = IpcServer::start(8);
    let a = server.accept().unwrap();
    let b = server.accept().unwrap();
    assert_eq!(server.receive(b, &[1]), Ok(()));
    assert_eq!(server.receive(a, &[2]), Ok(()));
    assert_eq!(
        server.stop(),
        vec![
            Outbound { conn: b, message: ServerMessage::Cancelled },
            Outbound { conn: a, message: ServerMessage::Cancelled },
        ]
    );
    assert!(!server.is_accepting());
    assert_eq!(server.pending_len(), 0);
    assert!(!server.has_connection(a));
    assert_eq!(server.accept(), Err(WmError::Connection(ConnectionFault::ShuttingDown)));
    assert_eq!(server.receive(a, &[1]), Err(WmError::Connection(ConnectionFault::ShuttingDown)));
    assert_eq!(server.next_request(), None);
    assert_eq!(server.stop(), vec![]);
}

#[test]
fn encode_message_writes_the_documented_bytes() {
    assert_eq!(encode_message(&ServerMessage::CommandAck), vec![0x83]);
    assert_eq!(encode_message(&ServerMessage::Subscribed), vec![0x85]);
    assert_eq!(encode_message(&ServerMessage::Cancelled), vec![0x87]);
    assert_eq!(
        encode_message(&ServerMessage::CommandFailed(WmError::PolicyRejection(Fullscreen))),
        vec![0x84, 2, 3]
    );
    assert_eq!(
        encode_message(&ServerMessage::CommandFailed(WmError::StructuralIntegrity(
            StructuralFault::WouldCycle
        ))),
        vec![0x84, 1, 5]
    );
    assert_eq!(
        encode_message(&ServerMessage::Event(WmEvent::WindowStateChanged {
            window: 3,
            from: Tiling,
            to: Minimized
        })),
        frame(&[&[0x86, 1], &word(3), &[0, 2]])
    );
    assert_eq!(
        encode_message(&ServerMessage::Event(WmEvent::WindowMoved { window: 3, parent: 2, index: 1 })),
        frame(&[&[0x86, 2], &word(3), &word(2), &word(1)])
    );
}

#[test]
fn encode_message_writes_records_of_38_bytes() {
    let monitor = ContainerRecord {
        id: 1,
        kind: ContainerKind::Monitor,
        parent: Some(0),
        child_count: 2,
        window: None,
    };
    let window = ContainerRecord {
        id: 5,
        kind: ContainerKind::Window,
        parent: None,
        child_count: 0,
        window: Some(WindowContainer { state: Floating, prev_state: Some(Fullscreen), handle: 0x0102 }),
    };
    let plain = ContainerRecord {
        id: 6,
        kind: ContainerKind::Window,
        parent: Some(2),
        child_count: 0,
        window: Some(WindowContainer { state: Tiling, prev_state: None, handle: 9 }),
    };
    assert_eq!(encode_message(&ServerMessage::Monitors(vec![])), frame(&[&[0x81], &word(0)]));
    assert_eq!(
        encode_message(&ServerMessage::Monitors(vec![monitor])),
        frame(&[&[0x81], &word(1), &word(1), &[1, 1], &word(0), &word(2), &[0, 0, 0, 0], &word(0)])
    );
    let encoded = encode_message(&ServerMessage::Windows(vec![window, plain]));
    assert_eq!(encoded.len(), 1 + 8 + 2 * 38);
    assert_eq!(
        encoded,
        frame(&[
            &[0x82],
            &word(2),
            &word(5),
            &[4, 0],
            &word(0),
            &word(0),
            &[1, 1, 1, 3],
            &word(0x0102),
            &word(6),
            &[4, 1],
            &word(2),
            &word(0),
            &[1, 0, 0, 0],
            &word(9),
        ])
    );
}

#[test]
fn error_and_kind_bytes() {
    assert_eq!(error_to_bytes(WmError::StructuralIntegrity(StructuralFault::NoSuchNode)), (1, 1));
    assert_eq!(error_to_bytes(WmError::StructuralIntegrity(StructuralFault::NotAWindow)), (1, 2));
    assert_eq!(error_to_bytes(WmError::StructuralIntegrity(StructuralFault::AlreadyAttached)), (1, 3));
    assert_eq!(error_to_bytes(WmError::StructuralIntegrity(StructuralFault::NotAttached)), (1, 4));
    assert_eq!(error_to_bytes(WmError::StructuralIntegrity(StructuralFault::RootImmovable)), (1, 6));
    assert_eq!(error_to_bytes(WmError::StructuralIntegrity(StructuralFault::KindMismatch)), (1, 7));
    assert_eq!(error_to_bytes(WmError::StructuralIntegrity(StructuralFault::IndexOutOfRange)), (1, 8));
    assert_eq!(error_to_bytes(WmError::StructuralIntegrity(StructuralFault::HasChildren)), (1, 9));
    assert_eq!(error_to_bytes(WmError::PolicyRejection(Minimized)), (2, 2));
    assert_eq!(error_to_bytes(WmError::Protocol(ProtocolFault::Empty)), (3, 1));
    assert_eq!(error_to_bytes(WmError::Protocol(ProtocolFault::IdOutOfRange)), (3, 7));
    assert_eq!(error_to_bytes(WmError::Connection(ConnectionFault::UnknownConnection)), (4, 1));
    assert_eq!(error_to_bytes(WmError::Connection(ConnectionFault::ShuttingDown)), (4, 2));
    assert_eq!(error_to_bytes(WmError::Connection(ConnectionFault::QueueFull)), (4, 3));
    assert_eq!(kind_to_byte(ContainerKind::Root), 0);
    assert_eq!(kind_to_byte(ContainerKind::Split), 3);
    assert_eq!(kind_to_byte(ContainerKind::Window), 4);
}
