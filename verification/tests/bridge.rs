use api_gateway::handlers::bridge::{
    backend_to_client, client_to_backend, convert_axum_to_tungstenite,
    convert_tungstenite_to_axum, BackendMessage, ClientMessage, CloseFrame, RelayAction,
    RelayEvent, RelayState,
};

fn frame() -> CloseFrame {
    CloseFrame { code: 1001, reason: "끝".to_string() }
}

#[test]
fn client_messages_become_backend_messages() {
    let there = convert_axum_to_tungstenite;
    assert_eq!(
        there(ClientMessage::Text("a".to_string())),
        Some(BackendMessage::Text("a".to_string()))
    );
    assert_eq!(there(ClientMessage::Binary(vec![1, 2])), Some(BackendMessage::Binary(vec![1, 2])));
    assert_eq!(there(ClientMessage::Ping(vec![3])), Some(BackendMessage::Ping(vec![3])));
    assert_eq!(there(ClientMessage::Pong(vec![])), Some(BackendMessage::Pong(vec![])));
    assert_eq!(there(ClientMessage::Close(None)), Some(BackendMessage::Close(None)));
    assert_eq!(
        there(ClientMessage::Close(Some(frame()))),
        Some(BackendMessage::Close(Some(frame())))
    );
}

#[test]
fn backend_messages_become_client_messages() {
    let back = convert_tungstenite_to_axum;
    assert_eq!(
        back(BackendMessage::Text("a".to_string())),
        Some(ClientMessage::Text("a".to_string()))
    );
    assert_eq!(back(BackendMessage::Binary(vec![1])), Some(ClientMessage::Binary(vec![1])));
    assert_eq!(back(BackendMessage::Ping(vec![1])), Some(ClientMessage::Ping(vec![1])));
    assert_eq!(back(BackendMessage::Pong(vec![1])), Some(ClientMessage::Pong(vec![1])));
    assert_eq!(back(BackendMessage::Close(None)), Some(ClientMessage::Close(None)));
    assert_eq!(
        back(BackendMessage::Close(Some(frame()))),
        Some(ClientMessage::Close(Some(frame())))
    );
    assert_eq!(back(BackendMessage::Frame), None);
}

#[test]
fn messages_come_back_as_they_were() {
    let there = convert_axum_to_tungstenite(ClientMessage::Close(Some(frame()))).unwrap();
    assert_eq!(convert_tungstenite_to_axum(there), Some(ClientMessage::Close(Some(frame()))));
    let back = convert_tungstenite_to_axum(BackendMessage::Ping(vec![9])).unwrap();
    assert_eq!(convert_axum_to_tungstenite(back), Some(BackendMessage::Ping(vec![9])));
}

#[test]
fn messages_are_sent_on_in_order() {
    let events = vec![
        RelayEvent::Received(BackendMessage::Text("a".to_string())),
        RelayEvent::Sent,
        RelayEvent::Received(BackendMessage::Frame),
        RelayEvent::Received(BackendMessage::Binary(vec![1])),
        RelayEvent::Sent,
        RelayEvent::Ended,
    ];
    let mut state = RelayState::Receiving;
    let mut sent = Vec::new();
    for event in events {
        let (next, action) = backend_to_client(state, event);
        state = next;
        if let RelayAction::Send(message) = action {
            sent.push(message);
        }
    }
    assert_eq!(state, RelayState::Stopped);
    assert_eq!(sent, vec![ClientMessage::Text("a".to_string()), ClientMessage::Binary(vec![1])]);
}

#[test]
fn steps_towards_the_backend() {
    assert_eq!(
        client_to_backend(RelayState::Receiving, RelayEvent::Received(ClientMessage::Ping(vec![]))),
        (RelayState::Sending, RelayAction::Send(BackendMessage::Ping(vec![])))
    );
    assert_eq!(
        client_to_backend(RelayState::Sending, RelayEvent::Sent),
        (RelayState::Receiving, RelayAction::Receive)
    );
    assert_eq!(
        client_to_backend(RelayState::Sending, RelayEvent::SendFailed),
        (RelayState::Stopped, RelayAction::Stop)
    );
    assert_eq!(
        client_to_backend(RelayState::Receiving, RelayEvent::ReceiveFailed),
        (RelayState::Stopped, RelayAction::Stop)
    );
    assert_eq!(
        client_to_backend(RelayState::Receiving, RelayEvent::Ended),
        (RelayState::Stopped, RelayAction::Stop)
    );
}

#[test]
fn steps_towards_the_client() {
    assert_eq!(
        backend_to_client(RelayState::Receiving, RelayEvent::Received(BackendMessage::Frame)),
        (RelayState::Receiving, RelayAction::Receive)
    );
    assert_eq!(
        backend_to_client(RelayState::Sending, RelayEvent::SendFailed),
        (RelayState::Stopped, RelayAction::Stop)
    );
    assert_eq!(
        backend_to_client(RelayState::Receiving, RelayEvent::ReceiveFailed),
        (RelayState::Stopped, RelayAction::Stop)
    );
    assert_eq!(
        backend_to_client(RelayState::Sending, RelayEvent::Sent),
        (RelayState::Receiving, RelayAction::Receive)
    );
}
