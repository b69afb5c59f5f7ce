use en_croissant::fen::{BoardData, BoardFlags, FenResult};
use en_croissant::hub::{
    announce_position, apply_event, broadcast_message, classify, handle_event, handle_fen,
    process_message, route_message, send_failed, welcome_message, Action, ExtraFields, Frame, MessageShape,
    Notification, SocketEvent, WebSocketMessage,
};
use en_croissant::pieces::PieceMap;
use en_croissant::sessions::{ConnectionState, Hub};

fn hub_with(open: usize) -> Hub {
    let mut hub = Hub::new();
    for _ in 0..open {
        let id = hub.accept().unwrap();
        assert!(hub.welcomed(id, true));
    }
    hub
}

fn snapshot(pieces: &[(&str, &str)], moves: usize) -> BoardData {
    let mut map = PieceMap::new();
    for (square, piece) in pieces {
        map.insert(square.to_string(), piece.to_string());
    }
    BoardData {
        game_id: "g7".to_string(),
        pieces: map,
        move_list: (0..moves).map(|i| format!("m{}", i)).collect(),
        raw_move_text: None,
        variant: "standard".to_string(),
        flags: BoardFlags {
            possible_castling: false,
            possible_en_passant: false,
            board_flipped: false,
        },
        board_orientation: "white".to_string(),
        board_layout: None,
        timestamp: 12,
    }
}

fn envelope(tag: &str, data: Option<BoardData>, engine_id: Option<&str>, shapes: bool) -> WebSocketMessage {
    WebSocketMessage {
        message_type: tag.to_string(),
        data,
        extra: ExtraFields { engine_id: engine_id.map(|e| e.to_string()), final_shapes: shapes },
    }
}

fn text_frame(text: &str, decoded: Option<WebSocketMessage>) -> Frame {
    Frame::Text { text: text.to_string(), decoded }
}

fn send(to: usize, text: &str) -> Action {
    Action::SendText { to, text: text.to_string() }
}

#[test]
fn session_ids_start_at_one_and_grow() {
    let mut hub = Hub::new();
    assert_eq!(hub.state(1), None);
    assert_eq!(hub.accept(), Some(1));
    assert_eq!(hub.accept(), Some(2));
    assert_eq!(hub.accept(), Some(3));
    assert_eq!(hub.state(1), Some(ConnectionState::Connecting));
    assert_eq!(hub.state(0), None);
    assert_eq!(hub.state(4), None);
    hub.close(2);
    assert_eq!(hub.accept(), Some(4));
    assert_eq!(hub.state(2), Some(ConnectionState::Closed));
}

#[test]
fn welcome_names_the_session() {
    assert_eq!(welcome_message(1), "{\"status\":\"connected\", \"id\": 1}");
    assert_eq!(welcome_message(4711), "{\"status\":\"connected\", \"id\": 4711}");
    let parsed: serde_json::Value = serde_json::from_str(&welcome_message(12)).unwrap();
    assert_eq!(parsed.get("status").and_then(|v| v.as_str()), Some("connected"));
    assert_eq!(parsed.get("id").and_then(|v| v.as_u64()), Some(12));
}

#[test]
fn a_connection_goes_from_connecting_to_open_to_closed() {
    let mut hub = Hub::new();
    let id = hub.accept().unwrap();
    assert!(!hub.is_open(id));
    assert!(hub.welcomed(id, true));
    assert!(hub.is_open(id));
    assert_eq!(hub.state(id), Some(ConnectionState::Open));
    assert!(!hub.welcomed(id, true));
    hub.close(id);
    assert_eq!(hub.state(id), Some(ConnectionState::Closed));
    assert!(!hub.welcomed(id, true));
    assert_eq!(hub.state(id), Some(ConnectionState::Closed));
    assert_eq!(hub.session_count(), 0);
}

#[test]
fn a_failed_welcome_closes_the_connection() {
    let mut hub = Hub::new();
    let id = hub.accept().unwrap();
    assert!(!hub.welcomed(id, false));
    assert_eq!(hub.state(id), Some(ConnectionState::Closed));
    assert!(!hub.is_open(id));
}

#[test]
fn open_sessions_are_listed_oldest_first() {
    let mut hub = hub_with(3);
    hub.close(2);
    let id = hub.accept().unwrap();
    hub.welcomed(id, true);
    assert_eq!(hub.session_count(), 3);
    assert_eq!(hub.session_at(0), Some(1));
    assert_eq!(hub.session_at(1), Some(3));
    assert_eq!(hub.session_at(2), Some(4));
    assert_eq!(hub.session_at(3), None);
}

#[test]
fn board_update_reaches_all_others_but_not_the_sender() {
    let hub = hub_with(4);
    let data = snapshot(&[("e1", "wK"), ("e8", "bK")], 1);
    let frame = text_frame("{}", Some(envelope("board_update", Some(data), None, false)));
    let actions = route_message(&frame, 2, &hub, 0);
    let fen = "4k3/8/8/8/8/8/8/4K3 b - - 0 1";
    let update = "{\"fen\":\"4k3/8/8/8/8/8/8/4K3 b - - 0 1\",\"game_id\":\"g7\",\"type\":\"fen_update\",\"variant\":\"standard\"}";
    assert_eq!(
        actions,
        vec![
            Action::Emit(Notification::FenUpdate(fen.to_string())),
            Action::Emit(Notification::BoardStateUpdate(FenResult {
                fen: fen.to_string(),
                variant: "standard".to_string(),
                game_id: "g7".to_string(),
            })),
            send(1, update),
            send(3, update),
            send(4, update),
        ]
    );
}

#[test]
fn update_text_is_json_with_escapes() {
    let hub = hub_with(2);
    let mut data = snapshot(&[], 0);
    data.game_id = "a\"b\\c\n".to_string();
    data.variant = "vari\u{e9}".to_string();
    let frame = text_frame("{}", Some(envelope("board_update", Some(data), None, false)));
    let actions = route_message(&frame, 1, &hub, 0);
    assert_eq!(actions.len(), 3);
    match &actions[2] {
        Action::SendText { to, text } => {
            assert_eq!(*to, 2);
            let parsed: serde_json::Value = serde_json::from_str(text).unwrap();
            assert_eq!(parsed.get("type").and_then(|v| v.as_str()), Some("fen_update"));
            assert_eq!(parsed.get("fen").and_then(|v| v.as_str()), Some("8/8/8/8/8/8/8/8 w - - 0 1"));
            assert_eq!(parsed.get("variant").and_then(|v| v.as_str()), Some("vari\u{e9}"));
            assert_eq!(parsed.get("game_id").and_then(|v| v.as_str()), Some("a\"b\\c\n"));
            assert_eq!(parsed.as_object().map(|o| o.len()), Some(4));
        }
        other => panic!("unexpected action {:?}", other),
    }
}

#[test]
fn board_update_without_readable_snapshot_does_nothing() {
    let hub = hub_with(3);
    let none = text_frame("{}", Some(envelope("board_update", None, None, false)));
    assert_eq!(route_message(&none, 1, &hub, 0), vec![]);
    let bad = snapshot(&[("e1", "w")], 0);
    let frame = text_frame("{}", Some(envelope("board_update", Some(bad), None, false)));
    assert_eq!(route_message(&frame, 1, &hub, 0), vec![]);
}

#[test]
fn new_game_goes_to_the_sink_only() {
    let hub = hub_with(3);
    let text = "{\"type\":\"new_game\",\"gameId\":\"g\"}";
    let frame = text_frame(text, Some(envelope("new_game", None, None, false)));
    let actions = route_message(&frame, 1, &hub, 0);
    assert_eq!(actions, vec![Action::Emit(Notification::NewGame(text.to_string()))]);
    match &actions[0] {
        Action::Emit(n) => assert_eq!(n.topic(), "new-game"),
        other => panic!("unexpected action {:?}", other),
    }
}

#[test]
fn topics_of_notifications() {
    assert_eq!(Notification::FenUpdate(String::new()).topic(), "fen-update");
    let result = FenResult { fen: String::new(), variant: String::new(), game_id: String::new() };
    assert_eq!(Notification::BoardStateUpdate(result).topic(), "board-state-update");
    assert_eq!(Notification::NewGame(String::new()).topic(), "new-game");
}

#[test]
fn application_ping_is_answered_with_the_time() {
    let hub = hub_with(2);
    let frame = text_frame("{\"type\":\"ping\"}", Some(envelope("ping", None, None, false)));
    assert_eq!(
        route_message(&frame, 2, &hub, 1700000000123),
        vec![send(2, "{\"type\":\"pong\",\"timestamp\":1700000000123}")]
    );
    assert_eq!(
        route_message(&frame, 2, &hub, -1),
        vec![send(2, "{\"type\":\"pong\",\"timestamp\":-1}")]
    );
    assert_eq!(route_message(&frame, 9, &hub, 5), vec![]);
}

#[test]
fn invalid_json_is_answered_and_the_session_stays_usable() {
    let mut hub = hub_with(2);
    let bad = SocketEvent::Frame(text_frame("not json", None));
    assert_eq!(
        apply_event(&mut hub, 1, &bad, 0),
        vec![send(1, "{\"type\":\"error\",\"message\":\"Invalid JSON\"}")]
    );
    assert_eq!(hub.state(1), Some(ConnectionState::Open));
    let good = SocketEvent::Frame(text_frame(
        "{\"type\":\"ping\"}",
        Some(envelope("ping", None, None, false)),
    ));
    assert_eq!(
        apply_event(&mut hub, 1, &good, 77),
        vec![send(1, "{\"type\":\"pong\",\"timestamp\":77}")]
    );
}

#[test]
fn binary_frames_are_rejected_and_the_session_stays_open() {
    let mut hub = hub_with(1);
    let event = SocketEvent::Frame(Frame::Binary(vec![1, 2, 3]));
    assert_eq!(
        apply_event(&mut hub, 1, &event, 0),
        vec![send(1, "{\"type\":\"error\",\"message\":\"Binary messages not supported\"}")]
    );
    assert!(hub.is_open(1));
}

#[test]
fn transport_ping_is_answered_with_its_payload() {
    let hub = hub_with(2);
    assert_eq!(
        route_message(&Frame::Ping(vec![9, 8]), 1, &hub, 0),
        vec![Action::SendPong { to: 1, data: vec![9, 8] }]
    );
    assert_eq!(route_message(&Frame::Ping(vec![9, 8]), 5, &hub, 0), vec![]);
    assert_eq!(route_message(&Frame::Pong(vec![1]), 1, &hub, 0), vec![]);
    assert_eq!(route_message(&Frame::Close, 1, &hub, 0), vec![]);
}

#[test]
fn unknown_tag_is_reported_to_the_sender() {
    let hub = hub_with(3);
    let frame = text_frame("{}", Some(envelope("resign", None, None, false)));
    assert_eq!(
        route_message(&frame, 3, &hub, 0),
        vec![send(3, "{\"type\":\"error\",\"message\":\"Unknown message type: resign\"}")]
    );
    let odd = text_frame("{}", Some(envelope("a\"b", None, None, false)));
    assert_eq!(
        route_message(&odd, 3, &hub, 0),
        vec![send(3, "{\"type\":\"error\",\"message\":\"Unknown message type: a\"b\"}")]
    );
}

#[test]
fn legacy_messages_are_relayed_with_a_receipt() {
    let hub = hub_with(3);
    let text = "{\"type\":\"analysis\",\"engineId\":\"board_visualization\"}";
    let frame = text_frame(text, Some(envelope("analysis", None, Some("board_visualization"), false)));
    assert_eq!(
        route_message(&frame, 2, &hub, 0),
        vec![send(1, text), send(3, text), send(2, "{\"type\":\"received\"}")]
    );
    let shapes = text_frame("{\"finalShapes\":[]}", Some(envelope("", None, None, true)));
    assert_eq!(
        route_message(&shapes, 1, &hub, 0),
        vec![
            send(2, "{\"finalShapes\":[]}"),
            send(3, "{\"finalShapes\":[]}"),
            send(1, "{\"type\":\"received\"}")
        ]
    );
}

#[test]
fn another_engine_id_is_no_mark() {
    let hub = hub_with(3);
    let frame = text_frame("{}", Some(envelope("analysis", None, Some("stockfish"), false)));
    assert_eq!(
        route_message(&frame, 2, &hub, 0),
        vec![send(2, "{\"type\":\"error\",\"message\":\"Unknown message type: analysis\"}")]
    );
    let shapes = text_frame("s", Some(envelope("analysis", None, Some("stockfish"), true)));
    assert_eq!(
        route_message(&shapes, 2, &hub, 0),
        vec![send(1, "s"), send(3, "s"), send(2, "{\"type\":\"received\"}")]
    );
}

#[test]
fn a_board_update_with_a_stray_key_does_nothing() {
    let hub = hub_with(3);
    let bad = snapshot(&[("e1", "wK"), ("e9", "bK")], 0);
    let frame = text_frame("{}", Some(envelope("board_update", Some(bad), None, false)));
    assert_eq!(route_message(&frame, 1, &hub, 0), vec![]);
    assert_eq!(handle_fen(&snapshot(&[("A1", "wK")], 0)), vec![]);
}

#[test]
fn known_tags_win_over_legacy_fields() {
    let hub = hub_with(2);
    let frame = text_frame("{}", Some(envelope("ping", None, Some("board_visualization"), true)));
    assert_eq!(
        route_message(&frame, 1, &hub, 3),
        vec![send(1, "{\"type\":\"pong\",\"timestamp\":3}")]
    );
}

#[test]
fn broadcast_skips_the_sender_and_confirms() {
    let hub = hub_with(3);
    assert_eq!(
        broadcast_message(1, "hello", &hub),
        vec![send(2, "hello"), send(3, "hello"), send(1, "{\"type\":\"received\"}")]
    );
    assert_eq!(
        broadcast_message(9, "hello", &hub),
        vec![send(1, "hello"), send(2, "hello"), send(3, "hello")]
    );
    assert_eq!(broadcast_message(1, "x", &Hub::new()), vec![]);
}

#[test]
fn closing_events_remove_the_session() {
    for event in [SocketEvent::Frame(Frame::Close), SocketEvent::Failed, SocketEvent::Ended] {
        let mut hub = hub_with(3);
        assert_eq!(apply_event(&mut hub, 2, &event, 0), vec![]);
        assert_eq!(hub.state(2), Some(ConnectionState::Closed));
        assert_eq!(hub.session_count(), 2);
        assert_eq!(broadcast_message(1, "m", &hub), vec![send(3, "m"), send(1, "{\"type\":\"received\"}")]);
        let ping = SocketEvent::Frame(Frame::Ping(vec![]));
        assert_eq!(apply_event(&mut hub, 2, &ping, 0), vec![]);
        assert_eq!(hub.state(2), Some(ConnectionState::Closed));
    }
}

#[test]
fn events_of_a_connecting_session_do_nothing() {
    let mut hub = hub_with(1);
    let id = hub.accept().unwrap();
    let event = SocketEvent::Frame(Frame::Binary(vec![]));
    assert_eq!(apply_event(&mut hub, id, &event, 0), vec![]);
    assert_eq!(apply_event(&mut hub, id, &SocketEvent::Ended, 0), vec![]);
    assert_eq!(hub.state(id), Some(ConnectionState::Connecting));
}

#[test]
fn the_clock_answers_application_pings() {
    let mut hub = hub_with(2);
    let frame = text_frame("{\"type\":\"ping\"}", Some(envelope("ping", None, None, false)));
    let actions = process_message(&frame, 1, &hub);
    assert_eq!(actions.len(), 1);
    match &actions[0] {
        Action::SendText { to, text } => {
            assert_eq!(*to, 1);
            let parsed: serde_json::Value = serde_json::from_str(text).unwrap();
            assert_eq!(parsed.get("type").and_then(|v| v.as_str()), Some("pong"));
            let stamp = parsed.get("timestamp").and_then(|v| v.as_i64()).unwrap();
            assert!(stamp > 1_600_000_000_000);
        }
        other => panic!("unexpected action {:?}", other),
    }
    let event = SocketEvent::Frame(frame);
    assert_eq!(handle_event(&mut hub, 1, &event).len(), 1);
    assert!(hub.is_open(1));
}

#[test]
fn frames_that_tell_no_time_are_routed_alike_at_any_time() {
    let mut hub = hub_with(3);
    let frame = text_frame("not json", None);
    assert_eq!(process_message(&frame, 2, &hub), route_message(&frame, 2, &hub, 42));
    let binary = Frame::Binary(vec![0]);
    assert_eq!(process_message(&binary, 2, &hub), route_message(&binary, 2, &hub, -7));
    assert_eq!(handle_event(&mut hub, 3, &SocketEvent::Failed), vec![]);
    assert_eq!(hub.state(3), Some(ConnectionState::Closed));
}

#[test]
fn a_posted_snapshot_goes_to_the_sink() {
    let data = snapshot(&[("e1", "wK"), ("e8", "bK")], 2);
    let fen = "4k3/8/8/8/8/8/8/4K3 w - - 0 2";
    assert_eq!(
        handle_fen(&data),
        vec![
            Notification::FenUpdate(fen.to_string()),
            Notification::BoardStateUpdate(FenResult {
                fen: fen.to_string(),
                variant: "standard".to_string(),
                game_id: "g7".to_string(),
            }),
        ]
    );
    assert_eq!(handle_fen(&snapshot(&[("e1", "")], 0)), vec![]);
}

#[test]
fn a_position_is_announced_with_the_given_text() {
    let hub = hub_with(3);
    let result = FenResult {
        fen: "8/8/8/8/8/8/8/8 w - - 0 1".to_string(),
        variant: "standard".to_string(),
        game_id: "g".to_string(),
    };
    let actions = announce_position(result.clone(), "update", 3, &hub);
    assert_eq!(
        actions,
        vec![
            Action::Emit(Notification::FenUpdate(result.fen.clone())),
            Action::Emit(Notification::BoardStateUpdate(result)),
            send(1, "update"),
            send(2, "update"),
        ]
    );
}

#[test]
fn envelopes_are_told_apart_by_tag_first() {
    assert_eq!(classify(&envelope("board_update", None, None, false)), MessageShape::BoardUpdate);
    assert_eq!(classify(&envelope("new_game", None, Some("x"), true)), MessageShape::NewGame);
    assert_eq!(classify(&envelope("ping", None, Some("board_visualization"), true)), MessageShape::Ping);
    assert_eq!(classify(&envelope("analysis", None, Some("board_visualization"), false)), MessageShape::Relay);
    assert_eq!(classify(&envelope("analysis", None, Some("lc0"), true)), MessageShape::Relay);
    assert_eq!(classify(&envelope("analysis", None, Some("lc0"), false)), MessageShape::Unknown);
    assert_eq!(classify(&envelope("", None, None, false)), MessageShape::Unknown);
    assert_eq!(classify(&envelope("", None, None, true)), MessageShape::Relay);
    assert_eq!(classify(&envelope("Ping", None, None, false)), MessageShape::Unknown);
    assert_eq!(classify(&envelope("pong", None, None, false)), MessageShape::Unknown);
}

#[test]
fn a_failed_send_during_a_broadcast_evicts_nobody() {
    let mut hub = hub_with(3);
    let planned = broadcast_message(1, "m", &hub);
    assert_eq!(planned, vec![send(2, "m"), send(3, "m"), send(1, "{\"type\":\"received\"}")]);
    assert!(!send_failed(&mut hub, 2, 1));
    assert!(hub.is_open(2));
    assert!(hub.is_open(3));
    assert_eq!(broadcast_message(1, "m", &hub), planned);
}

#[test]
fn a_failed_reply_closes_the_session_itself() {
    let mut hub = hub_with(3);
    assert!(send_failed(&mut hub, 2, 2));
    assert_eq!(hub.state(2), Some(ConnectionState::Closed));
    assert!(!send_failed(&mut hub, 2, 2));
    assert_eq!(broadcast_message(1, "m", &hub), vec![send(3, "m"), send(1, "{\"type\":\"received\"}")]);
}
