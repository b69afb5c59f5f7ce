//! Routing of client frames: what the hub sends, to whom, and what it tells
//! the notification sink, for each frame it receives.

use vstd::prelude::*;
use vstd::string::*;
use crate::clock::now_millis;
use crate::fen::{
    generate_fen_from_board_data, has_malformed_square, position_text, BoardData, FenResult,
};
use crate::json::{json_object, json_object_text, pair_views};
use crate::sessions::{ConnectionState, Hub};
use crate::text::{decimal, push_decimal, push_signed_decimal, signed_decimal, str_eq};

verus! {

/// The members of a decoded envelope that stand beside its tag and its
/// snapshot, as far as routing reads them.
#[derive(Clone, Debug, PartialEq, Eq)]
pub struct ExtraFields {
    /// The member `engineId`, when it is present and a string.
    pub engine_id: Option<String>,
    /// Whether a member `finalShapes` is present, whatever its value.
    pub final_shapes: bool,
}

/// A decoded message envelope.
pub struct WebSocketMessage {
    pub message_type: String,
    pub data: Option<BoardData>,
    pub extra: ExtraFields,
}

/// A frame that a client sent.
pub enum Frame {
    /// A text frame, with its envelope when the text decodes as one.
    Text { text: String, decoded: Option<WebSocketMessage> },
    Binary(Vec<u8>),
    Ping(Vec<u8>),
    Pong(Vec<u8>),
    Close,
}

/// What the notification sink is told.
#[derive(Clone, Debug, PartialEq, Eq)]
pub enum Notification {
    /// Topic `fen-update`: a position string.
    FenUpdate(String),
    /// Topic `board-state-update`: a position with its variant and game.
    BoardStateUpdate(FenResult),
    /// Topic `new-game`: the announcement as the client sent it.
    NewGame(String),
}

/// One thing for the transport to do.
#[derive(Clone, Debug, PartialEq, Eq)]
pub enum Action {
    /// Send a text frame to the session `to`.
    SendText { to: usize, text: String },
    /// Send a pong frame with this payload to the session `to`.
    SendPong { to: usize, data: Vec<u8> },
    /// Hand a notification to the sink.
    Emit(Notification),
}

/// A notification by its contents.
pub enum NotificationView {
    FenUpdate(Seq<char>),
    BoardStateUpdate { fen: Seq<char>, variant: Seq<char>, game_id: Seq<char> },
    NewGame(Seq<char>),
}

/// An action by its contents.
pub enum ActionView {
    SendText { to: usize, text: Seq<char> },
    SendPong { to: usize, data: Seq<u8> },
    Emit(NotificationView),
}

impl View for Notification {
    type V = NotificationView;

    open spec fn view(&self) -> NotificationView {
        match self {
            Notification::FenUpdate(fen) => NotificationView::FenUpdate(fen@),
            Notification::BoardStateUpdate(result) => NotificationView::BoardStateUpdate {
                fen: result.fen@,
                variant: result.variant@,
                game_id: result.game_id@,
            },
            Notification::NewGame(text) => NotificationView::NewGame(text@),
        }
    }
}

impl View for Action {
    type V = ActionView;

    open spec fn view(&self) -> ActionView {
        match self {
            Action::SendText { to, text } => ActionView::SendText { to: *to, text: text@ },
            Action::SendPong { to, data } => ActionView::SendPong { to: *to, data: data@ },
            Action::Emit(notification) => ActionView::Emit(notification@),
        }
    }
}

/// The actions of a vector, each by its contents.
pub open spec fn action_views(actions: Seq<Action>) -> Seq<ActionView> {
    Seq::new(actions.len(), |i: int| actions[i]@)
}

/// The notifications of a vector, each by its contents.
pub open spec fn notification_views(notifications: Seq<Notification>) -> Seq<NotificationView> {
    Seq::new(notifications.len(), |i: int| notifications[i]@)
}

impl Notification {
    /// The topic under which the sink gets a notification.
    pub open spec fn topic_of(notification: NotificationView) -> Seq<char> {
        match notification {
            NotificationView::FenUpdate(_) => "fen-update"@,
            NotificationView::BoardStateUpdate { .. } => "board-state-update"@,
            NotificationView::NewGame(_) => "new-game"@,
        }
    }

    /// The topic under which the sink gets this notification.
    pub fn topic(&self) -> (name: &'static str)
        ensures
            name@ == Self::topic_of(self@),
    {
        match self {
            Notification::FenUpdate(_) => "fen-update",
            Notification::BoardStateUpdate(_) => "board-state-update",
            Notification::NewGame(_) => "new-game",
        }
    }
}

/// The reply to a text frame that is no JSON envelope.
pub open spec fn invalid_json_reply() -> Seq<char> {
    "{\"type\":\"error\",\"message\":\"Invalid JSON\"}"@
}

/// The reply to a binary frame.
pub open spec fn binary_reply() -> Seq<char> {
    "{\"type\":\"error\",\"message\":\"Binary messages not supported\"}"@
}

/// The receipt that the sender of a relayed message gets.
pub open spec fn received_reply() -> Seq<char> {
    "{\"type\":\"received\"}"@
}

/// The reply to an envelope whose tag nothing handles. The tag is written as
/// it came.
pub open spec fn unknown_type_reply(message_type: Seq<char>) -> Seq<char> {
    "{\"type\":\"error\",\"message\":\"Unknown message type: "@ + message_type + "\"}"@
}

/// The reply to an application-level ping received at `now_millis`
/// milliseconds since the Unix epoch.
pub open spec fn pong_reply(now_millis: i64) -> Seq<char> {
    "{\"type\":\"pong\",\"timestamp\":"@ + signed_decimal(now_millis as int) + "}"@
}

/// The welcome that the session with id `id` gets.
pub open spec fn welcome_text(id: usize) -> Seq<char> {
    "{\"status\":\"connected\", \"id\": "@ + decimal(id as nat) + "}"@
}

/// The members of the update that the other sessions get for a derived
/// position.
pub open spec fn fen_update_members(
    fen: Seq<char>,
    variant: Seq<char>,
    game_id: Seq<char>,
) -> Seq<(Seq<char>, Seq<char>)> {
    seq![("type"@, "fen_update"@), ("fen"@, fen), ("variant"@, variant), ("game_id"@, game_id)]
}

/// One text frame with `text` to each session but `sender`, oldest session
/// first.
pub open spec fn fan_out(sessions: Seq<usize>, sender: usize, text: Seq<char>) -> Seq<ActionView>
    decreases sessions.len(),
{
    if sessions.len() == 0 {
        Seq::empty()
    } else if sessions.last() == sender {
        fan_out(sessions.drop_last(), sender, text)
    } else {
        fan_out(sessions.drop_last(), sender, text).push(
            ActionView::SendText { to: sessions.last(), text },
        )
    }
}

/// One text frame with `text` to `sender`, if that session is open.
pub open spec fn reply(sessions: Seq<usize>, sender: usize, text: Seq<char>) -> Seq<ActionView> {
    if sessions.contains(sender) {
        seq![ActionView::SendText { to: sender, text }]
    } else {
        Seq::empty()
    }
}

/// A relayed message: `text` to every other session, then the receipt to
/// the sender.
pub open spec fn relayed(sessions: Seq<usize>, sender: usize, text: Seq<char>) -> Seq<ActionView> {
    fan_out(sessions, sender, text) + reply(sessions, sender, received_reply())
}

/// What the sink is told about a derived position: the position string
/// under its own topic, then the position with its variant and game.
pub open spec fn position_notifications(
    fen: Seq<char>,
    variant: Seq<char>,
    game_id: Seq<char>,
) -> Seq<NotificationView> {
    seq![
        NotificationView::FenUpdate(fen),
        NotificationView::BoardStateUpdate { fen, variant, game_id },
    ]
}

/// What a snapshot that was posted leads to: the notifications of its
/// position, or nothing when its piece map cannot be read.
pub open spec fn posted_notifications(data: &BoardData) -> Seq<NotificationView> {
    if has_malformed_square(data.pieces@) {
        Seq::empty()
    } else {
        position_notifications(position_text(data), data.variant@, data.game_id@)
    }
}

/// What a derived position leads to when a session reports it: the sink is
/// told, and every other session gets the update text `update`.
pub open spec fn position_actions(
    fen: Seq<char>,
    variant: Seq<char>,
    game_id: Seq<char>,
    update: Seq<char>,
    sender: usize,
    sessions: Seq<usize>,
) -> Seq<ActionView> {
    seq![
        ActionView::Emit(NotificationView::FenUpdate(fen)),
        ActionView::Emit(NotificationView::BoardStateUpdate { fen, variant, game_id }),
    ] + fan_out(sessions, sender, update)
}

/// What a board update leads to: nothing without a snapshot or with one
/// whose piece map cannot be read; else the position goes to the sink and,
/// as a JSON object, to every other session.
pub open spec fn board_update_actions(
    data: Option<BoardData>,
    sender: usize,
    sessions: Seq<usize>,
) -> Seq<ActionView> {
    match data {
        None => Seq::empty(),
        Some(data) => if has_malformed_square(data.pieces@) {
            Seq::empty()
        } else {
            position_actions(
                position_text(&data),
                data.variant@,
                data.game_id@,
                json_object_text(
                    fen_update_members(position_text(&data), data.variant@, data.game_id@),
                ),
                sender,
                sessions,
            )
        },
    }
}

/// What an envelope asks for. A known tag decides alone; the other members
/// are read only when the tag is none of them.
#[derive(Clone, Copy, Debug, PartialEq, Eq, Structural)]
pub enum MessageShape {
    /// Tag `board_update`: a snapshot to derive and announce.
    BoardUpdate,
    /// Tag `new_game`: an announcement for the sink.
    NewGame,
    /// Tag `ping`: the sender wants a timestamped pong.
    Ping,
    /// No known tag, but a member that marks a message to relay.
    Relay,
    /// Nothing that the hub knows.
    Unknown,
}

/// Whether an envelope carries a mark of a message to relay: a member
/// `engineId` with the string `board_visualization`, looked at first, or a
/// member `finalShapes`.
pub open spec fn marked_for_relay(extra: &ExtraFields) -> bool {
    ||| extra.engine_id matches Some(engine_id) && engine_id@ == "board_visualization"@
    ||| extra.final_shapes
}

/// The shape of an envelope. Without a known tag, a message with a mark is
/// relayed, and everything else is unknown.
pub open spec fn shape_of(message: &WebSocketMessage) -> MessageShape {
    if message.message_type@ == "board_update"@ {
        MessageShape::BoardUpdate
    } else if message.message_type@ == "new_game"@ {
        MessageShape::NewGame
    } else if message.message_type@ == "ping"@ {
        MessageShape::Ping
    } else if marked_for_relay(&message.extra) {
        MessageShape::Relay
    } else {
        MessageShape::Unknown
    }
}

/// What a decoded envelope leads to, by its shape: a board update is
/// derived and announced, a new game goes to the sink as it came, a ping is
/// answered with the time, a relayed message goes to the others with a
/// receipt for the sender, and for an unknown one the sender is told so.
pub open spec fn envelope_actions(
    text: Seq<char>,
    message: &WebSocketMessage,
    sender: usize,
    sessions: Seq<usize>,
    now_millis: i64,
) -> Seq<ActionView> {
    match shape_of(message) {
        MessageShape::BoardUpdate => board_update_actions(message.data, sender, sessions),
        MessageShape::NewGame => seq![ActionView::Emit(NotificationView::NewGame(text))],
        MessageShape::Ping => reply(sessions, sender, pong_reply(now_millis)),
        MessageShape::Relay => relayed(sessions, sender, text),
        MessageShape::Unknown => reply(
            sessions,
            sender,
            unknown_type_reply(message.message_type@),
        ),
    }
}

/// What the frame `frame` from the session `sender` leads to, with the open
/// sessions `sessions`, at time `now_millis`.
pub open spec fn routed(
    frame: &Frame,
    sender: usize,
    sessions: Seq<usize>,
    now_millis: i64,
) -> Seq<ActionView> {
    match frame {
        Frame::Text { text, decoded: None } => reply(sessions, sender, invalid_json_reply()),
        Frame::Text { text, decoded: Some(message) } => envelope_actions(
            text@,
            message,
            sender,
            sessions,
            now_millis,
        ),
        Frame::Binary(_) => reply(sessions, sender, binary_reply()),
        Frame::Ping(data) => if sessions.contains(sender) {
            seq![ActionView::SendPong { to: sender, data: data@ }]
        } else {
            Seq::empty()
        },
        Frame::Pong(_) => Seq::empty(),
        Frame::Close => Seq::empty(),
    }
}

/// The welcome for the session with id `id`.
pub fn welcome_message(id: usize) -> (text: String)
    ensures
        text@ == welcome_text(id),
{
    let mut text = "{\"status\":\"connected\", \"id\": ".to_owned();
    push_decimal(&mut text, id as u64);
    text.append("}");
    text
}

fn push_fan_out(actions: &mut Vec<Action>, hub: &Hub, sender: usize, text: &str)
    ensures
        action_views(final(actions)@) == action_views(old(actions)@) + fan_out(
            hub.sessions(),
            sender,
            text@,
        ),
{
    let n = hub.session_count();
    let ghost sessions = hub.sessions();
    let ghost before = action_views(actions@);
    let mut i: usize = 0;
    proof {
        assert(sessions.take(0) =~= Seq::<usize>::empty());
        assert(before + fan_out(sessions.take(0), sender, text@) =~= before);
    }
    while i < n
        invariant
            n == sessions.len(),
            sessions == hub.sessions(),
            i <= n,
            action_views(actions@) == before + fan_out(sessions.take(i as int), sender, text@),
        decreases n - i,
    {
        proof {
            assert(sessions.take(i + 1).drop_last() =~= sessions.take(i as int));
            assert(sessions.take(i + 1).last() == sessions[i as int]);
        }
        match hub.session_at(i) {
            Some(id) => {
                if id != sender {
                    let ghost shown = action_views(actions@);
                    let action = Action::SendText { to: id, text: text.to_owned() };
                    actions.push(action);
                    proof {
                        assert(action_views(actions@) =~= shown.push(action@));
                        assert(action_views(actions@) =~= before + fan_out(
                            sessions.take(i + 1),
                            sender,
                            text@,
                        ));
                    }
                }
            },
            None => {},
        }
        i += 1;
    }
    proof {
        assert(sessions.take(n as int) =~= sessions);
    }
}

fn push_reply(actions: &mut Vec<Action>, hub: &Hub, sender: usize, text: String)
    ensures
        action_views(final(actions)@) == action_views(old(actions)@) + reply(
            hub.sessions(),
            sender,
            text@,
        ),
{
    let ghost shown = action_views(actions@);
    if hub.is_open(sender) {
        let action = Action::SendText { to: sender, text };
        actions.push(action);
        proof {
            assert(action_views(actions@) =~= shown.push(action@));
            assert(action_views(actions@) =~= shown + reply(hub.sessions(), sender, text@));
        }
    } else {
        proof {
            assert(action_views(actions@) =~= shown + reply(hub.sessions(), sender, text@));
        }
    }
}

/// Relays `message` from the session `sender_id`: every other open session
/// gets it, oldest first, and then the sender, if open, gets a receipt.
pub fn broadcast_message(sender_id: usize, message: &str, hub: &Hub) -> (actions: Vec<Action>)
    ensures
        action_views(actions@) == relayed(hub.sessions(), sender_id, message@),
{
    let mut actions: Vec<Action> = Vec::new();
    proof {
        assert(action_views(actions@) =~= Seq::<ActionView>::empty());
    }
    push_fan_out(&mut actions, hub, sender_id, message);
    push_reply(&mut actions, hub, sender_id, "{\"type\":\"received\"}".to_owned());
    proof {
        assert(action_views(actions@) =~= relayed(hub.sessions(), sender_id, message@));
    }
    actions
}

/// Decides what a snapshot that was posted leads to: the sink is told its
/// position, unless the piece map cannot be read.
pub fn handle_fen(data: &BoardData) -> (notifications: Vec<Notification>)
    ensures
        notification_views(notifications@) == posted_notifications(data),
{
    let mut notifications: Vec<Notification> = Vec::new();
    match generate_fen_from_board_data(data) {
        Ok(result) => {
            let first = Notification::FenUpdate(result.fen.clone());
            let second = Notification::BoardStateUpdate(result);
            notifications.push(first);
            notifications.push(second);
            proof {
                assert(notification_views(notifications@) =~= seq![first@, second@]);
            }
        },
        Err(_) => {
            proof {
                assert(notification_views(notifications@) =~= Seq::<NotificationView>::empty());
            }
        },
    }
    notifications
}

/// Announces a derived position that the session `sender` reported: the
/// sink is told, and every other open session gets the text `update`.
pub fn announce_position(result: FenResult, update: &str, sender: usize, hub: &Hub) -> (actions:
    Vec<Action>)
    ensures
        action_views(actions@) == position_actions(
            result.fen@,
            result.variant@,
            result.game_id@,
            update@,
            sender,
            hub.sessions(),
        ),
{
    let mut actions: Vec<Action> = Vec::new();
    let first = Action::Emit(Notification::FenUpdate(result.fen.clone()));
    let second = Action::Emit(Notification::BoardStateUpdate(result));
    actions.push(first);
    actions.push(second);
    proof {
        assert(action_views(actions@) =~= seq![first@, second@]);
    }
    push_fan_out(&mut actions, hub, sender, update);
    actions
}

fn board_update(data: &Option<BoardData>, sender: usize, hub: &Hub) -> (actions: Vec<Action>)
    ensures
        action_views(actions@) == board_update_actions(*data, sender, hub.sessions()),
{
    let nothing: Vec<Action> = Vec::new();
    proof {
        assert(action_views(nothing@) =~= Seq::<ActionView>::empty());
    }
    match data {
        None => nothing,
        Some(board_data) => {
            match generate_fen_from_board_data(board_data) {
                Err(_) => nothing,
                Ok(result) => {
                    let mut members: Vec<(String, String)> = Vec::new();
                    members.push(("type".to_owned(), "fen_update".to_owned()));
                    members.push(("fen".to_owned(), result.fen.clone()));
                    members.push(("variant".to_owned(), result.variant.clone()));
                    members.push(("game_id".to_owned(), result.game_id.clone()));
                    proof {
                        assert(pair_views(members@) =~= fen_update_members(
                            result.fen@,
                            result.variant@,
                            result.game_id@,
                        ));
                    }
                    let update = json_object(&members);
                    announce_position(result, update.as_str(), sender, hub)
                },
            }
        },
    }
}

/// Tells what an envelope asks for.
pub fn classify(message: &WebSocketMessage) -> (shape: MessageShape)
    ensures
        shape == shape_of(message),
{
    let tag = message.message_type.as_str();
    if str_eq(tag, "board_update") {
        MessageShape::BoardUpdate
    } else if str_eq(tag, "new_game") {
        MessageShape::NewGame
    } else if str_eq(tag, "ping") {
        MessageShape::Ping
    } else {
        let visualization = match &message.extra.engine_id {
            Some(engine_id) => str_eq(engine_id.as_str(), "board_visualization"),
            None => false,
        };
        if visualization || message.extra.final_shapes {
            MessageShape::Relay
        } else {
            MessageShape::Unknown
        }
    }
}

fn single_reply(hub: &Hub, sender: usize, text: String) -> (actions: Vec<Action>)
    ensures
        action_views(actions@) == reply(hub.sessions(), sender, text@),
{
    let mut actions: Vec<Action> = Vec::new();
    proof {
        assert(action_views(actions@) =~= Seq::<ActionView>::empty());
    }
    push_reply(&mut actions, hub, sender, text);
    proof {
        assert(action_views(actions@) =~= reply(hub.sessions(), sender, text@));
    }
    actions
}

/// Decides what the frame `msg` from the session `my_id` leads to, received
/// at `now_millis` milliseconds since the Unix epoch. The hub itself does not
/// change: after any frame the session is as open as it was.
pub fn route_message(msg: &Frame, my_id: usize, hub: &Hub, now_millis: i64) -> (actions: Vec<
    Action,
>)
    ensures
        action_views(actions@) == routed(msg, my_id, hub.sessions(), now_millis),
{
    match msg {
        Frame::Text { text, decoded } => {
            match decoded {
                None => single_reply(
                    hub,
                    my_id,
                    "{\"type\":\"error\",\"message\":\"Invalid JSON\"}".to_owned(),
                ),
                Some(message) => match classify(message) {
                    MessageShape::BoardUpdate => board_update(&message.data, my_id, hub),
                    MessageShape::NewGame => {
                        let mut actions: Vec<Action> = Vec::new();
                        let action = Action::Emit(Notification::NewGame(text.clone()));
                        actions.push(action);
                        proof {
                            assert(action_views(actions@) =~= seq![action@]);
                        }
                        actions
                    },
                    MessageShape::Ping => {
                        let mut pong = "{\"type\":\"pong\",\"timestamp\":".to_owned();
                        push_signed_decimal(&mut pong, now_millis);
                        pong.append("}");
                        single_reply(hub, my_id, pong)
                    },
                    MessageShape::Relay => broadcast_message(my_id, text.as_str(), hub),
                    MessageShape::Unknown => {
                        let mut reply_text =
                            "{\"type\":\"error\",\"message\":\"Unknown message type: ".to_owned();
                        reply_text.append(message.message_type.as_str());
                        reply_text.append("\"}");
                        single_reply(hub, my_id, reply_text)
                    },
                },
            }
        },
        Frame::Binary(_) => single_reply(
            hub,
            my_id,
            "{\"type\":\"error\",\"message\":\"Binary messages not supported\"}".to_owned(),
        ),
        Frame::Ping(data) => {
            let mut actions: Vec<Action> = Vec::new();
            if hub.is_open(my_id) {
                let action = Action::SendPong { to: my_id, data: data.clone() };
                actions.push(action);
                proof {
                    assert(action_views(actions@) =~= seq![action@]);
                }
            } else {
                proof {
                    assert(action_views(actions@) =~= Seq::<ActionView>::empty());
                }
            }
            actions
        },
        Frame::Pong(_) => {
            let actions: Vec<Action> = Vec::new();
            proof {
                assert(action_views(actions@) =~= Seq::<ActionView>::empty());
            }
            actions
        },
        Frame::Close => {
            let actions: Vec<Action> = Vec::new();
            proof {
                assert(action_views(actions@) =~= Seq::<ActionView>::empty());
            }
            actions
        },
    }
}

/// Whether the answer to a frame tells the time: only an application-level
/// ping is answered with it.
pub open spec fn wants_time(frame: &Frame) -> bool {
    frame matches Frame::Text { decoded: Some(message), .. } && shape_of(message)
        == MessageShape::Ping
}

/// Whatever the time, a frame that is no application-level ping leads to the
/// same.
pub proof fn lemma_time_matters_to_pings_only(
    frame: &Frame,
    sender: usize,
    sessions: Seq<usize>,
    first: i64,
    second: i64,
)
    requires
        !wants_time(frame),
    ensures
        routed(frame, sender, sessions, first) == routed(frame, sender, sessions, second),
{
}

fn is_application_ping(msg: &Frame) -> (yes: bool)
    ensures
        yes == wants_time(msg),
{
    match msg {
        Frame::Text { text: _, decoded: Some(message) } => match classify(message) {
            MessageShape::Ping => true,
            _ => false,
        },
        _ => false,
    }
}

/// Decides what the frame `msg` from the session `my_id` leads to. An
/// application-level ping is answered with the time that the clock shows,
/// whatever that is; every other frame leads to what `routed` says, which
/// the time does not touch. The hub itself does not change.
pub fn process_message(msg: &Frame, my_id: usize, hub: &Hub) -> (actions: Vec<Action>)
    ensures
        exists|now_millis: i64|
            action_views(actions@) == #[trigger] routed(msg, my_id, hub.sessions(), now_millis),
        !wants_time(msg) ==> forall|now_millis: i64|
            action_views(actions@) == #[trigger] routed(msg, my_id, hub.sessions(), now_millis),
{
    let now_millis = if is_application_ping(msg) {
        now_millis()
    } else {
        0
    };
    let actions = route_message(msg, my_id, hub, now_millis);
    proof {
        if !wants_time(msg) {
            assert forall|other: i64|
                action_views(actions@) == #[trigger] routed(msg, my_id, hub.sessions(), other) by {
                lemma_time_matters_to_pings_only(msg, my_id, hub.sessions(), now_millis, other);
            }
        }
    }
    actions
}

/// What the transport reports for a connection.
pub enum SocketEvent {
    /// A frame arrived.
    Frame(Frame),
    /// Receiving failed.
    Failed,
    /// The stream of frames ended.
    Ended,
}

/// Whether an event ends the session that it belongs to: a close frame, a
/// failure to receive, or the end of the stream.
pub open spec fn ends_session(event: &SocketEvent) -> bool {
    match event {
        SocketEvent::Frame(Frame::Close) => true,
        SocketEvent::Frame(_) => false,
        SocketEvent::Failed => true,
        SocketEvent::Ended => true,
    }
}

/// How an event for the connection `id` changes a hub. An event that ends
/// an open session closes it; nothing else changes the hub.
pub open spec fn after_event(before: &Hub, after: &Hub, id: usize, event: &SocketEvent) -> bool {
    if before.sessions().contains(id) && ends_session(event) {
        before.after_close(after, id)
    } else {
        &&& after.next_id() == before.next_id()
        &&& after.connecting() == before.connecting()
        &&& after.sessions() == before.sessions()
    }
}

/// What an event for the connection `id` leads to. Only a frame for an open
/// session that does not end it leads to anything: what `routed` says.
pub open spec fn event_actions(
    before: &Hub,
    id: usize,
    event: &SocketEvent,
    now_millis: i64,
) -> Seq<ActionView> {
    match event {
        SocketEvent::Frame(frame) => if before.sessions().contains(id) && !ends_session(event) {
            routed(frame, id, before.sessions(), now_millis)
        } else {
            Seq::empty()
        },
        _ => Seq::empty(),
    }
}

/// Takes one event of the connection `id`, received at `now_millis`
/// milliseconds since the Unix epoch. For a session that is not open nothing
/// happens and nothing is sent. An open session is closed by an event that
/// ends it; any other frame is routed and leaves the hub as it was.
pub fn apply_event(hub: &mut Hub, id: usize, event: &SocketEvent, now_millis: i64) -> (actions:
    Vec<Action>)
    ensures
        after_event(old(hub), final(hub), id, event),
        action_views(actions@) == event_actions(old(hub), id, event, now_millis),
{
    let nothing: Vec<Action> = Vec::new();
    proof {
        assert(action_views(nothing@) =~= Seq::<ActionView>::empty());
    }
    if !hub.is_open(id) {
        return nothing;
    }
    match event {
        SocketEvent::Frame(Frame::Close) => {
            hub.close(id);
            nothing
        },
        SocketEvent::Frame(frame) => route_message(frame, id, hub, now_millis),
        SocketEvent::Failed => {
            hub.close(id);
            nothing
        },
        SocketEvent::Ended => {
            hub.close(id);
            nothing
        },
    }
}

/// Takes one event of the connection `id` at the time that the clock shows.
/// The hub changes as `after_event` says; what is sent is what `apply_event`
/// gives for some time, and for every time when the event is no
/// application-level ping.
pub fn handle_event(hub: &mut Hub, id: usize, event: &SocketEvent) -> (actions: Vec<Action>)
    ensures
        after_event(old(hub), final(hub), id, event),
        exists|now_millis: i64|
            action_views(actions@) == #[trigger] event_actions(old(hub), id, event, now_millis),
        !(event matches SocketEvent::Frame(frame) && wants_time(frame)) ==> forall|now_millis: i64|
            action_views(actions@) == #[trigger] event_actions(old(hub), id, event, now_millis),
{
    let ghost before = *hub;
    let now_millis = match event {
        SocketEvent::Frame(frame) => if is_application_ping(frame) {
            now_millis()
        } else {
            0
        },
        _ => 0,
    };
    let actions = apply_event(hub, id, event, now_millis);
    proof {
        if !(event matches SocketEvent::Frame(frame) && wants_time(frame)) {
            assert forall|other: i64|
                action_views(actions@) == #[trigger] event_actions(&before, id, event, other) by {
                match event {
                    SocketEvent::Frame(frame) => {
                        lemma_time_matters_to_pings_only(
                            frame,
                            id,
                            before.sessions(),
                            now_millis,
                            other,
                        );
                    },
                    _ => {},
                }
            }
        }
    }
    actions
}

/// How a failed send changes a hub. A session whose own frame was being
/// handled when a send to it failed is closed. A send to another session
/// that fails in the middle of a broadcast changes nothing: that session is
/// closed when its own connection fails.
pub open spec fn after_send_failure(
    before: &Hub,
    after: &Hub,
    recipient: usize,
    on_behalf_of: usize,
) -> bool {
    if recipient == on_behalf_of {
        before.after_close(after, recipient)
    } else {
        &&& after.next_id() == before.next_id()
        &&& after.connecting() == before.connecting()
        &&& after.sessions() == before.sessions()
    }
}

/// Records that a send to the session `recipient` failed while the frame of
/// the session `on_behalf_of` was handled. Returns whether the recipient was
/// open and is closed now.
pub fn send_failed(hub: &mut Hub, recipient: usize, on_behalf_of: usize) -> (closed: bool)
    ensures
        after_send_failure(old(hub), final(hub), recipient, on_behalf_of),
        closed == (recipient == on_behalf_of && old(hub).sessions().contains(recipient)),
{
    if recipient == on_behalf_of {
        let was_open = hub.is_open(recipient);
        hub.close(recipient);
        was_open
    } else {
        false
    }
}

/// A send that fails in the middle of a broadcast costs no other session
/// its frame: the hub is as it was, so that every session that was to get
/// the broadcast is still open and still due its frame, and the session
/// whose send failed stays listed until its own connection fails.
pub proof fn lemma_failed_send_spares_the_others(
    before: Hub,
    after: Hub,
    sender: usize,
    failed: usize,
    text: Seq<char>,
)
    requires
        failed != sender,
        after_send_failure(&before, &after, failed, sender),
    ensures
        after.sessions() == before.sessions(),
        fan_out(after.sessions(), sender, text) == fan_out(before.sessions(), sender, text),
        forall|id: usize| #[trigger] after.state_of(id) == before.state_of(id),
{
}

/// A broadcast reaches every open session but the sender exactly once, and
/// nobody else: each action of `fan_out` is a text frame with the broadcast
/// text for an open session other than the sender, each such session has its
/// frame, and no frame occurs twice. The list is fixed before anything is
/// sent, so no outcome of one send takes a frame from another session.
pub proof fn lemma_fan_out_reaches_others(sessions: Seq<usize>, sender: usize, text: Seq<char>)
    requires
        sessions.no_duplicates(),
    ensures
        forall|i: int|
            0 <= i < fan_out(sessions, sender, text).len() ==> {
                &&& (#[trigger] fan_out(sessions, sender, text)[i]) matches ActionView::SendText {
                    to,
                    text: sent,
                }
                &&& sent == text
                &&& to != sender
                &&& sessions.contains(to)
            },
        forall|id: usize|
            #[trigger] sessions.contains(id) && id != sender ==> fan_out(
                sessions,
                sender,
                text,
            ).contains(ActionView::SendText { to: id, text }),
        !fan_out(sessions, sender, text).contains(ActionView::SendText { to: sender, text }),
        fan_out(sessions, sender, text).no_duplicates(),
    decreases sessions.len(),
{
    if sessions.len() > 0 {
        let rest = sessions.drop_last();
        let last = sessions.last();
        assert(rest.no_duplicates());
        lemma_fan_out_reaches_others(rest, sender, text);
        let short = fan_out(rest, sender, text);
        let full = fan_out(sessions, sender, text);
        assert forall|x: usize| rest.contains(x) implies sessions.contains(x) && x != last by {
            let k = choose|k: int| 0 <= k < rest.len() && rest[k] == x;
            assert(sessions[k] == x);
        }
        assert(sessions.contains(last)) by {
            assert(sessions[sessions.len() - 1] == last);
        }
        assert forall|id: usize| #[trigger]
            sessions.contains(id) && id != sender implies full.contains(
            ActionView::SendText { to: id, text },
        ) by {
            let wanted = ActionView::SendText { to: id, text };
            if id == last {
                assert(full[full.len() - 1] == wanted);
            } else {
                let k = choose|k: int| 0 <= k < sessions.len() && sessions[k] == id;
                assert(rest[k] == id);
                assert(rest.contains(id));
                assert(short.contains(wanted));
                let j = choose|j: int| 0 <= j < short.len() && short[j] == wanted;
                assert(full[j] == wanted);
            }
        }
        if last != sender {
            assert forall|i: int, j: int|
                0 <= i < full.len() && 0 <= j < full.len() && i != j implies full[i] != full[j] by {
                if i < short.len() && j < short.len() {
                    assert(short[i] != short[j]);
                } else if i < short.len() {
                    assert(rest.contains(short[i]->SendText_to));
                } else {
                    assert(rest.contains(short[j]->SendText_to));
                }
            }
            let mine = ActionView::SendText { to: sender, text };
            if full.contains(mine) {
                let j = choose|j: int| 0 <= j < full.len() && full[j] == mine;
                if j < short.len() {
                    assert(short.contains(mine));
                }
            }
        }
    }
}

/// Whether an action sends something to the session `id`.
pub open spec fn is_send_to(action: ActionView, id: usize) -> bool {
    match action {
        ActionView::SendText { to, .. } => to == id,
        ActionView::SendPong { to, .. } => to == id,
        ActionView::Emit(_) => false,
    }
}

/// A position that a session reports goes to every other open session, as
/// one update text each, and nothing is sent back to the session that
/// reported it.
pub proof fn lemma_position_reaches_others(
    fen: Seq<char>,
    variant: Seq<char>,
    game_id: Seq<char>,
    update: Seq<char>,
    sender: usize,
    sessions: Seq<usize>,
)
    requires
        sessions.no_duplicates(),
    ensures
        forall|id: usize|
            #[trigger] sessions.contains(id) && id != sender ==> position_actions(
                fen,
                variant,
                game_id,
                update,
                sender,
                sessions,
            ).contains(ActionView::SendText { to: id, text: update }),
        forall|i: int|
            0 <= i < position_actions(fen, variant, game_id, update, sender, sessions).len()
                ==> !is_send_to(
                #[trigger] position_actions(fen, variant, game_id, update, sender, sessions)[i],
                sender,
            ),
{
    let sends = fan_out(sessions, sender, update);
    let all = position_actions(fen, variant, game_id, update, sender, sessions);
    lemma_fan_out_reaches_others(sessions, sender, update);
    assert forall|id: usize| #[trigger] sessions.contains(id) && id != sender implies all.contains(
        ActionView::SendText { to: id, text: update },
    ) by {
        let wanted = ActionView::SendText { to: id, text: update };
        assert(sends.contains(wanted));
        let j = choose|j: int| 0 <= j < sends.len() && sends[j] == wanted;
        assert(all[j + 2] == wanted);
    }
    assert forall|i: int| 0 <= i < all.len() implies !is_send_to(#[trigger] all[i], sender) by {
        if i >= 2 {
            assert(all[i] == sends[i - 2]);
        }
    }
}

/// A frame that cannot be handled is answered and costs the session
/// nothing: text that is no JSON envelope and binary frames get their error
/// reply, and after either the session is still open, so that the next
/// frame is routed like any other.
pub proof fn lemma_rejected_frames_keep_session(
    before: Hub,
    after: Hub,
    id: usize,
    frame: Frame,
    now_millis: i64,
)
    requires
        before.wf(),
        before.state_of(id) == Some(ConnectionState::Open),
        frame is Binary || (frame matches Frame::Text { decoded, .. } && decoded is None),
        after_event(&before, &after, id, &SocketEvent::Frame(frame)),
    ensures
        event_actions(&before, id, &SocketEvent::Frame(frame), now_millis) == seq![
            ActionView::SendText {
                to: id,
                text: if frame is Binary {
                    binary_reply()
                } else {
                    invalid_json_reply()
                },
            },
        ],
        after.state_of(id) == Some(ConnectionState::Open),
        after.sessions() == before.sessions(),
{
}

} // verus!
