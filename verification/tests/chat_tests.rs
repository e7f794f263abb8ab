use yewchat::chat::{find_user, Chat, Effect, Msg};
use yewchat::envelope::{MessageData, MsgTypes, WebSocketMessage, encode_envelope, encode_message_data};

fn message(from: &str, text: &str, reactions: Option<Vec<String>>) -> MessageData {
    MessageData { from: from.to_string(), message: text.to_string(), reactions }
}

fn message_frame_text(from: &str, text: &str) -> String {
    let inner = encode_message_data(&message(from, text, None));
    encode_envelope(&WebSocketMessage {
        message_type: MsgTypes::Message,
        data_array: None,
        data: Some(inner),
    })
}

fn roster_frame_text(names: &[&str]) -> String {
    encode_envelope(&WebSocketMessage {
        message_type: MsgTypes::Users,
        data_array: Some(names.iter().map(|n| n.to_string()).collect()),
        data: None,
    })
}

#[test]
fn new_chat_is_empty_and_light() {
    let c = Chat::new();
    assert!(c.users.is_empty());
    assert!(c.messages.is_empty());
    assert!(!c.is_dark_mode);
}

#[test]
fn toggle_twice_returns_to_original() {
    let mut c = Chat::new();
    let (redraw, eff) = c.update(Msg::ToggleDarkMode);
    assert!(redraw);
    assert!(matches!(eff, Effect::Nothing));
    assert!(c.is_dark_mode);
    let (redraw2, _) = c.update(Msg::ToggleDarkMode);
    assert!(redraw2);
    assert!(!c.is_dark_mode);
}

#[test]
fn first_reaction_creates_singleton_list() {
    let mut c = Chat::new();
    c.messages.push(message("alice", "hello", None));
    let (redraw, eff) = c.update(Msg::ReactToMessage(0, "👍".to_string()));
    assert!(redraw);
    assert!(matches!(eff, Effect::Nothing));
    assert_eq!(c.messages[0].reactions, Some(vec!["👍".to_string()]));
}

#[test]
fn later_reactions_append_in_order() {
    let mut c = Chat::new();
    c.messages.push(message("alice", "hello", Some(vec!["❤️".to_string()])));
    c.update(Msg::ReactToMessage(0, "😂".to_string()));
    assert_eq!(
        c.messages[0].reactions,
        Some(vec!["❤️".to_string(), "😂".to_string()])
    );
}

#[test]
fn reaction_targets_exactly_the_indexed_message() {
    let mut c = Chat::new();
    c.messages.push(message("alice", "first", None));
    c.messages.push(message("bob", "second", None));
    c.update(Msg::ReactToMessage(1, "😮".to_string()));
    assert_eq!(c.messages[0].reactions, None);
    assert_eq!(c.messages[1].reactions, Some(vec!["😮".to_string()]));
    assert_eq!(c.messages[0].message, "first");
    assert_eq!(c.messages[1].message, "second");
    assert_eq!(c.messages[1].from, "bob");
}

#[test]
fn stale_reaction_index_changes_nothing() {
    let mut c = Chat::new();
    c.messages.push(message("alice", "only", None));
    let (redraw, _) = c.update(Msg::ReactToMessage(5, "👍".to_string()));
    assert!(redraw);
    assert_eq!(c.messages.len(), 1);
    assert_eq!(c.messages[0].reactions, None);
}

#[test]
fn roster_frame_replaces_user_list() {
    let mut c = Chat::new();
    let (redraw, _) = c.update(Msg::HandleMsg(roster_frame_text(&["alice", "bob"])));
    assert!(redraw);
    assert_eq!(c.users.len(), 2);
    assert_eq!(c.users[0].name, "alice");
    assert_eq!(
        c.users[0].avatar,
        "https://avatars.dicebear.com/api/adventurer-neutral/alice.svg"
    );
    assert_eq!(c.users[1].name, "bob");
    let (redraw2, _) = c.update(Msg::HandleMsg(roster_frame_text(&["carol"])));
    assert!(redraw2);
    assert_eq!(c.users.len(), 1);
    assert_eq!(c.users[0].name, "carol");
}

#[test]
fn empty_roster_frame_clears_user_list() {
    let mut c = Chat::new();
    c.update(Msg::HandleMsg(roster_frame_text(&["alice", "bob"])));
    assert_eq!(c.users.len(), 2);
    let (redraw, _) = c.update(Msg::HandleMsg(roster_frame_text(&[])));
    assert!(redraw);
    assert!(c.users.is_empty());
}

#[test]
fn null_roster_frame_clears_user_list() {
    let mut c = Chat::new();
    c.update(Msg::HandleMsg(roster_frame_text(&["alice"])));
    let frame = "{\"messageType\":\"users\",\"dataArray\":null,\"data\":null}";
    let (redraw, _) = c.update(Msg::HandleMsg(frame.to_string()));
    assert!(redraw);
    assert!(c.users.is_empty());
}

#[test]
fn message_frame_appends_to_feed() {
    let mut c = Chat::new();
    let (redraw, _) = c.update(Msg::HandleMsg(message_frame_text("alice", "hi there")));
    assert!(redraw);
    assert_eq!(c.messages.len(), 1);
    assert_eq!(c.messages[0].from, "alice");
    assert_eq!(c.messages[0].message, "hi there");
    assert_eq!(c.messages[0].reactions, None);
    c.update(Msg::HandleMsg(message_frame_text("bob", "hello")));
    assert_eq!(c.messages.len(), 2);
    assert_eq!(c.messages[1].from, "bob");
}

#[test]
fn message_frame_fields_accepted_in_any_order() {
    let mut c = Chat::new();
    let frame = " { \"data\" : \"{\\\"message\\\":\\\"hi\\\",\\\"from\\\":\\\"zoe\\\"}\" , \"messageType\" : \"message\" } ";
    let (redraw, _) = c.update(Msg::HandleMsg(frame.to_string()));
    assert!(redraw);
    assert_eq!(c.messages.len(), 1);
    assert_eq!(c.messages[0].from, "zoe");
    assert_eq!(c.messages[0].message, "hi");
}

#[test]
fn message_frame_with_reactions_keeps_them() {
    let mut c = Chat::new();
    let inner = encode_message_data(&message(
        "alice",
        "popular",
        Some(vec!["❤️".to_string(), "👍".to_string()]),
    ));
    let frame = encode_envelope(&WebSocketMessage {
        message_type: MsgTypes::Message,
        data_array: None,
        data: Some(inner),
    });
    c.update(Msg::HandleMsg(frame));
    assert_eq!(
        c.messages[0].reactions,
        Some(vec!["❤️".to_string(), "👍".to_string()])
    );
}

#[test]
fn register_and_reaction_tags_are_ignored() {
    let mut c = Chat::new();
    let frame = "{\"messageType\":\"register\",\"dataArray\":null,\"data\":\"alice\"}";
    let (redraw, eff) = c.update(Msg::HandleMsg(frame.to_string()));
    assert!(!redraw);
    assert!(matches!(eff, Effect::Nothing));
    assert!(c.users.is_empty() && c.messages.is_empty());
    let frame2 = "{\"messageType\":\"reaction\",\"dataArray\":null,\"data\":null}";
    let (redraw2, _) = c.update(Msg::HandleMsg(frame2.to_string()));
    assert!(!redraw2);
}

#[test]
fn malformed_frames_are_dropped_silently() {
    let mut c = Chat::new();
    c.update(Msg::HandleMsg(roster_frame_text(&["alice"])));
    let before_users = c.users.len();
    for bad in [
        "",
        "not json",
        "{}",
        "{\"messageType\":\"users\"",
        "{\"messageType\":\"party\",\"dataArray\":null,\"data\":null}",
        "{\"messageType\":\"users\",\"unknownKey\":null}",
        "{\"messageType\":\"users\",\"messageType\":\"users\"}",
        "{\"messageType\":\"message\",\"dataArray\":null,\"data\":null}",
        "{\"messageType\":\"message\",\"dataArray\":null,\"data\":\"not json\"}",
        "{\"messageType\":\"message\",\"dataArray\":null,\"data\":\"{\\\"from\\\":\\\"a\\\"}\"}",
    ] {
        let (redraw, eff) = c.update(Msg::HandleMsg(bad.to_string()));
        assert!(!redraw, "frame should be dropped: {bad}");
        assert!(matches!(eff, Effect::Nothing));
        assert_eq!(c.users.len(), before_users);
        assert!(c.messages.is_empty());
    }
}

#[test]
fn submit_event_asks_shell_to_send_input() {
    let mut c = Chat::new();
    let (redraw, eff) = c.update(Msg::SubmitMessage);
    assert!(!redraw);
    assert!(matches!(eff, Effect::SubmitInput));
    assert!(c.users.is_empty() && c.messages.is_empty());
}

#[test]
fn find_user_returns_first_match_or_nothing() {
    let mut c = Chat::new();
    c.update(Msg::HandleMsg(roster_frame_text(&["alice", "bob", "alice"])));
    let hit = find_user(&c.users, "bob").unwrap();
    assert_eq!(hit.name, "bob");
    assert!(find_user(&c.users, "carol").is_none());
    // two entries share a name: the first one wins
    c.users[0].avatar = "first".to_string();
    c.users[2].avatar = "second".to_string();
    assert_eq!(find_user(&c.users, "alice").unwrap().avatar, "first");
}
