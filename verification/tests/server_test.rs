use server::client_handler::{
    client_joined_step, client_waiting_step, handle_incoming, join_reply_state, Incoming,
    JoinedDecision, WaitingDecision,
};
use server::config::{get_server_url, ConfigError};
use server::msg::{ChatState, FromClient, FromServer};
use server::server_handler::{handle_joined_state, handle_waiting_state};
use server::user_table::Users;

fn table_with(names: &[(&str, u64)]) -> Users {
    let mut users = Users::new();
    for (name, handle) in names {
        assert_eq!(users.add_user(&name.to_string(), *handle), None);
    }
    users
}

#[test]
fn test_join_on_empty_table() {
    // client sends `join frank` against an empty table
    let mut users = Users::new();
    let input = Some(FromClient::Join { username: String::from("frank") });
    let (state, name, out) = handle_waiting_state(&mut users, 7, input);
    assert_eq!(state, ChatState::Joined);
    assert_eq!(name, Some(String::from("frank")));
    assert_eq!(out[0], (7, FromServer::JoinSuccess));
    assert_eq!(out[1], (7, FromServer::Message { message: String::from("Welcome frank!") }));
    assert!(users.contains_name(&String::from("frank")));
}

#[test]
fn test_broadcast_excludes_sender() {
    // joined user frank sends `send hello`: every other connection gets the
    // relayed line exactly once, frank's own handle gets nothing
    let mut users = table_with(&[("frank", 1), ("alice", 2), ("bob", 3)]);
    let input = Some(FromClient::Send { message: String::from("hello") });
    let (state, out) = handle_joined_state(&mut users, 1, &String::from("frank"), input);
    assert_eq!(state, ChatState::Joined);
    let mut handles: Vec<u64> = out.iter().map(|d| d.0).collect();
    handles.sort();
    assert_eq!(handles, vec![2, 3]);
    for (_, m) in &out {
        assert_eq!(*m, FromServer::Message { message: String::from("frank > hello") });
    }
}

#[test]
fn test_leave_broadcasts_and_unregisters() {
    let mut users = table_with(&[("frank", 1), ("alice", 2)]);
    let input = Some(FromClient::Leave);
    let (state, out) = handle_joined_state(&mut users, 1, &String::from("frank"), input);
    assert_eq!(state, ChatState::Leaving);
    assert_eq!(
        out,
        vec![(2, FromServer::Message { message: String::from("frank > Outa-here like Vladamir!") })]
    );
    assert!(!users.contains_name(&String::from("frank")));
    assert!(users.contains_name(&String::from("alice")));
}

#[test]
fn test_abrupt_disconnect_cleans_up() {
    let mut users = table_with(&[("frank", 1), ("alice", 2)]);
    let (state, out) = handle_joined_state(&mut users, 1, &String::from("frank"), None);
    assert_eq!(state, ChatState::Leaving);
    assert_eq!(out, vec![(2, FromServer::Message { message: String::from("frank > Later guys!") })]);
    assert!(!users.contains_name(&String::from("frank")));
}

#[test]
fn test_join_while_joined_is_rejected() {
    let mut users = table_with(&[("frank", 1)]);
    let input = Some(FromClient::Join { username: String::from("other") });
    let (state, out) = handle_joined_state(&mut users, 1, &String::from("frank"), input);
    assert_eq!(state, ChatState::Joined);
    assert_eq!(out, vec![(1, FromServer::Error(String::from("You're already joined.")))]);
    assert!(users.contains_name(&String::from("frank")));
    assert!(!users.contains_name(&String::from("other")));
}

#[test]
fn test_send_before_join() {
    let mut users = Users::new();
    let input = Some(FromClient::Send { message: String::from("hello") });
    let (state, name, out) = handle_waiting_state(&mut users, 4, input);
    assert_eq!(state, ChatState::Waiting);
    assert_eq!(name, None);
    assert_eq!(out, vec![(4, FromServer::Error(String::from("Error joining server")))]);
}

#[test]
fn test_leave_before_join() {
    let mut users = Users::new();
    let (state, name, out) = handle_waiting_state(&mut users, 4, Some(FromClient::Leave));
    assert_eq!(state, ChatState::Leaving);
    assert_eq!(name, None);
    assert!(out.is_empty());
}

#[test]
fn test_disconnect_before_join() {
    let mut users = Users::new();
    let (state, name, out) = handle_waiting_state(&mut users, 4, None);
    assert_eq!(state, ChatState::Leaving);
    assert_eq!(name, None);
    assert!(out.is_empty());
}

#[test]
fn test_add_user_is_insert_if_absent() {
    let mut users = Users::new();
    assert_eq!(users.add_user(&String::from("frank"), 1), None);
    // a second join under the same name observes the standing binding
    assert_eq!(users.add_user(&String::from("frank"), 2), Some(1));
    assert_eq!(users.remove_user(&String::from("frank")), Some(1));
    assert_eq!(users.remove_user(&String::from("frank")), None);
    assert!(!users.contains_name(&String::from("frank")));
}

#[test]
fn test_client_state_steps() {
    assert!(matches!(
        client_waiting_step("join frank"),
        WaitingDecision::AttemptJoin { username } if username == "frank"
    ));
    assert!(matches!(client_waiting_step("leave"), WaitingDecision::Quit));
    assert!(matches!(client_waiting_step("send hi"), WaitingDecision::Stay));
    assert!(matches!(client_waiting_step("gibberish"), WaitingDecision::Stay));

    assert!(matches!(
        client_joined_step("send hi there"),
        JoinedDecision::SendText { message } if message == "hi there"
    ));
    assert!(matches!(client_joined_step("join again"), JoinedDecision::AlreadyJoined));
    assert!(matches!(client_joined_step("leave"), JoinedDecision::SendLeave));
    assert!(matches!(client_joined_step("nonsense"), JoinedDecision::Stay));
}

#[test]
fn test_join_reply_state() {
    assert_eq!(join_reply_state(Some(&FromServer::JoinSuccess)), ChatState::Joined);
    assert_eq!(
        join_reply_state(Some(&FromServer::Error(String::from("taken")))),
        ChatState::Waiting
    );
    assert_eq!(
        join_reply_state(Some(&FromServer::Message { message: String::from("x") })),
        ChatState::Waiting
    );
    assert_eq!(join_reply_state(None), ChatState::Waiting);
}

#[test]
fn test_handle_incoming_classification() {
    assert!(matches!(
        handle_incoming(FromServer::Message { message: String::from("hi") }),
        Incoming::Print { text } if text == "hi"
    ));
    assert!(matches!(
        handle_incoming(FromServer::Error(String::from("bad"))),
        Incoming::Warn { text } if text == "bad"
    ));
    assert!(matches!(handle_incoming(FromServer::JoinSuccess), Incoming::Ignore));
}

#[test]
fn test_get_server_url() {
    let no_args: Vec<String> = vec![];
    let host = String::from("127.0.0.1");
    let port = String::from("8080");
    assert_eq!(
        get_server_url(&no_args, Some(&host), Some(&port)),
        Ok(String::from("127.0.0.1:8080"))
    );
    assert_eq!(get_server_url(&no_args, None, Some(&port)), Err(ConfigError::MissingEnv));
    assert_eq!(get_server_url(&no_args, Some(&host), None), Err(ConfigError::MissingEnv));

    let two = vec![String::from("localhost"), String::from("9000")];
    assert_eq!(get_server_url(&two, None, None), Ok(String::from("localhost:9000")));

    let one = vec![String::from("localhost")];
    assert_eq!(get_server_url(&one, Some(&host), Some(&port)), Err(ConfigError::BadArgCount));
    let three = vec![String::from("a"), String::from("b"), String::from("c")];
    assert_eq!(get_server_url(&three, None, None), Err(ConfigError::BadArgCount));
}
