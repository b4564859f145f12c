use server::client_handler::parse_cmd;
use server::msg::{ChatState, FromClient, FromServer};
use server::server_handler::handle_waiting_state;
use server::user_table::Users;

#[test]
fn client_test_join_cmd() {
    let line1 = String::from("join frank");
    let from_client1 = FromClient::Join { username: "frank".to_string() };
    let parsed1 = parse_cmd(&line1).unwrap();
    assert_eq!(from_client1, parsed1);
}

#[test]
fn client_test_send_cmd() {
    let line2 = String::from("send my message");
    let from_client2 = FromClient::Send { message: "my message".to_string() };
    let parsed2 = parse_cmd(&line2).unwrap();
    assert_eq!(from_client2, parsed2);
}

#[test]
fn client_test_leave_cmd() {
    let line3 = String::from("leave");
    let from_client3 = FromClient::Leave;
    let parsed3 = parse_cmd(&line3).unwrap();
    assert_eq!(from_client3, parsed3);
}

#[test]
fn client_handler_test_join_cmd() {
    let line1 = String::from("join frank");
    let from_client1 = FromClient::Join { username: "frank".to_string() };
    let parsed1 = parse_cmd(&line1).unwrap();
    assert_eq!(from_client1, parsed1);
}

#[test]
fn client_handler_test_send_cmd() {
    let line2 = String::from("send my message");
    let from_client2 = FromClient::Send { message: "my message".to_string() };
    let parsed2 = parse_cmd(&line2).unwrap();
    assert_eq!(from_client2, parsed2);
}

#[test]
fn client_handler_test_leave_cmd() {
    let line3 = String::from("leave");
    let from_client3 = FromClient::Leave;
    let parsed3 = parse_cmd(&line3).unwrap();
    assert_eq!(from_client3, parsed3);
}

#[test]
fn test_join_without_name_is_rejected() {
    assert_eq!(parse_cmd("join"), None);
}

#[test]
fn test_unknown_command_is_rejected() {
    assert_eq!(parse_cmd("shout hello"), None);
    assert_eq!(parse_cmd(""), None);
    assert_eq!(parse_cmd("   "), None);
}

#[test]
fn test_cmd_trimming() {
    assert_eq!(parse_cmd("  leave  "), Some(FromClient::Leave));
    assert_eq!(
        parse_cmd("send  spaced  out "),
        Some(FromClient::Send { message: "spaced  out".to_string() })
    );
    assert_eq!(parse_cmd("send"), Some(FromClient::Send { message: String::new() }));
    assert_eq!(parse_cmd("leave now"), Some(FromClient::Leave));
}

#[test]
fn test_join() {
    let mut users = Users::new();
    let input = Some(FromClient::Join { username: String::from("test-user") });
    let (state, name, out) = handle_waiting_state(&mut users, 1, input);
    assert_eq!(state, ChatState::Joined);
    assert_eq!(name, Some(String::from("test-user")));
    assert_eq!(out[0], (1, FromServer::JoinSuccess));
}

#[test]
fn test_reject_same_username() {
    let mut users = Users::new();
    let join1 = Some(FromClient::Join { username: String::from("user1") });
    let (_, _, out1) = handle_waiting_state(&mut users, 1, join1);
    assert_eq!(out1[0].1, FromServer::JoinSuccess);

    let join2 = Some(FromClient::Join { username: String::from("user1") });
    let (state2, name2, out2) = handle_waiting_state(&mut users, 2, join2);
    let err_str = format!("'{}' is already taken. Choose another name.", "user1");
    assert_eq!(out2, vec![(2, FromServer::Error(err_str))]);
    assert_eq!(state2, ChatState::Waiting);
    assert_eq!(name2, None);
}

#[test]
fn test_first_token_trimming() {
    // the keyword token is itself trimmed, so a tab before the space is fine
    assert_eq!(
        parse_cmd("join\t frank"),
        Some(FromClient::Join { username: "frank".to_string() })
    );
    // but a tab inside the token makes it no keyword at all
    assert_eq!(parse_cmd("join\tfrank"), None);
}

#[test]
fn test_second_token_taken_raw() {
    // the name is the literal token after the first space, even when empty
    assert_eq!(
        parse_cmd("join  frank"),
        Some(FromClient::Join { username: String::new() })
    );
}
