use server::codec::{decode_from_client, decode_from_server, encode_from_client, encode_from_server};
use server::msg::{FromClient, FromServer};

#[test]
fn test_send_from_client() {
    let from_client1 = FromClient::Send { message: String::from("message1") };
    let json1 = r#"{"Send":{"message":"message1"}}"#.to_string();
    assert_eq!(encode_from_client(&from_client1), json1);
}

#[test]
fn test_join_from_client() {
    let from_client2 = FromClient::Join { username: String::from("buddy") };
    let json2 = r#"{"Join":{"username":"buddy"}}"#.to_string();
    assert_eq!(encode_from_client(&from_client2), json2);
}

#[test]
fn test_leave_from_client() {
    let from_client = FromClient::Leave;
    let json = r#""Leave""#.to_string();
    assert_eq!(encode_from_client(&from_client), json);
}

#[test]
fn test_encode_server_values() {
    assert_eq!(encode_from_server(&FromServer::JoinSuccess), r#""JoinSuccess""#);
    let msg = FromServer::Message { message: String::from("frank > hi") };
    assert_eq!(encode_from_server(&msg), r#"{"Message":{"message":"frank > hi"}}"#);
    let err = FromServer::Error(String::from("bad"));
    assert_eq!(encode_from_server(&err), r#"{"Err":"bad"}"#);
}

#[test]
fn test_escaping_matches_json() {
    let v = FromClient::Send { message: String::from("a\"b\\c\nd\te\u{1f}") };
    assert_eq!(
        encode_from_client(&v),
        "{\"Send\":{\"message\":\"a\\\"b\\\\c\\nd\\te\\u001f\"}}"
    );
}

#[test]
fn test_round_trip_client_values() {
    let values = vec![
        FromClient::Leave,
        FromClient::Join { username: String::from("frank") },
        FromClient::Join { username: String::new() },
        FromClient::Send { message: String::new() },
        FromClient::Send { message: String::from("hello world") },
        FromClient::Send { message: String::from("q\"w\\e\r\n\u{08}\u{0c}\u{00}\u{1f} zß水") },
    ];
    for v in values {
        let line = encode_from_client(&v);
        assert_eq!(decode_from_client(&line), Some(v));
    }
}

#[test]
fn test_round_trip_server_values() {
    let values = vec![
        FromServer::JoinSuccess,
        FromServer::Message { message: String::from("Welcome frank!") },
        FromServer::Message { message: String::new() },
        FromServer::Error(String::from("'user1' is already taken. Choose another name.")),
        FromServer::Error(String::from("tab\tquote\"end")),
    ];
    for v in values {
        let line = encode_from_server(&v);
        assert_eq!(decode_from_server(&line), Some(v));
    }
}

#[test]
fn test_decode_rejects_malformed() {
    assert_eq!(decode_from_client(""), None);
    assert_eq!(decode_from_client("not json"), None);
    assert_eq!(decode_from_client(r#""JoinSuccess""#), None);
    assert_eq!(decode_from_client(r#"{"Join":{"username":"unterminated"#), None);
    assert_eq!(decode_from_client("{\"Send\":{\"message\":\"raw\tcontrol\"}}"), None);
    assert_eq!(decode_from_server(""), None);
    assert_eq!(decode_from_server(r#""Leave""#), None);
    assert_eq!(decode_from_server(r#"{"Err":"bad"}}"#), None);
}
