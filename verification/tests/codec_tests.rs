use chat_hub::codec::{decode_envelope, encode_envelope, wire_line};
use chat_hub::message::{ChatMessage, ChatMessageType, CommandType};

fn msg(kind: ChatMessageType, user: Option<&str>, body: &str) -> ChatMessage {
    ChatMessage {
        message_type: kind,
        username: user.map(|u| u.to_string()),
        content: body.to_string(),
    }
}

#[test]
fn encode_message_exact() {
    let m = msg(ChatMessageType::Message, Some("alice"), "hello");
    assert_eq!(
        encode_envelope(&m),
        "{\"message_type\":\"message\",\"username\":\"alice\",\"content\":\"hello\"}"
    );
}

#[test]
fn encode_join_exact() {
    let m = msg(ChatMessageType::Join, Some("bob"), "bob has joined the chat");
    assert_eq!(
        encode_envelope(&m),
        "{\"message_type\":\"join\",\"username\":\"bob\",\"content\":\"bob has joined the chat\"}"
    );
}

#[test]
fn encode_leave_exact() {
    let m = msg(ChatMessageType::Leave, Some("bob"), "bob has left the chat");
    assert_eq!(
        encode_envelope(&m),
        "{\"message_type\":\"leave\",\"username\":\"bob\",\"content\":\"bob has left the chat\"}"
    );
}

#[test]
fn encode_list_response_exact() {
    let m = msg(
        ChatMessageType::Command(CommandType::List),
        None,
        "No users online.",
    );
    assert_eq!(
        encode_envelope(&m),
        "{\"message_type\":{\"command\":\"list\"},\"username\":null,\"content\":\"No users online.\"}"
    );
}

#[test]
fn encode_quit_exact() {
    let m = msg(ChatMessageType::Command(CommandType::Quit), Some("alice"), "");
    assert_eq!(
        encode_envelope(&m),
        "{\"message_type\":{\"command\":\"quit\"},\"username\":\"alice\",\"content\":\"\"}"
    );
}

#[test]
fn encode_escapes_specials() {
    let m = msg(ChatMessageType::Message, Some("a\"b"), "back\\slash\nline\ttab");
    assert_eq!(
        encode_envelope(&m),
        "{\"message_type\":\"message\",\"username\":\"a\\\"b\",\"content\":\"back\\\\slash\\u000aline\\u0009tab\"}"
    );
}

#[test]
fn wire_line_ends_with_newline() {
    let m = msg(ChatMessageType::Message, Some("alice"), "hi");
    let line = wire_line(&m);
    assert!(line.ends_with('\n'));
    assert_eq!(&line[..line.len() - 1], encode_envelope(&m));
}

#[test]
fn roundtrip_all_kinds() {
    let cases = vec![
        msg(ChatMessageType::Message, Some("alice"), "hello there"),
        msg(ChatMessageType::Join, Some("bob"), "bob has joined the chat"),
        msg(ChatMessageType::Leave, Some("bob"), "bob has left the chat"),
        msg(ChatMessageType::Command(CommandType::List), None, ""),
        msg(ChatMessageType::Command(CommandType::Quit), Some("c"), ""),
        msg(ChatMessageType::Message, Some("q\"uote"), "a\\b\"c\nd\u{1}e"),
        msg(ChatMessageType::Message, None, "anonymous"),
        msg(ChatMessageType::Message, Some(""), ""),
        msg(ChatMessageType::Message, Some("unicode"), "héllo wörld ☺"),
    ];
    for m in cases {
        let e = encode_envelope(&m);
        let d = decode_envelope(&e).expect("its own encoding must decode");
        assert_eq!(d.message_type, m.message_type);
        assert_eq!(d.username, m.username);
        assert_eq!(d.content, m.content);
    }
}

#[test]
fn decode_rejects_malformed() {
    let bad = vec![
        "",
        "hello",
        "/list",
        "{\"message_type\":\"message\"}",
        "{\"message_type\":\"message\",\"username\":\"a\",\"content\":\"x\"",
        "{\"message_type\":\"message\",\"username\":\"a\",\"content\":\"x\"}}",
        "{\"message_type\":\"message\",\"username\":\"a\",\"content\":\"x\"} ",
        " {\"message_type\":\"message\",\"username\":\"a\",\"content\":\"x\"}",
        "{\"message_type\":\"shout\",\"username\":\"a\",\"content\":\"x\"}",
        "{\"username\":\"a\",\"message_type\":\"message\",\"content\":\"x\"}",
        "{\"message_type\":\"message\",\"username\":\"a\",\"content\":\"bad\\qescape\"}",
        "{\"message_type\":\"message\",\"username\":\"a\",\"content\":\"unterminated}",
        "{\"message_type\":\"message\",\"username\":null,\"content\":\"raw\ttab\"}",
    ];
    for s in bad {
        assert!(decode_envelope(s).is_none(), "should reject: {s}");
    }
}

#[test]
fn encoding_is_valid_json() {
    let m = msg(ChatMessageType::Message, Some("al\"ice"), "line\nbreak \u{7} bell");
    let e = encode_envelope(&m);
    let v: serde_json::Value = serde_json::from_str(&e).expect("must be valid JSON");
    assert_eq!(v["message_type"], serde_json::Value::String("message".to_string()));
    assert_eq!(v["username"], serde_json::Value::String("al\"ice".to_string()));
    assert_eq!(
        v["content"],
        serde_json::Value::String("line\nbreak \u{7} bell".to_string())
    );
}

#[test]
fn command_kinds_are_tagged_objects() {
    let m = msg(ChatMessageType::Command(CommandType::List), None, "");
    let e = encode_envelope(&m);
    let v: serde_json::Value = serde_json::from_str(&e).expect("must be valid JSON");
    assert_eq!(v["message_type"]["command"], serde_json::Value::String("list".to_string()));
    assert_eq!(v["username"], serde_json::Value::Null);
}
