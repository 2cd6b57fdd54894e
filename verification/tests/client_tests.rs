use chat_hub::client::{display_text, parse_command, parse_user_input, Command};
use chat_hub::errors::ChatServerError;
use chat_hub::message::{ChatMessage, ChatMessageType, CommandType};
use chat_hub::valid_name;

#[test]
fn commands_are_recognised() {
    assert_eq!(Command::from_input("/list"), Some(Command::List));
    assert_eq!(Command::from_input("/quit"), Some(Command::Quit));
    assert_eq!(Command::from_input("  /quit \n"), Some(Command::Quit));
    assert_eq!(Command::from_input("hello"), None);
    assert_eq!(Command::from_input("/listen"), None);
    assert_eq!(parse_command("/list"), Some(Command::List));
}

#[test]
fn typed_text_becomes_a_message_under_own_name() {
    let m = parse_user_input("hello there", "alice");
    assert_eq!(m.message_type, ChatMessageType::Message);
    assert_eq!(m.username, Some("alice".to_string()));
    assert_eq!(m.content, "hello there");
}

#[test]
fn blank_input_becomes_a_placeholder() {
    let m = parse_user_input("   ", "alice");
    assert_eq!(m.message_type, ChatMessageType::Message);
    assert_eq!(m.username, Some("alice".to_string()));
    assert_eq!(m.content, "Empty input provided.");
}

#[test]
fn list_input_becomes_an_anonymous_command() {
    let m = parse_user_input("/list", "alice");
    assert_eq!(m.message_type, ChatMessageType::Command(CommandType::List));
    assert_eq!(m.username, None);
    assert_eq!(m.content, "");
}

#[test]
fn quit_input_keeps_the_name() {
    let m = parse_user_input("/quit", "alice");
    assert_eq!(m.message_type, ChatMessageType::Command(CommandType::Quit));
    assert_eq!(m.username, Some("alice".to_string()));
    assert_eq!(m.content, "");
}

#[test]
fn display_formats_each_kind() {
    let say = ChatMessage {
        message_type: ChatMessageType::Message,
        username: Some("alice".to_string()),
        content: "hi".to_string(),
    };
    assert_eq!(display_text(&say), Some("[alice]: hi".to_string()));

    let join = ChatMessage {
        message_type: ChatMessageType::Join,
        username: Some("bob".to_string()),
        content: "bob has joined the chat".to_string(),
    };
    assert_eq!(display_text(&join), Some("bob has joined the chat".to_string()));

    let listing = ChatMessage {
        message_type: ChatMessageType::Command(CommandType::List),
        username: None,
        content: "Online users: alice".to_string(),
    };
    assert_eq!(display_text(&listing), Some("Online users: alice".to_string()));

    let quit = ChatMessage {
        message_type: ChatMessageType::Command(CommandType::Quit),
        username: Some("bob".to_string()),
        content: String::new(),
    };
    assert_eq!(display_text(&quit), Some("bob has left the chat.".to_string()));

    let nameless = ChatMessage {
        message_type: ChatMessageType::Message,
        username: None,
        content: "hi".to_string(),
    };
    assert_eq!(display_text(&nameless), None);
}

#[test]
fn names_must_be_one_to_twenty_characters() {
    assert!(!valid_name(""));
    assert!(valid_name("a"));
    assert!(valid_name("abcdefghijklmnopqrst"));
    assert!(!valid_name("abcdefghijklmnopqrstu"));
    assert!(valid_name("ünïcødé"));
}

#[test]
fn errors_describe_themselves() {
    assert_eq!(
        ChatServerError::IoError("broken pipe".to_string()).describe(),
        "IO error: broken pipe"
    );
    assert_eq!(
        ChatServerError::ClientDisconnected("1.2.3.4:5".to_string()).describe(),
        "Client disconnected: 1.2.3.4:5"
    );
    assert_eq!(
        ChatServerError::JsonError("bad line".to_string()).describe(),
        "Failed to parse JSON: bad line"
    );
    assert_eq!(ChatServerError::PoisonedLock.describe(), "Resource lock poisoned");
    assert_eq!(ChatServerError::NoAvailablePorts.describe(), "No available ports");
}
