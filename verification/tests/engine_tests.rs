use chat_hub::codec::{decode_envelope, encode_envelope};
use chat_hub::engine::{handshake_parse, ClientAction, ServerCore, Session};
use chat_hub::message::{ChatMessage, ChatMessageType, CommandType};

fn join_line(name: &str) -> String {
    let m = ChatMessage {
        message_type: ChatMessageType::Join,
        username: Some(name.to_string()),
        content: format!("{name} has joined the chat"),
    };
    encode_envelope(&m)
}

fn chat_line(claimed_sender: &str, text: &str) -> String {
    let m = ChatMessage {
        message_type: ChatMessageType::Message,
        username: Some(claimed_sender.to_string()),
        content: text.to_string(),
    };
    encode_envelope(&m)
}

fn decode_line(line: &str) -> ChatMessage {
    decode_envelope(line.trim_end_matches('\n')).expect("line must decode")
}

#[test]
fn handshake_accepts_a_valid_name() {
    assert_eq!(handshake_parse(&join_line("alice")), Some("alice".to_string()));
}

#[test]
fn handshake_trims_the_raw_line() {
    let line = format!("  {}\n", join_line("alice"));
    assert_eq!(handshake_parse(&line), Some("alice".to_string()));
}

#[test]
fn handshake_rejects_an_empty_name() {
    assert_eq!(handshake_parse(&join_line("")), None);
}

#[test]
fn handshake_rejects_an_overlong_name() {
    let twenty = "abcdefghijklmnopqrst";
    let twenty_one = "abcdefghijklmnopqrstu";
    assert_eq!(handshake_parse(&join_line(twenty)), Some(twenty.to_string()));
    assert_eq!(handshake_parse(&join_line(twenty_one)), None);
}

#[test]
fn handshake_rejects_garbage_and_missing_names() {
    assert_eq!(handshake_parse("not json at all"), None);
    assert_eq!(handshake_parse(""), None);
    let nameless = ChatMessage {
        message_type: ChatMessageType::Join,
        username: None,
        content: "hi".to_string(),
    };
    assert_eq!(handshake_parse(&encode_envelope(&nameless)), None);
}

#[test]
fn rejected_name_leaves_no_trace() {
    let mut core = ServerCore::new();
    core.connect(1);
    assert_eq!(handshake_parse(&join_line("")), None);
    core.abort_handshake(1);
    let reply = core.list_response();
    let m = decode_line(&reply);
    assert_eq!(m.content, "No users online.");
    assert_eq!(core.replay_lines().len(), 0);
}

#[test]
fn list_with_no_sessions() {
    let core = ServerCore::new();
    let m = decode_line(&core.list_response());
    assert_eq!(m.message_type, ChatMessageType::Command(CommandType::List));
    assert_eq!(m.username, None);
    assert_eq!(m.content, "No users online.");
}

#[test]
fn list_joins_names_in_registration_order() {
    let mut core = ServerCore::new();
    core.connect(1);
    core.complete_join(1, "alice");
    core.connect(2);
    core.complete_join(2, "bob");
    let m = decode_line(&core.list_response());
    assert_eq!(m.content, "Online users: alice, bob");
}

#[test]
fn join_broadcast_reaches_only_the_others() {
    let mut core = ServerCore::new();
    core.connect(1);
    let (line_a, rec_a) = core.complete_join(1, "alice");
    assert_eq!(rec_a, Vec::<u64>::new());
    let m = decode_line(&line_a);
    assert_eq!(m.message_type, ChatMessageType::Join);
    assert_eq!(m.username, Some("alice".to_string()));
    assert_eq!(m.content, "alice has joined the chat");

    core.connect(2);
    let (_line_b, rec_b) = core.complete_join(2, "bob");
    assert_eq!(rec_b, vec![1]);
}

#[test]
fn replay_hands_back_the_full_history_in_order() {
    let mut core = ServerCore::new();
    core.connect(1);
    core.complete_join(1, "alice");
    match core.client_message(1, "alice", &chat_line("alice", "hello")) {
        ClientAction::Broadcast(_, _) => {},
        _ => panic!("a chat line must broadcast"),
    }
    let lines = core.replay_lines();
    assert_eq!(lines.len(), 2);
    let first = decode_line(&lines[0]);
    let second = decode_line(&lines[1]);
    assert_eq!(first.message_type, ChatMessageType::Join);
    assert_eq!(first.username, Some("alice".to_string()));
    assert_eq!(second.message_type, ChatMessageType::Message);
    assert_eq!(second.content, "hello");
}

#[test]
fn blank_and_malformed_lines_are_ignored() {
    let mut core = ServerCore::new();
    core.connect(1);
    core.complete_join(1, "alice");
    for line in ["", "   ", "\t", "not json", "{\"message_type\":"] {
        match core.client_message(1, "alice", line) {
            ClientAction::Ignore => {},
            _ => panic!("line {line:?} should be ignored"),
        }
    }
    assert_eq!(core.replay_lines().len(), 1);
}

#[test]
fn incoming_join_envelopes_are_ignored() {
    let mut core = ServerCore::new();
    core.connect(1);
    core.complete_join(1, "alice");
    match core.client_message(1, "alice", &join_line("impostor")) {
        ClientAction::Ignore => {},
        _ => panic!("a client-sent join is not acted on"),
    }
}

#[test]
fn raw_list_keyword_earns_a_direct_reply() {
    let mut core = ServerCore::new();
    core.connect(1);
    core.complete_join(1, "alice");
    match core.client_message(1, "alice", "/list") {
        ClientAction::ListReply(reply) => {
            assert_eq!(decode_line(&reply).content, "Online users: alice");
        },
        _ => panic!("/list must earn a direct reply"),
    }
    // not broadcast, not appended to history
    assert_eq!(core.replay_lines().len(), 1);
}

#[test]
fn wrapped_list_command_earns_the_same_reply() {
    let mut core = ServerCore::new();
    core.connect(1);
    core.complete_join(1, "alice");
    let wrapped = ChatMessage {
        message_type: ChatMessageType::Command(CommandType::List),
        username: None,
        content: String::new(),
    };
    match core.client_message(1, "alice", &encode_envelope(&wrapped)) {
        ClientAction::ListReply(reply) => {
            assert_eq!(decode_line(&reply).content, "Online users: alice");
        },
        _ => panic!("a wrapped list command must earn a direct reply"),
    }
}

#[test]
fn quit_keyword_begins_teardown() {
    let mut core = ServerCore::new();
    core.connect(1);
    core.complete_join(1, "alice");
    match core.client_message(1, "alice", "/quit") {
        ClientAction::BeginQuit => {},
        _ => panic!("/quit must begin teardown"),
    }
    match core.client_message(1, "alice", " /quit \n") {
        ClientAction::BeginQuit => {},
        _ => panic!("/quit is recognised after trimming"),
    }
}

#[test]
fn wrapped_quit_and_leave_envelopes_begin_teardown() {
    let mut core = ServerCore::new();
    core.connect(1);
    core.complete_join(1, "alice");
    let quit = ChatMessage {
        message_type: ChatMessageType::Command(CommandType::Quit),
        username: Some("alice".to_string()),
        content: String::new(),
    };
    match core.client_message(1, "alice", &encode_envelope(&quit)) {
        ClientAction::BeginQuit => {},
        _ => panic!("a wrapped quit must begin teardown"),
    }
    let leave = ChatMessage {
        message_type: ChatMessageType::Leave,
        username: Some("alice".to_string()),
        content: "alice has left the chat".to_string(),
    };
    match core.client_message(1, "alice", &encode_envelope(&leave)) {
        ClientAction::BeginQuit => {},
        _ => panic!("a client-sent leave is treated as a departure"),
    }
}

#[test]
fn padded_envelope_lines_still_parse() {
    let mut core = ServerCore::new();
    core.connect(1);
    core.complete_join(1, "alice");
    core.connect(2);
    core.complete_join(2, "bob");
    let padded = format!("  {}  \n", chat_line("alice", "hi"));
    match core.client_message(1, "alice", &padded) {
        ClientAction::Broadcast(line, recipients) => {
            assert_eq!(recipients, vec![2]);
            assert_eq!(decode_line(&line).content, "hi");
        },
        _ => panic!("a padded chat line must broadcast"),
    }
}

#[test]
fn the_server_is_authoritative_for_attribution() {
    let mut core = ServerCore::new();
    core.connect(1);
    core.complete_join(1, "alice");
    core.connect(2);
    core.complete_join(2, "bob");
    match core.client_message(1, "alice", &chat_line("mallory", "hi")) {
        ClientAction::Broadcast(line, recipients) => {
            let m = decode_line(&line);
            assert_eq!(m.username, Some("alice".to_string()));
            assert_eq!(m.content, "hi");
            assert_eq!(recipients, vec![2]);
        },
        _ => panic!("a chat line must broadcast"),
    }
}

#[test]
fn broadcast_never_includes_the_sender() {
    let mut core = ServerCore::new();
    for (id, name) in [(1, "a"), (2, "b"), (3, "c")] {
        core.connect(id);
        core.complete_join(id, name);
    }
    match core.client_message(2, "b", &chat_line("b", "hi")) {
        ClientAction::Broadcast(_, recipients) => {
            assert_eq!(recipients, vec![1, 3]);
            assert!(!recipients.contains(&2));
        },
        _ => panic!("a chat line must broadcast"),
    }
}

#[test]
fn broadcast_appends_serializes_and_excludes_the_sender() {
    let mut core = ServerCore::new();
    for (id, name) in [(1, "a"), (2, "b"), (3, "c")] {
        core.connect(id);
        core.complete_join(id, name);
    }
    let msg = ChatMessage {
        message_type: ChatMessageType::Message,
        username: Some("b".to_string()),
        content: "direct".to_string(),
    };
    let wire = encode_envelope(&msg);
    let (line, recipients) = core.broadcast(2, msg);
    assert_eq!(line, format!("{wire}\n"));
    assert_eq!(recipients, vec![1, 3]);
    let replay = core.replay_lines();
    assert_eq!(replay.last().map(|l| l.as_str()), Some(line.as_str()));
}

#[test]
fn teardown_fires_exactly_once() {
    let mut core = ServerCore::new();
    core.connect(1);
    core.complete_join(1, "alice");
    core.connect(2);
    core.complete_join(2, "bob");
    let mut sess = Session::new(2, "bob".to_string());

    let out = core.finish_session(&mut sess, true).expect("first teardown acts");
    let (leave_line, recipients, ack) = out;
    let m = decode_line(&leave_line);
    assert_eq!(m.message_type, ChatMessageType::Leave);
    assert_eq!(m.username, Some("bob".to_string()));
    assert_eq!(m.content, "bob has left the chat");
    assert_eq!(recipients, vec![1]);
    assert!(ack);

    // run again on any other exit path: nothing happens
    assert!(core.finish_session(&mut sess, false).is_none());
    assert_eq!(core.replay_lines().len(), 3);
}

#[test]
fn after_leave_the_roster_no_longer_lists_the_name() {
    let mut core = ServerCore::new();
    core.connect(1);
    core.complete_join(1, "alice");
    core.connect(2);
    core.complete_join(2, "bob");
    let mut sess = Session::new(2, "bob".to_string());
    core.finish_session(&mut sess, true);
    match core.client_message(1, "alice", "/list") {
        ClientAction::ListReply(reply) => {
            assert_eq!(decode_line(&reply).content, "Online users: alice");
        },
        _ => panic!("/list must earn a direct reply"),
    }
}

#[test]
fn a_failed_recipient_is_pruned_and_the_rest_survive() {
    let mut core = ServerCore::new();
    for (id, name) in [(1, "a"), (2, "b"), (3, "c")] {
        core.connect(id);
        core.complete_join(id, name);
    }
    let recipients = match core.client_message(1, "a", &chat_line("a", "hi")) {
        ClientAction::Broadcast(_, recipients) => recipients,
        _ => panic!("a chat line must broadcast"),
    };
    assert_eq!(recipients, vec![2, 3]);
    // the write to 2 failed; 3 was still served, then 2 is pruned
    core.prune_failed(&vec![2]);
    match core.client_message(3, "c", "/list") {
        ClientAction::ListReply(reply) => {
            assert_eq!(decode_line(&reply).content, "Online users: a, c");
        },
        _ => panic!("/list must earn a direct reply"),
    }
}

#[test]
fn two_sessions_may_share_a_display_name() {
    let mut core = ServerCore::new();
    core.connect(1);
    core.complete_join(1, "sam");
    core.connect(2);
    core.complete_join(2, "sam");
    let m = decode_line(&core.list_response());
    assert_eq!(m.content, "Online users: sam, sam");
    let mut sess = Session::new(1, "sam".to_string());
    core.finish_session(&mut sess, false);
    let m = decode_line(&core.list_response());
    assert_eq!(m.content, "Online users: sam");
}

#[test]
fn full_two_client_exchange() {
    let mut core = ServerCore::new();

    // client A joins as alice
    core.connect(1);
    let name_a = handshake_parse(&join_line("alice")).expect("alice is a valid name");
    assert_eq!(core.replay_lines().len(), 0);
    let (_join_a, rec_a) = core.complete_join(1, &name_a);
    assert_eq!(rec_a, Vec::<u64>::new());

    // client B joins as bob: its replay holds alice's join record
    core.connect(2);
    let name_b = handshake_parse(&join_line("bob")).expect("bob is a valid name");
    let replay_b = core.replay_lines();
    assert_eq!(replay_b.len(), 1);
    let m = decode_line(&replay_b[0]);
    assert_eq!(m.message_type, ChatMessageType::Join);
    assert_eq!(m.username, Some("alice".to_string()));
    let (_join_b, rec_b) = core.complete_join(2, &name_b);
    assert_eq!(rec_b, vec![1]);

    // A says hello: B receives it, A does not
    match core.client_message(1, "alice", &chat_line("alice", "hello")) {
        ClientAction::Broadcast(line, recipients) => {
            assert_eq!(recipients, vec![2]);
            let m = decode_line(&line);
            assert_eq!(m.message_type, ChatMessageType::Message);
            assert_eq!(m.username, Some("alice".to_string()));
            assert_eq!(m.content, "hello");
        },
        _ => panic!("a chat line must broadcast"),
    }

    // B quits: A is told, and B gets the same envelope as acknowledgment
    match core.client_message(2, "bob", "/quit") {
        ClientAction::BeginQuit => {},
        _ => panic!("/quit must begin teardown"),
    }
    let mut sess_b = Session::new(2, "bob".to_string());
    let (leave_line, recipients, ack) =
        core.finish_session(&mut sess_b, true).expect("teardown acts once");
    assert_eq!(recipients, vec![1]);
    assert!(ack);
    let m = decode_line(&leave_line);
    assert_eq!(m.message_type, ChatMessageType::Leave);
    assert_eq!(m.username, Some("bob".to_string()));
    assert_eq!(m.content, "bob has left the chat");
}
