//! The interactive client's protocol decisions: turning typed input into an
//! envelope, and turning a received envelope into the text to show.
//!
//! The terminal loop around these functions only reads lines, prints what
//! `display_text` hands back, and stops after a departure; every decision
//! about what a line means is made here.

use vstd::prelude::*;
use vstd::string::StringExecFns;
use crate::codec::str_to_chars;
use crate::message::{
    eq_chars, lit_list_cmd_vec, lit_quit_cmd_vec, spec_blank, spec_lit_list_cmd,
    spec_lit_quit_cmd, spec_trim, trim_chars, ChatMessage, ChatMessageType, ChatMessageView,
    CommandType,
};

verus! {

/// A command the client recognises in raw terminal input.
#[derive(Clone, Copy, Debug, PartialEq, Eq, Structural)]
pub enum Command {
    List,
    Quit,
}

/// Which command, if any, the trimmed input names.
pub open spec fn spec_parse_command(input: Seq<char>) -> Option<Command> {
    let tv = spec_trim(input);
    if tv == spec_lit_list_cmd() {
        Some(Command::List)
    } else if tv == spec_lit_quit_cmd() {
        Some(Command::Quit)
    } else {
        None
    }
}

impl Command {
    /// Parses trimmed input into a command: `/list`, `/quit`, or nothing.
    pub fn from_input(input: &str) -> (r: Option<Self>)
        ensures
            r == spec_parse_command(input@),
    {
        let cs = str_to_chars(input);
        let tv = trim_chars(&cs);
        let lst = lit_list_cmd_vec();
        if eq_chars(&tv, &lst) {
            return Some(Command::List);
        }
        let qt = lit_quit_cmd_vec();
        if eq_chars(&tv, &qt) {
            return Some(Command::Quit);
        }
        None
    }
}

/// Parses a command from user input.
pub fn parse_command(input: &str) -> (r: Option<Command>)
    ensures
        r == spec_parse_command(input@),
{
    Command::from_input(input)
}

/// The envelope the client sends for one line of typed input: a placeholder
/// message for blank input, the matching command envelope for `/list` and
/// `/quit`, and otherwise the input as an ordinary message under the
/// client's own name.
pub open spec fn spec_parse_user_input(input: Seq<char>, username: Seq<char>) -> ChatMessageView {
    if spec_blank(input) {
        ChatMessageView {
            message_type: ChatMessageType::Message,
            username: Some(username),
            content: "Empty input provided."@,
        }
    } else if spec_trim(input) == spec_lit_list_cmd() {
        ChatMessageView {
            message_type: ChatMessageType::Command(CommandType::List),
            username: None,
            content: Seq::empty(),
        }
    } else if spec_trim(input) == spec_lit_quit_cmd() {
        ChatMessageView {
            message_type: ChatMessageType::Command(CommandType::Quit),
            username: Some(username),
            content: Seq::empty(),
        }
    } else {
        ChatMessageView {
            message_type: ChatMessageType::Message,
            username: Some(username),
            content: input,
        }
    }
}

/// Parses one line of typed input into the envelope to send.
pub fn parse_user_input(input: &str, username: &str) -> (r: ChatMessage)
    ensures
        r@ == spec_parse_user_input(input@, username@),
{
    let cs = str_to_chars(input);
    let tv = trim_chars(&cs);
    if tv.len() == 0 {
        return ChatMessage {
            message_type: ChatMessageType::Message,
            username: Some(username.to_owned()),
            content: String::from_str("Empty input provided."),
        };
    }
    let lst = lit_list_cmd_vec();
    if eq_chars(&tv, &lst) {
        return ChatMessage {
            message_type: ChatMessageType::Command(CommandType::List),
            username: None,
            content: String::new(),
        };
    }
    let qt = lit_quit_cmd_vec();
    if eq_chars(&tv, &qt) {
        return ChatMessage {
            message_type: ChatMessageType::Command(CommandType::Quit),
            username: Some(username.to_owned()),
            content: String::new(),
        };
    }
    ChatMessage {
        message_type: ChatMessageType::Message,
        username: Some(username.to_owned()),
        content: input.to_owned(),
    }
}

/// What the client shows for one received envelope, or nothing: an ordinary
/// message as `[sender]: text`, system notices and roster responses as their
/// body, and a departure acknowledgment as its sender's farewell. An
/// envelope that lacks the sender its kind calls for shows nothing.
pub open spec fn spec_display(m: ChatMessageView) -> Option<Seq<char>> {
    match m.message_type {
        ChatMessageType::Message => match m.username {
            Some(u) => Some("["@ + u + "]: "@ + m.content),
            None => None,
        },
        ChatMessageType::Join => Some(m.content),
        ChatMessageType::Leave => Some(m.content),
        ChatMessageType::Command(CommandType::List) => Some(m.content),
        ChatMessageType::Command(CommandType::Quit) => match m.username {
            Some(u) => Some(u + " has left the chat."@),
            None => None,
        },
    }
}

/// The text to show for one received envelope, or nothing.
pub fn display_text(msg: &ChatMessage) -> (r: Option<String>)
    ensures
        match r {
            Some(s) => spec_display(msg@) == Some(s@),
            None => spec_display(msg@) is None,
        },
{
    match msg.message_type {
        ChatMessageType::Message => {
            match &msg.username {
                Some(u) => {
                    let mut s = String::from_str("[");
                    s.append(u.as_str());
                    s.append("]: ");
                    s.append(msg.content.as_str());
                    Some(s)
                },
                None => None,
            }
        },
        ChatMessageType::Join => Some(msg.content.clone()),
        ChatMessageType::Leave => Some(msg.content.clone()),
        ChatMessageType::Command(CommandType::List) => Some(msg.content.clone()),
        ChatMessageType::Command(CommandType::Quit) => {
            match &msg.username {
                Some(u) => {
                    let mut s = u.clone();
                    s.append(" has left the chat.");
                    Some(s)
                },
                None => None,
            }
        },
    }
}

} // verus!
