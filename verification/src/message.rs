//! The message model: the wire envelope and its variant kinds, the builders
//! that put the server's own wording on system notices, and the line-trimming
//! helpers the protocol uses before it looks at a line.

use vstd::prelude::*;
use vstd::string::StringExecFns;

verus! {

/// The closed set of envelope kinds. A line carrying the keyword `/list` or
/// `/quit` is a command; system notices are `Join` and `Leave`; everything
/// else is an ordinary `Message`.
#[derive(Clone, Copy, Debug, PartialEq, Eq, Structural)]
pub enum ChatMessageType {
    Message,
    Join,
    Leave,
    Command(CommandType),
}

/// The two client commands the hub recognises.
#[derive(Clone, Copy, Debug, PartialEq, Eq, Structural)]
pub enum CommandType {
    List,
    Quit,
}

/// One unit of communication: a tagged kind, an optional display name of the
/// sender, and a text payload.
#[derive(Debug)]
pub struct ChatMessage {
    pub message_type: ChatMessageType,
    pub username: Option<String>,
    pub content: String,
}

/// The mathematical model of an envelope: the same three fields with the
/// strings taken as character sequences.
pub struct ChatMessageView {
    pub message_type: ChatMessageType,
    pub username: Option<Seq<char>>,
    pub content: Seq<char>,
}

/// The character sequence behind an optional display name.
pub open spec fn opt_name_view(u: Option<String>) -> Option<Seq<char>> {
    match u {
        Some(name) => Some(name@),
        None => None,
    }
}

impl View for ChatMessage {
    type V = ChatMessageView;

    open spec fn view(&self) -> ChatMessageView {
        ChatMessageView {
            message_type: self.message_type,
            username: opt_name_view(self.username),
            content: self.content@,
        }
    }
}

impl Clone for ChatMessage {
    fn clone(&self) -> (r: Self)
        ensures
            r@ == self@,
    {
        ChatMessage {
            message_type: self.message_type,
            username: match &self.username {
                Some(u) => Some(u.clone()),
                None => None,
            },
            content: self.content.clone(),
        }
    }
}

/// A session's display name is always present on `Message`, `Join` and
/// `Leave` envelopes, and always absent on `List` responses.
pub open spec fn spec_wf_envelope(m: ChatMessageView) -> bool {
    match m.message_type {
        ChatMessageType::Message => m.username is Some,
        ChatMessageType::Join => m.username is Some,
        ChatMessageType::Leave => m.username is Some,
        ChatMessageType::Command(CommandType::List) => m.username is None,
        ChatMessageType::Command(CommandType::Quit) => true,
    }
}

// ---------------------------------------------------------------------------
// The envelopes the server itself builds
// ---------------------------------------------------------------------------

/// The system notice that `name` became active.
pub open spec fn spec_join_view(name: Seq<char>) -> ChatMessageView {
    ChatMessageView {
        message_type: ChatMessageType::Join,
        username: Some(name),
        content: name + " has joined the chat"@,
    }
}

/// The system notice that `name`'s session ended.
pub open spec fn spec_leave_view(name: Seq<char>) -> ChatMessageView {
    ChatMessageView {
        message_type: ChatMessageType::Leave,
        username: Some(name),
        content: name + " has left the chat"@,
    }
}

/// An ordinary chat line, attributed by the server to `name`.
pub open spec fn spec_message_view(name: Seq<char>, content: Seq<char>) -> ChatMessageView {
    ChatMessageView {
        message_type: ChatMessageType::Message,
        username: Some(name),
        content,
    }
}

/// The direct response to a roster request, carrying `body` and no sender.
pub open spec fn spec_list_view(body: Seq<char>) -> ChatMessageView {
    ChatMessageView {
        message_type: ChatMessageType::Command(CommandType::List),
        username: None,
        content: body,
    }
}

/// Builds the `Join` notice for `name`.
pub fn join_envelope(name: &str) -> (r: ChatMessage)
    ensures
        r@ == spec_join_view(name@),
        spec_wf_envelope(r@),
{
    let mut body = name.to_owned();
    body.append(" has joined the chat");
    ChatMessage {
        message_type: ChatMessageType::Join,
        username: Some(name.to_owned()),
        content: body,
    }
}

/// Builds the `Leave` notice for `name`.
pub fn leave_envelope(name: &str) -> (r: ChatMessage)
    ensures
        r@ == spec_leave_view(name@),
        spec_wf_envelope(r@),
{
    let mut body = name.to_owned();
    body.append(" has left the chat");
    ChatMessage {
        message_type: ChatMessageType::Leave,
        username: Some(name.to_owned()),
        content: body,
    }
}

/// Builds an ordinary chat envelope attributed to `name`: whatever sender a
/// client claimed, the server's own record of the session names the author.
pub fn message_envelope(name: &str, content: String) -> (r: ChatMessage)
    ensures
        r@ == spec_message_view(name@, content@),
        spec_wf_envelope(r@),
{
    ChatMessage {
        message_type: ChatMessageType::Message,
        username: Some(name.to_owned()),
        content,
    }
}

// ---------------------------------------------------------------------------
// Line trimming
// ---------------------------------------------------------------------------

/// The whitespace the protocol strips from line ends.
pub open spec fn spec_is_ws(c: char) -> bool {
    c == ' ' || c == '\t' || c == '\r' || c == '\n'
}

/// `s` without its leading whitespace.
pub open spec fn spec_trim_front(s: Seq<char>) -> Seq<char>
    decreases s.len(),
{
    if s.len() > 0 && spec_is_ws(s[0]) {
        spec_trim_front(s.skip(1))
    } else {
        s
    }
}

/// `s` without its trailing whitespace.
pub open spec fn spec_trim_back(s: Seq<char>) -> Seq<char>
    decreases s.len(),
{
    if s.len() > 0 && spec_is_ws(s.last()) {
        spec_trim_back(s.drop_last())
    } else {
        s
    }
}

/// `s` without leading and trailing whitespace.
pub open spec fn spec_trim(s: Seq<char>) -> Seq<char> {
    spec_trim_back(spec_trim_front(s))
}

/// A line that holds nothing but whitespace.
pub open spec fn spec_blank(s: Seq<char>) -> bool {
    spec_trim(s).len() == 0
}

/// Trimming from the front stops at the first non-whitespace character.
proof fn lemma_trim_front_at(s: Seq<char>, a: int)
    requires
        0 <= a <= s.len(),
        forall|q: int| 0 <= q < a ==> spec_is_ws(s[q]),
        a == s.len() || !spec_is_ws(s[a]),
    ensures
        spec_trim_front(s) == s.skip(a),
    decreases a,
{
    if a == 0 {
        assert(s.skip(0) =~= s);
    } else {
        assert(spec_is_ws(s[0]));
        lemma_trim_front_at(s.skip(1), a - 1);
        assert(s.skip(1).skip(a - 1) =~= s.skip(a));
    }
}

/// Trimming from the back stops at the last non-whitespace character.
proof fn lemma_trim_back_at(s: Seq<char>, b: int)
    requires
        0 <= b <= s.len(),
        forall|q: int| b <= q < s.len() ==> spec_is_ws(s[q]),
        b == 0 || !spec_is_ws(s[b - 1]),
    ensures
        spec_trim_back(s) == s.take(b),
    decreases s.len(),
{
    if b == s.len() {
        if s.len() > 0 {
            assert(!spec_is_ws(s.last()));
        }
        assert(s.take(b) =~= s);
    } else {
        assert(spec_is_ws(s.last()));
        lemma_trim_back_at(s.drop_last(), b);
        assert(s.drop_last().take(b) =~= s.take(b));
    }
}

/// The characters of `cs` without leading and trailing whitespace.
pub fn trim_chars(cs: &Vec<char>) -> (r: Vec<char>)
    ensures
        r@ == spec_trim(cs@),
{
    let n = cs.len();
    let mut a: usize = 0;
    while a < n && (cs[a] == ' ' || cs[a] == '\t' || cs[a] == '\r' || cs[a] == '\n')
        invariant
            n == cs@.len(),
            a <= n,
            forall|q: int| 0 <= q < a ==> spec_is_ws(cs@[q]),
        decreases n - a,
    {
        a = a + 1;
    }
    let mut b: usize = n;
    while b > a && (cs[b - 1] == ' ' || cs[b - 1] == '\t' || cs[b - 1] == '\r' || cs[b - 1]
        == '\n')
        invariant
            n == cs@.len(),
            a <= b <= n,
            forall|q: int| b <= q < n ==> spec_is_ws(cs@[q]),
        decreases b,
    {
        b = b - 1;
    }
    let mut out: Vec<char> = Vec::new();
    let mut i: usize = a;
    while i < b
        invariant
            n == cs@.len(),
            a <= i <= b <= n,
            out@ == cs@.subrange(a as int, i as int),
        decreases b - i,
    {
        out.push(cs[i]);
        proof {
            assert(cs@.subrange(a as int, i + 1) =~= cs@.subrange(a as int, i as int).push(
                cs@[i as int],
            ));
        }
        i = i + 1;
    }
    proof {
        lemma_trim_front_at(cs@, a as int);
        lemma_trim_back_at(cs@.skip(a as int), b - a);
        assert(cs@.skip(a as int).take(b - a) =~= cs@.subrange(a as int, b as int));
    }
    out
}

// ---------------------------------------------------------------------------
// Command keywords
// ---------------------------------------------------------------------------

/// The literal roster request line.
pub open spec fn spec_lit_list_cmd() -> Seq<char> {
    seq!['/', 'l', 'i', 's', 't']
}

/// The literal departure announcement line.
pub open spec fn spec_lit_quit_cmd() -> Seq<char> {
    seq!['/', 'q', 'u', 'i', 't']
}

/// Whether two character vectors hold the same characters.
pub fn eq_chars(a: &Vec<char>, b: &Vec<char>) -> (r: bool)
    ensures
        r == (a@ == b@),
{
    let n = a.len();
    if b.len() != n {
        proof {
            assert(a@ != b@);
        }
        return false;
    }
    let mut i: usize = 0;
    while i < n
        invariant
            n == a@.len(),
            n == b@.len(),
            i <= n,
            forall|q: int| 0 <= q < i ==> a@[q] == b@[q],
        decreases n - i,
    {
        if a[i] != b[i] {
            return false;
        }
        i = i + 1;
    }
    proof {
        assert(a@ =~= b@);
    }
    true
}

/// The characters of `/list`.
pub fn lit_list_cmd_vec() -> (r: Vec<char>)
    ensures
        r@ == spec_lit_list_cmd(),
{
    let mut v: Vec<char> = Vec::new();
    v.push('/');
    v.push('l');
    v.push('i');
    v.push('s');
    v.push('t');
    proof {
        assert(v@ =~= spec_lit_list_cmd());
    }
    v
}

/// The characters of `/quit`.
pub fn lit_quit_cmd_vec() -> (r: Vec<char>)
    ensures
        r@ == spec_lit_quit_cmd(),
{
    let mut v: Vec<char> = Vec::new();
    v.push('/');
    v.push('q');
    v.push('u');
    v.push('i');
    v.push('t');
    proof {
        assert(v@ =~= spec_lit_quit_cmd());
    }
    v
}

} // verus!
