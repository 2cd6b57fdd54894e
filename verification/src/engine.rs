//! The Broadcast Engine and the per-connection protocol decisions.
//!
//! `ServerCore` owns the Session Registry and the History Log and makes every
//! decision of a session's life: the join handshake, the replay, the message
//! loop (roster requests, departures, fan-out) and the teardown. The binary
//! around it only reads lines, writes the lines these methods hand back, and
//! reports which writes failed; a failed recipient is then pruned here, in a
//! separate pass after the fan-out, never during it.
//!
//! A session moves through the states connecting, awaiting identity, active,
//! disconnecting and closed. `connect` registers the writer (connecting to
//! awaiting identity); `handshake_parse` with `complete_join` or
//! `abort_handshake` decides the promotion to active; `client_message` is one
//! step of the active loop; `finish_session` is the single teardown
//! (disconnecting to closed), guarded by the session's `left` flag so the
//! `Leave` broadcast fires exactly once whatever path led there.

use vstd::prelude::*;
use vstd::string::StringExecFns;
use crate::codec::{
    decode_chars, lemma_encode_injective, spec_encode, str_to_chars, wire_line,
};
use crate::history::HistoryLog;
use crate::message::{
    eq_chars, join_envelope, leave_envelope, lit_list_cmd_vec, lit_quit_cmd_vec,
    message_envelope, spec_join_view, spec_leave_view, spec_list_view, spec_wf_envelope,
    spec_lit_list_cmd, spec_lit_quit_cmd, spec_message_view, spec_trim, trim_chars,
    ChatMessage, ChatMessageType, ChatMessageView, CommandType,
};
use crate::spec_valid_name;
use crate::registry::{
    lemma_drop_id_members, lemma_keep_entries_members, lemma_keep_ids_members,
    spec_drop_entry, spec_drop_id, spec_keep_entries, spec_keep_ids, SessionRegistry,
};

verus! {

// ---------------------------------------------------------------------------
// The roster body
// ---------------------------------------------------------------------------

/// The display names joined by a comma and a space, in order.
pub open spec fn spec_join_names(names: Seq<Seq<char>>) -> Seq<char>
    decreases names.len(),
{
    if names.len() == 0 {
        Seq::empty()
    } else if names.len() == 1 {
        names[0]
    } else {
        spec_join_names(names.drop_last()) + ", "@ + names.last()
    }
}

/// The body of a roster response: a fixed sentence when nobody is online,
/// otherwise the joined names after `Online users: `.
pub open spec fn spec_list_body(names: Seq<Seq<char>>) -> Seq<char> {
    if names.len() == 0 {
        "No users online."@
    } else {
        "Online users: "@ + spec_join_names(names)
    }
}

/// The character sequences behind a vector of names.
pub open spec fn names_view(names: Seq<String>) -> Seq<Seq<char>> {
    names.map_values(|s: String| s@)
}

/// Builds the roster response body for `names`.
pub fn list_body(names: &Vec<String>) -> (r: String)
    ensures
        r@ == spec_list_body(names_view(names@)),
{
    let n = names.len();
    if n == 0 {
        let r = String::from_str("No users online.");
        proof {
            assert(names_view(names@).len() == 0);
        }
        return r;
    }
    let mut body = String::from_str("Online users: ");
    let mut i: usize = 0;
    while i < n
        invariant
            n == names@.len(),
            n >= 1,
            i <= n,
            body@ == "Online users: "@ + spec_join_names(names_view(names@).take(i as int)),
        decreases n - i,
    {
        let ghost nv = names_view(names@);
        if i > 0 {
            body.append(", ");
        }
        body.append(names[i].as_str());
        proof {
            assert(nv[i as int] == names@[i as int]@);
            assert(nv.take(i + 1).drop_last() =~= nv.take(i as int));
            assert(nv.take(i + 1).last() == nv[i as int]);
            if i == 0 {
                assert(spec_join_names(nv.take(1)) == nv[0]);
            }
        }
        i = i + 1;
    }
    proof {
        assert(names_view(names@).take(n as int) =~= names_view(names@));
    }
    body
}

// ---------------------------------------------------------------------------
// Line classification
// ---------------------------------------------------------------------------

/// What one line of client input asks for, decided on the trimmed line: a
/// blank line asks nothing; the literal keywords `/list` and `/quit` are
/// commands whatever wrapping they lack; an encoded envelope acts by its
/// kind, with a client-sent `Leave` treated as a departure and a client-sent
/// `Join` ignored; anything else is malformed and ignored.
pub enum LineClass {
    Blank,
    ListReq,
    QuitReq,
    Say(Seq<char>),
    Unhandled,
}

/// Classifies one raw line of client input.
pub open spec fn spec_classify(line: Seq<char>) -> LineClass {
    let tv = spec_trim(line);
    if tv.len() == 0 {
        LineClass::Blank
    } else if tv == spec_lit_list_cmd() {
        LineClass::ListReq
    } else if tv == spec_lit_quit_cmd() {
        LineClass::QuitReq
    } else if exists|mv: ChatMessageView| tv == spec_encode(mv) {
        let mv = choose|mv: ChatMessageView| tv == spec_encode(mv);
        match mv.message_type {
            ChatMessageType::Message => LineClass::Say(mv.content),
            ChatMessageType::Command(CommandType::List) => LineClass::ListReq,
            ChatMessageType::Command(CommandType::Quit) => LineClass::QuitReq,
            ChatMessageType::Leave => LineClass::QuitReq,
            ChatMessageType::Join => LineClass::Unhandled,
        }
    } else {
        LineClass::Unhandled
    }
}

/// What `client_message` hands back to the connection's thread: nothing, a
/// direct reply line, a line to fan out to the given recipients, or the
/// order to begin teardown.
pub enum ClientAction {
    Ignore,
    ListReply(String),
    Broadcast(String, Vec<u64>),
    BeginQuit,
}

// ---------------------------------------------------------------------------
// The handshake
// ---------------------------------------------------------------------------

/// Reads the display name out of a session's first line: the line, trimmed,
/// must be an encoded envelope carrying a sender name of one to twenty
/// characters. Returns the name exactly when it does; any other first line
/// aborts the handshake.
pub fn handshake_parse(line: &str) -> (r: Option<String>)
    ensures
        match r {
            Some(name) => spec_valid_name(name@) && exists|mv: ChatMessageView|
                spec_trim(line@) == spec_encode(mv) && mv.username == Some(name@),
            None => forall|mv: ChatMessageView|
                spec_trim(line@) == spec_encode(mv) ==> !(mv.username matches Some(u)
                    && spec_valid_name(u)),
        },
{
    let lchars = str_to_chars(line);
    let tv = trim_chars(&lchars);
    match decode_chars(&tv) {
        Some(m) => {
            match m.username {
                Some(name) => {
                    if crate::valid_name(name.as_str()) {
                        proof {
                            let mv = m@;
                            assert(spec_trim(line@) == spec_encode(mv));
                            assert(mv.username == Some(name@));
                        }
                        Some(name)
                    } else {
                        proof {
                            assert forall|mv: ChatMessageView|
                                spec_trim(line@) == spec_encode(mv) implies !(mv.username
                                matches Some(u) && spec_valid_name(u)) by {
                                if spec_trim(line@) == spec_encode(mv) {
                                    lemma_encode_injective(mv, m@);
                                }
                            }
                        }
                        None
                    }
                },
                None => {
                    proof {
                        assert forall|mv: ChatMessageView|
                            spec_trim(line@) == spec_encode(mv) implies !(mv.username
                            matches Some(u) && spec_valid_name(u)) by {
                            if spec_trim(line@) == spec_encode(mv) {
                                lemma_encode_injective(mv, m@);
                            }
                        }
                    }
                    None
                },
            }
        },
        None => None,
    }
}

// ---------------------------------------------------------------------------
// The server core
// ---------------------------------------------------------------------------

/// Whether two cores hold the same registry contents and the same log.
pub open spec fn same_state(a: ServerCore, b: ServerCore) -> bool {
    &&& a.registry.writer_ids() == b.registry.writer_ids()
    &&& a.registry.name_entries() == b.registry.name_entries()
    &&& a.history.log() == b.history.log()
}

/// The hub's shared state: the Session Registry and the History Log, with
/// every protocol decision as a method.
pub struct ServerCore {
    pub registry: SessionRegistry,
    pub history: HistoryLog,
}

/// The server-side state of one connection: its identity, its display name
/// once chosen, and whether its `Leave` broadcast has already fired.
pub struct Session {
    pub id: u64,
    pub name: String,
    pub left: bool,
}

impl Session {
    /// A freshly promoted session: named, not yet departed.
    pub fn new(id: u64, name: String) -> (r: Self)
        ensures
            r.id == id,
            r.name == name,
            !r.left,
    {
        Session { id, name, left: false }
    }
}

impl ServerCore {
    /// The registry holds no duplicate identities, and every envelope the
    /// hub has broadcast is well formed: its sender is present exactly when
    /// its kind calls for one.
    pub open spec fn wf(self) -> bool {
        &&& self.registry.wf()
        &&& forall|i: int|
            0 <= i < self.history.log().len() ==> spec_wf_envelope(
                #[trigger] self.history.log()[i],
            )
    }

    /// The display names on the roster, in insertion order.
    pub open spec fn roster(self) -> Seq<Seq<char>> {
        self.registry.name_entries().map_values(|e: (u64, Seq<char>)| e.1)
    }

    /// A hub with no sessions and an empty history.
    pub fn new() -> (r: Self)
        ensures
            r.wf(),
            r.registry.writer_ids() == Seq::<u64>::empty(),
            r.registry.name_entries() == Seq::<(u64, Seq<char>)>::empty(),
            r.history.log() == Seq::<ChatMessageView>::empty(),
    {
        ServerCore { registry: SessionRegistry::new(), history: HistoryLog::new() }
    }

    /// A connection was accepted: its writer joins the registry before any
    /// name is known, so broadcasts need not special-case it.
    pub fn connect(&mut self, id: u64)
        requires
            old(self).wf(),
        ensures
            final(self).wf(),
            final(self).registry.writer_ids() == if old(self).registry.writer_ids().contains(id) {
                old(self).registry.writer_ids()
            } else {
                old(self).registry.writer_ids().push(id)
            },
            final(self).registry.name_entries() == old(self).registry.name_entries(),
            final(self).history.log() == old(self).history.log(),
    {
        self.registry.register(id);
    }

    /// The handshake failed, or the replay write did: the connection is
    /// dropped without a name, without a `Join` broadcast, and without a
    /// trace in the registry. The history is untouched.
    pub fn abort_handshake(&mut self, id: u64)
        requires
            old(self).wf(),
        ensures
            final(self).wf(),
            final(self).registry.writer_ids() == spec_drop_id(
                old(self).registry.writer_ids(),
                id,
            ),
            final(self).registry.name_entries() == spec_drop_entry(
                old(self).registry.name_entries(),
                id,
            ),
            final(self).history.log() == old(self).history.log(),
    {
        self.registry.unregister(id);
    }

    /// The wire lines of the whole history, in order: written to a joining
    /// session before any live traffic reaches it.
    pub fn replay_lines(&self) -> (r: Vec<String>)
        ensures
            r@.len() == self.history.log().len(),
            forall|i: int|
                0 <= i < r@.len() ==> r@[i]@ == spec_encode(self.history.log()[i])
                    + seq!['\n'],
    {
        self.history.replay_lines()
    }

    /// The Broadcast Engine's one operation: appends `msg` to the history,
    /// serializes it once, and hands back its wire line together with the
    /// fan-out list: every registered writer except the sender, in order.
    /// The caller writes the line to each recipient and reports the failed
    /// identities to `prune_failed`, which removes them in a later critical
    /// section; a failed write is never fatal to the broadcaster.
    pub fn broadcast(&mut self, sender: u64, msg: ChatMessage) -> (r: (String, Vec<u64>))
        requires
            old(self).wf(),
            spec_wf_envelope(msg@),
        ensures
            final(self).wf(),
            final(self).registry.writer_ids() == old(self).registry.writer_ids(),
            final(self).registry.name_entries() == old(self).registry.name_entries(),
            final(self).history.log() == old(self).history.log().push(msg@),
            r.0@ == spec_encode(msg@) + seq!['\n'],
            r.1@ == spec_drop_id(old(self).registry.writer_ids(), sender),
    {
        let line = wire_line(&msg);
        let recipients = self.registry.recipients_excluding(sender);
        self.history.append(msg);
        (line, recipients)
    }

    /// The handshake and the replay succeeded: the session is promoted to
    /// active. Its name enters the roster, the `Join` notice is appended to
    /// history, and the notice's wire line is handed back with the fan-out
    /// list: every registered writer except the joining session itself.
    pub fn complete_join(&mut self, id: u64, name: &str) -> (r: (String, Vec<u64>))
        requires
            old(self).wf(),
            spec_valid_name(name@),
            !old(self).registry.spec_has_name(id),
        ensures
            final(self).wf(),
            final(self).registry.writer_ids() == old(self).registry.writer_ids(),
            final(self).registry.name_entries() == old(self).registry.name_entries().push(
                (id, name@),
            ),
            final(self).history.log() == old(self).history.log().push(spec_join_view(name@)),
            r.0@ == spec_encode(spec_join_view(name@)) + seq!['\n'],
            r.1@ == spec_drop_id(old(self).registry.writer_ids(), id),
    {
        self.registry.set_name(id, name);
        self.broadcast(id, join_envelope(name))
    }

    /// The direct reply to a roster request: the current names, in
    /// registration order, joined into one `List` response line. Nothing is
    /// broadcast and nothing enters the history.
    pub fn list_response(&self) -> (r: String)
        ensures
            r@ == spec_encode(spec_list_view(spec_list_body(self.roster()))) + seq!['\n'],
    {
        let names = self.registry.snapshot_names();
        proof {
            assert(names_view(names@) =~= self.roster()) by {
                assert forall|i: int| 0 <= i < names@.len() implies names_view(names@)[i]
                    == self.roster()[i] by {
                    assert(names_view(names@)[i] == names@[i]@);
                    assert(self.roster()[i] == self.registry.name_entries()[i].1);
                }
            }
        }
        let body = list_body(&names);
        let msg = ChatMessage {
            message_type: ChatMessageType::Command(CommandType::List),
            username: None,
            content: body,
        };
        wire_line(&msg)
    }

    /// One step of the active message loop, for the session `id` named
    /// `name`: classifies the line and acts. A blank or malformed line is
    /// ignored; `/list` earns a direct reply built from the current roster;
    /// `/quit` (or a departure envelope) begins teardown; an ordinary
    /// message is stamped with the session's own name, appended to history,
    /// and handed back with its fan-out list, the sender excluded.
    pub fn client_message(&mut self, id: u64, name: &str, line: &str) -> (r: ClientAction)
        requires
            old(self).wf(),
        ensures
            final(self).wf(),
            match spec_classify(line@) {
                LineClass::Blank => r is Ignore && same_state(*final(self), *old(self)),
                LineClass::ListReq => (r matches ClientAction::ListReply(reply) && reply@
                    == spec_encode(spec_list_view(spec_list_body(old(self).roster())))
                    + seq!['\n']) && same_state(*final(self), *old(self)),
                LineClass::QuitReq => r is BeginQuit && same_state(*final(self), *old(self)),
                LineClass::Say(content) => {
                    &&& (r matches ClientAction::Broadcast(w, rec) && w@ == spec_encode(
                        spec_message_view(name@, content),
                    ) + seq!['\n'] && rec@ == spec_drop_id(
                        old(self).registry.writer_ids(),
                        id,
                    ))
                    &&& final(self).registry.writer_ids() == old(self).registry.writer_ids()
                    &&& final(self).registry.name_entries() == old(
                        self,
                    ).registry.name_entries()
                    &&& final(self).history.log() == old(self).history.log().push(
                        spec_message_view(name@, content),
                    )
                },
                LineClass::Unhandled => r is Ignore && same_state(*final(self), *old(self)),
            },
    {
        let lchars = str_to_chars(line);
        let tv = trim_chars(&lchars);
        let ghost cls = spec_classify(line@);
        if tv.len() == 0 {
            proof {
                assert(cls is Blank);
            }
            return ClientAction::Ignore;
        }
        let lst = lit_list_cmd_vec();
        if eq_chars(&tv, &lst) {
            proof {
                assert(cls is ListReq);
            }
            let reply = self.list_response();
            return ClientAction::ListReply(reply);
        }
        let qt = lit_quit_cmd_vec();
        if eq_chars(&tv, &qt) {
            proof {
                assert(cls is QuitReq);
            }
            return ClientAction::BeginQuit;
        }
        match decode_chars(&tv) {
            Some(m) => {
                proof {
                    let mv = choose|mv: ChatMessageView| spec_trim(line@) == spec_encode(mv);
                    lemma_encode_injective(mv, m@);
                }
                match m.message_type {
                    ChatMessageType::Message => {
                        proof {
                            assert(cls == LineClass::Say(m@.content));
                        }
                        let (w, rec) = self.broadcast(id, message_envelope(name, m.content));
                        ClientAction::Broadcast(w, rec)
                    },
                    ChatMessageType::Command(CommandType::List) => {
                        proof {
                            assert(cls is ListReq);
                        }
                        let reply = self.list_response();
                        ClientAction::ListReply(reply)
                    },
                    ChatMessageType::Command(CommandType::Quit) => {
                        proof {
                            assert(cls is QuitReq);
                        }
                        ClientAction::BeginQuit
                    },
                    ChatMessageType::Leave => {
                        proof {
                            assert(cls is QuitReq);
                        }
                        ClientAction::BeginQuit
                    },
                    ChatMessageType::Join => {
                        proof {
                            assert(cls is Unhandled);
                        }
                        ClientAction::Ignore
                    },
                }
            },
            None => {
                proof {
                    assert(cls is Unhandled);
                }
                ClientAction::Ignore
            },
        }
    }

    /// The single teardown of a session, on every exit path: if its `Leave`
    /// has not fired yet, the notice enters the history, the fan-out list
    /// (everyone but the departing session) and the wire line are handed
    /// back together with whether to acknowledge it to the departing
    /// connection (only a `/quit` leaves a connection to write to), and the
    /// session leaves both registry mappings. Run a second time it does
    /// nothing: the `left` flag makes teardown idempotent.
    pub fn finish_session(&mut self, sess: &mut Session, via_quit: bool) -> (r: Option<
        (String, Vec<u64>, bool),
    >)
        requires
            old(self).wf(),
        ensures
            final(self).wf(),
            final(sess).id == old(sess).id,
            final(sess).name == old(sess).name,
            final(sess).left,
            old(sess).left ==> r is None && same_state(*final(self), *old(self)),
            !old(sess).left ==> (r matches Some(out) && {
                &&& out.0@ == spec_encode(spec_leave_view(old(sess).name@)) + seq!['\n']
                &&& out.1@ == spec_drop_id(old(self).registry.writer_ids(), old(sess).id)
                &&& out.2 == via_quit
                &&& final(self).history.log() == old(self).history.log().push(
                    spec_leave_view(old(sess).name@),
                )
                &&& final(self).registry.writer_ids() == spec_drop_id(
                    old(self).registry.writer_ids(),
                    old(sess).id,
                )
                &&& final(self).registry.name_entries() == spec_drop_entry(
                    old(self).registry.name_entries(),
                    old(sess).id,
                )
            }),
    {
        if sess.left {
            return None;
        }
        sess.left = true;
        let (w, rec) = self.broadcast(sess.id, leave_envelope(sess.name.as_str()));
        self.registry.unregister(sess.id);
        Some((w, rec, via_quit))
    }

    /// The deferred pruning pass: every identity whose write failed during a
    /// fan-out leaves both registry mappings, in one later critical section.
    /// The history is untouched, and no other session is disturbed.
    pub fn prune_failed(&mut self, failed: &Vec<u64>)
        requires
            old(self).wf(),
        ensures
            final(self).wf(),
            final(self).registry.writer_ids() == spec_keep_ids(
                old(self).registry.writer_ids(),
                failed@,
            ),
            final(self).registry.name_entries() == spec_keep_entries(
                old(self).registry.name_entries(),
                failed@,
            ),
            final(self).history.log() == old(self).history.log(),
    {
        self.registry.prune(failed);
    }
}

// ---------------------------------------------------------------------------
// Laws of the engine
// ---------------------------------------------------------------------------

/// A session that registers when the history holds envelopes `e1..ek` is
/// replayed exactly those, in order; every envelope broadcast afterwards
/// only extends the history past them, so the replay is a stable prefix.
pub proof fn lemma_replay_prefix(log: Seq<ChatMessageView>, later: ChatMessageView)
    ensures
        log.is_prefix_of(log.push(later)),
        forall|i: int| 0 <= i < log.len() ==> log.push(later)[i] == log[i],
{
    assert(log.push(later).take(log.len() as int) =~= log);
}

/// A broadcast never delivers to its own sender: the fan-out list holds
/// exactly the registered identities other than the sender.
pub proof fn lemma_no_self_delivery(ids: Seq<u64>, sender: u64)
    ensures
        !spec_drop_id(ids, sender).contains(sender),
        forall|w: u64| spec_drop_id(ids, sender).contains(w) <==> ids.contains(w) && w != sender,
{
    lemma_drop_id_members(ids, sender);
    assert forall|w: u64| spec_drop_id(ids, sender).contains(w) <==> ids.contains(w) && w
        != sender by {
        if spec_drop_id(ids, sender).contains(w) {
            let k = choose|k: int|
                0 <= k < spec_drop_id(ids, sender).len() && spec_drop_id(ids, sender)[k] == w;
        }
    }
    if spec_drop_id(ids, sender).contains(sender) {
        let k = choose|k: int|
            0 <= k < spec_drop_id(ids, sender).len() && spec_drop_id(ids, sender)[k] == sender;
    }
}

/// After a session's teardown, no roster entry carries its identity; and if
/// no other session shares its display name, the name is gone from the
/// roster a later `/list` is built from.
pub proof fn lemma_leave_excludes_name(es: Seq<(u64, Seq<char>)>, id: u64, n: Seq<char>)
    requires
        forall|i: int| 0 <= i < es.len() && es[i].0 != id ==> es[i].1 != n,
    ensures
        forall|k: int|
            0 <= k < spec_drop_entry(es, id).len() ==> spec_drop_entry(es, id)[k].0 != id
                && spec_drop_entry(es, id)[k].1 != n,
{
    crate::registry::lemma_drop_entry_members(es, id);
    assert forall|k: int|
        0 <= k < spec_drop_entry(es, id).len() implies spec_drop_entry(es, id)[k].0 != id
        && spec_drop_entry(es, id)[k].1 != n by {
        let e = spec_drop_entry(es, id)[k];
        let a = choose|a: int| 0 <= a < es.len() && es[a] == e;
    }
}

/// After the pruning pass, every failed identity is out of the registry and
/// every other identity is untouched: a recipient's failure costs only that
/// recipient its place.
pub proof fn lemma_prune_members(ids: Seq<u64>, failed: Seq<u64>)
    ensures
        forall|w: u64|
            spec_keep_ids(ids, failed).contains(w) <==> ids.contains(w) && !failed.contains(w),
{
    lemma_keep_ids_members(ids, failed);
    assert forall|w: u64|
        spec_keep_ids(ids, failed).contains(w) <==> ids.contains(w) && !failed.contains(w) by {
        if spec_keep_ids(ids, failed).contains(w) {
            let k = choose|k: int|
                0 <= k < spec_keep_ids(ids, failed).len() && spec_keep_ids(ids, failed)[k] == w;
        }
    }
}

/// After the pruning pass, no roster entry carries a failed identity, and
/// every entry of an identity that did not fail is still on the roster.
pub proof fn lemma_prune_roster(es: Seq<(u64, Seq<char>)>, failed: Seq<u64>)
    ensures
        forall|k: int|
            0 <= k < spec_keep_entries(es, failed).len() ==> !failed.contains(
                spec_keep_entries(es, failed)[k].0,
            ),
        forall|e: (u64, Seq<char>)|
            es.contains(e) && !failed.contains(e.0) ==> spec_keep_entries(es, failed).contains(e),
{
    lemma_keep_entries_members(es, failed);
}

} // verus!
