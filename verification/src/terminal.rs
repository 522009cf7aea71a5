//! The pseudo-terminal session manager.
//!
//! A [`SessionManager`] is the single source of truth for which shell
//! sessions exist.  It assigns strictly increasing session ids, hands
//! caller input and resize requests to the session's channel, marks
//! sessions as closed on request, and removes a session exactly once,
//! on behalf of the session's reader loop.
//!
//! The manager performs no I/O itself: the channel a session owns is
//! any implementation of [`PtyChannel`], and the blocking reads of the
//! reader loop stay with the caller, who reports each read's outcome
//! through [`SessionManager::reader_step`].

use vstd::prelude::*;
use vstd::string::StringExecFns;

use crate::strutil::begins_with;
use crate::strutil::char_digit;
use crate::strutil::chars_value;
use crate::strutil::dec_chars;
use crate::strutil::digit_val;
use crate::strutil::lemma_chars_value_prefix;
use crate::strutil::lemma_dec_chars_value;
use crate::strutil::u64_to_string;

verus! {

/// The duplex endpoint of one session: where caller input is sent and
/// where geometry changes are applied.  Implementations live outside
/// the manager (a real pseudo-terminal, or a recording stub in tests);
/// nothing is assumed about what they do.
pub trait PtyChannel {
    /// Forward raw input bytes to the shell and flush them.
    fn send(&mut self, data: &[u8]) -> Result<(), String>;

    /// Apply a new terminal geometry.
    fn set_size(&mut self, rows: u16, cols: u16) -> Result<(), String>;
}

/// One live session: its id, its cooperative-shutdown flag, and its
/// channel.  The `closed` flag is advisory; resources are released only
/// when the reader loop observes it and finishes.
pub struct Session<P> {
    pub id: u64,
    pub closed: bool,
    pub channel: P,
}

/// Errors of the command surface.
#[derive(Debug)]
pub enum TerminalError {
    /// A step of session setup failed; nothing was registered.
    Setup(String),
    /// The id was never issued, or its session has been removed.
    SessionNotFound,
    /// The session exists but close was already requested for it.
    SessionClosed,
    /// The session's channel reported a write or resize failure.
    Io(String),
}

/// What the registry looks like from the outside: the next id to be
/// issued, and for each live session id whether close was requested.
pub struct RegistryView {
    pub next_id: u64,
    pub sessions: Map<u64, bool>,
}

/// A well-formed view: finitely many sessions, every live id below the
/// id counter.
pub open spec fn view_wf(v: RegistryView) -> bool {
    &&& v.sessions.dom().finite()
    &&& forall|id: u64| v.sessions.dom().contains(id) ==> id < v.next_id
}

/// How `write` or `resize` classifies an id against the registry.
pub enum LookupStatus {
    NotFound,
    Closed,
    Live,
}

/// The classification `write` and `resize` apply to an id: unknown ids
/// are rejected, closed sessions are rejected, live ones proceed.
pub open spec fn lookup_status(v: RegistryView, id: u64) -> LookupStatus {
    if !v.sessions.dom().contains(id) {
        LookupStatus::NotFound
    } else if v.sessions[id] {
        LookupStatus::Closed
    } else {
        LookupStatus::Live
    }
}

/// Registration: the issued id is the current counter value; the new
/// session starts out not closed.
pub open spec fn reg_register(v: RegistryView) -> (RegistryView, u64) {
    (
        RegistryView { next_id: (v.next_id + 1) as u64, sessions: v.sessions.insert(v.next_id, false) },
        v.next_id,
    )
}

/// Close: sets the flag of a present session; unknown ids change nothing.
pub open spec fn reg_close(v: RegistryView, id: u64) -> RegistryView {
    if v.sessions.dom().contains(id) {
        RegistryView { next_id: v.next_id, sessions: v.sessions.insert(id, true) }
    } else {
        v
    }
}

/// The textual form of a session id: a fixed prefix and the decimal
/// rendering of the numeric id.
pub open spec fn session_id_chars(n: u64) -> Seq<char> {
    "terminal-"@ + dec_chars(n as nat)
}

/// Render a numeric session id in its textual form.
pub fn session_id_string(n: u64) -> (r: String)
    ensures
        r@ == session_id_chars(n),
{
    let mut s = String::from_str("terminal-");
    let digits = u64_to_string(n);
    s.append(digits.as_str());
    s
}

/// Read a numeric session id back out of its textual form.  Whatever
/// else this accepts or rejects, it inverts the rendering: the text of
/// any issued id parses back to exactly that id.
pub fn parse_session_id(s: &str) -> (r: Option<u64>)
    ensures
        forall|n: u64| s@ == session_id_chars(n) ==> r == Some(n),
{
    let marker = "terminal-";
    let pl = marker.unicode_len();
    let sl = s.unicode_len();
    if !begins_with(s, marker) {
        proof {
            assert forall|n: u64| s@ != session_id_chars(n) by {
                let rendered = session_id_chars(n);
                assert(rendered.subrange(0, "terminal-"@.len() as int) =~= "terminal-"@);
            }
        }
        return None;
    }
    if sl == pl {
        proof {
            assert forall|n: u64| s@ != session_id_chars(n) by {
                lemma_dec_chars_value(n as nat);
                assert(dec_chars(n as nat).len() >= 1) by {
                    if dec_chars(n as nat).len() == 0 {
                        assert(chars_value(dec_chars(n as nat)) == 0);
                    }
                }
            }
        }
        return None;
    }
    proof {
        assert forall|n: u64| s@ == session_id_chars(n) implies s@.subrange(
            pl as int,
            sl as int,
        ) =~= dec_chars(n as nat) && chars_value(dec_chars(n as nat)) == n && (forall|j: int|
            pl <= j < sl ==> digit_val(#[trigger] s@[j]) < 10) by {
            lemma_dec_chars_value(n as nat);
            assert forall|j: int|
                pl <= j < sl implies digit_val(#[trigger] s@[j]) < 10 by {
                assert(s@[j] == dec_chars(n as nat)[j - pl]);
            }
        }
    }
    let mut acc: u64 = 0;
    let mut i = pl;
    while i < sl
        invariant
            pl <= i <= sl,
            pl == "terminal-"@.len(),
            sl == s@.len(),
            acc == chars_value(s@.subrange(pl as int, i as int)),
            forall|j: int| pl <= j < i ==> digit_val(#[trigger] s@[j]) < 10,
            forall|n: u64|
                s@ == session_id_chars(n) ==> s@.subrange(pl as int, sl as int) =~= dec_chars(
                    n as nat,
                ) && chars_value(dec_chars(n as nat)) == n && (forall|j: int|
                    pl <= j < sl ==> digit_val(#[trigger] s@[j]) < 10),
        decreases sl - i,
    {
        let ghost before = s@.subrange(pl as int, i as int);
        let ghost after = s@.subrange(pl as int, i as int + 1);
        proof {
            assert(after.drop_last() =~= before);
            assert(after.last() == s@[i as int]);
        }
        let c = s.get_char(i);
        let d = match char_digit(c) {
            Some(d) => d,
            None => {
                proof {
                    assert forall|n: u64| s@ != session_id_chars(n) by {
                        if s@ == session_id_chars(n) {
                            assert(digit_val(s@[i as int]) < 10);
                        }
                    }
                }
                return None;
            },
        };
        let widened = match acc.checked_mul(10) {
            Some(a) => a,
            None => {
                proof {
                    assert forall|n: u64| s@ != session_id_chars(n) by {
                        if s@ == session_id_chars(n) {
                            lemma_rendered_bound(
                                s@,
                                pl as int,
                                i as int,
                                sl as int,
                                acc,
                                d,
                                n,
                            );
                        }
                    }
                }
                return None;
            },
        };
        let summed = match widened.checked_add(d as u64) {
            Some(a) => a,
            None => {
                proof {
                    assert forall|n: u64| s@ != session_id_chars(n) by {
                        if s@ == session_id_chars(n) {
                            lemma_rendered_bound(
                                s@,
                                pl as int,
                                i as int,
                                sl as int,
                                acc,
                                d,
                                n,
                            );
                        }
                    }
                }
                return None;
            },
        };
        acc = summed;
        i = i + 1;
    }
    proof {
        assert forall|n: u64| s@ == session_id_chars(n) implies Some(acc) == Some::<u64>(
            n,
        ) by {
            assert(s@.subrange(pl as int, sl as int) =~= dec_chars(n as nat));
            assert(acc == chars_value(dec_chars(n as nat)));
        }
    }
    Some(acc)
}

/// When the input is the rendering of an id, the value accumulated
/// from any of its digit prefixes, extended by the next digit, stays
/// within the id's value — so parsing a rendered id can never overflow.
proof fn lemma_rendered_bound(s: Seq<char>, pl: int, i: int, sl: int, acc: u64, d: u8, n: u64)
    requires
        0 <= pl <= i < sl == s.len(),
        acc == chars_value(s.subrange(pl, i)),
        d == digit_val(s[i]),
        d < 10,
        s.subrange(pl, sl) =~= dec_chars(n as nat),
        chars_value(dec_chars(n as nat)) == n,
        forall|j: int| pl <= j < sl ==> digit_val(#[trigger] s[j]) < 10,
    ensures
        acc * 10 + d <= n,
{
    let digits = s.subrange(pl, sl);
    assert forall|j: int| 0 <= j < digits.len() implies digit_val(#[trigger] digits[j]) >= 0 by {
        assert(digits[j] == s[pl + j]);
    }
    lemma_chars_value_prefix(digits, i - pl + 1);
    let p = digits.subrange(0, i - pl);
    let q = digits.subrange(0, i - pl + 1);
    assert(q.drop_last() =~= p);
    assert(q.last() == s[i]);
    assert(p =~= s.subrange(pl, i));
    assert(chars_value(q) == acc * 10 + d);
    assert(chars_value(q) <= chars_value(digits));
}

/// What one blocking read of a session's output returned: end of
/// stream, a chunk of raw bytes, or a read failure.
pub enum ReadEvent {
    Eof,
    Data(Vec<u8>),
    Failure(String),
}

/// Abstract form of a read outcome.
pub enum ReadEventModel {
    Eof,
    Data(Seq<u8>),
    Failure(Seq<char>),
}

impl View for ReadEvent {
    type V = ReadEventModel;

    open spec fn view(&self) -> ReadEventModel {
        match self {
            ReadEvent::Eof => ReadEventModel::Eof,
            ReadEvent::Data(b) => ReadEventModel::Data(b@),
            ReadEvent::Failure(m) => ReadEventModel::Failure(m@),
        }
    }
}

/// A notification for the consumer of a session's event stream.  The
/// reader loop produces `Output`, `ReadFailed` and an end-of-stream
/// `Exited` with code 0; the exit watcher produces an `Exited` with the
/// child's real code.  Consumers may therefore see two `Exited` events
/// for one session and treat the watcher's as authoritative.
pub enum SessionEvent {
    Output { session: u64, data: String },
    ReadFailed { session: u64, message: String },
    Exited { session: u64, code: u32 },
}

/// Abstract form of a session event.
pub enum SessionEventModel {
    Output { session: u64, data: Seq<char> },
    ReadFailed { session: u64, message: Seq<char> },
    Exited { session: u64, code: u32 },
}

impl View for SessionEvent {
    type V = SessionEventModel;

    open spec fn view(&self) -> SessionEventModel {
        match self {
            SessionEvent::Output { session, data } => SessionEventModel::Output {
                session: *session,
                data: data@,
            },
            SessionEvent::ReadFailed { session, message } => SessionEventModel::ReadFailed {
                session: *session,
                message: message@,
            },
            SessionEvent::Exited { session, code } => SessionEventModel::Exited {
                session: *session,
                code: *code,
            },
        }
    }
}

/// The characters that decoding a byte chunk as UTF-8 with lossy
/// substitution yields.  The decoding is a fixed function of the bytes;
/// its full definition is the UTF-8 standard's and is not restated here.
pub uninterp spec fn lossy_utf8(bytes: Seq<u8>) -> Seq<char>;

/// Relies on `String::from_utf8_lossy`: decodes the bytes as UTF-8,
/// replacing invalid sequences; the result depends on the bytes alone.
#[verifier::external_body]
fn decode_utf8_lossy(bytes: &[u8]) -> (r: String)
    ensures
        r@ == lossy_utf8(bytes@),
{
    String::from_utf8_lossy(bytes).to_string()
}

/// Removal: the session is gone afterwards whether or not it existed.
pub open spec fn reg_remove(v: RegistryView, id: u64) -> RegistryView {
    RegistryView { next_id: v.next_id, sessions: v.sessions.remove(id) }
}

/// One iteration of a session's reader loop, as a function of the
/// registry and the read outcome: the registry afterwards, the events
/// to deliver, and whether the loop is finished.
///
/// End of stream yields one exit event with code 0; bytes yield one
/// output event with their lossy decoding; a failure yields one error
/// event.  After bytes the loop keeps running only while its session
/// is still present and not closed; any other outcome finishes the
/// loop, and a finished loop has removed its session.
pub open spec fn reg_reader_step(v: RegistryView, id: u64, ev: ReadEventModel) -> (
    RegistryView,
    Seq<SessionEventModel>,
    bool,
) {
    match ev {
        ReadEventModel::Eof => (
            reg_remove(v, id),
            seq![SessionEventModel::Exited { session: id, code: 0u32 }],
            true,
        ),
        ReadEventModel::Data(bytes) => {
            let events = seq![
                SessionEventModel::Output { session: id, data: lossy_utf8(bytes) },
            ];
            if v.sessions.dom().contains(id) && !v.sessions[id] {
                (v, events, false)
            } else {
                (reg_remove(v, id), events, true)
            }
        },
        ReadEventModel::Failure(message) => (
            reg_remove(v, id),
            seq![SessionEventModel::ReadFailed { session: id, message }],
            true,
        ),
    }
}

/// What one reader-loop iteration asks its caller to do.
pub struct StepOutcome {
    /// Events to deliver, in order.
    pub events: Vec<SessionEvent>,
    /// When set, the session has been removed and the loop must stop.
    pub finished: bool,
}

/// The exit watcher's report: the child's real exit code becomes an
/// exit event; a wait failure produces nothing observable.
pub fn exit_watch_event(id: u64, wait_outcome: Result<u32, String>) -> (r: Option<SessionEvent>)
    ensures
        wait_outcome matches Ok(code) ==> r == Some(
            SessionEvent::Exited { session: id, code },
        ),
        wait_outcome is Err ==> r is None,
{
    match wait_outcome {
        Ok(code) => Some(SessionEvent::Exited { session: id, code }),
        Err(_) => None,
    }
}

/// All slots but the one at `w` are untouched, and even that one kept
/// its id and flag: only its channel may have changed.
pub open spec fn only_channel_touched<P>(
    pre: Seq<Session<P>>,
    post: Seq<Session<P>>,
    w: int,
) -> bool {
    &&& post.len() == pre.len()
    &&& 0 <= w < pre.len()
    &&& forall|j: int| 0 <= j < pre.len() && j != w ==> post[j] == pre[j]
    &&& post[w].id == pre[w].id
    &&& post[w].closed == pre[w].closed
}

/// With distinct ids, a slot index holding a given id is the only one.
proof fn lemma_index_unique<P>(slots: Seq<Session<P>>, id: u64, i: int)
    requires
        slots.map_values(|s: Session<P>| s.id).no_duplicates(),
        0 <= i < slots.len(),
        slots[i].id == id,
    ensures
        forall|j: int| 0 <= j < slots.len() && (#[trigger] slots[j]).id == id ==> j == i,
{
    let ids = slots.map_values(|s: Session<P>| s.id);
    assert forall|j: int| 0 <= j < slots.len() && (#[trigger] slots[j]).id == id implies j
        == i by {
        if j != i {
            assert(ids[j] == id);
            assert(ids[i] == id);
        }
    }
}

/// The registry of live sessions.  All mutation of session state goes
/// through this object; the caller shares it across threads behind one
/// lock and keeps each call short.
pub struct SessionManager<P> {
    next_id: u64,
    slots: Vec<Session<P>>,
}

impl<P: PtyChannel> SessionManager<P> {
    /// The ids currently stored, in slot order.
    pub closed spec fn ids(self) -> Seq<u64> {
        self.slots@.map_values(|s: Session<P>| s.id)
    }

    /// Some slot holds this id.
    pub closed spec fn has_id(self, id: u64) -> bool {
        exists|i: int| 0 <= i < self.slots@.len() && self.slots@[i].id == id
    }

    /// The slot index holding this id (meaningful only when `has_id`).
    pub closed spec fn index_of(self, id: u64) -> int {
        choose|i: int| 0 <= i < self.slots@.len() && self.slots@[i].id == id
    }

    /// Whether the session with this id is marked closed.
    pub closed spec fn closed_of(self, id: u64) -> bool {
        self.slots@[self.index_of(id)].closed
    }

    /// Internal invariant: ids are distinct and below the counter.
    pub closed spec fn wf(self) -> bool {
        &&& self.ids().no_duplicates()
        &&& forall|i: int|
            0 <= i < self.slots@.len() ==> (#[trigger] self.slots@[i]).id < self.next_id
    }

    /// The sequence of stored slots; lets contracts state that sessions
    /// other than the addressed one are untouched.
    pub closed spec fn slots_view(self) -> Seq<Session<P>> {
        self.slots@
    }

    /// The id counter.
    pub closed spec fn counter(self) -> u64 {
        self.next_id
    }

    /// Two managers whose slots agree on length, ids and flags have the
    /// same abstract sessions map.
    proof fn lemma_same_view(self, other: Self)
        requires
            self.slots@.len() == other.slots@.len(),
            forall|j: int|
                0 <= j < self.slots@.len() ==> (#[trigger] self.slots@[j]).id
                    == other.slots@[j].id,
            forall|j: int|
                0 <= j < self.slots@.len() ==> (#[trigger] self.slots@[j]).closed
                    == other.slots@[j].closed,
            self.ids().no_duplicates(),
        ensures
            self@.sessions =~= other@.sessions,
            other.ids().no_duplicates(),
    {
        assert(self.ids() =~= other.ids());
        assert forall|q: u64| #[trigger] self.has_id(q) <==> other.has_id(q) by {
            if self.has_id(q) {
                let k = self.index_of(q);
                assert(other.slots@[k].id == q);
            }
            if other.has_id(q) {
                let k = other.index_of(q);
                assert(self.slots@[k].id == q);
            }
        }
        assert forall|q: u64| self.has_id(q) implies #[trigger] self.closed_of(q)
            == other.closed_of(q) by {
            let k = self.index_of(q);
            lemma_index_unique(self.slots@, q, k);
            assert(other.slots@[k].id == q);
            lemma_index_unique(other.slots@, q, k);
            assert(other.index_of(q) == k);
        }
    }

    proof fn lemma_ids_index(self)
        ensures
            self.ids().len() == self.slots@.len(),
            forall|i: int|
                0 <= i < self.slots@.len() ==> self.ids()[i] == (#[trigger] self.slots@[i]).id,
    {
    }

    /// The set of live ids is exactly the ids sequence as a set, so a
    /// well-formed manager has as many live ids as slots.
    proof fn lemma_dom_card(self)
        requires
            self.wf(),
        ensures
            self@.sessions.dom() =~= self.ids().to_set(),
            self@.sessions.dom().finite(),
            self@.sessions.dom().len() == self.slots@.len(),
    {
        self.lemma_ids_index();
        assert forall|id: u64| self.ids().to_set().contains(id) implies self@.sessions.dom().contains(
            id,
        ) by {
            let i = choose|i: int| 0 <= i < self.ids().len() && self.ids()[i] == id;
            assert(self.slots@[i].id == id);
        }
        assert forall|id: u64| self@.sessions.dom().contains(id) implies self.ids().to_set().contains(
            id,
        ) by {
            let i = choose|i: int| 0 <= i < self.slots@.len() && self.slots@[i].id == id;
            assert(self.ids()[i] == id);
        }
        self.ids().unique_seq_to_set();
    }

    /// A fresh manager: no sessions, the first id to be issued is 1.
    pub fn new() -> (r: Self)
        ensures
            r.wf(),
            r@.next_id == 1,
            r@.sessions =~= Map::<u64, bool>::empty(),
            r.slots_view().len() == 0,
    {
        let r = SessionManager { next_id: 1u64, slots: Vec::new() };
        proof {
            assert forall|id: u64| !r@.sessions.dom().contains(id) by {
                if r.has_id(id) {
                    let i = r.index_of(id);
                }
            }
        }
        r
    }

    /// Draw a fresh session id, in textual form, without registering
    /// anything.  Ids drawn here and by `register` come from the same
    /// counter, so they never collide.
    pub fn generate_session_id(&mut self) -> (r: String)
        requires
            old(self).wf(),
            old(self).counter() < u64::MAX,
        ensures
            final(self).wf(),
            final(self).counter() == old(self).counter() + 1,
            final(self).slots_view() == old(self).slots_view(),
            final(self)@.sessions == old(self)@.sessions,
            r@ == session_id_chars(old(self).counter()),
    {
        let id = self.next_id;
        self.next_id = self.next_id + 1;
        proof {
            assert(self.ids() =~= old(self).ids());
            assert(self@.sessions =~= old(self)@.sessions);
        }
        session_id_string(id)
    }

    /// Finish a spawn: register the channel a successful setup yielded,
    /// or pass the setup failure through.  A failed setup registers
    /// nothing — the registry is exactly as it was.
    pub fn complete_spawn(&mut self, setup: Result<P, String>) -> (r: Result<
        u64,
        TerminalError,
    >)
        requires
            old(self).wf(),
            old(self).counter() < u64::MAX,
        ensures
            final(self).wf(),
            setup matches Err(m) ==> *final(self) == *old(self) && r == Err::<
                u64,
                TerminalError,
            >(TerminalError::Setup(m)),
            setup matches Ok(channel) ==> (r matches Ok(id) && id == old(self).counter() && (
            final(self)@,
            id,
            ) == reg_register(old(self)@) && final(self).slots_view() == old(
                self,
            ).slots_view().push((Session { id, closed: false, channel }))),
    {
        match setup {
            Ok(channel) => Ok(self.register(channel)),
            Err(m) => Err(TerminalError::Setup(m)),
        }
    }

    /// Register a new session around the given channel and issue its
    /// id.  Id assignment and insertion are one step: no two sessions
    /// ever share an id, and ids are never reused.
    pub fn register(&mut self, channel: P) -> (id: u64)
        requires
            old(self).wf(),
            old(self).counter() < u64::MAX,
        ensures
            final(self).wf(),
            (final(self)@, id) == reg_register(old(self)@),
            id == old(self).counter(),
            !old(self)@.sessions.dom().contains(id),
            final(self).slots_view() == old(self).slots_view().push(
                (Session { id, closed: false, channel }),
            ),
    {
        let id = self.next_id;
        self.next_id = self.next_id + 1;
        self.slots.push(Session { id, closed: false, channel });
        proof {
            let pre = old(self);
            let last = pre.slots@.len() as int;
            assert(self.ids() =~= pre.ids().push(id));
            assert forall|j: int| 0 <= j < pre.ids().len() implies #[trigger] pre.ids()[j]
                != id by {
                assert(pre.slots@[j].id < pre.next_id);
            }
            assert forall|a: int, b: int|
                0 <= a < self.ids().len() && 0 <= b < self.ids().len() && a != b implies self.ids()[a]
                != self.ids()[b] by {
                if a < last && b < last {
                    assert(pre.ids()[a] == self.ids()[a]);
                    assert(pre.ids()[b] == self.ids()[b]);
                }
            }
            assert(self.ids().no_duplicates());
            assert(self.wf());
            if pre.has_id(id) {
                let k = pre.index_of(id);
                assert(pre.ids()[k] == id);
            }
            assert(!pre.has_id(id));
            assert(!pre@.sessions.dom().contains(id));
            assert forall|q: u64| #[trigger] self.has_id(q) <==> (pre.has_id(q) || q
                == id) by {
                if pre.has_id(q) {
                    let k = pre.index_of(q);
                    assert(self.slots@[k].id == q);
                }
                if q == id {
                    assert(self.slots@[last].id == id);
                }
                if self.has_id(q) && q != id {
                    let k = self.index_of(q);
                    assert(self.slots@[k].id == q);
                    assert(k != last);
                    assert(pre.slots@[k].id == q);
                }
            }
            assert forall|q: u64| pre.has_id(q) implies #[trigger] self.closed_of(q)
                == pre.closed_of(q) by {
                let k = pre.index_of(q);
                lemma_index_unique(pre.slots@, q, k);
                assert(self.slots@[k].id == q);
                lemma_index_unique(self.slots@, q, k);
                assert(self.index_of(q) == k);
            }
            assert(self.closed_of(id) == false) by {
                assert(self.slots@[last].id == id);
                lemma_index_unique(self.slots@, id, last);
                assert(self.index_of(id) == last);
            }
            assert(self@.sessions =~= pre@.sessions.insert(id, false));
        }
        id
    }

    /// Forward caller input to the session's channel.  Rejected without
    /// touching any session when the id is unknown or the session is
    /// closed; otherwise only the addressed session's channel is used,
    /// and a channel failure is reported as `Io`.
    pub fn write(&mut self, id: u64, data: &[u8]) -> (r: Result<(), TerminalError>)
        requires
            old(self).wf(),
        ensures
            final(self).wf(),
            final(self)@ == old(self)@,
            match lookup_status(old(self)@, id) {
                LookupStatus::NotFound => r == Err::<(), TerminalError>(
                    TerminalError::SessionNotFound,
                ) && final(self).slots_view() == old(self).slots_view(),
                LookupStatus::Closed => r == Err::<(), TerminalError>(
                    TerminalError::SessionClosed,
                ) && final(self).slots_view() == old(self).slots_view(),
                LookupStatus::Live => (r is Ok || (r matches Err(e) && e is Io))
                    && only_channel_touched(
                    old(self).slots_view(),
                    final(self).slots_view(),
                    old(self).index_of(id),
                ),
            },
    {
        let n = self.slots.len();
        let mut i: usize = 0;
        while i < n
            invariant
                *self == *old(self),
                self.wf(),
                n == self.slots@.len(),
                0 <= i <= n,
                forall|j: int| 0 <= j < i ==> (#[trigger] self.slots@[j]).id != id,
            decreases n - i,
        {
            if self.slots[i].id == id {
                let w = i;
                proof {
                    lemma_index_unique(self.slots@, id, w as int);
                    assert(self.has_id(id));
                    assert(self.index_of(id) == w as int);
                    assert(old(self)@.sessions.dom().contains(id));
                }
                if self.slots[w].closed {
                    return Err(TerminalError::SessionClosed);
                }
                let slot = &mut self.slots[w];
                let res = slot.channel.send(data);
                proof {
                    let pre = old(self);
                    assert(self.slots@ =~= pre.slots@.update(
                        w as int,
                        (Session {
                            id,
                            closed: false,
                            channel: self.slots@[w as int].channel,
                        }),
                    ));
                    assert(self.ids() =~= pre.ids());
                    assert(self.wf());
                    pre.lemma_same_view(*self);
                    assert(self@.sessions == pre@.sessions);
                    assert(self@ == pre@);
                }
                return match res {
                    Ok(_) => Ok(()),
                    Err(m) => Err(TerminalError::Io(m)),
                };
            }
            i = i + 1;
        }
        proof {
            let pre = old(self);
            if pre.has_id(id) {
                let k = pre.index_of(id);
                assert(pre.slots@[k].id == id);
            }
            assert(!pre.has_id(id));
            assert(!pre@.sessions.dom().contains(id));
        }
        Err(TerminalError::SessionNotFound)
    }

    /// Apply a new geometry to the session's channel.  Same lookup and
    /// error rules as `write`.
    pub fn resize(&mut self, id: u64, rows: u16, cols: u16) -> (r: Result<(), TerminalError>)
        requires
            old(self).wf(),
        ensures
            final(self).wf(),
            final(self)@ == old(self)@,
            match lookup_status(old(self)@, id) {
                LookupStatus::NotFound => r == Err::<(), TerminalError>(
                    TerminalError::SessionNotFound,
                ) && final(self).slots_view() == old(self).slots_view(),
                LookupStatus::Closed => r == Err::<(), TerminalError>(
                    TerminalError::SessionClosed,
                ) && final(self).slots_view() == old(self).slots_view(),
                LookupStatus::Live => (r is Ok || (r matches Err(e) && e is Io))
                    && only_channel_touched(
                    old(self).slots_view(),
                    final(self).slots_view(),
                    old(self).index_of(id),
                ),
            },
    {
        let n = self.slots.len();
        let mut i: usize = 0;
        while i < n
            invariant
                *self == *old(self),
                self.wf(),
                n == self.slots@.len(),
                0 <= i <= n,
                forall|j: int| 0 <= j < i ==> (#[trigger] self.slots@[j]).id != id,
            decreases n - i,
        {
            if self.slots[i].id == id {
                let w = i;
                proof {
                    lemma_index_unique(self.slots@, id, w as int);
                    assert(self.has_id(id));
                    assert(self.index_of(id) == w as int);
                    assert(old(self)@.sessions.dom().contains(id));
                }
                if self.slots[w].closed {
                    return Err(TerminalError::SessionClosed);
                }
                let slot = &mut self.slots[w];
                let res = slot.channel.set_size(rows, cols);
                proof {
                    let pre = old(self);
                    assert(self.slots@ =~= pre.slots@.update(
                        w as int,
                        (Session {
                            id,
                            closed: false,
                            channel: self.slots@[w as int].channel,
                        }),
                    ));
                    assert(self.ids() =~= pre.ids());
                    assert(self.wf());
                    pre.lemma_same_view(*self);
                    assert(self@.sessions == pre@.sessions);
                    assert(self@ == pre@);
                }
                return match res {
                    Ok(_) => Ok(()),
                    Err(m) => Err(TerminalError::Io(m)),
                };
            }
            i = i + 1;
        }
        proof {
            let pre = old(self);
            if pre.has_id(id) {
                let k = pre.index_of(id);
                assert(pre.slots@[k].id == id);
            }
            assert(!pre.has_id(id));
            assert(!pre@.sessions.dom().contains(id));
        }
        Err(TerminalError::SessionNotFound)
    }

    /// Request cooperative shutdown.  Succeeds for every id, known or
    /// not: the flag is set when the session exists, and nothing else
    /// changes.  Resources are released later, by the reader loop.
    pub fn close(&mut self, id: u64) -> (r: Result<(), TerminalError>)
        requires
            old(self).wf(),
        ensures
            final(self).wf(),
            r is Ok,
            final(self)@ == reg_close(old(self)@, id),
            final(self).counter() == old(self).counter(),
            !old(self).has_id(id) ==> final(self).slots_view() == old(self).slots_view(),
            old(self).has_id(id) ==> {
                let i = old(self).index_of(id);
                final(self).slots_view() =~= old(self).slots_view().update(
                    i,
                    (Session { id, closed: true, channel: old(self).slots_view()[i].channel }),
                )
            },
    {
        let n = self.slots.len();
        let mut i: usize = 0;
        while i < n
            invariant
                *self == *old(self),
                self.wf(),
                n == self.slots@.len(),
                0 <= i <= n,
                forall|j: int| 0 <= j < i ==> (#[trigger] self.slots@[j]).id != id,
            decreases n - i,
        {
            if self.slots[i].id == id {
                let slot = &mut self.slots[i];
                slot.closed = true;
                proof {
                    let pre = old(self);
                    let w = i as int;
                    assert(self.slots@ =~= pre.slots@.update(
                        w,
                        (Session { id, closed: true, channel: pre.slots@[w].channel }),
                    ));
                    assert(self.ids() =~= pre.ids());
                    assert(pre.slots@[w].id == id);
                    assert(pre.has_id(id));
                    lemma_index_unique(pre.slots@, id, w);
                    assert(pre.index_of(id) == w);
                    assert forall|q: u64| #[trigger] self.has_id(q) <==> pre.has_id(q) by {
                        if pre.has_id(q) {
                            let k = pre.index_of(q);
                            assert(self.slots@[k].id == q);
                        }
                        if self.has_id(q) {
                            let k = self.index_of(q);
                            assert(pre.slots@[k].id == q);
                        }
                    }
                    assert forall|q: u64|
                        pre.has_id(q) && q != id implies #[trigger] self.closed_of(q)
                        == pre.closed_of(q) by {
                        let k = pre.index_of(q);
                        lemma_index_unique(pre.slots@, q, k);
                        assert(self.slots@[k].id == q);
                        lemma_index_unique(self.slots@, q, k);
                        assert(self.index_of(q) == k);
                        assert(k != w);
                    }
                    assert(self.closed_of(id) == true) by {
                        lemma_index_unique(self.slots@, id, w);
                        assert(self.index_of(id) == w);
                    }
                    assert(self@.sessions =~= reg_close(pre@, id).sessions);
                }
                return Ok(());
            }
            i = i + 1;
        }
        proof {
            let pre = old(self);
            if pre.has_id(id) {
                let k = pre.index_of(id);
                assert(pre.slots@[k].id == id);
            }
            assert(!pre.has_id(id));
            assert(!pre@.sessions.dom().contains(id));
            assert(self@.sessions =~= reg_close(pre@, id).sessions);
        }
        Ok(())
    }

    /// Whether the id is present and not yet closed: the state in which
    /// a reader loop keeps running after a successful read.
    pub fn is_live(&self, id: u64) -> (r: bool)
        requires
            self.wf(),
        ensures
            r == (self.has_id(id) && !self.closed_of(id)),
            r == (lookup_status(self@, id) is Live),
    {
        let n = self.slots.len();
        let mut i: usize = 0;
        while i < n
            invariant
                self.wf(),
                n == self.slots@.len(),
                0 <= i <= n,
                forall|j: int| 0 <= j < i ==> (#[trigger] self.slots@[j]).id != id,
            decreases n - i,
        {
            if self.slots[i].id == id {
                proof {
                    lemma_index_unique(self.slots@, id, i as int);
                    assert(self.index_of(id) == i as int);
                }
                return !self.slots[i].closed;
            }
            i = i + 1;
        }
        proof {
            if self.has_id(id) {
                let k = self.index_of(id);
                assert(self.slots@[k].id == id);
            }
        }
        false
    }

    /// Remove the session, present or not; afterwards the id is gone.
    /// Reports whether an entry was in fact removed.
    fn remove_session(&mut self, id: u64) -> (removed: bool)
        requires
            old(self).wf(),
        ensures
            final(self).wf(),
            final(self).counter() == old(self).counter(),
            removed == old(self).has_id(id),
            final(self)@ == reg_remove(old(self)@, id),
            !final(self).has_id(id),
            removed ==> final(self).slots_view() == old(self).slots_view().remove(
                old(self).index_of(id),
            ),
            !removed ==> final(self).slots_view() == old(self).slots_view(),
    {
        let n = self.slots.len();
        let mut i: usize = 0;
        while i < n
            invariant
                *self == *old(self),
                self.wf(),
                n == self.slots@.len(),
                0 <= i <= n,
                forall|j: int| 0 <= j < i ==> (#[trigger] self.slots@[j]).id != id,
            decreases n - i,
        {
            if self.slots[i].id == id {
                proof {
                    lemma_index_unique(self.slots@, id, i as int);
                    assert(self.index_of(id) == i as int);
                }
                let _ = self.slots.remove(i);
                proof {
                    let pre = old(self);
                    let k = i as int;
                    pre.slots@.remove_ensures(k);
                    assert forall|j: int| 0 <= j < self.slots@.len() implies (#[trigger] self.slots@[j]
                        == if j < k {
                            pre.slots@[j]
                        } else {
                            pre.slots@[j + 1]
                        }) by {}
                    lemma_index_unique(pre.slots@, id, k);
                    assert forall|a: int, b: int|
                        0 <= a < self.ids().len() && 0 <= b < self.ids().len() && a
                            != b implies self.ids()[a] != self.ids()[b] by {
                        let pa: int = if a < k {
                            a
                        } else {
                            a + 1
                        };
                        let pb: int = if b < k {
                            b
                        } else {
                            b + 1
                        };
                        assert(self.ids()[a] == pre.ids()[pa]);
                        assert(self.ids()[b] == pre.ids()[pb]);
                    }
                    assert(self.ids().no_duplicates());
                    assert(self.wf());
                    assert forall|j: int|
                        0 <= j < self.slots@.len() implies (#[trigger] self.slots@[j]).id
                        != id by {
                        let pj: int = if j < k {
                            j
                        } else {
                            j + 1
                        };
                        assert(self.slots@[j] == pre.slots@[pj]);
                    }
                    if self.has_id(id) {
                        let j = self.index_of(id);
                        assert(self.slots@[j].id == id);
                    }
                    assert(!self.has_id(id));
                    assert forall|q: u64|
                        q != id implies (#[trigger] self.has_id(q) <==> pre.has_id(q)) by {
                        if pre.has_id(q) {
                            let pj = pre.index_of(q);
                            assert(pre.slots@[pj].id == q);
                            assert(pj != k);
                            let j: int = if pj < k {
                                pj
                            } else {
                                pj - 1
                            };
                            assert(self.slots@[j].id == q);
                        }
                        if self.has_id(q) {
                            let j = self.index_of(q);
                            let pj: int = if j < k {
                                j
                            } else {
                                j + 1
                            };
                            assert(pre.slots@[pj].id == q);
                        }
                    }
                    assert forall|q: u64|
                        q != id && pre.has_id(q) implies #[trigger] self.closed_of(q)
                        == pre.closed_of(q) by {
                        let pj = pre.index_of(q);
                        lemma_index_unique(pre.slots@, q, pj);
                        assert(pj != k);
                        let j: int = if pj < k {
                            pj
                        } else {
                            pj - 1
                        };
                        assert(self.slots@[j].id == q);
                        lemma_index_unique(self.slots@, q, j);
                        assert(self.index_of(q) == j);
                        assert(self.slots@[j] == pre.slots@[pj]);
                    }
                    assert(self@.sessions =~= pre@.sessions.remove(id));
                }
                return true;
            }
            i = i + 1;
        }
        proof {
            let pre = old(self);
            if pre.has_id(id) {
                let k = pre.index_of(id);
                assert(pre.slots@[k].id == id);
            }
            assert(!pre.has_id(id));
            assert(self@.sessions =~= pre@.sessions.remove(id));
        }
        false
    }

    /// One iteration of this session's reader loop: takes the outcome
    /// of the blocking read, returns the events to deliver and whether
    /// the loop is finished.  A finished iteration has removed the
    /// session from the registry — the sole mechanism of session
    /// destruction, performed exactly once per session because the
    /// caller stops the loop when `finished` is set.
    pub fn reader_step(&mut self, id: u64, ev: ReadEvent) -> (r: StepOutcome)
        requires
            old(self).wf(),
        ensures
            final(self).wf(),
            final(self).counter() == old(self).counter(),
            final(self)@ == reg_reader_step(old(self)@, id, ev@).0,
            r.events@.map_values(|e: SessionEvent| e@) =~= reg_reader_step(
                old(self)@,
                id,
                ev@,
            ).1,
            r.finished == reg_reader_step(old(self)@, id, ev@).2,
            !r.finished ==> final(self).slots_view() == old(self).slots_view(),
            r.finished ==> !final(self).has_id(id),
            r.finished && old(self).has_id(id) ==> final(self).slots_view() == old(
                self,
            ).slots_view().remove(old(self).index_of(id)) && final(self).slots_view().len()
                == old(self).slots_view().len() - 1,
            r.finished && !old(self).has_id(id) ==> final(self).slots_view() == old(
                self,
            ).slots_view(),
    {
        let mut events: Vec<SessionEvent> = Vec::new();
        let finished: bool;
        match ev {
            ReadEvent::Eof => {
                events.push(SessionEvent::Exited { session: id, code: 0 });
                finished = true;
            },
            ReadEvent::Data(bytes) => {
                let text = decode_utf8_lossy(bytes.as_slice());
                events.push(SessionEvent::Output { session: id, data: text });
                finished = !self.is_live(id);
            },
            ReadEvent::Failure(message) => {
                events.push(SessionEvent::ReadFailed { session: id, message });
                finished = true;
            },
        }
        if finished {
            let _ = self.remove_session(id);
        }
        StepOutcome { events, finished }
    }

    /// The number of live sessions: exactly the sessions whose reader
    /// loop has not yet completed removal.
    pub fn count(&self) -> (r: usize)
        requires
            self.wf(),
        ensures
            r == self@.sessions.dom().len(),
            r == self.slots_view().len(),
    {
        proof {
            self.lemma_dom_card();
        }
        self.slots.len()
    }
}

impl<P: PtyChannel> View for SessionManager<P> {
    type V = RegistryView;

    /// The abstract registry: which ids are live and which of those are
    /// marked closed, together with the id counter.
    closed spec fn view(&self) -> RegistryView {
        RegistryView {
            next_id: self.next_id,
            sessions: Map::new(|id: u64| self.has_id(id), |id: u64| self.closed_of(id)),
        }
    }
}

} // verus!
