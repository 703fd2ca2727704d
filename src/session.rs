//! One connection's echo loop as a state machine.
//!
//! The session asks for a read, is told what the read gave, asks for those
//! very bytes to be written back, is told whether the write went through, and
//! so on until the peer closes its side or an I/O operation fails.

use vstd::prelude::*;

verus! {

/// Why a session ended.
#[derive(Clone, Copy, Debug, PartialEq, Eq, Structural)]
pub enum CloseReason {
    /// The peer shut down its side in order (a read returned no bytes).
    PeerClosed,
    /// A read failed.
    ReadFailed,
    /// A write failed, or did not take all the bytes.
    WriteFailed,
}

/// Where a session stands.
#[derive(Clone, Copy, Debug, PartialEq, Eq, Structural)]
pub enum Phase {
    /// Waiting for the next read.
    Reading,
    /// Waiting for the write of the pending bytes.
    Writing,
    /// Done; the connection is to be released.
    Closed(CloseReason),
}

/// What the driver of a session reports.
#[derive(Clone, Debug, PartialEq, Eq)]
pub enum Event {
    /// A read succeeded with these bytes; no bytes means end of stream.
    Read(Vec<u8>),
    /// A read failed.
    ReadFailed,
    /// The requested write went through, every byte of it.
    Written,
    /// The requested write failed.
    WriteFailed,
}

/// What a session asks its driver to do next.
#[derive(Clone, Debug, PartialEq, Eq)]
pub enum Action {
    /// Read the next chunk from the connection.
    Read,
    /// Write all of these bytes to the connection.
    Write(Vec<u8>),
    /// Stop and release the connection.
    Close(CloseReason),
}

/// The abstract content of an `Event`.
pub enum EventView {
    Read(Seq<u8>),
    ReadFailed,
    Written,
    WriteFailed,
}

/// The abstract content of an `Action`.
pub enum ActionView {
    Read,
    Write(Seq<u8>),
    Close(CloseReason),
}

impl View for Event {
    type V = EventView;

    open spec fn view(&self) -> EventView {
        match self {
            Event::Read(b) => EventView::Read(b@),
            Event::ReadFailed => EventView::ReadFailed,
            Event::Written => EventView::Written,
            Event::WriteFailed => EventView::WriteFailed,
        }
    }
}

impl View for Action {
    type V = ActionView;

    open spec fn view(&self) -> ActionView {
        match self {
            Action::Read => ActionView::Read,
            Action::Write(b) => ActionView::Write(b@),
            Action::Close(r) => ActionView::Close(*r),
        }
    }
}

/// The abstract state of a session.
pub struct SessionView {
    pub phase: Phase,
    /// Bytes read and not yet written back.
    pub pending: Seq<u8>,
    /// Every byte read so far, in order.
    pub received: Seq<u8>,
    /// Every byte written back so far, in order.
    pub echoed: Seq<u8>,
}

impl SessionView {
    /// The state of a fresh session: nothing read, nothing written.
    pub open spec fn initial() -> SessionView {
        SessionView { phase: Phase::Reading, pending: Seq::empty(), received: Seq::empty(), echoed: Seq::empty() }
    }

    /// What the session has read is what it has written back followed by
    /// what it still holds; it holds bytes exactly while a write is asked
    /// for, or after that write failed.
    pub open spec fn wf(self) -> bool {
        &&& self.received == self.echoed + self.pending
        &&& match self.phase {
            Phase::Reading => self.pending.len() == 0,
            Phase::Writing => self.pending.len() > 0,
            Phase::Closed(CloseReason::WriteFailed) => self.pending.len() > 0,
            Phase::Closed(_) => self.pending.len() == 0,
        }
    }

    /// The connection is still being served.
    pub open spec fn is_open(self) -> bool {
        !(self.phase is Closed)
    }

    /// What a session in this state asks for: a read while reading, the
    /// write of the pending bytes while writing, and the close once closed.
    pub open spec fn request(self) -> ActionView {
        match self.phase {
            Phase::Reading => ActionView::Read,
            Phase::Writing => ActionView::Write(self.pending),
            Phase::Closed(r) => ActionView::Close(r),
        }
    }

    /// The state after an event.
    ///
    /// A read of some bytes makes them pending and asks for their write; a
    /// read of no bytes is the peer's orderly close; a write that went
    /// through counts the pending bytes as echoed and asks for the next
    /// read; a failed read or write closes the session. An event that does
    /// not answer the current request (a write report while reading, or
    /// anything once closed) leaves the state as it is.
    pub open spec fn next(self, ev: EventView) -> SessionView {
        match (self.phase, ev) {
            (Phase::Reading, EventView::Read(b)) => if b.len() == 0 {
                SessionView { phase: Phase::Closed(CloseReason::PeerClosed), ..self }
            } else {
                SessionView { phase: Phase::Writing, pending: b, received: self.received + b, ..self }
            },
            (Phase::Reading, EventView::ReadFailed) => SessionView {
                phase: Phase::Closed(CloseReason::ReadFailed),
                ..self
            },
            (Phase::Writing, EventView::Written) => SessionView {
                phase: Phase::Reading,
                pending: Seq::empty(),
                echoed: self.echoed + self.pending,
                ..self
            },
            (Phase::Writing, EventView::WriteFailed) => SessionView {
                phase: Phase::Closed(CloseReason::WriteFailed),
                ..self
            },
            _ => self,
        }
    }
}

/// One connection's echo loop.
pub struct Session {
    phase: Phase,
    pending: Vec<u8>,
    received: Ghost<Seq<u8>>,
    echoed: Ghost<Seq<u8>>,
}

impl View for Session {
    type V = SessionView;

    closed spec fn view(&self) -> SessionView {
        SessionView { phase: self.phase, pending: self.pending@, received: self.received@, echoed: self.echoed@ }
    }
}

impl Session {
    #[verifier::type_invariant]
    spec fn inv(self) -> bool {
        self@.wf()
    }

    /// A session for a connection that was just accepted.
    pub fn new() -> (s: Session)
        ensures
            s@ == SessionView::initial(),
            s@.wf(),
    {
        Session { phase: Phase::Reading, pending: Vec::new(), received: Ghost(Seq::empty()), echoed: Ghost(Seq::empty()) }
    }

    /// Whether the connection is still being served.
    pub fn is_open(&self) -> (r: bool)
        ensures
            r == self@.is_open(),
    {
        !matches!(self.phase, Phase::Closed(_))
    }

    /// Why the session ended, once it has.
    pub fn close_reason(&self) -> (r: Option<CloseReason>)
        ensures
            r == (match self@.phase {
                Phase::Closed(c) => Some(c),
                _ => None,
            }),
    {
        match self.phase {
            Phase::Closed(c) => Some(c),
            _ => None,
        }
    }

    /// What the session asks its driver to do now.
    pub fn request(&self) -> (r: Action)
        ensures
            r@ == self@.request(),
    {
        match self.phase {
            Phase::Reading => Action::Read,
            Phase::Writing => {
                let bytes = self.pending.clone();
                assert(bytes@ =~= self.pending@);
                Action::Write(bytes)
            },
            Phase::Closed(c) => Action::Close(c),
        }
    }

    /// Takes in what the driver observed and returns what to do next.
    pub fn step(&mut self, ev: Event) -> (r: Action)
        ensures
            final(self)@ == old(self)@.next(ev@),
            final(self)@.wf(),
            r@ == final(self)@.request(),
    {
        proof {
            use_type_invariant(&*self);
        }
        match (self.phase, ev) {
            (Phase::Reading, Event::Read(bytes)) => {
                if bytes.len() == 0 {
                    self.phase = Phase::Closed(CloseReason::PeerClosed);
                } else {
                    let received = Ghost(self.received@ + bytes@);
                    *self = Session { phase: Phase::Writing, pending: bytes, received, echoed: self.echoed };
                }
            },
            (Phase::Reading, Event::ReadFailed) => {
                self.phase = Phase::Closed(CloseReason::ReadFailed);
            },
            (Phase::Writing, Event::Written) => {
                let echoed = Ghost(self.echoed@ + self.pending@);
                *self = Session { phase: Phase::Reading, pending: Vec::new(), received: self.received, echoed };
            },
            (Phase::Writing, Event::WriteFailed) => {
                self.phase = Phase::Closed(CloseReason::WriteFailed);
            },
            _ => {},
        }
        self.request()
    }
}

/// The state after a series of events, taken in order.
pub open spec fn run(s: SessionView, evs: Seq<EventView>) -> SessionView
    decreases evs.len(),
{
    if evs.len() == 0 {
        s
    } else {
        run(s.next(evs[0]), evs.drop_first())
    }
}

/// The actions with which a session answers a series of events, in order.
pub open spec fn answers(s: SessionView, evs: Seq<EventView>) -> Seq<ActionView>
    decreases evs.len(),
{
    if evs.len() == 0 {
        Seq::empty()
    } else {
        seq![s.next(evs[0]).request()] + answers(s.next(evs[0]), evs.drop_first())
    }
}

/// The byte strings that a series of actions asks to write, in order.
pub open spec fn writes(acts: Seq<ActionView>) -> Seq<Seq<u8>>
    decreases acts.len(),
{
    if acts.len() == 0 {
        Seq::empty()
    } else {
        match acts[0] {
            ActionView::Write(b) => seq![b] + writes(acts.drop_first()),
            _ => writes(acts.drop_first()),
        }
    }
}

/// The events of a connection on which each chunk is read and then written
/// back successfully, one after the other.
pub open spec fn echo_script(chunks: Seq<Seq<u8>>) -> Seq<EventView>
    decreases chunks.len(),
{
    if chunks.len() == 0 {
        Seq::empty()
    } else {
        seq![EventView::Read(chunks[0]), EventView::Written] + echo_script(chunks.drop_first())
    }
}

/// No chunk is empty (an empty read is the end of the stream).
pub open spec fn all_nonempty(chunks: Seq<Seq<u8>>) -> bool {
    forall|i: int| 0 <= i < chunks.len() ==> (#[trigger] chunks[i]).len() > 0
}

proof fn lemma_run_pair(s: SessionView, a: EventView, b: EventView, rest: Seq<EventView>)
    ensures
        run(s, seq![a, b] + rest) == run(s.next(a).next(b), rest),
        answers(s, seq![a, b] + rest) == seq![s.next(a).request(), s.next(a).next(b).request()]
            + answers(s.next(a).next(b), rest),
{
    let evs = seq![a, b] + rest;
    let tail = seq![b] + rest;
    let t = s.next(a);
    assert(evs[0] == a);
    assert(evs.drop_first() =~= tail);
    assert(tail[0] == b);
    assert(tail.drop_first() =~= rest);
    assert(run(s, evs) == run(t, tail));
    assert(run(t, tail) == run(t.next(b), rest));
    assert(answers(s, evs) == seq![t.request()] + answers(t, tail));
    assert(answers(t, tail) == seq![t.next(b).request()] + answers(t.next(b), rest));
    assert(seq![t.request()] + (seq![t.next(b).request()] + answers(t.next(b), rest)) =~= seq![
        t.request(),
        t.next(b).request(),
    ] + answers(t.next(b), rest));
}

proof fn lemma_writes_pair(c: Seq<u8>, rest: Seq<ActionView>)
    ensures
        writes(seq![ActionView::Write(c), ActionView::Read] + rest) == seq![c] + writes(rest),
{
    let acts = seq![ActionView::Write(c), ActionView::Read] + rest;
    let tail = seq![ActionView::Read] + rest;
    assert(acts[0] == ActionView::Write(c));
    assert(acts.drop_first() =~= tail);
    assert(tail[0] == ActionView::Read);
    assert(tail.drop_first() =~= rest);
    assert(writes(acts) == seq![c] + writes(tail));
    assert(writes(tail) == writes(rest));
}

proof fn lemma_echo_script(s: SessionView, chunks: Seq<Seq<u8>>)
    requires
        s.wf(),
        s.phase == Phase::Reading,
        all_nonempty(chunks),
    ensures
        run(s, echo_script(chunks)) == (SessionView {
            phase: Phase::Reading,
            pending: Seq::empty(),
            received: s.received + chunks.flatten(),
            echoed: s.echoed + chunks.flatten(),
        }),
        writes(answers(s, echo_script(chunks))) == chunks,
    decreases chunks.len(),
{
    if chunks.len() == 0 {
        assert(s.received + chunks.flatten() =~= s.received);
        assert(s.echoed + chunks.flatten() =~= s.echoed);
        assert(s.pending =~= Seq::empty());
        assert(writes(answers(s, echo_script(chunks))) =~= chunks);
    } else {
        let c = chunks[0];
        let rest = chunks.drop_first();
        assert(c.len() > 0);
        let t = s.next(EventView::Read(c)).next(EventView::Written);
        assert(t == SessionView {
            phase: Phase::Reading,
            pending: Seq::empty(),
            received: s.received + c,
            echoed: s.echoed + c,
        });
        assert(t.wf()) by {
            assert(s.echoed + c =~= s.echoed + c + Seq::<u8>::empty());
            assert(s.received == s.echoed);
        }
        assert(all_nonempty(rest)) by {
            assert forall|i: int| 0 <= i < rest.len() implies (#[trigger] rest[i]).len() > 0 by {
                assert(rest[i] == chunks[i + 1]);
            }
        }
        lemma_echo_script(t, rest);
        lemma_run_pair(s, EventView::Read(c), EventView::Written, echo_script(rest));
        lemma_writes_pair(c, answers(t, echo_script(rest)));
        assert(s.received + c + rest.flatten() =~= s.received + chunks.flatten());
        assert(s.echoed + c + rest.flatten() =~= s.echoed + chunks.flatten());
        assert(seq![c] + rest =~= chunks);
    }
}

/// Echo fidelity: on a fresh connection whose reads give the chunks in
/// order, each written back in full before the next read, the bytes asked to
/// be written, taken together, are exactly the bytes read, and so are the
/// bytes echoed; nothing is left pending and the session reads on.
pub proof fn echo_fidelity(chunks: Seq<Seq<u8>>)
    requires
        all_nonempty(chunks),
    ensures
        writes(answers(SessionView::initial(), echo_script(chunks))).flatten() == chunks.flatten(),
        run(SessionView::initial(), echo_script(chunks)).echoed == chunks.flatten(),
        run(SessionView::initial(), echo_script(chunks)).received == chunks.flatten(),
        run(SessionView::initial(), echo_script(chunks)).pending.len() == 0,
        run(SessionView::initial(), echo_script(chunks)).phase == Phase::Reading,
{
    let s = SessionView::initial();
    lemma_echo_script(s, chunks);
    assert(s.echoed + chunks.flatten() =~= chunks.flatten());
}

/// Echo fidelity does not depend on fragmentation: two ways of cutting the
/// same bytes into reads give the same bytes back.
pub proof fn echo_ignores_fragmentation(a: Seq<Seq<u8>>, b: Seq<Seq<u8>>)
    requires
        all_nonempty(a),
        all_nonempty(b),
        a.flatten() == b.flatten(),
    ensures
        writes(answers(SessionView::initial(), echo_script(a))).flatten() == writes(
            answers(SessionView::initial(), echo_script(b)),
        ).flatten(),
{
    echo_fidelity(a);
    echo_fidelity(b);
}

/// No duplication, no loss: reads of S1, S2, ..., Sn on one connection are
/// answered by writes of exactly S1, S2, ..., Sn, each once and in order.
pub proof fn each_chunk_echoed_once(chunks: Seq<Seq<u8>>)
    requires
        all_nonempty(chunks),
    ensures
        writes(answers(SessionView::initial(), echo_script(chunks))) == chunks,
{
    lemma_echo_script(SessionView::initial(), chunks);
}

/// Whatever happens on a connection, what has been echoed is a prefix of
/// what has been read, and the rest of what was read is pending.
pub proof fn echoed_is_prefix_of_received(s: SessionView, evs: Seq<EventView>)
    requires
        s.wf(),
    ensures
        run(s, evs).wf(),
        run(s, evs).received == run(s, evs).echoed + run(s, evs).pending,
    decreases evs.len(),
{
    if evs.len() > 0 {
        let t = s.next(evs[0]);
        assert(t.wf()) by {
            match (s.phase, evs[0]) {
                (Phase::Writing, EventView::Written) => {
                    assert(s.echoed + s.pending =~= s.echoed + s.pending + Seq::<u8>::empty());
                },
                (Phase::Reading, EventView::Read(b)) => {
                    assert(s.echoed + b =~= s.echoed + s.pending + b);
                },
                _ => {},
            }
        }
        echoed_is_prefix_of_received(t, evs.drop_first());
    }
}

/// A closed session stays closed: whatever is reported to it afterwards, its
/// state does not change, it asks for nothing but its close, and it never
/// asks for a write.
pub proof fn closed_is_final(s: SessionView, evs: Seq<EventView>)
    requires
        !s.is_open(),
    ensures
        run(s, evs) == s,
        writes(answers(s, evs)).len() == 0,
        answers(s, evs).len() == evs.len(),
        forall|i: int| 0 <= i < evs.len() ==> #[trigger] answers(s, evs)[i] == s.request(),
    decreases evs.len(),
{
    if evs.len() > 0 {
        closed_is_final(s, evs.drop_first());
        let acts = answers(s, evs);
        assert(acts[0] == s.request());
        assert(acts.drop_first() =~= answers(s, evs.drop_first()));
        assert forall|i: int| 0 <= i < evs.len() implies #[trigger] answers(s, evs)[i]
            == s.request() by {
            if i > 0 {
                assert(acts[i] == answers(s, evs.drop_first())[i - 1]);
            }
        }
    }
}

/// Clean shutdown: when the peer closes its side (a read gives no bytes),
/// the session asks for the connection to be closed, and from then on it
/// asks for no write, whatever follows.
pub proof fn end_of_stream_closes(s: SessionView, evs: Seq<EventView>)
    requires
        s.wf(),
        s.phase == Phase::Reading,
    ensures
        s.next(EventView::Read(Seq::empty())).request() == ActionView::Close(
            CloseReason::PeerClosed,
        ),
        s.next(EventView::Read(Seq::empty())).echoed == s.echoed,
        writes(answers(s.next(EventView::Read(Seq::empty())), evs)).len() == 0,
{
    closed_is_final(s.next(EventView::Read(Seq::empty())), evs);
}

} // verus!
