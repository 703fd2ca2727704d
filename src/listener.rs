//! The accepting side of the server as a state machine.
//!
//! The listener first asks for its socket to be bound. A failed bind stops it
//! before any connection is accepted. Once bound it asks for connections one
//! after the other and has each accepted connection dispatched to a handler
//! of its own, without waiting for that handler and without any cap on how
//! many run at once. What a failed accept does is set by an `AcceptPolicy`.

use vstd::prelude::*;

verus! {

/// What a failed accept does to the listener.
#[derive(Clone, Copy, Debug, PartialEq, Eq, Structural)]
pub enum AcceptPolicy {
    /// A failed accept stops the whole listener (the behaviour of a plain
    /// accept loop that propagates the first error).
    StopOnError,
    /// A failed accept is reported and the listener accepts again.
    KeepAccepting,
}

/// Why the listener stopped.
#[derive(Clone, Copy, Debug, PartialEq, Eq, Structural)]
pub enum ServeError {
    /// The socket could not be bound; nothing was ever accepted.
    BindFailed,
    /// An accept failed under `AcceptPolicy::StopOnError`.
    AcceptFailed,
}

/// Where the listener stands.
#[derive(Clone, Copy, Debug, PartialEq, Eq, Structural)]
pub enum ListenerPhase {
    /// Waiting for the bind.
    Binding,
    /// Bound; waiting for the next connection.
    Accepting,
    /// Stopped for good.
    Stopped(ServeError),
}

/// What the driver of the listener reports.
#[derive(Clone, Copy, Debug, PartialEq, Eq, Structural)]
pub enum ListenerEvent {
    /// The socket was bound.
    Bound,
    /// The bind failed.
    BindFailed,
    /// A connection was accepted.
    Accepted,
    /// An accept failed.
    AcceptFailed,
}

/// What the listener asks its driver to do next.
#[derive(Clone, Copy, Debug, PartialEq, Eq, Structural)]
pub enum ListenerAction {
    /// Bind the listening socket.
    Bind,
    /// Wait for the next connection.
    Accept,
    /// Hand the connection just accepted to a new, independent handler,
    /// then wait for the next connection without waiting for that handler.
    Dispatch,
    /// Stop serving and report the error.
    Stop(ServeError),
}

/// The abstract state of a listener.
pub struct ListenerView {
    pub policy: AcceptPolicy,
    pub phase: ListenerPhase,
    /// How many connections have been dispatched so far.
    pub dispatched: nat,
}

impl ListenerView {
    /// A listener that has not bound its socket yet.
    pub open spec fn initial(policy: AcceptPolicy) -> ListenerView {
        ListenerView { policy, phase: ListenerPhase::Binding, dispatched: 0 }
    }

    /// What a listener in this state asks for.
    pub open spec fn request(self) -> ListenerAction {
        match self.phase {
            ListenerPhase::Binding => ListenerAction::Bind,
            ListenerPhase::Accepting => ListenerAction::Accept,
            ListenerPhase::Stopped(e) => ListenerAction::Stop(e),
        }
    }

    /// The state after an event. An event that does not answer the current
    /// request (an accept report before the bind, or anything once stopped)
    /// leaves the state as it is.
    pub open spec fn next(self, ev: ListenerEvent) -> ListenerView {
        match (self.phase, ev) {
            (ListenerPhase::Binding, ListenerEvent::Bound) => ListenerView {
                phase: ListenerPhase::Accepting,
                ..self
            },
            (ListenerPhase::Binding, ListenerEvent::BindFailed) => ListenerView {
                phase: ListenerPhase::Stopped(ServeError::BindFailed),
                ..self
            },
            (ListenerPhase::Accepting, ListenerEvent::Accepted) => ListenerView {
                dispatched: self.dispatched + 1,
                ..self
            },
            (ListenerPhase::Accepting, ListenerEvent::AcceptFailed) => match self.policy {
                AcceptPolicy::StopOnError => ListenerView {
                    phase: ListenerPhase::Stopped(ServeError::AcceptFailed),
                    ..self
                },
                AcceptPolicy::KeepAccepting => self,
            },
            _ => self,
        }
    }

    /// The action with which the listener answers an event: an accepted
    /// connection is dispatched; otherwise the listener asks for what its
    /// next state asks for.
    pub open spec fn answer(self, ev: ListenerEvent) -> ListenerAction {
        if self.phase == ListenerPhase::Accepting && ev == ListenerEvent::Accepted {
            ListenerAction::Dispatch
        } else {
            self.next(ev).request()
        }
    }
}

/// The accepting side of the server.
pub struct Listener {
    policy: AcceptPolicy,
    phase: ListenerPhase,
    dispatched: Ghost<nat>,
}

impl View for Listener {
    type V = ListenerView;

    closed spec fn view(&self) -> ListenerView {
        ListenerView { policy: self.policy, phase: self.phase, dispatched: self.dispatched@ }
    }
}

impl Listener {
    /// A listener that has yet to bind, with the given accept policy.
    pub fn new(policy: AcceptPolicy) -> (l: Listener)
        ensures
            l@ == ListenerView::initial(policy),
    {
        Listener { policy, phase: ListenerPhase::Binding, dispatched: Ghost(0) }
    }

    /// The accept policy the listener was made with.
    pub fn policy(&self) -> (r: AcceptPolicy)
        ensures
            r == self@.policy,
    {
        self.policy
    }

    /// Where the listener stands.
    pub fn phase(&self) -> (r: ListenerPhase)
        ensures
            r == self@.phase,
    {
        self.phase
    }

    /// What the listener asks its driver to do now.
    pub fn request(&self) -> (r: ListenerAction)
        ensures
            r == self@.request(),
    {
        match self.phase {
            ListenerPhase::Binding => ListenerAction::Bind,
            ListenerPhase::Accepting => ListenerAction::Accept,
            ListenerPhase::Stopped(e) => ListenerAction::Stop(e),
        }
    }

    /// Takes in what the driver observed and returns what to do next.
    pub fn step(&mut self, ev: ListenerEvent) -> (r: ListenerAction)
        ensures
            final(self)@ == old(self)@.next(ev),
            r == old(self)@.answer(ev),
    {
        match (self.phase, ev) {
            (ListenerPhase::Binding, ListenerEvent::Bound) => {
                self.phase = ListenerPhase::Accepting;
            },
            (ListenerPhase::Binding, ListenerEvent::BindFailed) => {
                self.phase = ListenerPhase::Stopped(ServeError::BindFailed);
            },
            (ListenerPhase::Accepting, ListenerEvent::Accepted) => {
                self.dispatched = Ghost(self.dispatched@ + 1);
                return ListenerAction::Dispatch;
            },
            (ListenerPhase::Accepting, ListenerEvent::AcceptFailed) => {
                if self.policy == AcceptPolicy::StopOnError {
                    self.phase = ListenerPhase::Stopped(ServeError::AcceptFailed);
                }
            },
            _ => {},
        }
        self.request()
    }
}

/// The state after a series of events, taken in order.
pub open spec fn run(s: ListenerView, evs: Seq<ListenerEvent>) -> ListenerView
    decreases evs.len(),
{
    if evs.len() == 0 {
        s
    } else {
        run(s.next(evs[0]), evs.drop_first())
    }
}

/// The actions with which the listener answers a series of events, in order.
pub open spec fn answers(s: ListenerView, evs: Seq<ListenerEvent>) -> Seq<ListenerAction>
    decreases evs.len(),
{
    if evs.len() == 0 {
        Seq::empty()
    } else {
        seq![s.answer(evs[0])] + answers(s.next(evs[0]), evs.drop_first())
    }
}

/// A stopped listener stays stopped: whatever is reported to it afterwards,
/// its state does not change and it answers only with its stop.
pub proof fn stopped_is_final(s: ListenerView, evs: Seq<ListenerEvent>)
    requires
        s.phase is Stopped,
    ensures
        run(s, evs) == s,
        answers(s, evs).len() == evs.len(),
        forall|i: int| 0 <= i < evs.len() ==> #[trigger] answers(s, evs)[i] == s.request(),
    decreases evs.len(),
{
    if evs.len() > 0 {
        stopped_is_final(s, evs.drop_first());
        let acts = answers(s, evs);
        assert forall|i: int| 0 <= i < evs.len() implies #[trigger] answers(s, evs)[i]
            == s.request() by {
            if i > 0 {
                assert(acts[i] == answers(s, evs.drop_first())[i - 1]);
            }
        }
    }
}

/// A failed bind is fatal: the listener stops with `BindFailed` at once,
/// whatever its accept policy, and after that never accepts or dispatches a
/// connection, whatever is reported to it.
pub proof fn bind_failure_is_fatal(policy: AcceptPolicy, evs: Seq<ListenerEvent>)
    ensures
        ListenerView::initial(policy).answer(ListenerEvent::BindFailed) == ListenerAction::Stop(
            ServeError::BindFailed,
        ),
        run(ListenerView::initial(policy).next(ListenerEvent::BindFailed), evs).dispatched == 0,
        forall|i: int|
            0 <= i < evs.len() ==> #[trigger] answers(
                ListenerView::initial(policy).next(ListenerEvent::BindFailed),
                evs,
            )[i] == ListenerAction::Stop(ServeError::BindFailed),
{
    stopped_is_final(ListenerView::initial(policy).next(ListenerEvent::BindFailed), evs);
}

/// A series of `n` accepts, one after the other, on a bound listener.
pub open spec fn accepts(n: nat) -> Seq<ListenerEvent> {
    Seq::new(n, |i: int| ListenerEvent::Accepted)
}

/// Accepting is never capped and never waits on a handler: however many
/// connections have been dispatched already, each of `n` further accepts is
/// answered by a dispatch, and the listener is still accepting afterwards.
pub proof fn accepts_are_never_capped(s: ListenerView, n: nat)
    requires
        s.phase == ListenerPhase::Accepting,
    ensures
        run(s, accepts(n)).phase == ListenerPhase::Accepting,
        run(s, accepts(n)).dispatched == s.dispatched + n,
        answers(s, accepts(n)).len() == n,
        forall|i: int| 0 <= i < n ==> #[trigger] answers(s, accepts(n))[i] == ListenerAction::Dispatch,
    decreases n,
{
    if n > 0 {
        let t = s.next(ListenerEvent::Accepted);
        let m = (n - 1) as nat;
        accepts_are_never_capped(t, m);
        assert(accepts(n)[0] == ListenerEvent::Accepted);
        assert(accepts(n).drop_first() =~= accepts(m));
        let acts = answers(s, accepts(n));
        assert(acts == seq![ListenerAction::Dispatch] + answers(t, accepts(m)));
        assert forall|i: int| 0 <= i < n implies #[trigger] answers(s, accepts(n))[i]
            == ListenerAction::Dispatch by {
            if i > 0 {
                assert(acts[i] == answers(t, accepts(m))[i - 1]);
            }
        }
    }
}

} // verus!
