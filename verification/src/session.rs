//! The state machine one watch session runs.
//!
//! A watch session bridges one watch request to the UI notification
//! boundary. The blocking work — arming the platform watcher, waiting for a
//! coalesced batch, sending a signal to the UI sink — happens outside the
//! library; each of its outcomes comes back as a [`SessionEvent`], and
//! [`session_step`] decides the next [`SessionState`] and the
//! [`SessionAction`] to perform. The session lives as
//! `Starting -> Armed -> Delivering (looping) -> Terminated`, and
//! `Terminated` is final.
//!
//! The laws proved here: a live session sends exactly one signal per
//! non-empty batch; a terminated session (in particular one whose arming
//! failed) never sends a signal; and concurrent sessions are independent —
//! an interleaving of two sessions delivers exactly what each session
//! delivers on its own events, so two sessions watching the same root
//! duplicate every signal, one per session.

use vstd::prelude::*;

verus! {

/// Why arming a watch session failed.
#[derive(Clone, Copy, PartialEq, Eq, Structural, Debug)]
pub enum WatchError {
    /// The requested root does not exist or is not accessible.
    InvalidPath,
    /// The platform's notification mechanism could not be initialized.
    PlatformUnsupported,
}

/// The lifecycle state of one watch session.
#[derive(Clone, Copy, PartialEq, Eq, Structural, Debug)]
pub enum SessionState {
    /// The session exists; the watcher is not yet armed.
    Starting,
    /// The watcher is armed on the root; no signal has been sent yet.
    Armed,
    /// At least one batch has arrived; the relay loop is live.
    Delivering,
    /// The session is over; no further signal will ever be sent.
    Terminated,
}

/// One outcome the outside world reports back to a session.
#[derive(Clone, Copy, PartialEq, Eq, Structural, Debug)]
pub enum SessionEvent {
    /// The watcher was registered on the root, recursively.
    ArmSucceeded,
    /// The watcher could not be registered.
    ArmFailed(WatchError),
    /// A coalesced batch of this many raw events arrived.
    BatchReady(usize),
    /// The watch channel reported an error instead of a batch.
    BatchError,
    /// The signal for the last batch reached the UI sink.
    DeliverySucceeded,
    /// The signal could not be delivered; `recoverable` says whether the
    /// sink may be tried again for later batches.
    DeliveryFailed { recoverable: bool },
    /// The watch channel closed: the watcher side is gone.
    ChannelClosed,
}

/// What a session asks its surroundings to do next.
#[derive(Clone, Copy, PartialEq, Eq, Structural, Debug)]
pub enum SessionAction {
    /// Block until the next batch arrives or the channel closes.
    AwaitBatch,
    /// Send one payload-free notification signal to the UI sink.
    EmitSignal,
    /// Log a diagnostic and keep the loop running.
    LogAndContinue,
    /// Log a diagnostic; the session is over.
    LogAndStop,
    /// The session is over; nothing remains to do.
    Stop,
}

/// The transition table of a watch session.
///
/// Arming is decided in `Starting`; batches and channel closure drive the
/// live states; a recoverable delivery failure is logged and survived, an
/// unrecoverable one ends the session; `Terminated` absorbs everything. An
/// event that its state cannot make sense of (a batch before arming, a
/// delivery report before any signal, an empty batch) is ignored where it
/// stands: the state is kept and no signal is sent.
pub open spec fn spec_step(s: SessionState, e: SessionEvent) -> (SessionState, SessionAction) {
    match (s, e) {
        (SessionState::Terminated, _) => (SessionState::Terminated, SessionAction::Stop),
        (SessionState::Starting, SessionEvent::ArmSucceeded) => (
            SessionState::Armed,
            SessionAction::AwaitBatch,
        ),
        (SessionState::Starting, SessionEvent::ArmFailed(_)) => (
            SessionState::Terminated,
            SessionAction::LogAndStop,
        ),
        (SessionState::Starting, _) => (SessionState::Starting, SessionAction::LogAndContinue),
        (_, SessionEvent::BatchReady(n)) => if n >= 1 {
            (SessionState::Delivering, SessionAction::EmitSignal)
        } else {
            (s, SessionAction::AwaitBatch)
        },
        (_, SessionEvent::BatchError) => (s, SessionAction::LogAndContinue),
        (_, SessionEvent::ChannelClosed) => (SessionState::Terminated, SessionAction::Stop),
        (SessionState::Delivering, SessionEvent::DeliverySucceeded) => (
            SessionState::Delivering,
            SessionAction::AwaitBatch,
        ),
        (SessionState::Delivering, SessionEvent::DeliveryFailed { recoverable }) => if recoverable {
            (SessionState::Delivering, SessionAction::LogAndContinue)
        } else {
            (SessionState::Terminated, SessionAction::LogAndStop)
        },
        (_, _) => (s, SessionAction::LogAndContinue),
    }
}

/// Decides one step of a watch session: the state after `e` and the action
/// the surroundings must perform next.
pub fn session_step(s: SessionState, e: SessionEvent) -> (r: (SessionState, SessionAction))
    ensures
        r == spec_step(s, e),
{
    match (s, e) {
        (SessionState::Terminated, _) => (SessionState::Terminated, SessionAction::Stop),
        (SessionState::Starting, SessionEvent::ArmSucceeded) => (
            SessionState::Armed,
            SessionAction::AwaitBatch,
        ),
        (SessionState::Starting, SessionEvent::ArmFailed(_)) => (
            SessionState::Terminated,
            SessionAction::LogAndStop,
        ),
        (SessionState::Starting, _) => (SessionState::Starting, SessionAction::LogAndContinue),
        (_, SessionEvent::BatchReady(n)) => if n >= 1 {
            (SessionState::Delivering, SessionAction::EmitSignal)
        } else {
            (s, SessionAction::AwaitBatch)
        },
        (_, SessionEvent::BatchError) => (s, SessionAction::LogAndContinue),
        (_, SessionEvent::ChannelClosed) => (SessionState::Terminated, SessionAction::Stop),
        (SessionState::Delivering, SessionEvent::DeliverySucceeded) => (
            SessionState::Delivering,
            SessionAction::AwaitBatch,
        ),
        (SessionState::Delivering, SessionEvent::DeliveryFailed { recoverable }) => if recoverable {
            (SessionState::Delivering, SessionAction::LogAndContinue)
        } else {
            (SessionState::Terminated, SessionAction::LogAndStop)
        },
        (_, _) => (s, SessionAction::LogAndContinue),
    }
}

/// A fresh session, before anything has been armed.
pub fn new_session() -> (s: SessionState)
    ensures
        s is Starting,
{
    SessionState::Starting
}

/// The state a session reaches after the whole event sequence.
pub open spec fn run(s: SessionState, events: Seq<SessionEvent>) -> SessionState
    decreases events.len(),
{
    if events.len() == 0 {
        s
    } else {
        run(spec_step(s, events[0]).0, events.drop_first())
    }
}

/// How many notification signals a session starting in `s` sends while it
/// consumes the whole event sequence.
pub open spec fn signals_sent(s: SessionState, events: Seq<SessionEvent>) -> nat
    decreases events.len(),
{
    if events.len() == 0 {
        0
    } else {
        let (next, action) = spec_step(s, events[0]);
        (if action is EmitSignal {
            1nat
        } else {
            0nat
        }) + signals_sent(next, events.drop_first())
    }
}

/// Drives a session through `events`, one step after another, and counts
/// the notification signals it asks to send.
pub fn run_events(s: SessionState, events: &Vec<SessionEvent>) -> (r: (SessionState, usize))
    ensures
        r.0 == run(s, events@),
        r.1 == signals_sent(s, events@),
{
    let ghost all = events@;
    proof {
        assert(all.skip(0) =~= all);
    }
    let mut cur = s;
    let mut sent: usize = 0;
    let mut i: usize = 0;
    while i < events.len()
        invariant
            i <= all.len(),
            events@ == all,
            run(cur, all.skip(i as int)) == run(s, all),
            sent + signals_sent(cur, all.skip(i as int)) == signals_sent(s, all),
            sent <= i,
        decreases all.len() - i,
    {
        proof {
            assert(all.skip(i as int).len() > 0);
            assert(all.skip(i as int)[0] == all[i as int]);
            assert(all.skip(i as int).drop_first() =~= all.skip(i + 1));
        }
        let (next, action) = session_step(cur, events[i]);
        if matches!(action, SessionAction::EmitSignal) {
            sent = sent + 1;
        }
        cur = next;
        i = i + 1;
    }
    proof {
        assert(all.skip(all.len() as int) =~= Seq::<SessionEvent>::empty());
    }
    (cur, sent)
}

/// A terminated session is terminated for good, and never sends a signal.
pub proof fn lemma_terminated_is_final(events: Seq<SessionEvent>)
    ensures
        run(SessionState::Terminated, events) is Terminated,
        signals_sent(SessionState::Terminated, events) == 0,
    decreases events.len(),
{
    if events.len() > 0 {
        lemma_terminated_is_final(events.drop_first());
    }
}

/// A session whose arming failed never sends a signal, whatever else comes
/// in afterwards: the caller sees silence, not an error.
pub proof fn lemma_failed_arm_sends_nothing(err: WatchError, events: Seq<SessionEvent>)
    ensures
        signals_sent(SessionState::Starting, seq![SessionEvent::ArmFailed(err)] + events) == 0,
        run(SessionState::Starting, seq![SessionEvent::ArmFailed(err)] + events) is Terminated,
{
    let trace = seq![SessionEvent::ArmFailed(err)] + events;
    assert(trace[0] == SessionEvent::ArmFailed(err));
    assert(trace.drop_first() =~= events);
    lemma_terminated_is_final(events);
}

/// Events that keep the relay loop alive: batches, channel errors, and
/// delivery reports that the session survives.
pub open spec fn live_loop_event(e: SessionEvent) -> bool {
    match e {
        SessionEvent::BatchReady(_) => true,
        SessionEvent::BatchError => true,
        SessionEvent::DeliverySucceeded => true,
        SessionEvent::DeliveryFailed { recoverable } => recoverable,
        _ => false,
    }
}

/// How many non-empty coalesced batches the event sequence carries.
pub open spec fn nonempty_batches(events: Seq<SessionEvent>) -> nat
    decreases events.len(),
{
    if events.len() == 0 {
        0
    } else {
        (if events[0] matches SessionEvent::BatchReady(n) && n >= 1 {
            1nat
        } else {
            0nat
        }) + nonempty_batches(events.drop_first())
    }
}

/// Coalescing law at the relay: while the loop is live, a session sends
/// exactly one notification signal per non-empty batch — never zero, never
/// two — and stays live.
pub proof fn lemma_one_signal_per_batch(s: SessionState, events: Seq<SessionEvent>)
    requires
        s is Armed || s is Delivering,
        forall|i: int| 0 <= i < events.len() ==> live_loop_event(#[trigger] events[i]),
    ensures
        signals_sent(s, events) == nonempty_batches(events),
        run(s, events) is Armed || run(s, events) is Delivering,
    decreases events.len(),
{
    if events.len() > 0 {
        assert(live_loop_event(events[0]));
        let next = spec_step(s, events[0]).0;
        assert forall|i: int| 0 <= i < events.drop_first().len() implies live_loop_event(
            #[trigger] events.drop_first()[i],
        ) by {
            assert(events.drop_first()[i] == events[i + 1]);
        }
        lemma_one_signal_per_batch(next, events.drop_first());
    }
}

/// What a debounced stream hands a live session: one `BatchReady` event per
/// coalesced batch, carrying the batch's size, in batch order.
pub open spec fn batch_events(sizes: Seq<usize>) -> Seq<SessionEvent> {
    sizes.map(|k: int, n: usize| SessionEvent::BatchReady(n))
}

/// Every batch of a debounced stream is non-empty, and each one counts.
proof fn lemma_batch_events_counted(sizes: Seq<usize>)
    requires
        forall|k: int| 0 <= k < sizes.len() ==> #[trigger] sizes[k] >= 1,
    ensures
        nonempty_batches(batch_events(sizes)) == sizes.len(),
    decreases sizes.len(),
{
    let events = batch_events(sizes);
    if sizes.len() > 0 {
        assert(events[0] == SessionEvent::BatchReady(sizes[0]));
        assert(events.drop_first() =~= batch_events(sizes.drop_first()));
        assert forall|k: int| 0 <= k < sizes.drop_first().len() implies #[trigger] sizes.drop_first()[k]
            >= 1 by {
            assert(sizes.drop_first()[k] == sizes[k + 1]);
        }
        lemma_batch_events_counted(sizes.drop_first());
    }
}

/// Coalescing law, end to end: a live session that receives the coalesced
/// batches of a debounced stream sends exactly one notification signal per
/// batch — however many raw events each batch carries.
pub proof fn lemma_one_signal_per_debounced_batch(s: SessionState, sizes: Seq<usize>)
    requires
        s is Armed || s is Delivering,
        forall|k: int| 0 <= k < sizes.len() ==> #[trigger] sizes[k] >= 1,
    ensures
        signals_sent(s, batch_events(sizes)) == sizes.len(),
{
    let events = batch_events(sizes);
    assert forall|i: int| 0 <= i < events.len() implies live_loop_event(#[trigger] events[i]) by {
        assert(events[i] == SessionEvent::BatchReady(sizes[i]));
    }
    lemma_one_signal_per_batch(s, events);
    lemma_batch_events_counted(sizes);
}

/// The events of the first session of an interleaved trace of two sessions
/// (`true` tags the first session, `false` the second).
pub open spec fn own_events(trace: Seq<(bool, SessionEvent)>, id: bool) -> Seq<SessionEvent>
    decreases trace.len(),
{
    if trace.len() == 0 {
        Seq::empty()
    } else if trace[0].0 == id {
        seq![trace[0].1] + own_events(trace.drop_first(), id)
    } else {
        own_events(trace.drop_first(), id)
    }
}

/// The pair of states two sessions reach when an interleaved trace hands
/// each event to the session it is tagged with.
pub open spec fn run_pair(
    a: SessionState,
    b: SessionState,
    trace: Seq<(bool, SessionEvent)>,
) -> (SessionState, SessionState)
    decreases trace.len(),
{
    if trace.len() == 0 {
        (a, b)
    } else if trace[0].0 {
        run_pair(spec_step(a, trace[0].1).0, b, trace.drop_first())
    } else {
        run_pair(a, spec_step(b, trace[0].1).0, trace.drop_first())
    }
}

/// How many notification signals the two sessions of an interleaved trace
/// send together.
pub open spec fn signals_sent_pair(
    a: SessionState,
    b: SessionState,
    trace: Seq<(bool, SessionEvent)>,
) -> nat
    decreases trace.len(),
{
    if trace.len() == 0 {
        0
    } else if trace[0].0 {
        let (next, action) = spec_step(a, trace[0].1);
        (if action is EmitSignal {
            1nat
        } else {
            0nat
        }) + signals_sent_pair(next, b, trace.drop_first())
    } else {
        let (next, action) = spec_step(b, trace[0].1);
        (if action is EmitSignal {
            1nat
        } else {
            0nat
        }) + signals_sent_pair(a, next, trace.drop_first())
    }
}

/// Independence law: sessions share nothing. However the events of two
/// sessions interleave, each session ends in the state its own events alone
/// produce, and together they send exactly the signals each sends on its
/// own.
pub proof fn lemma_sessions_independent(
    a: SessionState,
    b: SessionState,
    trace: Seq<(bool, SessionEvent)>,
)
    ensures
        run_pair(a, b, trace).0 == run(a, own_events(trace, true)),
        run_pair(a, b, trace).1 == run(b, own_events(trace, false)),
        signals_sent_pair(a, b, trace) == signals_sent(a, own_events(trace, true)) + signals_sent(
            b,
            own_events(trace, false),
        ),
    decreases trace.len(),
{
    if trace.len() > 0 {
        let rest = trace.drop_first();
        let e = trace[0].1;
        if trace[0].0 {
            let next = spec_step(a, e).0;
            lemma_sessions_independent(next, b, rest);
            assert(own_events(trace, true) == seq![e] + own_events(rest, true));
            assert((seq![e] + own_events(rest, true))[0] == e);
            assert((seq![e] + own_events(rest, true)).drop_first() =~= own_events(rest, true));
            assert(own_events(trace, false) == own_events(rest, false));
        } else {
            let next = spec_step(b, e).0;
            lemma_sessions_independent(a, next, rest);
            assert(own_events(trace, false) == seq![e] + own_events(rest, false));
            assert((seq![e] + own_events(rest, false))[0] == e);
            assert((seq![e] + own_events(rest, false)).drop_first() =~= own_events(rest, false));
            assert(own_events(trace, true) == own_events(rest, true));
        }
    }
}

/// Duplicate delivery law: two independent sessions watching the same root
/// see the same events, and no deduplication happens across them — together
/// they send twice the signals one session sends, one copy per session.
pub proof fn lemma_same_root_duplicates(s: SessionState, trace: Seq<(bool, SessionEvent)>)
    requires
        own_events(trace, true) == own_events(trace, false),
    ensures
        signals_sent_pair(s, s, trace) == 2 * signals_sent(s, own_events(trace, true)),
{
    lemma_sessions_independent(s, s, trace);
}

} // verus!
