use dirwatch::session::SessionAction;
use dirwatch::session::SessionEvent;
use dirwatch::session::SessionState;
use dirwatch::session::WatchError;
use dirwatch::session::new_session;
use dirwatch::session::run_events;
use dirwatch::session::session_step;

#[test]
fn a_fresh_session_is_starting() {
    assert_eq!(new_session(), SessionState::Starting);
}

#[test]
fn arming_moves_to_armed_and_waits() {
    let (state, action) = session_step(SessionState::Starting, SessionEvent::ArmSucceeded);
    assert_eq!(state, SessionState::Armed);
    assert_eq!(action, SessionAction::AwaitBatch);
}

#[test]
fn failed_arm_terminates_with_a_log_only() {
    let (state, action) = session_step(
        SessionState::Starting,
        SessionEvent::ArmFailed(WatchError::InvalidPath),
    );
    assert_eq!(state, SessionState::Terminated);
    assert_eq!(action, SessionAction::LogAndStop);
}

#[test]
fn missing_path_session_never_signals() {
    // watching a path that does not exist: no signal is ever sent, and the
    // caller sees no error — later batches (were any to arrive) are ignored
    let events = vec![
        SessionEvent::ArmFailed(WatchError::InvalidPath),
        SessionEvent::BatchReady(5),
        SessionEvent::ChannelClosed,
    ];
    let (state, sent) = run_events(SessionState::Starting, &events);
    assert_eq!(state, SessionState::Terminated);
    assert_eq!(sent, 0);
}

#[test]
fn one_signal_per_coalesced_batch() {
    // a burst of five raw events arrives as one coalesced batch: one signal
    let armed_only = vec![SessionEvent::ArmSucceeded];
    let (_, sent_before) = run_events(SessionState::Starting, &armed_only);
    assert_eq!(sent_before, 0);

    let events = vec![
        SessionEvent::ArmSucceeded,
        SessionEvent::BatchReady(5),
        SessionEvent::DeliverySucceeded,
    ];
    let (state, sent) = run_events(SessionState::Starting, &events);
    assert_eq!(state, SessionState::Delivering);
    assert_eq!(sent, 1);
}

#[test]
fn a_later_batch_gets_its_own_signal() {
    // after one notification, changes in a newly created subtree arrive as a
    // second batch and get a second signal
    let events = vec![
        SessionEvent::ArmSucceeded,
        SessionEvent::BatchReady(5),
        SessionEvent::DeliverySucceeded,
        SessionEvent::BatchReady(2),
        SessionEvent::DeliverySucceeded,
    ];
    let (state, sent) = run_events(SessionState::Starting, &events);
    assert_eq!(state, SessionState::Delivering);
    assert_eq!(sent, 2);
}

#[test]
fn two_sessions_on_one_root_both_signal() {
    // the same underlying change reaches two independent sessions: each
    // sends its own duplicate signal, nothing is deduplicated across them
    let events = vec![
        SessionEvent::ArmSucceeded,
        SessionEvent::BatchReady(3),
        SessionEvent::DeliverySucceeded,
    ];
    let (_, sent_first) = run_events(SessionState::Starting, &events);
    let (_, sent_second) = run_events(SessionState::Starting, &events);
    assert_eq!(sent_first, 1);
    assert_eq!(sent_second, 1);
    assert_eq!(sent_first + sent_second, 2);
}

#[test]
fn a_batch_error_is_survived() {
    let events = vec![
        SessionEvent::ArmSucceeded,
        SessionEvent::BatchError,
        SessionEvent::BatchReady(1),
    ];
    let (state, sent) = run_events(SessionState::Starting, &events);
    assert_eq!(state, SessionState::Delivering);
    assert_eq!(sent, 1);
}

#[test]
fn a_recoverable_delivery_failure_is_survived() {
    let events = vec![
        SessionEvent::ArmSucceeded,
        SessionEvent::BatchReady(1),
        SessionEvent::DeliveryFailed { recoverable: true },
        SessionEvent::BatchReady(4),
    ];
    let (state, sent) = run_events(SessionState::Starting, &events);
    assert_eq!(state, SessionState::Delivering);
    assert_eq!(sent, 2);
}

#[test]
fn an_unrecoverable_delivery_failure_terminates() {
    let events = vec![
        SessionEvent::ArmSucceeded,
        SessionEvent::BatchReady(1),
        SessionEvent::DeliveryFailed { recoverable: false },
        SessionEvent::BatchReady(4),
    ];
    let (state, sent) = run_events(SessionState::Starting, &events);
    assert_eq!(state, SessionState::Terminated);
    assert_eq!(sent, 1);
}

#[test]
fn channel_closure_ends_the_session() {
    let events = vec![SessionEvent::ArmSucceeded, SessionEvent::ChannelClosed];
    let (state, sent) = run_events(SessionState::Starting, &events);
    assert_eq!(state, SessionState::Terminated);
    assert_eq!(sent, 0);
}

#[test]
fn terminated_absorbs_everything() {
    let (state, action) = session_step(SessionState::Terminated, SessionEvent::BatchReady(9));
    assert_eq!(state, SessionState::Terminated);
    assert_eq!(action, SessionAction::Stop);
}

#[test]
fn an_empty_batch_is_not_signalled() {
    let (state, action) = session_step(SessionState::Armed, SessionEvent::BatchReady(0));
    assert_eq!(state, SessionState::Armed);
    assert_eq!(action, SessionAction::AwaitBatch);
}
