use dirwatch::debounce::DEBOUNCE_WINDOW_MS;
use dirwatch::debounce::batch_boundaries;
use dirwatch::debounce::count_batches;

#[test]
fn window_is_one_second() {
    assert_eq!(DEBOUNCE_WINDOW_MS, 1000);
}

#[test]
fn empty_stream_has_no_batch() {
    let times: Vec<u64> = vec![];
    assert_eq!(count_batches(&times, DEBOUNCE_WINDOW_MS), 0);
}

#[test]
fn burst_within_one_window_coalesces() {
    // five raw events inside 200ms, against a 1s window: one batch
    let times: Vec<u64> = vec![0, 50, 100, 150, 200];
    assert_eq!(count_batches(&times, DEBOUNCE_WINDOW_MS), 1);
}

#[test]
fn quiet_gaps_separate_batches() {
    // two bursts and a straggler, each side of a gap longer than the window
    let times: Vec<u64> = vec![0, 100, 2000, 2100, 5000];
    assert_eq!(count_batches(&times, DEBOUNCE_WINDOW_MS), 3);
}

#[test]
fn isolated_events_each_form_a_batch() {
    let times: Vec<u64> = vec![0, 2000, 4000, 6000];
    assert_eq!(count_batches(&times, DEBOUNCE_WINDOW_MS), 4);
}

#[test]
fn gap_equal_to_window_still_coalesces() {
    let times: Vec<u64> = vec![0, 1000];
    assert_eq!(count_batches(&times, DEBOUNCE_WINDOW_MS), 1);
}

#[test]
fn gap_one_past_window_separates() {
    let times: Vec<u64> = vec![0, 1001];
    assert_eq!(count_batches(&times, DEBOUNCE_WINDOW_MS), 2);
}

#[test]
fn simultaneous_events_coalesce() {
    let times: Vec<u64> = vec![42, 42, 42];
    assert_eq!(count_batches(&times, 0), 1);
}

#[test]
fn zero_window_separates_any_advance() {
    let times: Vec<u64> = vec![0, 0, 1];
    assert_eq!(count_batches(&times, 0), 2);
}

#[test]
fn batches_open_where_the_quiet_gap_ends() {
    // two bursts and a straggler: batches open at the first event and right
    // after each quiet gap
    let times: Vec<u64> = vec![0, 100, 2000, 2100, 5000];
    assert_eq!(batch_boundaries(&times, DEBOUNCE_WINDOW_MS), vec![0, 2, 4]);
}

#[test]
fn no_event_no_boundary() {
    let times: Vec<u64> = vec![];
    let empty: Vec<usize> = vec![];
    assert_eq!(batch_boundaries(&times, DEBOUNCE_WINDOW_MS), empty);
}

#[test]
fn a_lone_event_opens_the_only_batch() {
    let times: Vec<u64> = vec![777];
    assert_eq!(batch_boundaries(&times, DEBOUNCE_WINDOW_MS), vec![0]);
}

#[test]
fn largest_times_are_counted() {
    let times: Vec<u64> = vec![u64::MAX - 1, u64::MAX];
    assert_eq!(count_batches(&times, DEBOUNCE_WINDOW_MS), 1);
}
