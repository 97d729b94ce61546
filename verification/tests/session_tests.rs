use serial_tool::session::{read_step, write_step, ReadAction, WriteAction};
use serial_tool::{CancellationFlag, FrameError, SessionState};

#[test]
fn open_failure_emits_exactly_the_failed_event_and_closes() {
    let (state, event) = SessionState::Opening.on_open_result(false);
    assert_eq!(event, "[open_port](failed)");
    assert_eq!(state, SessionState::Closed);
}

#[test]
fn open_success_emits_ok_and_runs() {
    let (state, event) = SessionState::Opening.on_open_result(true);
    assert_eq!(event, "[open_port](ok)");
    assert_eq!(state, SessionState::Opened);
}

#[test]
fn cancelled_write_path_exits_without_sending() {
    let mut flag = CancellationFlag::new();
    assert!(!flag.is_set());
    flag.cancel();
    assert!(flag.is_set());
    // The write path is unblocked once; it observes the flag and stops.
    let action = write_step(flag.is_set(), Some(String::from("pending line")));
    assert_eq!(action, WriteAction::Stop);
}

#[test]
fn cancellation_flag_latches() {
    let mut flag = CancellationFlag::new();
    flag.cancel();
    flag.cancel();
    assert!(flag.is_set());
}

#[test]
fn live_write_path_sends_the_line_unchanged() {
    let action = write_step(false, Some(String::from("at your service")));
    assert_eq!(action, WriteAction::Send(String::from("at your service")));
}

#[test]
fn closed_queue_stops_the_write_path() {
    assert_eq!(write_step(false, None), WriteAction::Stop);
    assert_eq!(write_step(true, None), WriteAction::Stop);
}

#[test]
fn remote_disconnect_ends_session_with_one_close_event() {
    let flag = CancellationFlag::new();
    let (state, open_event) = SessionState::Opening.on_open_result(true);
    assert_eq!(open_event, "[open_port](ok)");
    // The connection ends on its own: the read path stops...
    assert_eq!(read_step(None), ReadAction::Stop);
    // ...which ends the whole session with exactly one close event,
    // though the cancellation flag was never set.
    let (closed, close_event) = state.on_path_terminated();
    assert_eq!(close_event, "[close_port]()");
    assert_eq!(closed, SessionState::Closed);
    assert!(!flag.is_set());
}

#[test]
fn read_path_forwards_decoded_lines_unchanged() {
    let action = read_step(Some(Ok(String::from("reading 42\n"))));
    assert_eq!(action, ReadAction::Deliver(String::from("reading 42\n")));
}

#[test]
fn decode_failure_stops_the_read_path() {
    assert_eq!(read_step(Some(Err(FrameError::InvalidText))), ReadAction::Stop);
}
