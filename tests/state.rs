use i3_last::signals::{
    event_for_signal, watched_signals, SIGRTMIN_SAFE, SIG_BACKWARD, SIG_FORWARD, SIG_LAST,
};
use i3_last::{Direction, Event, State, Step, MAX_WINDOWS};

const A: i64 = 11;
const B: i64 = 22;
const C: i64 = 33;
const D: i64 = 44;

fn focused(ids: &[i64]) -> State {
    let mut state = State::new();
    for &id in ids {
        state.add_window(id);
    }
    state
}

#[test]
fn check_clamping() {
    let mut state = State::new();

    let max = 100;
    for i in 1..max {
        state.add_window(i);
    }

    assert_eq!(state.next(), None);
    for i in 0..MAX_WINDOWS {
        assert_eq!(state.prev(), Some(max - (i as i64) - 2));
    }
}

#[test]
fn new_state_is_empty() {
    let state = State::new();
    assert!(state.previous.is_empty());
    assert!(state.newer.is_empty());
    assert_eq!(state.current, None);
    assert_eq!(state.ench_winid, None);
    assert_eq!(state.last_enchant, None);
    assert_eq!(state.max_history_depth, 15);
}

#[test]
fn focus_records_history() {
    let state = focused(&[A, B, C]);
    assert_eq!(state.previous, vec![A, B]);
    assert!(state.newer.is_empty());
    assert_eq!(state.current, Some(C));
    assert_eq!(state.last_enchant, Some(Direction::Forward));
}

#[test]
fn refocus_moves_window_to_the_top() {
    let state = focused(&[A, B, C, A]);
    assert_eq!(state.previous, vec![B, C]);
    assert_eq!(state.current, Some(A));
}

#[test]
fn focusing_the_current_window_again_keeps_it_out_of_the_stacks() {
    let state = focused(&[A, B, B]);
    assert_eq!(state.previous, vec![A]);
    assert_eq!(state.current, Some(B));
}

#[test]
fn back_then_forward_restores_the_history() {
    let mut state = focused(&[A, B, C]);
    assert_eq!(state.prev(), Some(B));
    state.add_window(B);
    assert_eq!(state.previous, vec![A]);
    assert_eq!(state.newer, vec![C]);
    assert_eq!(state.next(), Some(C));
    state.add_window(C);
    assert_eq!(state.current, Some(C));
    assert_eq!(state.previous, vec![A, B]);
    assert!(state.newer.is_empty());
}

#[test]
fn confirmed_focus_leaves_the_stacks() {
    let mut state = focused(&[A, B, C]);
    assert_eq!(state.prev(), Some(B));
    assert_eq!(state.ench_winid, Some(B));
    let previous = state.previous.clone();
    let newer = state.newer.clone();
    state.add_window(B);
    assert_eq!(state.current, Some(B));
    assert_eq!(state.previous, previous);
    assert_eq!(state.newer, newer);
    assert_eq!(state.ench_winid, None);
    assert_eq!(state.last_enchant, Some(Direction::Backward));
}

#[test]
fn organic_focus_after_back_drops_forward_history() {
    let mut state = focused(&[A, B]);
    assert_eq!(state.prev(), Some(A));
    state.add_window(A);
    assert_eq!(state.current, Some(A));
    assert_eq!(state.newer, vec![B]);
    state.add_window(D);
    assert!(state.newer.is_empty());
    assert_eq!(state.previous, vec![A]);
    assert_eq!(state.current, Some(D));
    assert_eq!(state.last_enchant, Some(Direction::Forward));
}

#[test]
fn unexpected_focus_is_taken_as_a_user_move() {
    let mut state = focused(&[A, B, C]);
    assert_eq!(state.prev(), Some(B));
    state.add_window(D);
    assert_eq!(state.ench_winid, None);
    assert_eq!(state.current, Some(D));
    assert_eq!(state.previous, vec![A, B]);
    assert!(state.newer.is_empty());
}

#[test]
fn close_during_history() {
    let mut state = focused(&[A, B, C]);
    state.purge(B);
    assert_eq!(state.previous, vec![A]);
    assert_eq!(state.current, Some(C));
    state.purge(C);
    assert_eq!(state.current, None);
    assert_eq!(state.previous, vec![A]);
}

#[test]
fn close_of_the_awaited_window_clears_the_request() {
    let mut state = focused(&[A, B, C]);
    assert_eq!(state.prev(), Some(B));
    state.purge(B);
    assert_eq!(state.ench_winid, None);
    assert_eq!(state.current, None);
    assert_eq!(state.previous, vec![A]);
    assert_eq!(state.newer, vec![C]);
}

#[test]
fn close_of_an_unknown_window_changes_nothing() {
    let mut state = focused(&[A, B]);
    state.purge(D);
    assert_eq!(state.previous, vec![A]);
    assert_eq!(state.current, Some(B));
}

#[test]
fn moves_on_empty_stacks_do_nothing() {
    let mut state = State::new();
    assert_eq!(state.prev(), None);
    assert_eq!(state.next(), None);
    assert_eq!(state.repeat_last(), None);
    state.add_window(A);
    assert_eq!(state.prev(), None);
    assert_eq!(state.next(), None);
    assert_eq!(state.current, Some(A));
    assert_eq!(state.ench_winid, None);
}

#[test]
fn clamping_end_to_end() {
    let mut state = State::with_max_history_depth(15);
    for id in 1..=100 {
        state.add_window(id);
    }
    assert_eq!(state.previous.len(), 15);
    for k in 0..15 {
        let expected = 99 - k;
        assert_eq!(state.prev(), Some(expected));
        state.add_window(expected);
    }
    assert_eq!(state.prev(), None);
    assert_eq!(state.newer.len(), 15);
    assert_eq!(state.newer[0], 100);
    assert_eq!(state.newer[14], 86);
}

#[test]
fn depth_bounds_both_stacks() {
    let mut state = State::with_max_history_depth(2);
    for id in 1..=5 {
        state.add_window(id);
    }
    assert_eq!(state.previous, vec![3, 4]);
    assert_eq!(state.prev(), Some(4));
    assert_eq!(state.prev(), Some(3));
    assert_eq!(state.prev(), None);
    assert_eq!(state.newer, vec![5, 4]);
    assert_eq!(state.current, Some(3));
}

#[test]
fn zero_depth_keeps_no_history() {
    let mut state = State::with_max_history_depth(0);
    state.add_window(A);
    state.add_window(B);
    assert!(state.previous.is_empty());
    assert_eq!(state.current, Some(B));
    assert_eq!(state.prev(), None);
}

#[test]
fn repeat_last_undoes_a_move() {
    let mut state = focused(&[A, B, C]);
    assert_eq!(state.prev(), Some(B));
    state.add_window(B);
    assert_eq!(state.repeat_last(), Some(C));
    state.add_window(C);
    assert_eq!(state.last_enchant, Some(Direction::Forward));
    assert_eq!(state.repeat_last(), Some(B));
    assert_eq!(state.current, Some(B));
    assert_eq!(state.newer, vec![C]);
}

#[test]
fn repeat_last_after_user_focus_goes_back() {
    let mut state = focused(&[A, B]);
    assert_eq!(state.repeat_last(), Some(A));
    assert_eq!(state.current, Some(A));
    assert_eq!(state.newer, vec![B]);
}

#[test]
fn opposite_directions() {
    assert_eq!(Direction::Backward.opposite(), Direction::Forward);
    assert_eq!(Direction::Forward.opposite(), Direction::Backward);
}

#[test]
fn handle_dispatches_events() {
    let mut state = State::new();
    assert_eq!(state.handle(Event::FocusChanged(A)), Step::Idle);
    assert_eq!(state.handle(Event::FocusChanged(B)), Step::Idle);
    assert_eq!(state.handle(Event::FocusChanged(C)), Step::Idle);
    assert_eq!(state.handle(Event::Backward), Step::Focus(B));
    assert_eq!(state.handle(Event::FocusChanged(B)), Step::Idle);
    assert_eq!(state.handle(Event::Forward), Step::Focus(C));
    assert_eq!(state.handle(Event::FocusChanged(C)), Step::Idle);
    assert_eq!(state.handle(Event::Last), Step::Focus(B));
    assert_eq!(state.handle(Event::WindowClosed(A)), Step::Idle);
    assert!(state.previous.is_empty());
    assert_eq!(state.handle(Event::Backward), Step::Idle);
    assert_eq!(state.handle(Event::Exit), Step::Exit);
    assert_eq!(state.current, Some(B));
}

#[test]
fn signal_numbers() {
    assert_eq!(SIGRTMIN_SAFE, 36);
    assert_eq!(SIG_FORWARD, 36);
    assert_eq!(SIG_BACKWARD, 37);
    assert_eq!(SIG_LAST, 38);
    assert_eq!(watched_signals(), vec![2, 36, 37, 38]);
}

#[test]
fn signals_map_to_events() {
    assert_eq!(event_for_signal(36), Some(Event::Forward));
    assert_eq!(event_for_signal(37), Some(Event::Backward));
    assert_eq!(event_for_signal(38), Some(Event::Last));
    assert_eq!(event_for_signal(2), Some(Event::Exit));
    assert_eq!(event_for_signal(15), None);
    assert_eq!(event_for_signal(39), None);
}
