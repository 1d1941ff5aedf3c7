use nimble_steps::pending_steps::PendingSteps;
use nimble_steps::Step;
use nimble_steps::Step::Custom;
use nimble_steps::TickId;

#[derive(Debug, PartialEq, Eq)]
enum GameInput {
    Jumping(bool),
    MoveHorizontal(i32),
}

#[test]
fn pending_steps_add_step() {
    let mut steps = PendingSteps::<GameInput>::new(32, 10);
    let first_tick_id: TickId = 12;
    steps
        .set(first_tick_id, Custom(GameInput::MoveHorizontal(-2)))
        .expect("this should work");
    assert_eq!(steps.front_tick_id(), None);
    assert_eq!(steps.is_empty(), true);
    steps
        .set(first_tick_id - 2, Custom(GameInput::Jumping(false)))
        .expect("this should work");
    assert_eq!(steps.is_empty(), false);
    let first_jumping_step = steps.pop();
    assert_eq!(first_jumping_step.tick_id, first_tick_id - 2);
    assert_eq!(steps.front_tick_id().unwrap(), 10);
    steps.discard_up_to(first_tick_id);
    assert_eq!(steps.is_empty(), false);
    steps.discard_up_to(first_tick_id + 1);
    assert_eq!(steps.is_empty(), true);
}

#[test]
fn window_scenario_with_payloads() {
    let mut steps = PendingSteps::<GameInput>::new(32, 10);
    assert!(steps.set(12, Custom(GameInput::MoveHorizontal(-2))).is_ok());
    assert!(steps.is_empty());
    assert!(steps.set(10, Custom(GameInput::Jumping(false))).is_ok());
    assert!(!steps.is_empty());
    let front = steps.pop();
    assert_eq!(front.tick_id, 10);
    assert_eq!(front.step, Custom(GameInput::Jumping(false)));
    steps.discard_up_to(12);
    assert!(!steps.is_empty());
    assert_eq!(steps.front_tick_id(), Some(12));
    let front = steps.pop();
    assert_eq!(front.tick_id, 12);
    assert_eq!(front.step, Custom(GameInput::MoveHorizontal(-2)));
    steps.discard_up_to(13);
    assert!(steps.is_empty());
    assert_eq!(steps.front_tick_id(), None);
}

#[test]
fn new_window_is_empty() {
    let mut steps = PendingSteps::<GameInput>::new(4, 100);
    assert!(steps.is_empty());
    assert_eq!(steps.front_tick_id(), None);
    for tick in 101..104 {
        steps.discard_up_to(tick);
        assert!(steps.is_empty());
    }
}

#[test]
fn set_succeeds_exactly_in_the_window() {
    let mut steps = PendingSteps::<GameInput>::new(4, 100);
    assert!(steps.set(99, Step::Forced).is_err());
    assert!(steps.set(0, Step::Forced).is_err());
    assert!(steps.set(100, Step::Forced).is_ok());
    assert!(steps.set(101, Step::Forced).is_ok());
    assert!(steps.set(103, Step::Forced).is_ok());
    assert!(steps.set(104, Step::Forced).is_err());
    assert!(steps.set(u32::MAX, Step::Forced).is_err());
}

#[test]
fn set_out_of_window_gives_the_error_text() {
    let mut steps = PendingSteps::<GameInput>::new(4, 100);
    assert_eq!(
        steps.set(104, Step::Forced),
        Err("pending_steps: out of scope".to_string())
    );
    assert_eq!(
        steps.set(99, Step::Forced),
        Err("pending_steps: out of scope".to_string())
    );
    assert_eq!(steps.set(102, Step::Forced), Ok(()));
}

#[test]
fn rejected_set_changes_nothing() {
    let mut steps = PendingSteps::<GameInput>::new(2, 50);
    assert!(steps.set(50, Custom(GameInput::MoveHorizontal(1))).is_ok());
    assert!(steps.set(52, Custom(GameInput::MoveHorizontal(2))).is_err());
    assert!(steps.set(49, Custom(GameInput::MoveHorizontal(3))).is_err());
    assert_eq!(steps.pop().step, Custom(GameInput::MoveHorizontal(1)));
    steps.discard_up_to(51);
    assert!(steps.is_empty());
    steps.discard_up_to(52);
    assert!(steps.is_empty());
}

#[test]
fn window_of_no_slots_takes_nothing() {
    let mut steps = PendingSteps::<GameInput>::new(0, 10);
    assert!(steps.set(10, Step::Forced).is_err());
    assert!(steps.set(11, Step::Forced).is_err());
    assert!(steps.is_empty());
    assert_eq!(steps.front_tick_id(), None);
    steps.discard_up_to(20);
    assert!(steps.is_empty());
    assert!(steps.set(20, Step::Forced).is_err());
}

#[test]
fn a_later_set_overwrites() {
    let mut steps = PendingSteps::<GameInput>::new(8, 0);
    assert!(steps.set(0, Custom(GameInput::MoveHorizontal(1))).is_ok());
    assert!(steps.set(3, Custom(GameInput::MoveHorizontal(3))).is_ok());
    assert!(steps.set(0, Custom(GameInput::MoveHorizontal(2))).is_ok());
    assert_eq!(steps.pop().step, Custom(GameInput::MoveHorizontal(2)));
    assert_eq!(steps.pop().tick_id, 0);
    steps.discard_up_to(3);
    assert_eq!(steps.pop().step, Custom(GameInput::MoveHorizontal(3)));
}

#[test]
fn pop_does_not_evict() {
    let mut steps = PendingSteps::<GameInput>::new(8, 5);
    assert!(steps.set(5, Custom(GameInput::Jumping(true))).is_ok());
    assert_eq!(steps.pop().step, Custom(GameInput::Jumping(true)));
    assert_eq!(steps.pop().step, Custom(GameInput::Jumping(true)));
    assert!(!steps.is_empty());
    assert_eq!(steps.front_tick_id(), Some(5));
}

#[test]
fn discard_up_to_a_tick_at_or_behind_the_front_is_a_no_op() {
    let mut steps = PendingSteps::<GameInput>::new(4, 100);
    assert!(steps.set(100, Custom(GameInput::MoveHorizontal(7))).is_ok());
    assert!(steps.set(102, Custom(GameInput::MoveHorizontal(9))).is_ok());
    steps.discard_up_to(100);
    assert_eq!(steps.front_tick_id(), Some(100));
    steps.discard_up_to(99);
    assert_eq!(steps.front_tick_id(), Some(100));
    steps.discard_up_to(0);
    assert_eq!(steps.front_tick_id(), Some(100));
    assert_eq!(steps.pop().step, Custom(GameInput::MoveHorizontal(7)));
    assert!(steps.set(103, Step::Forced).is_ok());
    assert!(steps.set(104, Step::Forced).is_err());
    steps.discard_up_to(102);
    assert_eq!(steps.pop().step, Custom(GameInput::MoveHorizontal(9)));
}

#[test]
fn discard_up_to_moves_the_window() {
    let mut steps = PendingSteps::<GameInput>::new(4, 100);
    for tick in 100..104 {
        assert!(steps.set(tick, Custom(GameInput::MoveHorizontal(tick as i32))).is_ok());
    }
    steps.discard_up_to(102);
    assert_eq!(steps.front_tick_id(), Some(102));
    assert_eq!(steps.pop().step, Custom(GameInput::MoveHorizontal(102)));
    assert!(steps.set(101, Step::Forced).is_err());
    assert!(steps.set(106, Step::Forced).is_err());
    assert!(steps.set(105, Custom(GameInput::MoveHorizontal(105))).is_ok());
    steps.discard_up_to(103);
    assert_eq!(steps.pop().step, Custom(GameInput::MoveHorizontal(103)));
    steps.discard_up_to(104);
    assert!(steps.is_empty());
    steps.discard_up_to(105);
    assert_eq!(steps.pop().step, Custom(GameInput::MoveHorizontal(105)));
    assert_eq!(steps.pop().tick_id, 105);
}

#[test]
fn discard_past_the_whole_window_empties_it() {
    let mut steps = PendingSteps::<GameInput>::new(4, 100);
    for tick in 100..104 {
        assert!(steps.set(tick, Step::Forced).is_ok());
    }
    steps.discard_up_to(1000);
    assert!(steps.is_empty());
    assert!(steps.set(103, Step::Forced).is_err());
    assert!(steps.set(999, Step::Forced).is_err());
    assert!(steps.set(1004, Step::Forced).is_err());
    assert!(steps.set(1003, Step::Forced).is_ok());
    assert!(steps.set(1000, Custom(GameInput::Jumping(true))).is_ok());
    assert_eq!(steps.front_tick_id(), Some(1000));
    for tick in 1001..1003 {
        steps.discard_up_to(tick);
        assert!(steps.is_empty());
    }
    steps.discard_up_to(1003);
    assert_eq!(steps.front_tick_id(), Some(1003));
}

#[test]
fn discard_by_exactly_the_window_size() {
    let mut steps = PendingSteps::<GameInput>::new(3, 7);
    for tick in 7..10 {
        assert!(steps.set(tick, Step::Forced).is_ok());
    }
    steps.discard_up_to(10);
    assert!(steps.is_empty());
    assert!(steps.set(12, Custom(GameInput::MoveHorizontal(12))).is_ok());
    assert!(steps.set(13, Step::Forced).is_err());
    steps.discard_up_to(11);
    assert!(steps.is_empty());
    steps.discard_up_to(12);
    assert_eq!(steps.pop().step, Custom(GameInput::MoveHorizontal(12)));
}

#[test]
fn steps_keep_their_payload_through_evictions() {
    let mut steps = PendingSteps::<GameInput>::new(16, 0);
    let order = [9u32, 2, 14, 0, 5, 11, 3, 8, 1, 15, 6];
    for tick in order {
        assert!(steps.set(tick, Custom(GameInput::MoveHorizontal(tick as i32 * 10))).is_ok());
    }
    for tick in 0..16u32 {
        steps.discard_up_to(tick);
        if order.contains(&tick) {
            assert_eq!(steps.front_tick_id(), Some(tick));
            let front = steps.pop();
            assert_eq!(front.tick_id, tick);
            assert_eq!(front.step, Custom(GameInput::MoveHorizontal(tick as i32 * 10)));
        } else {
            assert!(steps.is_empty());
            assert_eq!(steps.front_tick_id(), None);
        }
    }
}

#[test]
fn window_slides_many_times_round() {
    let mut steps = PendingSteps::<GameInput>::new(5, 1000);
    for tick in 1000..1100u32 {
        steps.discard_up_to(tick);
        assert!(steps.set(tick + 4, Custom(GameInput::MoveHorizontal(tick as i32 + 4))).is_ok());
        assert!(steps.set(tick + 5, Step::Forced).is_err());
        if tick >= 1004 {
            let front = steps.pop();
            assert_eq!(front.tick_id, tick);
            assert_eq!(front.step, Custom(GameInput::MoveHorizontal(tick as i32)));
        } else {
            assert!(steps.is_empty());
        }
    }
}

#[test]
fn window_across_the_tick_boundary() {
    let mut steps = PendingSteps::<GameInput>::new(4, u32::MAX - 1);
    assert!(steps.set(u32::MAX - 2, Step::Forced).is_err());
    assert!(steps.set(u32::MAX - 1, Custom(GameInput::MoveHorizontal(1))).is_ok());
    assert!(steps.set(u32::MAX, Custom(GameInput::MoveHorizontal(2))).is_ok());
    assert!(steps.set(0, Custom(GameInput::MoveHorizontal(3))).is_ok());
    assert!(steps.set(1, Custom(GameInput::MoveHorizontal(4))).is_ok());
    assert!(steps.set(2, Step::Forced).is_err());
    assert_eq!(steps.front_tick_id(), Some(u32::MAX - 1));
    steps.discard_up_to(0);
    assert_eq!(steps.front_tick_id(), Some(0));
    assert_eq!(steps.pop().step, Custom(GameInput::MoveHorizontal(3)));
    steps.discard_up_to(u32::MAX);
    assert_eq!(steps.front_tick_id(), Some(0));
    steps.discard_up_to(1);
    assert_eq!(steps.pop().step, Custom(GameInput::MoveHorizontal(4)));
    assert!(steps.set(4, Step::Forced).is_ok());
    assert!(steps.set(5, Step::Forced).is_err());
}

#[test]
fn a_tick_half_a_turn_ahead_counts_as_behind() {
    let mut steps = PendingSteps::<GameInput>::new(4, 0);
    assert!(steps.set(0, Custom(GameInput::Jumping(true))).is_ok());
    steps.discard_up_to(0x8000_0000);
    assert_eq!(steps.front_tick_id(), Some(0));
    steps.discard_up_to(0x8000_0005);
    assert_eq!(steps.front_tick_id(), Some(0));
    steps.discard_up_to(0x7fff_ffff);
    assert!(steps.is_empty());
    assert!(steps.set(0x7fff_ffff, Step::Forced).is_ok());
    assert!(steps.set(0, Step::Forced).is_err());
}

#[test]
fn forced_and_reconnect_steps_round_trip() {
    let mut steps = PendingSteps::<GameInput>::new(3, 1);
    assert!(steps.set(2, Step::WaitingForReconnect).is_ok());
    assert!(steps.set(1, Step::Forced).is_ok());
    assert_eq!(steps.pop().step, Step::Forced);
    steps.discard_up_to(2);
    assert_eq!(steps.pop().step, Step::WaitingForReconnect);
    assert_eq!(steps.pop().tick_id, 2);
}
