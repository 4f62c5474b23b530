use launchpad::codec::CheckpointPayload;
use launchpad::error::LaunchpadError;
use launchpad::guaranteed_ticket_winners::GuaranteedTicketsSelectionOperation;
use launchpad::ongoing_operation::{
    can_continue_operation, CheckpointStore, GasTracker, NextAction, OngoingOperationModule,
    OngoingOperationType, OperationCompletionStatus, CONTINUE_OP, MIN_GAS_TO_SAVE_PROGRESS,
    STOP_OP,
};
use launchpad::random::Random;

fn rng() -> Random {
    Random::from_hash([3u8; 32], 4)
}

fn all_records() -> Vec<OngoingOperationType> {
    vec![
        OngoingOperationType::Empty,
        OngoingOperationType::FilterTickets { first_ticket_id_in_batch: 9, nr_removed: 2 },
        OngoingOperationType::SelectWinners { rng: rng(), ticket_position: 5 },
        OngoingOperationType::AdditionalSelection {
            encoded_data: GuaranteedTicketsSelectionOperation::new(rng()).encode(),
        },
    ]
}

#[test]
fn a_new_store_holds_no_operation() {
    let store = CheckpointStore::new();
    assert_eq!(store.current_ongoing_operation, OngoingOperationType::Empty);
}

#[test]
fn save_and_clear() {
    let mut store = CheckpointStore::new();
    for record in all_records() {
        store.save_progress(record.clone());
        assert_eq!(store.current_ongoing_operation, record);
    }
    store.clear_operation();
    assert_eq!(store.current_ongoing_operation, OngoingOperationType::Empty);
}

#[test]
fn load_filter_tickets_operation_of_each_record() {
    let mut store = CheckpointStore::new();
    // a fresh run starts at the first ticket
    assert_eq!(store.load_filter_tickets_operation(), Ok((1, 0)));
    store.save_progress(all_records()[1].clone());
    assert_eq!(store.load_filter_tickets_operation(), Ok((9, 2)));
    for record in [all_records()[2].clone(), all_records()[3].clone()] {
        store.save_progress(record);
        assert_eq!(
            store.load_filter_tickets_operation(),
            Err(LaunchpadError::AnotherOperationInProgress)
        );
    }
}

#[test]
fn load_select_winners_operation_of_each_record() {
    let fresh = Random::from_hash([8u8; 32], 0);
    let mut store = CheckpointStore::new();
    assert_eq!(store.load_select_winners_operation(fresh), Ok((fresh, 1)));
    store.save_progress(all_records()[2].clone());
    assert_eq!(store.load_select_winners_operation(fresh), Ok((rng(), 5)));
    for record in [all_records()[1].clone(), all_records()[3].clone()] {
        store.save_progress(record);
        assert_eq!(
            store.load_select_winners_operation(fresh),
            Err(LaunchpadError::AnotherOperationInProgress)
        );
    }
}

#[test]
fn load_additional_selection_operation_of_each_record() {
    let fresh = GuaranteedTicketsSelectionOperation::new(Random::from_hash([8u8; 32], 0));
    let mut store = CheckpointStore::new();
    assert_eq!(store.load_additional_selection_operation(fresh), Ok(fresh));

    let saved = GuaranteedTicketsSelectionOperation {
        rng: rng(),
        leftover_tickets: 4,
        leftover_ticket_pos_offset: 3,
        total_additional_winning_tickets: 2,
    };
    store.save_additional_selection_progress(&saved);
    assert_eq!(
        store.current_ongoing_operation,
        OngoingOperationType::AdditionalSelection { encoded_data: saved.encode() }
    );
    assert_eq!(store.load_additional_selection_operation(fresh), Ok(saved));

    for record in [all_records()[1].clone(), all_records()[2].clone()] {
        store.save_progress(record);
        assert_eq!(
            store.load_additional_selection_operation(fresh),
            Err(LaunchpadError::AnotherOperationInProgress)
        );
    }
}

#[test]
fn load_additional_selection_operation_of_bytes_that_do_not_decode() {
    let fresh = GuaranteedTicketsSelectionOperation::new(rng());
    let mut store = CheckpointStore::new();
    store.save_progress(OngoingOperationType::AdditionalSelection { encoded_data: vec![1, 2, 3] });
    let loaded = store.load_additional_selection_operation(fresh);
    assert_eq!(loaded, Err(LaunchpadError::CheckpointDecodeFailed));
    assert_eq!(
        loaded.unwrap_err().message(),
        "Failed to deserialize custom ongoing operation"
    );
    // the state of one selection is not that of another
    assert_eq!(
        store.load_additional_selection_operation(rng()),
        Err(LaunchpadError::CheckpointDecodeFailed)
    );
}

#[test]
fn a_generator_is_kept_and_loaded_as_a_payload_too() {
    let mut store = CheckpointStore::new();
    let fresh = Random::from_hash([8u8; 32], 0);
    assert_eq!(store.load_additional_selection_operation(fresh), Ok(fresh));
    store.save_additional_selection_progress(&rng());
    assert_eq!(store.load_additional_selection_operation(fresh), Ok(rng()));
}

#[test]
fn another_operation_message() {
    assert_eq!(
        LaunchpadError::AnotherOperationInProgress.message(),
        "Another ongoing operation is in progress"
    );
}

#[test]
fn can_continue_operation_needs_more_than_reserve_and_cost() {
    assert_eq!(MIN_GAS_TO_SAVE_PROGRESS, 10_000_000);
    assert!(!can_continue_operation(0, 0));
    assert!(!can_continue_operation(9_999_999, 0));
    assert!(!can_continue_operation(10_000_000, 0));
    assert!(can_continue_operation(10_000_001, 0));
    assert!(!can_continue_operation(10_000_500, 500));
    assert!(can_continue_operation(10_000_501, 500));
    // a cost that no budget covers
    assert!(!can_continue_operation(u64::MAX, u64::MAX));
    assert!(!can_continue_operation(u64::MAX, u64::MAX - 10_000_000));
    assert!(can_continue_operation(u64::MAX, u64::MAX - 10_000_001));
}

#[test]
fn a_budget_below_the_reserve_allows_no_step() {
    let mut store = CheckpointStore::new();
    for record in all_records() {
        store.save_progress(record.clone());
        let mut tracker = GasTracker::new();
        let action = store.run_while_it_has_gas(&mut tracker, None, MIN_GAS_TO_SAVE_PROGRESS - 1);
        assert_eq!(
            action,
            NextAction::Finish(OperationCompletionStatus::InterruptedBeforeOutOfGas)
        );
        // what is kept is what was kept before the call
        assert_eq!(store.current_ongoing_operation, record);
    }
}

#[test]
fn a_budget_at_the_reserve_allows_no_step_and_one_above_it_does() {
    let mut tracker = GasTracker::new();
    assert!(!tracker.may_run_step(MIN_GAS_TO_SAVE_PROGRESS));
    let mut tracker = GasTracker::new();
    assert!(tracker.may_run_step(MIN_GAS_TO_SAVE_PROGRESS + 1));
}

#[test]
fn the_tracker_keeps_the_largest_cost_of_a_step() {
    let mut tracker = GasTracker::new();
    assert_eq!(tracker, GasTracker { gas_before: None, gas_per_iteration: 0 });
    assert!(tracker.may_run_step(100_000_000));
    assert_eq!(tracker, GasTracker { gas_before: Some(100_000_000), gas_per_iteration: 0 });
    // a step of cost 30 000 000
    assert!(tracker.may_run_step(70_000_000));
    assert_eq!(tracker.gas_per_iteration, 30_000_000);
    // a step of cost 5 000 000: the largest cost stays
    assert!(tracker.may_run_step(65_000_000));
    assert_eq!(tracker.gas_per_iteration, 30_000_000);
    assert_eq!(tracker.gas_before, Some(65_000_000));
    // a step of cost 25 000 000 leaves 40 000 000, which is not more than
    // the reserve and the largest cost together
    assert!(!tracker.may_run_step(40_000_000));
    assert_eq!(tracker.gas_per_iteration, 30_000_000);
}

#[test]
fn a_mean_would_go_on_where_the_largest_cost_stops() {
    let mut tracker = GasTracker::new();
    assert!(tracker.may_run_step(60_000_000));
    assert!(tracker.may_run_step(40_000_000)); // cost 20 000 000
    assert!(tracker.may_run_step(39_000_000)); // cost 1 000 000
    assert!(tracker.may_run_step(38_000_000)); // cost 1 000 000
    // the mean cost is below 8 000 000, the largest is 20 000 000
    assert!(!tracker.may_run_step(29_000_000));
}

#[test]
fn a_reading_that_went_up_counts_as_no_cost() {
    let mut tracker = GasTracker::new();
    assert!(tracker.may_run_step(20_000_000));
    assert!(tracker.may_run_step(50_000_000));
    assert_eq!(tracker.gas_per_iteration, 0);
    assert_eq!(tracker.gas_before, Some(50_000_000));
}

#[test]
fn run_while_it_has_gas_drives_a_countdown() {
    // a step that counts down from 3 and costs 1 000 000 each time
    let mut store = CheckpointStore::new();
    store.save_progress(OngoingOperationType::FilterTickets {
        first_ticket_id_in_batch: 1,
        nr_removed: 0,
    });
    let mut tracker = GasTracker::new();
    let mut gas_left: u64 = 50_000_000;
    let mut countdown = 3;
    let mut steps = 0;
    let mut last_step = None;
    let status = loop {
        match store.run_while_it_has_gas(&mut tracker, last_step, gas_left) {
            NextAction::RunStep => {
                steps += 1;
                gas_left -= 1_000_000;
                last_step = Some(if countdown == 0 {
                    STOP_OP
                } else {
                    countdown -= 1;
                    CONTINUE_OP
                });
            }
            NextAction::Finish(status) => break status,
        }
    };
    assert_eq!(status, OperationCompletionStatus::Completed);
    assert_eq!(steps, 4);
    assert_eq!(tracker.gas_per_iteration, 1_000_000);
    // the progress of a completed operation is cleared
    assert_eq!(store.current_ongoing_operation, OngoingOperationType::Empty);
}

#[test]
fn run_while_it_has_gas_interrupts_a_step_that_never_stops() {
    let record = OngoingOperationType::FilterTickets { first_ticket_id_in_batch: 4, nr_removed: 1 };
    let mut store = CheckpointStore::new();
    store.save_progress(record.clone());
    let mut tracker = GasTracker::new();
    let mut gas_left: u64 = 20_000_000;
    let mut steps = 0;
    let mut last_step = None;
    let status = loop {
        match store.run_while_it_has_gas(&mut tracker, last_step, gas_left) {
            NextAction::RunStep => {
                steps += 1;
                gas_left -= 3_000_000;
                last_step = Some(CONTINUE_OP);
            }
            NextAction::Finish(status) => break status,
        }
    };
    assert_eq!(status, OperationCompletionStatus::InterruptedBeforeOutOfGas);
    // readings 20, 17, 14 million allow a step; 11 million does not exceed
    // the reserve and the cost of 3 million together
    assert_eq!(steps, 3);
    assert_eq!(gas_left, 11_000_000);
    assert_eq!(store.current_ongoing_operation, record);
}
