//! The calls that run the selection of promised wins, one reading of the
//! budget and one step at a time.

use vstd::prelude::*;
use vstd::std_specs::hash::group_hash_axioms;
use crate::error::LaunchpadError;
use crate::guaranteed_ticket_winners::{
    leftover_step, lemma_distribution_fits_encoding, lemma_selection_round_trip,
    selection_encoding, selection_step, GuaranteedTicketWinnersModule,
    GuaranteedTicketsSelectionOperation, SelectionState,
};
use crate::guaranteed_tickets_init::{fresh_selection, GuaranteedTicketsLaunchpad, LaunchpadState};
use crate::launch_stage::{launch_stage_at, Flags, LaunchStage, LaunchStageModule};
use crate::ongoing_operation::{
    additional_selection_progress, budget_allows, GasTracker, OngoingOperationModule,
    OperationCompletionStatus, OperationRecord, CONTINUE_OP, STOP_OP,
};
use crate::random::{Random, RandomState};
use crate::tickets::lemma_count_winning_bound;

verus! {

broadcast use group_hash_axioms;

/// A call that selects promised wins: the state of the selection, which of
/// its two steps it has reached, and the budget accounting of the call.
pub struct DistributionRun {
    pub op: GuaranteedTicketsSelectionOperation,
    /// Whether every promise has been looked at, so that what is left is drawn.
    pub distributing_leftover: bool,
    pub tracker: GasTracker,
}

/// The state from which a call goes on with the selection of promised
/// wins at block `current_block`, or the reason for which it may not. The
/// selection takes place during winner selection, after the base winners
/// are selected, once. It goes on from the state that an interrupted call
/// has saved; one that starts now draws from the seed `fresh_seed`.
pub open spec fn distribution_start(s: LaunchpadState, current_block: u64, fresh_seed: Seq<u8>) -> Result<
    SelectionState,
    LaunchpadError,
> {
    if launch_stage_at(current_block, s.configuration, s.flags) != LaunchStage::WinnerSelection {
        Err(LaunchpadError::NotInWinnerSelectionPeriod)
    } else if !s.flags.were_winners_selected {
        Err(LaunchpadError::WinnersNotSelected)
    } else if s.flags.was_additional_step_completed {
        Err(LaunchpadError::AlreadyDistributed)
    } else {
        additional_selection_progress::<GuaranteedTicketsSelectionOperation>(
            s.operation,
            fresh_selection(RandomState { seed: fresh_seed, index: 0 }),
        )
    }
}

/// The launch once the selection of promised wins is done: no operation
/// is under way, the step is recorded as done, and the tickets that the
/// selection has made win count among the winning tickets.
pub open spec fn distribution_completed(s: LaunchpadState, op: SelectionState) -> LaunchpadState {
    LaunchpadState {
        operation: OperationRecord::Empty,
        flags: Flags { was_additional_step_completed: true, ..s.flags },
        nr_winning_tickets: (s.nr_winning_tickets + op.total_additional_winning_tickets) as usize,
        ..s
    }
}

/// The allowances of `user` on the two tracks, the number of tickets that
/// the user has confirmed, and the wins promised on the two tracks.
pub open spec fn tickets_status_of(s: LaunchpadState, user: u64) -> (usize, usize, usize, usize, usize) {
    let status = s.user_ticket_status[user];
    (
        status.staking_tickets_allowance,
        status.energy_tickets_allowance,
        s.tickets.confirmed_tickets(user),
        status.staking_guaranteed_tickets,
        status.migration_guaranteed_tickets,
    )
}

/// The calls of a launch in which some users are promised wins.
pub trait LaunchpadMigrationGuaranteedTickets: View<V = LaunchpadState> + Sized {
    /// Starts a call that selects promised wins, or goes on with the
    /// selection that an earlier call left: see [`distribution_start`].
    fn begin_distribution(&self, current_block: u64, fresh_seed: [u8; 32]) -> (res: Result<
        DistributionRun,
        LaunchpadError,
    >)
        requires
            self@.wf(),
        ensures
            match res {
                Ok(run) => {
                    &&& distribution_start(self@, current_block, fresh_seed@) == Ok::<
                        SelectionState,
                        LaunchpadError,
                    >(run.op@)
                    &&& !run.distributing_leftover
                    &&& run.tracker == GasTracker { gas_before: None, gas_per_iteration: 0 }
                    &&& self@.wf_while_distributing(run.op@)
                },
                Err(e) => distribution_start(self@, current_block, fresh_seed@) == Err::<
                    SelectionState,
                    LaunchpadError,
                >(e),
            },
    ;

    /// Takes the reading `gas_left` and, where the budget allows, makes
    /// one step of the selection. Answers how the call ended once it has.
    ///
    /// Where the budget does not allow a step, the state of the selection
    /// is saved and the call is interrupted. A step of the first kind
    /// that finds no promise left to look at ends the first part: from
    /// then on what is left is drawn, under a new budget accounting. A
    /// step of the second kind that finds nothing left to draw completes
    /// the selection: see [`distribution_completed`].
    fn continue_distribution(&mut self, run: &mut DistributionRun, gas_left: u64) -> (status: Option<
        OperationCompletionStatus,
    >)
        requires
            old(self)@.wf_while_distributing(old(run).op@),
        ensures
            !budget_allows(gas_left, old(run).tracker.worst_cost(gas_left)) ==> {
                &&& status == Some(OperationCompletionStatus::InterruptedBeforeOutOfGas)
                &&& *final(run) == (DistributionRun {
                    tracker: old(run).tracker.after_reading(gas_left),
                    ..*old(run)
                })
                &&& final(self)@ == (LaunchpadState {
                    operation: OperationRecord::AdditionalSelection {
                        encoded_data: selection_encoding(old(run).op@),
                    },
                    ..old(self)@
                })
                &&& final(self)@.wf()
            },
            budget_allows(gas_left, old(run).tracker.worst_cost(gas_left)) && !old(
                run,
            ).distributing_leftover ==> {
                let step = selection_step(old(self)@, old(run).op@);
                &&& status is None
                &&& final(run).op@ == step.1
                &&& step.2 == CONTINUE_OP ==> {
                    &&& final(self)@ == step.0
                    &&& !final(run).distributing_leftover
                    &&& final(run).tracker == old(run).tracker.after_reading(gas_left)
                }
                &&& step.2 == STOP_OP ==> {
                    &&& final(self)@ == (LaunchpadState {
                        operation: OperationRecord::Empty,
                        ..old(self)@
                    })
                    &&& final(run).distributing_leftover
                    &&& final(run).tracker == GasTracker { gas_before: None, gas_per_iteration: 0 }
                }
                &&& final(self)@.wf_while_distributing(final(run).op@)
            },
            budget_allows(gas_left, old(run).tracker.worst_cost(gas_left)) && old(
                run,
            ).distributing_leftover ==> {
                let step = leftover_step(old(self)@, old(run).op@);
                &&& final(run).op@ == step.1
                &&& final(run).distributing_leftover
                &&& final(run).tracker == old(run).tracker.after_reading(gas_left)
                &&& step.2 == CONTINUE_OP ==> {
                    &&& status is None
                    &&& final(self)@ == step.0
                    &&& final(self)@.wf_while_distributing(final(run).op@)
                }
                &&& step.2 == STOP_OP ==> {
                    &&& status == Some(OperationCompletionStatus::Completed)
                    &&& final(self)@ == distribution_completed(old(self)@, step.1)
                    &&& final(self)@.wf()
                }
            },
            forall|id: usize|
                old(self)@.tickets.is_winning(id) ==> #[trigger] final(self)@.tickets.is_winning(id),
    ;

    /// What is recorded for `address`: see [`tickets_status_of`].
    fn user_tickets_status(&self, address: u64) -> (res: Result<
        (usize, usize, usize, usize, usize),
        LaunchpadError,
    >)
        ensures
            res == if self@.user_ticket_status.contains_key(address) {
                Ok::<(usize, usize, usize, usize, usize), LaunchpadError>(
                    tickets_status_of(self@, address),
                )
            } else {
                Err::<(usize, usize, usize, usize, usize), LaunchpadError>(
                    LaunchpadError::UserNotFound,
                )
            },
    ;
}

impl LaunchpadMigrationGuaranteedTickets for GuaranteedTicketsLaunchpad {
    fn begin_distribution(&self, current_block: u64, fresh_seed: [u8; 32]) -> (res: Result<
        DistributionRun,
        LaunchpadError,
    >) {
        match self.clock.require_winner_selection_period(current_block) {
            Ok(()) => {},
            Err(e) => {
                return Err(e);
            },
        }
        if !self.clock.flags.were_winners_selected {
            return Err(LaunchpadError::WinnersNotSelected);
        }
        if self.clock.flags.was_additional_step_completed {
            return Err(LaunchpadError::AlreadyDistributed);
        }
        let fresh = GuaranteedTicketsSelectionOperation::new(Random::from_hash(fresh_seed, 0));
        assert(fresh@ == fresh_selection(RandomState { seed: fresh_seed@, index: 0 }));
        let op = match self.checkpoint.load_additional_selection_operation(fresh) {
            Ok(op) => op,
            Err(e) => {
                return Err(e);
            },
        };
        Ok(DistributionRun { op, distributing_leftover: false, tracker: GasTracker::new() })
    }

    fn continue_distribution(&mut self, run: &mut DistributionRun, gas_left: u64) -> (status: Option<
        OperationCompletionStatus,
    >) {
        if !run.tracker.may_run_step(gas_left) {
            proof {
                lemma_distribution_fits_encoding(self@, run.op@);
                lemma_selection_round_trip(run.op@);
            }
            self.checkpoint.save_additional_selection_progress(&run.op);
            return Some(OperationCompletionStatus::InterruptedBeforeOutOfGas);
        }
        if !run.distributing_leftover {
            if self.select_guaranteed_tickets_step(&mut run.op) == STOP_OP {
                self.checkpoint.clear_operation();
                run.distributing_leftover = true;
                run.tracker = GasTracker::new();
            }
            None
        } else {
            if self.distribute_leftover_tickets_step(&mut run.op) == STOP_OP {
                proof {
                    lemma_count_winning_bound(
                        self@.tickets.ticket_status,
                        1,
                        self@.tickets.last_ticket_id as int,
                    );
                }
                self.checkpoint.clear_operation();
                self.clock.flags.was_additional_step_completed = true;
                self.nr_winning_tickets += run.op.total_additional_winning_tickets;
                return Some(OperationCompletionStatus::Completed);
            }
            None
        }
    }

    fn user_tickets_status(&self, address: u64) -> (res: Result<
        (usize, usize, usize, usize, usize),
        LaunchpadError,
    >) {
        let user_ticket_status = match self.user_ticket_status.get(&address) {
            Some(status) => *status,
            None => {
                return Err(LaunchpadError::UserNotFound);
            },
        };
        let user_confirmed_tickets_no = self.tickets.get_nr_confirmed_tickets(address);
        Ok(
            (
                user_ticket_status.staking_tickets_allowance,
                user_ticket_status.energy_tickets_allowance,
                user_confirmed_tickets_no,
                user_ticket_status.staking_guaranteed_tickets,
                user_ticket_status.migration_guaranteed_tickets,
            ),
        )
    }
}

/// The launch as an interrupted call leaves it: the state `op` of the
/// selection is kept, as bytes, as the progress of the operation under way.
pub open spec fn distribution_interrupted(s: LaunchpadState, op: SelectionState) -> LaunchpadState {
    LaunchpadState {
        operation: OperationRecord::AdditionalSelection { encoded_data: selection_encoding(op) },
        ..s
    }
}

/// A call that goes on, during winner selection, after an interrupted
/// one finds the selection in the state in which the interrupted call left
/// it: what was saved is what is loaded, whatever seed the later call
/// brings, and the launch is as the interrupted call left it.
pub proof fn lemma_interrupted_selection_resumes(
    s: LaunchpadState,
    op: SelectionState,
    current_block: u64,
    fresh_seed: Seq<u8>,
)
    requires
        s.wf_while_distributing(op),
        launch_stage_at(current_block, s.configuration, s.flags) == LaunchStage::WinnerSelection,
    ensures
        distribution_interrupted(s, op).wf(),
        distribution_start(distribution_interrupted(s, op), current_block, fresh_seed) == Ok::<
            SelectionState,
            LaunchpadError,
        >(op),
        distribution_interrupted(s, op).wf_while_distributing(op),
{
    lemma_distribution_fits_encoding(s, op);
    lemma_selection_round_trip(op);
}

/// A call that goes on after one that was interrupted while it drew what
/// is left starts, as every call, with a step of the first kind; that
/// step finds no user on the list and changes nothing.
pub proof fn lemma_resumed_selection_is_done(s: LaunchpadState, op: SelectionState)
    requires
        s.users_with_guaranteed_ticket.len() == 0,
    ensures
        selection_step(s, op) == (s, op, STOP_OP),
{
}

} // verus!
