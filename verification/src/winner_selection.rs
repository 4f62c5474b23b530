//! The selection of the base winners: a draw without replacement over the
//! positions of the tickets.

use vstd::prelude::*;
use vstd::std_specs::hash::group_hash_axioms;
use crate::error::LaunchpadError;
use crate::guaranteed_tickets_init::{GuaranteedTicketsLaunchpad, LaunchpadState};
use crate::launch_stage::{launch_stage_at, Flags, LaunchStage, LaunchStageModule};
use crate::ongoing_operation::{
    budget_allows, select_winners_progress, GasTracker, LoopOp, OngoingOperationModule,
    OngoingOperationType, OperationCompletionStatus, OperationRecord, CONTINUE_OP, STOP_OP,
};
use crate::random::{advanced, next_value, reduce_to_range, Random, RandomState};
use crate::tickets::{lemma_count_winning_insert, TicketsModule, TicketsState};

verus! {

broadcast use group_hash_axioms;

/// What the selection of the base winners relies on when it is about to
/// draw for position `position`: the tickets that have won are as many as
/// the positions before it, and the positions from it onwards hold the
/// tickets that have not won, each once.
pub open spec fn shuffle_wf(s: LaunchpadState, position: usize) -> bool {
    let last = s.tickets.last_ticket_id;
    &&& s.tickets.wf()
    &&& last < u32::MAX
    &&& s.nr_winning_tickets <= last
    &&& 1 <= position <= s.nr_winning_tickets + 1
    &&& s.tickets.winning_in_range(1, last as int) == position - 1
    &&& s.tickets.universe_covers_losing(position as int)
    &&& s.tickets.universe_distinct(position as int)
    &&& s.tickets.universe_all_losing(position as int)
}

impl TicketsState {
    /// Whether no ticket at a position of `[from, last_ticket_id]` has won.
    pub open spec fn universe_all_losing(self, from: int) -> bool {
        forall|pos: usize|
            from <= pos <= self.last_ticket_id ==> !self.is_winning(#[trigger] self.ticket_at(pos))
    }

    /// The tickets after a draw for position `current` that fell on
    /// position `rand_pos`: the ticket there has won, and the position holds
    /// the ticket of `current` from now on.
    pub open spec fn with_draw(self, current: usize, rand_pos: usize) -> TicketsState {
        self.with_redirect(rand_pos, self.ticket_at(current)).with_winning(self.ticket_at(rand_pos))
    }

    /// Before any draw no ticket of a range has won.
    pub proof fn lemma_untouched_count(self, first: int, last: int)
        requires
            self.draw_untouched(),
        ensures
            self.winning_in_range(first, last) == 0,
        decreases last - first + 1,
    {
        if !(last < first || first < 0 || last > usize::MAX) {
            self.lemma_untouched_count(first, last - 1);
            assert(!self.is_winning(last as usize));
        }
    }

    /// Before any draw the positions hold all tickets, each once, and none has won.
    pub proof fn lemma_untouched_universe(self)
        requires
            self.draw_untouched(),
        ensures
            self.universe_covers_losing(1),
            self.universe_distinct(1),
            self.universe_all_losing(1),
    {
        assert forall|id: usize| 1 <= id <= self.last_ticket_id && !self.is_winning(id) implies #[trigger] self.reachable(
            1,
            id,
        ) by {
            assert(self.ticket_at(id) == id);
        }
        assert forall|pos: usize| 1 <= pos <= self.last_ticket_id implies !self.is_winning(
            #[trigger] self.ticket_at(pos),
        ) by {
            assert(!self.is_winning(self.ticket_at(pos)));
        }
    }

    /// A draw leaves well-formed tickets.
    pub proof fn lemma_shuffle_result_wf(self, current: usize, rand_pos: usize)
        requires
            self.wf(),
            1 <= current <= self.last_ticket_id,
            1 <= rand_pos <= self.last_ticket_id,
        ensures
            self.with_draw(current, rand_pos).wf(),
    {
        let current_id = self.ticket_at(current);
        self.lemma_ticket_at_valid(current);
        let redirected = self.with_redirect(rand_pos, current_id);
        assert(redirected.wf()) by {
            assert forall|pos: usize| #[trigger]
                redirected.ticket_pos_to_id.contains_key(pos) implies {
                &&& 1 <= pos <= redirected.last_ticket_id
                &&& 1 <= redirected.ticket_pos_to_id[pos] <= redirected.last_ticket_id
            } by {
                if pos != rand_pos {
                    assert(self.ticket_pos_to_id.contains_key(pos));
                }
            }
            assert forall|user: u64| #[trigger]
                redirected.ticket_range_for_address.contains_key(user) implies {
                let range = redirected.ticket_range_for_address[user];
                &&& 1 <= range.first_id
                &&& range.first_id <= range.last_id + 1
                &&& range.last_id <= redirected.last_ticket_id
            } by {
                assert(self.ticket_range_for_address.contains_key(user));
            }
        }
        redirected.lemma_wf_ignores_status(self.with_draw(current, rand_pos));
    }

    /// A draw among positions whose tickets have not won leaves, behind
    /// the position drawn for, the tickets that have not won, each once.
    pub proof fn lemma_shuffle_keeps_universe(self, current: usize, rand_pos: usize)
        requires
            self.wf(),
            1 <= current <= rand_pos <= self.last_ticket_id,
            self.universe_covers_losing(current as int),
            self.universe_distinct(current as int),
            self.universe_all_losing(current as int),
        ensures
            self.with_draw(current, rand_pos).wf(),
            self.with_draw(current, rand_pos).universe_covers_losing(current + 1),
            self.with_draw(current, rand_pos).universe_distinct(current + 1),
            self.with_draw(current, rand_pos).universe_all_losing(current + 1),
            self.with_draw(current, rand_pos).winning_in_range(1, self.last_ticket_id as int)
                == self.winning_in_range(1, self.last_ticket_id as int) + 1,
    {
        let current_id = self.ticket_at(current);
        let winning_id = self.ticket_at(rand_pos);
        let after = self.with_draw(current, rand_pos);
        assert(!self.is_winning(current_id));
        assert(!self.is_winning(winning_id));
        self.lemma_ticket_at_valid(current);
        self.lemma_ticket_at_valid(rand_pos);
        self.lemma_draw_keeps_universe(current, rand_pos);
        lemma_count_winning_insert(self.ticket_status, winning_id, 1, self.last_ticket_id as int);
        assert(after.ticket_at(rand_pos) == current_id);
        assert forall|pos: usize| current + 1 <= pos <= after.last_ticket_id implies !after.is_winning(
            #[trigger] after.ticket_at(pos),
        ) by {
            if pos == rand_pos {
                assert(self.ticket_at(current) != self.ticket_at(rand_pos));
            } else {
                assert(after.ticket_at(pos) == self.ticket_at(pos));
                assert(self.ticket_at(pos) != self.ticket_at(rand_pos));
                assert(!self.is_winning(self.ticket_at(pos)));
            }
        }
        self.lemma_shuffle_result_wf(current, rand_pos);
    }
}

/// One draw of the selection of the base winners, for position
/// `position`; nothing once all of them are drawn.
pub open spec fn select_winners_step(s: LaunchpadState, rng: RandomState, position: usize) -> (
    LaunchpadState,
    RandomState,
    usize,
    LoopOp,
) {
    if position > s.nr_winning_tickets {
        (s, rng, position, STOP_OP)
    } else {
        let rand_pos = reduce_to_range(
            next_value(rng),
            position as nat,
            (s.tickets.last_ticket_id + 1) as nat,
        ) as usize;
        (
            LaunchpadState { tickets: s.tickets.with_draw(position, rand_pos), ..s },
            advanced(rng),
            (position + 1) as usize,
            CONTINUE_OP,
        )
    }
}

/// The launch, the generator and the position after `steps` draws.
pub open spec fn after_winner_steps(
    s: LaunchpadState,
    rng: RandomState,
    position: usize,
    steps: nat,
) -> (LaunchpadState, RandomState, usize)
    decreases steps,
{
    if steps == 0 {
        (s, rng, position)
    } else {
        let next = select_winners_step(s, rng, position);
        after_winner_steps(next.0, next.1, next.2, (steps - 1) as nat)
    }
}

/// Draws made in two parts leave what they leave when made in one: where
/// a call stops between two draws is of no consequence.
pub proof fn lemma_winner_steps_in_parts(
    s: LaunchpadState,
    rng: RandomState,
    position: usize,
    first_part: nat,
    second_part: nat,
)
    ensures
        after_winner_steps(s, rng, position, first_part + second_part) == ({
            let middle = after_winner_steps(s, rng, position, first_part);
            after_winner_steps(middle.0, middle.1, middle.2, second_part)
        }),
    decreases first_part,
{
    if first_part > 0 {
        let next = select_winners_step(s, rng, position);
        lemma_winner_steps_in_parts(next.0, next.1, next.2, (first_part - 1) as nat, second_part);
    }
}

/// A draw leaves a launch from which the selection can go on, makes a
/// ticket win that had not won, and takes no win back.
pub proof fn lemma_select_winners_step_keeps_wf(s: LaunchpadState, rng: RandomState, position: usize)
    requires
        s.wf_while_selecting(position),
    ensures
        ({
            let next = select_winners_step(s, rng, position);
            &&& next.0.wf_while_selecting(next.2)
            &&& next.2 == if position > s.nr_winning_tickets {
                position
            } else {
                (position + 1) as usize
            }
            &&& next.0.nr_winning_tickets == s.nr_winning_tickets
            &&& next.0.tickets.last_ticket_id == s.tickets.last_ticket_id
            &&& forall|id: usize| s.tickets.is_winning(id) ==> #[trigger] next.0.tickets.is_winning(id)
        }),
{
    if position <= s.nr_winning_tickets {
        let last = s.tickets.last_ticket_id;
        let drawn = next_value(rng) as int;
        let width = last + 1 - position;
        assert(0 <= drawn % width < width) by (nonlinear_arith)
            requires
                width > 0,
                drawn >= 0,
        {
        }
        let rand_pos = reduce_to_range(next_value(rng), position as nat, (last + 1) as nat) as usize;
        s.tickets.lemma_shuffle_keeps_universe(position, rand_pos);
    }
}

/// However many draws are made, the selection can go on from what they
/// leave and no win is taken back; each draw moves on by one position
/// until every base winner is drawn.
pub proof fn lemma_winner_steps_keep_wf(
    s: LaunchpadState,
    rng: RandomState,
    position: usize,
    steps: nat,
)
    requires
        s.wf_while_selecting(position),
    ensures
        ({
            let end = after_winner_steps(s, rng, position, steps);
            &&& end.0.wf_while_selecting(end.2)
            &&& end.2 == if position + steps > s.nr_winning_tickets + 1 {
                if position > s.nr_winning_tickets {
                    position
                } else {
                    (s.nr_winning_tickets + 1) as usize
                }
            } else {
                (position + steps) as usize
            }
            &&& end.0.nr_winning_tickets == s.nr_winning_tickets
            &&& end.0.tickets.last_ticket_id == s.tickets.last_ticket_id
            &&& forall|id: usize| s.tickets.is_winning(id) ==> #[trigger] end.0.tickets.is_winning(id)
        }),
    decreases steps,
{
    if steps > 0 {
        let next = select_winners_step(s, rng, position);
        lemma_select_winners_step_keeps_wf(s, rng, position);
        lemma_winner_steps_keep_wf(next.0, next.1, next.2, (steps - 1) as nat);
        let end = after_winner_steps(s, rng, position, steps);
        assert forall|id: usize| s.tickets.is_winning(id) implies #[trigger] end.0.tickets.is_winning(
            id,
        ) by {
            assert(next.0.tickets.is_winning(id));
        }
    }
}

/// The selection of the base winners comes to its end: after as many
/// draws as winners are still to be drawn, exactly as many tickets have
/// won as winners were asked for, and the next step answers that the
/// selection is done.
pub proof fn lemma_winner_selection_completes(s: LaunchpadState, rng: RandomState, position: usize)
    requires
        s.wf_while_selecting(position),
    ensures
        ({
            let end = after_winner_steps(
                s,
                rng,
                position,
                (s.nr_winning_tickets + 1 - position) as nat,
            );
            &&& end.0.tickets.winning_in_range(1, s.tickets.last_ticket_id as int)
                == s.nr_winning_tickets
            &&& select_winners_step(end.0, end.1, end.2).3 == STOP_OP
        }),
{
    lemma_winner_steps_keep_wf(s, rng, position, (s.nr_winning_tickets + 1 - position) as nat);
}

/// The launch in which the first `nr_winning_tickets` tickets have won and
/// the selection of the base winners is done.
pub open spec fn with_winners_by_position(s: LaunchpadState) -> LaunchpadState {
    LaunchpadState {
        tickets: TicketsState {
            ticket_status: Map::new(
                |id: usize|
                    s.tickets.ticket_status.contains_key(id) || 1 <= id <= s.nr_winning_tickets,
                |id: usize| 1 <= id <= s.nr_winning_tickets,
            ),
            ..s.tickets
        },
        flags: Flags {
            has_winner_selection_process_started: true,
            were_winners_selected: true,
            ..s.flags
        },
        ..s
    }
}

/// What asking for the selection of the base winners meets at block
/// `current_block`: it takes place during winner selection, once, while no
/// other operation is under way, and needs as many tickets as winners.
pub open spec fn winner_selection_outcome(s: LaunchpadState, current_block: u64) -> Result<
    (),
    LaunchpadError,
> {
    if launch_stage_at(current_block, s.configuration, s.flags) != LaunchStage::WinnerSelection {
        Err(LaunchpadError::NotInWinnerSelectionPeriod)
    } else if s.flags.were_winners_selected {
        Err(LaunchpadError::WinnersAlreadySelected)
    } else if !(s.operation is Empty || s.operation is SelectWinners) {
        Err(LaunchpadError::AnotherOperationInProgress)
    } else if s.nr_winning_tickets > s.tickets.last_ticket_id {
        Err(LaunchpadError::NotEnoughTickets)
    } else if s.tickets.last_ticket_id >= u32::MAX {
        Err(LaunchpadError::MaxTicketsReached)
    } else {
        Ok(())
    }
}

/// A call that selects base winners: the generator, the position to draw
/// for next, and the budget accounting of the call.
pub struct WinnerSelectionRun {
    pub rng: Random,
    pub ticket_position: usize,
    pub tracker: GasTracker,
}

/// The selection of the base winners.
pub trait WinnerSelectionModule: View<V = LaunchpadState> + Sized {
    /// Makes the first `nr_winning_tickets` tickets win, without a draw.
    /// No ticket may have been drawn before.
    fn select_winners_by_position(&mut self, current_block: u64) -> (res: Result<(), LaunchpadError>)
        requires
            old(self)@.wf(),
        ensures
            final(self)@.wf(),
            res == if winner_selection_outcome(old(self)@, current_block) is Err {
                winner_selection_outcome(old(self)@, current_block)
            } else if old(self)@.operation is SelectWinners {
                Err(LaunchpadError::AnotherOperationInProgress)
            } else {
                Ok(())
            },
            res is Err ==> final(self)@ == old(self)@,
            res is Ok ==> final(self)@ == with_winners_by_position(old(self)@),
            forall|id: usize|
                old(self)@.tickets.is_winning(id) ==> #[trigger] final(self)@.tickets.is_winning(id),
    ;

    /// Starts a call that draws base winners, or goes on with the draw
    /// that an earlier call left. A draw that starts now draws from the
    /// seed `fresh_seed`.
    fn begin_winner_selection(&self, current_block: u64, fresh_seed: [u8; 32]) -> (res: Result<
        WinnerSelectionRun,
        LaunchpadError,
    >)
        requires
            self@.wf(),
        ensures
            match res {
                Ok(run) => {
                    &&& winner_selection_outcome(self@, current_block) is Ok
                    &&& select_winners_progress(
                        self@.operation,
                        RandomState { seed: fresh_seed@, index: 0 },
                    ) == Ok::<(RandomState, usize), LaunchpadError>(
                        (run.rng@, run.ticket_position),
                    )
                    &&& run.tracker == GasTracker { gas_before: None, gas_per_iteration: 0 }
                    &&& self@.wf_while_selecting(run.ticket_position)
                },
                Err(e) => winner_selection_outcome(self@, current_block) == Err::<
                    (),
                    LaunchpadError,
                >(e),
            },
    ;

    /// Takes the reading `gas_left` and, where the budget allows, draws
    /// one base winner. Answers how the call ended once it has: with the
    /// progress saved where the budget ran low, with the selection
    /// recorded as done where nothing was left to draw.
    fn continue_winner_selection(&mut self, run: &mut WinnerSelectionRun, gas_left: u64) -> (status:
        Option<OperationCompletionStatus>)
        requires
            old(self)@.wf_while_selecting(old(run).ticket_position),
        ensures
            final(run).tracker == old(run).tracker.after_reading(gas_left),
            !budget_allows(gas_left, old(run).tracker.worst_cost(gas_left)) ==> {
                &&& status == Some(OperationCompletionStatus::InterruptedBeforeOutOfGas)
                &&& final(run).rng == old(run).rng
                &&& final(run).ticket_position == old(run).ticket_position
                &&& final(self)@ == (LaunchpadState {
                    operation: OperationRecord::SelectWinners {
                        rng: old(run).rng@,
                        ticket_position: old(run).ticket_position,
                    },
                    ..old(self)@
                })
                &&& final(self)@.wf()
            },
            budget_allows(gas_left, old(run).tracker.worst_cost(gas_left)) ==> {
                let step = select_winners_step(old(self)@, old(run).rng@, old(run).ticket_position);
                &&& final(run).rng@ == step.1
                &&& final(run).ticket_position == step.2
                &&& step.3 == CONTINUE_OP ==> {
                    &&& status is None
                    &&& final(self)@ == step.0
                    &&& final(self)@.wf_while_selecting(final(run).ticket_position)
                }
                &&& step.3 == STOP_OP ==> {
                    &&& status == Some(OperationCompletionStatus::Completed)
                    &&& final(self)@ == (LaunchpadState {
                        operation: OperationRecord::Empty,
                        flags: Flags {
                            has_winner_selection_process_started: true,
                            were_winners_selected: true,
                            ..old(self)@.flags
                        },
                        ..old(self)@
                    })
                    &&& final(self)@.wf()
                }
            },
            forall|id: usize|
                old(self)@.tickets.is_winning(id) ==> #[trigger] final(self)@.tickets.is_winning(id),
    ;
}

impl WinnerSelectionModule for GuaranteedTicketsLaunchpad {
    fn select_winners_by_position(&mut self, current_block: u64) -> (res: Result<(), LaunchpadError>) {
        match self.clock.require_winner_selection_period(current_block) {
            Ok(()) => {},
            Err(e) => {
                return Err(e);
            },
        }
        if self.clock.flags.were_winners_selected {
            return Err(LaunchpadError::WinnersAlreadySelected);
        }
        match &self.checkpoint.current_ongoing_operation {
            OngoingOperationType::Empty => {},
            _ => {
                return Err(LaunchpadError::AnotherOperationInProgress);
            },
        }
        let last_ticket_position = self.tickets.get_total_tickets();
        if self.nr_winning_tickets > last_ticket_position {
            return Err(LaunchpadError::NotEnoughTickets);
        }
        if last_ticket_position >= u32::MAX as usize {
            return Err(LaunchpadError::MaxTicketsReached);
        }
        let ghost start = self@;
        let mut ticket_id: usize = 1;
        proof {
            start.tickets.lemma_untouched_count(1, last_ticket_position as int);
            assert forall|id: usize| #[trigger]
                start.tickets.ticket_status.contains_key(id) implies !start.tickets.ticket_status[id] by {
                assert(!start.tickets.is_winning(id));
            }
        }
        while ticket_id <= self.nr_winning_tickets
            invariant
                start.wf(),
                start.tickets.draw_untouched(),
                start.nr_winning_tickets <= start.tickets.last_ticket_id < u32::MAX,
                1 <= ticket_id <= start.nr_winning_tickets + 1,
                self@ == (LaunchpadState {
                    tickets: TicketsState {
                        ticket_status: self@.tickets.ticket_status,
                        ..start.tickets
                    },
                    ..start
                }),
                self@.tickets.ticket_status =~= Map::new(
                    |id: usize| start.tickets.ticket_status.contains_key(id) || 1 <= id < ticket_id,
                    |id: usize| 1 <= id < ticket_id,
                ),
                self@.tickets.winning_in_range(1, start.tickets.last_ticket_id as int) == ticket_id
                    - 1,
            decreases start.nr_winning_tickets + 1 - ticket_id,
        {
            let ghost before = self@.tickets;
            assert(!before.is_winning(ticket_id)) by {
                assert(!start.tickets.is_winning(ticket_id));
            }
            self.tickets.set_winning(ticket_id);
            proof {
                lemma_count_winning_insert(
                    before.ticket_status,
                    ticket_id,
                    1,
                    start.tickets.last_ticket_id as int,
                );
                assert forall|id: usize| #[trigger]
                    start.tickets.ticket_status.contains_key(id) && !(1 <= id < ticket_id + 1) implies !start.tickets.ticket_status[id] by {
                    assert(!start.tickets.is_winning(id));
                }
            }
            ticket_id += 1;
        }
        self.clock.flags.has_winner_selection_process_started = true;
        self.clock.flags.were_winners_selected = true;
        proof {
            let after = self@;
            assert(after.tickets.ticket_status =~= with_winners_by_position(start).tickets.ticket_status);
            assert(after == with_winners_by_position(start));
            start.tickets.lemma_wf_ignores_status(after.tickets);
            let next_pos = (after.nr_winning_tickets + 1) as int;
            assert forall|pos: usize| #[trigger] after.tickets.ticket_at(pos) == pos by {
                assert(start.tickets.ticket_at(pos) == pos);
            }
            assert(after.tickets.universe_covers_losing(next_pos)) by {
                assert forall|id: usize|
                    1 <= id <= after.tickets.last_ticket_id && !after.tickets.is_winning(id) implies #[trigger] after.tickets.reachable(
                    next_pos,
                    id,
                ) by {
                    assert(after.tickets.ticket_at(id) == id);
                }
            }
            assert(after.tickets.universe_distinct(next_pos));
            assert(after.pending_distribution_wf()) by {
                assert forall|rng: RandomState|
                    rng.seed.len() == crate::random::HASH_LEN && rng.index
                        <= u32::MAX implies crate::guaranteed_ticket_winners::distribution_wf(
                    after,
                    #[trigger] crate::guaranteed_tickets_init::fresh_selection(rng),
                ) by {}
            }
        }
        Ok(())
    }

    fn begin_winner_selection(&self, current_block: u64, fresh_seed: [u8; 32]) -> (res: Result<
        WinnerSelectionRun,
        LaunchpadError,
    >) {
        match self.clock.require_winner_selection_period(current_block) {
            Ok(()) => {},
            Err(e) => {
                return Err(e);
            },
        }
        if self.clock.flags.were_winners_selected {
            return Err(LaunchpadError::WinnersAlreadySelected);
        }
        let (rng, ticket_position) = match self.checkpoint.load_select_winners_operation(
            Random::from_hash(fresh_seed, 0),
        ) {
            Ok(progress) => progress,
            Err(e) => {
                return Err(e);
            },
        };
        let last_ticket_position = self.tickets.get_total_tickets();
        if self.nr_winning_tickets > last_ticket_position {
            return Err(LaunchpadError::NotEnoughTickets);
        }
        if last_ticket_position >= u32::MAX as usize {
            return Err(LaunchpadError::MaxTicketsReached);
        }
        proof {
            if self@.operation is Empty {
                self@.tickets.lemma_untouched_count(1, last_ticket_position as int);
                self@.tickets.lemma_untouched_universe();
            }
        }
        Ok(WinnerSelectionRun { rng, ticket_position, tracker: GasTracker::new() })
    }

    fn continue_winner_selection(&mut self, run: &mut WinnerSelectionRun, gas_left: u64) -> (status:
        Option<OperationCompletionStatus>) {
        if !run.tracker.may_run_step(gas_left) {
            self.checkpoint.save_progress(
                OngoingOperationType::SelectWinners {
                    rng: run.rng,
                    ticket_position: run.ticket_position,
                },
            );
            return Some(OperationCompletionStatus::InterruptedBeforeOutOfGas);
        }
        if run.ticket_position > self.nr_winning_tickets {
            self.checkpoint.clear_operation();
            self.clock.flags.has_winner_selection_process_started = true;
            self.clock.flags.were_winners_selected = true;
            proof {
                let after = self@;
                assert(after.pending_distribution_wf()) by {
                    assert forall|rng: RandomState|
                        rng.seed.len() == crate::random::HASH_LEN && rng.index
                            <= u32::MAX implies crate::guaranteed_ticket_winners::distribution_wf(
                        after,
                        #[trigger] crate::guaranteed_tickets_init::fresh_selection(rng),
                    ) by {}
                }
            }
            return Some(OperationCompletionStatus::Completed);
        }
        let last_ticket_position = self.tickets.get_total_tickets();
        let ghost before = self@.tickets;
        let current_ticket_id = self.tickets.get_ticket_id_from_pos(run.ticket_position);
        let rand_pos = run.rng.next_usize_in_range(run.ticket_position, last_ticket_position + 1);
        let winning_ticket_id = self.tickets.get_ticket_id_from_pos(rand_pos);
        proof {
            before.lemma_ticket_at_valid(run.ticket_position);
            before.lemma_shuffle_keeps_universe(run.ticket_position, rand_pos);
        }
        self.tickets.redirect(rand_pos, current_ticket_id);
        self.tickets.set_winning(winning_ticket_id);
        run.ticket_position += 1;
        assert forall|id: usize| old(self)@.tickets.is_winning(id) implies #[trigger] self@.tickets.is_winning(
            id,
        ) by {}
        None
    }
}

} // verus!
