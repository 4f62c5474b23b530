//! A launch in which wins are promised to some users: its state, what it
//! relies on, and the recording of the promises.

use std::collections::HashMap;
use vstd::prelude::*;
use vstd::std_specs::hash::group_hash_axioms;
use crate::error::LaunchpadError;
use crate::guaranteed_ticket_winners::{distribution_wf, selection_decoding, SelectionState};
use crate::launch_stage::{
    launch_stage_at, Flags, LaunchStage, LaunchStageModule, StageClock, TimelineConfig,
};
use crate::ongoing_operation::{CheckpointStore, OngoingOperationType, OperationRecord};
use crate::random::RandomState;
use crate::tickets::{TicketRegistry, TicketsModule, TicketsState};
use crate::winner_selection::shuffle_wf;

verus! {

broadcast use group_hash_axioms;

/// What a user may buy on each of two tracks, and the number of wins that
/// each track promises to the user.
#[derive(Clone, Copy, Debug, PartialEq, Eq, Structural)]
pub struct UserTicketsStatus {
    /// The number of tickets that the staking track lets the user buy.
    pub staking_tickets_allowance: usize,
    /// The number of tickets that the migration track lets the user buy.
    pub energy_tickets_allowance: usize,
    /// The number of wins that the staking track promises.
    pub staking_guaranteed_tickets: usize,
    /// The number of wins that the migration track promises.
    pub migration_guaranteed_tickets: usize,
}

/// A launch in which some users are promised wins: its timeline, its
/// tickets, the operation under way, and the promises still to be kept.
pub struct GuaranteedTicketsLaunchpad {
    pub clock: StageClock,
    pub tickets: TicketRegistry,
    pub checkpoint: CheckpointStore,
    /// The number of winners that the base selection draws.
    pub nr_winning_tickets: usize,
    /// The number of confirmed tickets from which the staking track alone
    /// keeps its promise.
    pub min_confirmed_for_guaranteed_ticket: usize,
    /// The users whose promises are still to be looked at, each once.
    pub users_with_guaranteed_ticket: Vec<u64>,
    /// The allowances and promises of each user that has any.
    pub user_ticket_status: HashMap<u64, UserTicketsStatus>,
    /// The number of wins that were promised in all.
    pub total_guaranteed_tickets: usize,
}

/// What a [`GuaranteedTicketsLaunchpad`] holds, as mathematical values.
#[verifier::ext_equal]
pub struct LaunchpadState {
    pub configuration: TimelineConfig,
    pub flags: Flags,
    pub tickets: TicketsState,
    pub operation: OperationRecord,
    pub nr_winning_tickets: usize,
    pub min_confirmed_for_guaranteed_ticket: usize,
    pub users_with_guaranteed_ticket: Seq<u64>,
    pub user_ticket_status: Map<u64, UserTicketsStatus>,
    pub total_guaranteed_tickets: usize,
}

impl View for GuaranteedTicketsLaunchpad {
    type V = LaunchpadState;

    open spec fn view(&self) -> LaunchpadState {
        LaunchpadState {
            configuration: self.clock.configuration,
            flags: self.clock.flags,
            tickets: self.tickets@,
            operation: self.checkpoint@,
            nr_winning_tickets: self.nr_winning_tickets,
            min_confirmed_for_guaranteed_ticket: self.min_confirmed_for_guaranteed_ticket,
            users_with_guaranteed_ticket: self.users_with_guaranteed_ticket@,
            user_ticket_status: self.user_ticket_status@,
            total_guaranteed_tickets: self.total_guaranteed_tickets,
        }
    }
}

/// The number of wins that are promised to `user` on both tracks together.
pub open spec fn promised_to(statuses: Map<u64, UserTicketsStatus>, user: u64) -> nat {
    if statuses.contains_key(user) {
        (statuses[user].staking_guaranteed_tickets + statuses[user].migration_guaranteed_tickets) as nat
    } else {
        0
    }
}

/// The number of wins that are promised to the users of `users` together.
pub open spec fn promised_total(statuses: Map<u64, UserTicketsStatus>, users: Seq<u64>) -> nat
    decreases users.len(),
{
    if users.len() == 0 {
        0
    } else {
        promised_total(statuses, users.drop_last()) + promised_to(statuses, users.last())
    }
}

/// The users that are left when the first one is taken out and the last
/// one takes its place.
pub open spec fn without_first(users: Seq<u64>) -> Seq<u64> {
    users.update(0, users.last()).drop_last()
}

/// Putting another user in the first place changes the total by the
/// difference of the two promises.
pub proof fn lemma_promised_total_update_first(
    statuses: Map<u64, UserTicketsStatus>,
    users: Seq<u64>,
    user: u64,
)
    requires
        users.len() > 0,
    ensures
        promised_total(statuses, users.update(0, user)) + promised_to(statuses, users[0])
            == promised_total(statuses, users) + promised_to(statuses, user),
    decreases users.len(),
{
    let updated = users.update(0, user);
    if users.len() == 1 {
        assert(updated.drop_last() == Seq::<u64>::empty());
        assert(users.drop_last() == Seq::<u64>::empty());
        assert(promised_total(statuses, Seq::<u64>::empty()) == 0);
    } else {
        assert(updated.drop_last() == users.drop_last().update(0, user));
        lemma_promised_total_update_first(statuses, users.drop_last(), user);
    }
}

/// Taking the first user out lowers the total by what was promised to it.
pub proof fn lemma_promised_total_without_first(statuses: Map<u64, UserTicketsStatus>, users: Seq<u64>)
    requires
        users.len() > 0,
    ensures
        promised_total(statuses, without_first(users)) + promised_to(statuses, users[0])
            == promised_total(statuses, users),
{
    let updated = users.update(0, users.last());
    lemma_promised_total_update_first(statuses, users, users.last());
    assert(updated.last() == users.last());
}

/// A record for `user` changes nothing for a list in which `user` is not.
pub proof fn lemma_promised_total_ignores_others(
    statuses: Map<u64, UserTicketsStatus>,
    users: Seq<u64>,
    user: u64,
    status: UserTicketsStatus,
)
    requires
        !users.contains(user),
    ensures
        promised_total(statuses.insert(user, status), users) == promised_total(statuses, users),
    decreases users.len(),
{
    if users.len() > 0 {
        assert(users.last() == users[users.len() - 1]);
        assert forall|other: u64| users.drop_last().contains(other) implies users.contains(other) by {
            let i = choose|i: int| 0 <= i < users.drop_last().len() && users.drop_last()[i] == other;
            assert(users[i] == other);
        }
        lemma_promised_total_ignores_others(statuses, users.drop_last(), user, status);
    }
}

/// The state of a selection that starts now: see
/// [`crate::guaranteed_ticket_winners::GuaranteedTicketsSelectionOperation::new`].
pub open spec fn fresh_selection(rng: RandomState) -> SelectionState {
    SelectionState {
        rng,
        leftover_tickets: 0,
        leftover_ticket_pos_offset: 1,
        total_additional_winning_tickets: 0,
    }
}

impl LaunchpadState {
    /// What the launch relies on while the base winners are selected:
    /// before the selection starts, no ticket has won and no position is
    /// recorded; while it is under way, see [`shuffle_wf`].
    pub open spec fn base_selection_wf(self) -> bool {
        match self.operation {
            OperationRecord::Empty => self.tickets.draw_untouched(),
            OperationRecord::SelectWinners { rng, ticket_position } => shuffle_wf(
                self,
                ticket_position,
            ),
            _ => true,
        }
    }

    /// What the launch relies on while the promised wins are selected: the
    /// state that the selection starts from, or the one that it has
    /// reached, is one that it can go on from.
    pub open spec fn pending_distribution_wf(self) -> bool {
        match self.operation {
            OperationRecord::Empty => forall|rng: RandomState|
                rng.seed.len() == crate::random::HASH_LEN && rng.index <= u32::MAX
                    ==> distribution_wf(self, #[trigger] fresh_selection(rng)),
            OperationRecord::AdditionalSelection { encoded_data } => match selection_decoding(
                encoded_data,
            ) {
                Some(op) => distribution_wf(self, op),
                None => true,
            },
            _ => true,
        }
    }

    /// What a launch relies on at any time: the tickets are well-formed,
    /// and what is promised to the listed users is within what was
    /// promised in all, a number of 32 bits.
    pub open spec fn records_wf(self) -> bool {
        &&& self.tickets.wf()
        &&& promised_total(self.user_ticket_status, self.users_with_guaranteed_ticket)
            <= self.total_guaranteed_tickets <= u32::MAX
    }

    /// What every call on a launch expects and keeps. Once both selections
    /// are done, exactly as many tickets have won as wins were given: no
    /// ticket was drawn twice.
    pub open spec fn wf(self) -> bool {
        &&& self.records_wf()
        &&& !self.flags.were_winners_selected ==> self.base_selection_wf()
        &&& self.flags.were_winners_selected && !self.flags.was_additional_step_completed
            ==> self.pending_distribution_wf()
        &&& self.flags.were_winners_selected && self.flags.was_additional_step_completed
            ==> self.tickets.winning_in_range(1, self.tickets.last_ticket_id as int)
            == self.nr_winning_tickets
    }

    /// What a call that selects base winners relies on between two of its
    /// draws, when it is about to draw for `position`.
    pub open spec fn wf_while_selecting(self, position: usize) -> bool {
        &&& self.records_wf()
        &&& !self.flags.were_winners_selected
        &&& shuffle_wf(self, position)
    }

    /// What a call that selects promised wins relies on between two of its
    /// steps, when the selection has reached the state `op`.
    pub open spec fn wf_while_distributing(self, op: SelectionState) -> bool {
        &&& self.records_wf()
        &&& self.flags.were_winners_selected
        &&& !self.flags.was_additional_step_completed
        &&& distribution_wf(self, op)
    }
}

impl GuaranteedTicketsLaunchpad {
    /// A launch with the timeline `configuration` that is to have
    /// `nr_winning_tickets` winners and has no tickets yet. The smallest
    /// number of confirmed tickets for which the staking track keeps its
    /// promise must not be zero.
    pub fn new(
        nr_winning_tickets: usize,
        configuration: TimelineConfig,
        min_confirmed_for_guaranteed_ticket: usize,
    ) -> (res: Result<GuaranteedTicketsLaunchpad, LaunchpadError>)
        ensures
            min_confirmed_for_guaranteed_ticket == 0 <==> res is Err,
            res is Err ==> res->Err_0 == LaunchpadError::InvalidMinConfirmed,
            res is Ok ==> res->Ok_0@.wf() && res->Ok_0@ == (LaunchpadState {
                configuration,
                flags: Flags {
                    has_winner_selection_process_started: false,
                    were_tickets_filtered: false,
                    were_winners_selected: false,
                    was_additional_step_completed: false,
                },
                tickets: TicketsState {
                    last_ticket_id: 0,
                    ticket_status: Map::empty(),
                    ticket_range_for_address: Map::empty(),
                    ticket_batch: Map::empty(),
                    nr_confirmed_tickets: Map::empty(),
                    ticket_pos_to_id: Map::empty(),
                },
                operation: OperationRecord::Empty,
                nr_winning_tickets,
                min_confirmed_for_guaranteed_ticket,
                users_with_guaranteed_ticket: Seq::empty(),
                user_ticket_status: Map::empty(),
                total_guaranteed_tickets: 0,
            }),
    {
        if min_confirmed_for_guaranteed_ticket == 0 {
            return Err(LaunchpadError::InvalidMinConfirmed);
        }
        let launchpad = GuaranteedTicketsLaunchpad {
            clock: StageClock { configuration, flags: Flags::default() },
            tickets: TicketRegistry::new(),
            checkpoint: CheckpointStore::new(),
            nr_winning_tickets,
            min_confirmed_for_guaranteed_ticket,
            users_with_guaranteed_ticket: Vec::new(),
            user_ticket_status: HashMap::new(),
            total_guaranteed_tickets: 0,
        };
        Ok(launchpad)
    }

    /// Registers tickets for each pair of a user and a number, in order, up
    /// to the first pair that is rejected. Tickets are handed out during
    /// the first stage of the launch, before any winner is selected.
    pub fn add_tickets(&mut self, current_block: u64, address_number_pairs: &Vec<(u64, usize)>) -> (res:
        Result<(), LaunchpadError>)
        requires
            old(self)@.wf(),
        ensures
            final(self)@.wf(),
            !old(self)@.accepts_tickets(current_block) ==> res == Err::<(), LaunchpadError>(
                LaunchpadError::AddTicketsPeriodPassed,
            ) && final(self)@ == old(self)@,
            old(self)@.accepts_tickets(current_block) ==> res == old(self)@.tickets.with_all_tickets(
                address_number_pairs@,
            ).0 && final(self)@ == (LaunchpadState {
                tickets: old(self)@.tickets.with_all_tickets(address_number_pairs@).1,
                ..old(self)@
            }),
    {
        let stage = self.clock.get_launch_stage(current_block);
        if stage != LaunchStage::AddTickets || self.clock.flags.were_winners_selected {
            return Err(LaunchpadError::AddTicketsPeriodPassed);
        }
        match &self.checkpoint.current_ongoing_operation {
            OngoingOperationType::Empty => {},
            _ => {
                return Err(LaunchpadError::AddTicketsPeriodPassed);
            },
        }
        let res = self.tickets.add_tickets(stage, address_number_pairs);
        proof {
            old(self)@.tickets.lemma_with_all_tickets_keeps_draw(address_number_pairs@);
            assert forall|id: usize| !#[trigger] self@.tickets.is_winning(id) by {
                assert(!old(self)@.tickets.is_winning(id));
            }
            assert forall|pos: usize| #[trigger] self@.tickets.ticket_at(pos) == pos by {
                assert(old(self)@.tickets.ticket_at(pos) == pos);
            }
        }
        res
    }

    /// Records the number of tickets that `address` has confirmed.
    pub fn set_nr_confirmed_tickets(&mut self, address: u64, nr_tickets: usize)
        requires
            old(self)@.wf(),
        ensures
            final(self)@.wf(),
            final(self)@ == (LaunchpadState {
                tickets: TicketsState {
                    nr_confirmed_tickets: old(self)@.tickets.nr_confirmed_tickets.insert(
                        address,
                        nr_tickets,
                    ),
                    ..old(self)@.tickets
                },
                ..old(self)@
            }),
    {
        self.tickets.set_nr_confirmed_tickets(address, nr_tickets);
        proof {
            old(self)@.lemma_wf_ignores_confirmed(self@);
        }
    }

    /// Whether `user` is on the list of users whose promises are still to
    /// be looked at.
    pub fn is_listed(&self, user: u64) -> (listed: bool)
        ensures
            listed == self@.users_with_guaranteed_ticket.contains(user),
    {
        let mut i: usize = 0;
        while i < self.users_with_guaranteed_ticket.len()
            invariant
                i <= self.users_with_guaranteed_ticket@.len(),
                forall|j: int| 0 <= j < i ==> self.users_with_guaranteed_ticket@[j] != user,
            decreases self.users_with_guaranteed_ticket@.len() - i,
        {
            if self.users_with_guaranteed_ticket[i] == user {
                return true;
            }
            i += 1;
        }
        false
    }

    /// Records what is promised to `user`, and sets as many of the winning
    /// tickets aside as are promised. A user is recorded once, before the
    /// selection of the base winners starts, and no more can be promised
    /// than there are winning tickets left.
    pub fn add_user_with_guaranteed_tickets(&mut self, user: u64, status: UserTicketsStatus) -> (res:
        Result<(), LaunchpadError>)
        requires
            old(self)@.wf(),
        ensures
            final(self)@.wf(),
            res == old(self)@.promise_outcome(user, status),
            res is Err ==> final(self)@ == old(self)@,
            res is Ok ==> final(self)@ == old(self)@.with_promise(user, status),
    {
        if self.clock.flags.were_winners_selected {
            return Err(LaunchpadError::WinnersAlreadySelected);
        }
        match &self.checkpoint.current_ongoing_operation {
            OngoingOperationType::Empty => {},
            _ => {
                return Err(LaunchpadError::AnotherOperationInProgress);
            },
        }
        if self.user_ticket_status.contains_key(&user) || self.is_listed(user) {
            return Err(LaunchpadError::DuplicateEntryForUser);
        }
        let promised = match status.staking_guaranteed_tickets.checked_add(
            status.migration_guaranteed_tickets,
        ) {
            Some(promised) => promised,
            None => {
                return Err(LaunchpadError::TooManyGuaranteedTickets);
            },
        };
        if promised > self.nr_winning_tickets || promised > u32::MAX as usize
            - self.total_guaranteed_tickets {
            return Err(LaunchpadError::TooManyGuaranteedTickets);
        }
        proof {
            let before = old(self)@;
            lemma_promised_total_ignores_others(
                before.user_ticket_status,
                before.users_with_guaranteed_ticket,
                user,
                status,
            );
            assert(before.users_with_guaranteed_ticket.push(user).drop_last()
                == before.users_with_guaranteed_ticket);
        }
        self.user_ticket_status.insert(user, status);
        self.users_with_guaranteed_ticket.push(user);
        self.total_guaranteed_tickets += promised;
        self.nr_winning_tickets -= promised;
        proof {
            assert(self@.users_with_guaranteed_ticket.last() == user);
        }
        Ok(())
    }
}

impl LaunchpadState {
    /// Whether tickets can be handed out at block `current_block`: during
    /// the first stage of the launch, before the selection of the winners
    /// has started.
    pub open spec fn accepts_tickets(self, current_block: u64) -> bool {
        &&& launch_stage_at(current_block, self.configuration, self.flags) == LaunchStage::AddTickets
        &&& !self.flags.were_winners_selected
        &&& self.operation is Empty
    }

    /// A launch that differs from a well-formed one in nothing but the
    /// tickets that the users have confirmed is well-formed too: no draw
    /// looks at them.
    pub proof fn lemma_wf_ignores_confirmed(self, other: LaunchpadState)
        requires
            self.wf(),
            other == (LaunchpadState {
                tickets: TicketsState {
                    nr_confirmed_tickets: other.tickets.nr_confirmed_tickets,
                    ..self.tickets
                },
                ..self
            }),
        ensures
            other.wf(),
    {
        let last = self.tickets.last_ticket_id;
        self.tickets.lemma_wf_ignores_status(other.tickets);
        assert forall|pos: usize| #[trigger] other.tickets.ticket_at(pos) == self.tickets.ticket_at(
            pos,
        ) by {}
        assert forall|from: int, id: usize| self.tickets.reachable(from, id) implies #[trigger] other.tickets.reachable(
            from,
            id,
        ) by {
            let pos = choose|pos: usize| from <= pos <= last && #[trigger] self.tickets.ticket_at(pos) == id;
            assert(other.tickets.ticket_at(pos) == id);
        }
        assert forall|from: int| self.tickets.universe_covers_losing(from) implies #[trigger] other.tickets.universe_covers_losing(
            from,
        ) by {
            assert forall|id: usize|
                1 <= id <= last && !other.tickets.is_winning(id) implies #[trigger] other.tickets.reachable(
                from,
                id,
            ) by {
                assert(self.tickets.reachable(from, id));
            }
        }
        assert forall|from: int| self.tickets.universe_distinct(from) implies #[trigger] other.tickets.universe_distinct(
            from,
        ) by {
            assert forall|p: usize, q: usize|
                from <= p <= last && from <= q <= last && p != q implies #[trigger] other.tickets.ticket_at(
                p,
            ) != #[trigger] other.tickets.ticket_at(q) by {
                assert(self.tickets.ticket_at(p) != self.tickets.ticket_at(q));
            }
        }
        assert forall|from: int| self.tickets.universe_all_losing(from) implies #[trigger] other.tickets.universe_all_losing(
            from,
        ) by {
            assert forall|pos: usize| from <= pos <= last implies !other.tickets.is_winning(
                #[trigger] other.tickets.ticket_at(pos),
            ) by {
                assert(!self.tickets.is_winning(self.tickets.ticket_at(pos)));
            }
        }
        if !self.flags.were_winners_selected {
            match self.operation {
                OperationRecord::Empty => {
                    assert forall|id: usize| !#[trigger] other.tickets.is_winning(id) by {
                        assert(!self.tickets.is_winning(id));
                    }
                    assert forall|pos: usize| #[trigger] other.tickets.ticket_at(pos) == pos by {
                        assert(self.tickets.ticket_at(pos) == pos);
                    }
                },
                OperationRecord::SelectWinners { rng, ticket_position } => {
                    assert(self.tickets.universe_covers_losing(ticket_position as int));
                    assert(self.tickets.universe_distinct(ticket_position as int));
                    assert(self.tickets.universe_all_losing(ticket_position as int));
                    assert(other.tickets.universe_covers_losing(ticket_position as int));
                    assert(other.tickets.universe_distinct(ticket_position as int));
                    assert(other.tickets.universe_all_losing(ticket_position as int));
                },
                _ => {},
            }
        }
        if self.flags.were_winners_selected && !self.flags.was_additional_step_completed {
            match self.operation {
                OperationRecord::Empty => {
                    assert forall|rng: RandomState|
                        rng.seed.len() == crate::random::HASH_LEN && rng.index
                            <= u32::MAX implies distribution_wf(
                        other,
                        #[trigger] fresh_selection(rng),
                    ) by {
                        assert(distribution_wf(self, fresh_selection(rng)));
                    }
                },
                OperationRecord::AdditionalSelection { encoded_data } => {
                    if let Some(op) = selection_decoding(encoded_data) {
                        assert(distribution_wf(self, op));
                    }
                },
                _ => {},
            }
        }
    }

    /// What recording a promise to `user` meets.
    pub open spec fn promise_outcome(self, user: u64, status: UserTicketsStatus) -> Result<
        (),
        LaunchpadError,
    > {
        let promised = status.staking_guaranteed_tickets + status.migration_guaranteed_tickets;
        if self.flags.were_winners_selected {
            Err(LaunchpadError::WinnersAlreadySelected)
        } else if self.operation != OperationRecord::Empty {
            Err(LaunchpadError::AnotherOperationInProgress)
        } else if self.user_ticket_status.contains_key(user)
            || self.users_with_guaranteed_ticket.contains(user) {
            Err(LaunchpadError::DuplicateEntryForUser)
        } else if promised > self.nr_winning_tickets || promised + self.total_guaranteed_tickets
            > u32::MAX {
            Err(LaunchpadError::TooManyGuaranteedTickets)
        } else {
            Ok(())
        }
    }

    /// The launch after a promise to `user` was recorded.
    pub open spec fn with_promise(self, user: u64, status: UserTicketsStatus) -> LaunchpadState {
        let promised = status.staking_guaranteed_tickets + status.migration_guaranteed_tickets;
        LaunchpadState {
            user_ticket_status: self.user_ticket_status.insert(user, status),
            users_with_guaranteed_ticket: self.users_with_guaranteed_ticket.push(user),
            total_guaranteed_tickets: (self.total_guaranteed_tickets + promised) as usize,
            nr_winning_tickets: (self.nr_winning_tickets - promised) as usize,
            ..self
        }
    }
}

} // verus!
