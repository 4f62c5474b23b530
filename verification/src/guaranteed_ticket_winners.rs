//! The selection that keeps the promised wins: first from each user's own
//! tickets, then by drawing what is left among all tickets.

use vstd::prelude::*;
use vstd::std_specs::hash::group_hash_axioms;
use crate::codec::{
    be_bytes, lemma_be_round_trip, lemma_random_round_trip, push_be_u32, push_random,
    random_decoding, random_encoding, read_be_u32, read_random, CheckpointPayload,
};
use crate::guaranteed_tickets_init::{
    lemma_promised_total_without_first, promised_to, promised_total, without_first,
    GuaranteedTicketsLaunchpad, LaunchpadState, UserTicketsStatus,
};
use crate::ongoing_operation::{LoopOp, CONTINUE_OP, STOP_OP};
use crate::random::{advanced, be_u32, next_value, reduce_to_range, Random, RandomState};
use crate::tickets::{
    count_winning, has_won, lemma_count_winning_bound, lemma_count_winning_insert,
    lemma_some_ticket_losing, TicketRange, TicketsModule, TicketsState, WINNING_TICKET,
};

verus! {

broadcast use group_hash_axioms;

/// The state of the selection that keeps the promised wins: the generator
/// of its draws, the promises that the users' own tickets did not keep,
/// the next position of the draw, and the number of wins given so far.
#[derive(Clone, Copy, Debug, PartialEq, Eq)]
pub struct GuaranteedTicketsSelectionOperation {
    pub rng: Random,
    /// The promised wins that are still to be drawn among all tickets.
    pub leftover_tickets: usize,
    /// The next position of the draw, counted from the last base winner.
    pub leftover_ticket_pos_offset: usize,
    /// The number of tickets that this selection has made win.
    pub total_additional_winning_tickets: usize,
}

/// A [`GuaranteedTicketsSelectionOperation`] as a mathematical value.
pub struct SelectionState {
    pub rng: RandomState,
    pub leftover_tickets: usize,
    pub leftover_ticket_pos_offset: usize,
    pub total_additional_winning_tickets: usize,
}

impl View for GuaranteedTicketsSelectionOperation {
    type V = SelectionState;

    open spec fn view(&self) -> SelectionState {
        SelectionState {
            rng: self.rng@,
            leftover_tickets: self.leftover_tickets,
            leftover_ticket_pos_offset: self.leftover_ticket_pos_offset,
            total_additional_winning_tickets: self.total_additional_winning_tickets,
        }
    }
}

/// How an attempt to draw one more winner ended.
#[derive(Clone, Copy, Debug, PartialEq, Eq, Structural)]
pub enum AdditionalSelectionTryResult {
    /// A ticket was drawn and has won.
    Selected,
    /// The ticket at the position of the draw has won before: the position is passed over.
    CurrentAlreadyWinning,
    /// The ticket that was drawn has won before: the draw is lost.
    NewlySelectedAlreadyWinning,
}

/// The number of promised wins that a user has earned: the migration
/// track's where the user confirmed as many tickets as that track allows;
/// the staking track's where, with the migration track's, the user
/// confirmed as many as both tracks allow together, or, without them, at
/// least `min_confirmed`.
pub open spec fn guaranteed_wins(status: UserTicketsStatus, confirmed: usize, min_confirmed: usize) -> nat {
    let migration = if confirmed >= status.energy_tickets_allowance {
        status.migration_guaranteed_tickets as nat
    } else {
        0
    };
    let staking_earned = if migration > 0 {
        confirmed >= status.staking_tickets_allowance + status.energy_tickets_allowance
    } else {
        confirmed >= min_confirmed
    };
    migration + if staking_earned {
        status.staking_guaranteed_tickets as nat
    } else {
        0
    }
}

/// The tickets that have won once the first `quota` tickets of
/// `[first, last]` that had not won, or all of them where there are fewer,
/// have been made to win.
pub open spec fn promote(status: Map<usize, bool>, first: int, last: int, quota: nat) -> Map<
    usize,
    bool,
>
    decreases last - first + 1,
{
    if last < first || first < 0 || last > usize::MAX || quota == 0 {
        status
    } else if has_won(status, first as usize) {
        promote(status, first + 1, last, quota)
    } else {
        promote(status.insert(first as usize, WINNING_TICKET), first + 1, last, (quota - 1) as nat)
    }
}

/// The number of tickets that [`promote`] makes win.
pub open spec fn promotions(status: Map<usize, bool>, first: int, last: int, quota: nat) -> nat
    decreases last - first + 1,
{
    if last < first || first < 0 || last > usize::MAX || quota == 0 {
        0
    } else if has_won(status, first as usize) {
        promotions(status, first + 1, last, quota)
    } else {
        1 + promotions(status.insert(first as usize, WINNING_TICKET), first + 1, last, (quota - 1) as nat)
    }
}

impl LaunchpadState {
    /// The number of promised wins that `user` has earned; none without a record.
    pub open spec fn guaranteed_for(self, user: u64) -> nat {
        if self.user_ticket_status.contains_key(user) {
            guaranteed_wins(
                self.user_ticket_status[user],
                self.tickets.confirmed_tickets(user),
                self.min_confirmed_for_guaranteed_ticket,
            )
        } else {
            0
        }
    }

    /// The number of tickets of `user` that must still be made to win so
    /// that the user has `guaranteed` wins: none where the user has no
    /// tickets.
    pub open spec fn shortfall(self, user: u64, guaranteed: nat) -> nat {
        if self.tickets.ticket_range_for_address.contains_key(user) {
            let range = self.tickets.ticket_range_for_address[user];
            let won = self.tickets.winning_in_range(range.first_id as int, range.last_id as int);
            if guaranteed <= won {
                0
            } else {
                (guaranteed - won) as nat
            }
        } else {
            0
        }
    }

    /// The tickets after the promise to `user` was kept as far as the
    /// user's own tickets allow.
    pub open spec fn tickets_promoted_for(self, user: u64) -> TicketsState {
        if self.tickets.ticket_range_for_address.contains_key(user) {
            let range = self.tickets.ticket_range_for_address[user];
            TicketsState {
                ticket_status: promote(
                    self.tickets.ticket_status,
                    range.first_id as int,
                    range.last_id as int,
                    self.shortfall(user, self.guaranteed_for(user)),
                ),
                ..self.tickets
            }
        } else {
            self.tickets
        }
    }

    /// The number of tickets of `user` that are made to win for the promise.
    pub open spec fn promotions_for(self, user: u64) -> nat {
        if self.tickets.ticket_range_for_address.contains_key(user) {
            let range = self.tickets.ticket_range_for_address[user];
            promotions(
                self.tickets.ticket_status,
                range.first_id as int,
                range.last_id as int,
                self.shortfall(user, self.guaranteed_for(user)),
            )
        } else {
            0
        }
    }
}

/// What the selection has in hand and still owes: the wins given, the
/// promised wins still to be drawn, and the promises not yet looked at.
/// The steps of the selection keep this sum as it is.
pub open spec fn promises_accounted(s: LaunchpadState, op: SelectionState) -> nat {
    (op.total_additional_winning_tickets + op.leftover_tickets) as nat + promised_total(
        s.user_ticket_status,
        s.users_with_guaranteed_ticket,
    )
}

/// What the selection of promised wins relies on from one step to the next.
///
/// The tickets that have won are the base winners and those that the
/// selection has made win. The positions from the next position of the
/// draw onwards hold tickets that differ from each other, and among them
/// every ticket that has not won. Every number of the selection's state
/// has at most 32 bits, which is what a checkpoint keeps of a number.
pub open spec fn distribution_wf(s: LaunchpadState, op: SelectionState) -> bool {
    let last = s.tickets.last_ticket_id;
    let next_pos = s.nr_winning_tickets + op.leftover_ticket_pos_offset;
    &&& s.tickets.wf()
    &&& last < u32::MAX
    &&& 1 <= op.leftover_ticket_pos_offset
    &&& next_pos <= last + 1
    &&& s.tickets.winning_in_range(1, last as int) == s.nr_winning_tickets
        + op.total_additional_winning_tickets
    &&& s.tickets.universe_covers_losing(next_pos)
    &&& s.tickets.universe_distinct(next_pos)
    &&& promises_accounted(s, op) <= u32::MAX
    &&& op.rng.seed.len() == crate::random::HASH_LEN
    &&& op.rng.index <= u32::MAX
}

/// A state that the selection can be in has numbers of at most 32 bits.
pub proof fn lemma_distribution_fits_encoding(s: LaunchpadState, op: SelectionState)
    requires
        distribution_wf(s, op),
    ensures
        op.fits_encoding(),
{
    lemma_count_winning_bound(s.tickets.ticket_status, 1, s.tickets.last_ticket_id as int);
}

/// The first step of the selection, one user at a time: the first user is
/// taken off the list, its tickets are made to win from the first one on
/// until its earned wins are reached or its tickets run out, and what of
/// its promise was not given in this way is left to be drawn.
pub open spec fn selection_step(s: LaunchpadState, op: SelectionState) -> (
    LaunchpadState,
    SelectionState,
    LoopOp,
) {
    if s.users_with_guaranteed_ticket.len() == 0 {
        (s, op, STOP_OP)
    } else {
        let user = s.users_with_guaranteed_ticket[0];
        let promoted = s.promotions_for(user);
        (
            LaunchpadState {
                users_with_guaranteed_ticket: without_first(s.users_with_guaranteed_ticket),
                tickets: s.tickets_promoted_for(user),
                ..s
            },
            SelectionState {
                leftover_tickets: (op.leftover_tickets + promised_to(s.user_ticket_status, user)
                    - promoted) as usize,
                total_additional_winning_tickets: (op.total_additional_winning_tickets
                    + promoted) as usize,
                ..op
            },
            CONTINUE_OP,
        )
    }
}

/// One attempt to draw a winner among the positions `[current, last]`.
/// Where the ticket at `current` has won, nothing is drawn. Else a
/// position is drawn; where its ticket has won, the draw is lost. Else that
/// ticket wins, and its position holds the ticket of `current` from now on.
pub open spec fn try_select(t: TicketsState, rng: RandomState, current: usize, last: usize) -> (
    TicketsState,
    RandomState,
    AdditionalSelectionTryResult,
) {
    let current_id = t.ticket_at(current);
    if t.is_winning(current_id) {
        (t, rng, AdditionalSelectionTryResult::CurrentAlreadyWinning)
    } else {
        let rand_pos = reduce_to_range(next_value(rng), current as nat, (last + 1) as nat) as usize;
        let winning_id = t.ticket_at(rand_pos);
        if t.is_winning(winning_id) {
            (t, advanced(rng), AdditionalSelectionTryResult::NewlySelectedAlreadyWinning)
        } else {
            (
                t.with_redirect(rand_pos, current_id).with_winning(winning_id),
                advanced(rng),
                AdditionalSelectionTryResult::Selected,
            )
        }
    }
}

/// The second step of the selection, one attempt at a time: the promised
/// wins that are left are drawn among the tickets behind the base winners.
/// Once as many tickets have won as there are tickets, nothing is left to
/// draw, whatever was promised.
pub open spec fn leftover_step(s: LaunchpadState, op: SelectionState) -> (
    LaunchpadState,
    SelectionState,
    LoopOp,
) {
    let exhausted = s.nr_winning_tickets + op.total_additional_winning_tickets
        >= s.tickets.last_ticket_id;
    if exhausted || op.leftover_tickets == 0 {
        (s, SelectionState { leftover_tickets: 0, ..op }, STOP_OP)
    } else {
        let current = (s.nr_winning_tickets + op.leftover_ticket_pos_offset) as usize;
        let (tickets, rng, result) = try_select(s.tickets, op.rng, current, s.tickets.last_ticket_id);
        match result {
            AdditionalSelectionTryResult::Selected => (
                LaunchpadState { tickets, ..s },
                SelectionState {
                    rng,
                    leftover_tickets: (op.leftover_tickets - 1) as usize,
                    total_additional_winning_tickets: (op.total_additional_winning_tickets
                        + 1) as usize,
                    leftover_ticket_pos_offset: (op.leftover_ticket_pos_offset + 1) as usize,
                },
                CONTINUE_OP,
            ),
            AdditionalSelectionTryResult::CurrentAlreadyWinning => (
                s,
                SelectionState {
                    leftover_ticket_pos_offset: (op.leftover_ticket_pos_offset + 1) as usize,
                    ..op
                },
                CONTINUE_OP,
            ),
            AdditionalSelectionTryResult::NewlySelectedAlreadyWinning => (
                s,
                SelectionState { rng, ..op },
                CONTINUE_OP,
            ),
        }
    }
}

impl TicketsState {
    /// Every position of a ticket holds a ticket.
    pub proof fn lemma_ticket_at_valid(self, pos: usize)
        requires
            self.wf(),
            1 <= pos <= self.last_ticket_id,
        ensures
            1 <= self.ticket_at(pos) <= self.last_ticket_id,
    {
        if self.ticket_pos_to_id.contains_key(pos) {
        }
    }

    /// A win changes nothing about the positions, so the positions from
    /// `from` on still hold distinct tickets, and every ticket that has
    /// not won.
    pub proof fn lemma_win_keeps_universe(self, id: usize, from: int)
        requires
            self.universe_covers_losing(from),
            self.universe_distinct(from),
        ensures
            self.with_winning(id).universe_covers_losing(from),
            self.with_winning(id).universe_distinct(from),
    {
        let after = self.with_winning(id);
        assert forall|x: usize| 1 <= x <= after.last_ticket_id && !after.is_winning(x) implies #[trigger] after.reachable(
            from,
            x,
        ) by {
            assert(!self.is_winning(x));
            assert(self.reachable(from, x));
            let pos = choose|pos: usize| from <= pos <= self.last_ticket_id && #[trigger] self.ticket_at(pos) == x;
            assert(after.ticket_at(pos) == x);
        }
        assert forall|p: usize, q: usize|
            from <= p <= after.last_ticket_id && from <= q <= after.last_ticket_id && p != q implies #[trigger] after.ticket_at(
            p,
        ) != #[trigger] after.ticket_at(q) by {
            assert(self.ticket_at(p) != self.ticket_at(q));
        }
    }

    /// Passing over a position whose ticket has won loses no ticket that
    /// has not.
    pub proof fn lemma_skip_keeps_universe(self, current: usize)
        requires
            self.universe_covers_losing(current as int),
            self.universe_distinct(current as int),
            self.is_winning(self.ticket_at(current)),
        ensures
            self.universe_covers_losing(current + 1),
            self.universe_distinct(current + 1),
    {
        assert forall|x: usize| 1 <= x <= self.last_ticket_id && !self.is_winning(x) implies #[trigger] self.reachable(
            current + 1,
            x,
        ) by {
            assert(self.reachable(current as int, x));
            let pos = choose|pos: usize| current <= pos <= self.last_ticket_id && #[trigger] self.ticket_at(pos) == x;
            assert(pos != current);
            assert(self.ticket_at(pos) == x);
        }
        assert forall|p: usize, q: usize|
            current + 1 <= p <= self.last_ticket_id && current + 1 <= q <= self.last_ticket_id && p
                != q implies #[trigger] self.ticket_at(p) != #[trigger] self.ticket_at(q) by {
            assert(self.ticket_at(p) != self.ticket_at(q));
        }
    }

    /// A draw takes the drawn ticket out of the positions still to be
    /// drawn from and keeps every other one: the drawn position takes over
    /// the ticket of the position that is passed.
    pub proof fn lemma_draw_keeps_universe(self, current: usize, rand_pos: usize)
        requires
            self.wf(),
            1 <= current <= rand_pos <= self.last_ticket_id,
            self.universe_covers_losing(current as int),
            self.universe_distinct(current as int),
            !self.is_winning(self.ticket_at(current)),
            !self.is_winning(self.ticket_at(rand_pos)),
        ensures
            self.with_redirect(rand_pos, self.ticket_at(current)).with_winning(
                self.ticket_at(rand_pos),
            ).universe_covers_losing(current + 1),
            self.with_redirect(rand_pos, self.ticket_at(current)).with_winning(
                self.ticket_at(rand_pos),
            ).universe_distinct(current + 1),
    {
        let current_id = self.ticket_at(current);
        let winning_id = self.ticket_at(rand_pos);
        let after = self.with_redirect(rand_pos, current_id).with_winning(winning_id);
        self.lemma_ticket_at_valid(current);
        assert(after.ticket_at(rand_pos) == current_id);
        assert forall|pos: usize| pos != rand_pos implies after.ticket_at(pos) == self.ticket_at(
            pos,
        ) by {}
        assert forall|x: usize| 1 <= x <= after.last_ticket_id && !after.is_winning(x) implies #[trigger] after.reachable(
            current + 1,
            x,
        ) by {
            assert(x != winning_id);
            assert(!self.is_winning(x));
            assert(self.reachable(current as int, x));
            let pos = choose|pos: usize| current <= pos <= self.last_ticket_id && #[trigger] self.ticket_at(pos) == x;
            if pos == current {
                assert(rand_pos != current);
                assert(after.ticket_at(rand_pos) == x);
            } else {
                assert(pos != rand_pos);
                assert(after.ticket_at(pos) == x);
            }
        }
        assert forall|p: usize, q: usize|
            current + 1 <= p <= after.last_ticket_id && current + 1 <= q <= after.last_ticket_id && p
                != q implies #[trigger] after.ticket_at(p) != #[trigger] after.ticket_at(q) by {
            assert(self.ticket_at(p) != self.ticket_at(q));
            assert(self.ticket_at(p) != self.ticket_at(current));
            assert(self.ticket_at(q) != self.ticket_at(current));
        }
    }
}

/// The selection that keeps the promised wins, one step at a time. A
/// caller repeats the steps of the first kind until one answers
/// [`STOP_OP`], then those of the second kind, and may stop between any
/// two steps and go on later from the same values.
pub trait GuaranteedTicketWinnersModule: View<V = LaunchpadState> + Sized {
    /// Looks at the promise to one user: see [`selection_step`].
    fn select_guaranteed_tickets_step(
        &mut self,
        op: &mut GuaranteedTicketsSelectionOperation,
    ) -> (loop_op: LoopOp)
        requires
            old(self)@.wf_while_distributing(old(op)@),
        ensures
            final(self)@ == selection_step(old(self)@, old(op)@).0,
            final(op)@ == selection_step(old(self)@, old(op)@).1,
            loop_op == selection_step(old(self)@, old(op)@).2,
            final(self)@.wf_while_distributing(final(op)@),
            promises_accounted(final(self)@, final(op)@) == promises_accounted(old(self)@, old(op)@),
            forall|id: usize|
                old(self)@.tickets.is_winning(id) ==> #[trigger] final(self)@.tickets.is_winning(id),
    ;

    /// Makes one attempt to draw a promised win: see [`leftover_step`].
    fn distribute_leftover_tickets_step(
        &mut self,
        op: &mut GuaranteedTicketsSelectionOperation,
    ) -> (loop_op: LoopOp)
        requires
            old(self)@.wf_while_distributing(old(op)@),
        ensures
            final(self)@ == leftover_step(old(self)@, old(op)@).0,
            final(op)@ == leftover_step(old(self)@, old(op)@).1,
            loop_op == leftover_step(old(self)@, old(op)@).2,
            final(self)@.wf_while_distributing(final(op)@),
            loop_op == CONTINUE_OP ==> promises_accounted(final(self)@, final(op)@)
                == promises_accounted(old(self)@, old(op)@),
            forall|id: usize|
                old(self)@.tickets.is_winning(id) ==> #[trigger] final(self)@.tickets.is_winning(id),
    ;

    /// The number of tickets of `ticket_range` that have won.
    fn winning_tickets_in_range(&self, ticket_range: &TicketRange) -> (winning_tickets_no: usize)
        requires
            ticket_range.last_id < usize::MAX,
        ensures
            winning_tickets_no == self@.tickets.winning_in_range(
                ticket_range.first_id as int,
                ticket_range.last_id as int,
            ),
    ;

    /// Makes one attempt to draw a winner among the positions from
    /// `current_ticket_position` to the last one: see [`try_select`].
    fn try_select_winning_ticket(
        &mut self,
        rng: &mut Random,
        current_ticket_position: usize,
        last_ticket_position: usize,
    ) -> (result: AdditionalSelectionTryResult)
        requires
            old(self)@.tickets.wf(),
            1 <= current_ticket_position <= last_ticket_position,
            last_ticket_position == old(self)@.tickets.last_ticket_id,
        ensures
            final(self)@ == (LaunchpadState {
                tickets: try_select(
                    old(self)@.tickets,
                    old(rng)@,
                    current_ticket_position,
                    last_ticket_position,
                ).0,
                ..old(self)@
            }),
            final(rng)@ == try_select(
                old(self)@.tickets,
                old(rng)@,
                current_ticket_position,
                last_ticket_position,
            ).1,
            result == try_select(
                old(self)@.tickets,
                old(rng)@,
                current_ticket_position,
                last_ticket_position,
            ).2,
            final(self)@.tickets.wf(),
            forall|id: usize|
                old(self)@.tickets.is_winning(id) ==> #[trigger] final(self)@.tickets.is_winning(id),
    ;

    /// Whether the ticket `ticket_id` has won.
    fn is_already_winning_ticket(&self, ticket_id: usize) -> (winning: bool)
        ensures
            winning == self@.tickets.is_winning(ticket_id),
    ;
}

impl GuaranteedTicketWinnersModule for GuaranteedTicketsLaunchpad {
    fn select_guaranteed_tickets_step(
        &mut self,
        op: &mut GuaranteedTicketsSelectionOperation,
    ) -> (loop_op: LoopOp) {
        if self.users_with_guaranteed_ticket.len() == 0 {
            return STOP_OP;
        }
        let current_user = self.users_with_guaranteed_ticket.swap_remove(0);
        proof {
            lemma_promised_total_without_first(
                old(self)@.user_ticket_status,
                old(self)@.users_with_guaranteed_ticket,
            );
            assert(self@.users_with_guaranteed_ticket == without_first(
                old(self)@.users_with_guaranteed_ticket,
            ));
        }
        let user_ticket_status = match self.user_ticket_status.get(&current_user) {
            Some(status) => *status,
            None => {
                proof {
                    lemma_nothing_to_promote(old(self)@, current_user);
                }
                return CONTINUE_OP;
            },
        };
        let user_confirmed_tickets = self.tickets.get_nr_confirmed_tickets(current_user);

        let mut user_guaranteed_tickets_no: usize = 0;
        if user_confirmed_tickets >= user_ticket_status.energy_tickets_allowance {
            user_guaranteed_tickets_no += user_ticket_status.migration_guaranteed_tickets;
        } else {
            op.leftover_tickets += user_ticket_status.migration_guaranteed_tickets;
        }
        let confirmed_both_allowances = user_confirmed_tickets
            >= user_ticket_status.staking_tickets_allowance && user_confirmed_tickets
            - user_ticket_status.staking_tickets_allowance
            >= user_ticket_status.energy_tickets_allowance;
        if (user_guaranteed_tickets_no > 0 && confirmed_both_allowances) || (
        user_guaranteed_tickets_no == 0 && user_confirmed_tickets
            >= self.min_confirmed_for_guaranteed_ticket) {
            user_guaranteed_tickets_no += user_ticket_status.staking_guaranteed_tickets;
        } else {
            op.leftover_tickets += user_ticket_status.staking_guaranteed_tickets;
        }
        assert(user_guaranteed_tickets_no == old(self)@.guaranteed_for(current_user));
        assert(op.leftover_tickets + user_guaranteed_tickets_no == old(op).leftover_tickets
            + promised_to(old(self)@.user_ticket_status, current_user));

        if user_guaranteed_tickets_no > 0 {
            let ticket_range = match self.tickets.ticket_range_for_address.get(&current_user) {
                Some(range) => *range,
                None => {
                    op.leftover_tickets += user_guaranteed_tickets_no;
                    return CONTINUE_OP;
                },
            };
            assert(self@.tickets.ticket_range_for_address.contains_key(current_user));
            let user_winning_tickets_no = self.winning_tickets_in_range(&ticket_range);
            if user_guaranteed_tickets_no <= user_winning_tickets_no {
                op.leftover_tickets += user_guaranteed_tickets_no;
                proof {
                    lemma_nothing_to_promote(old(self)@, current_user);
                }
                return CONTINUE_OP;
            }
            let mut remaining_tickets_to_be_won = user_guaranteed_tickets_no
                - user_winning_tickets_no;
            op.leftover_tickets += user_guaranteed_tickets_no - remaining_tickets_to_be_won;

            let ghost start = self@;
            let ghost start_op = op@;
            let ghost shortfall = remaining_tickets_to_be_won as nat;
            let ghost first = ticket_range.first_id as int;
            let ghost last = ticket_range.last_id as int;
            let ghost mut done: nat = 0;
            let mut current_ticket = ticket_range.first_id;
            while remaining_tickets_to_be_won > 0 && current_ticket <= ticket_range.last_id
                invariant
                    start.tickets.wf(),
                    1 <= first <= current_ticket <= last + 1,
                    first == ticket_range.first_id,
                    last == ticket_range.last_id,
                    last <= start.tickets.last_ticket_id,
                    self@ == (LaunchpadState {
                        tickets: TicketsState {
                            ticket_status: self@.tickets.ticket_status,
                            ..start.tickets
                        },
                        ..start
                    }),
                    op@ == (SelectionState {
                        total_additional_winning_tickets: op.total_additional_winning_tickets,
                        ..start_op
                    }),
                    op.total_additional_winning_tickets == start_op.total_additional_winning_tickets
                        + done,
                    done + remaining_tickets_to_be_won == shortfall,
                    promote(
                        self@.tickets.ticket_status,
                        current_ticket as int,
                        last,
                        remaining_tickets_to_be_won as nat,
                    ) == promote(start.tickets.ticket_status, first, last, shortfall),
                    done + promotions(
                        self@.tickets.ticket_status,
                        current_ticket as int,
                        last,
                        remaining_tickets_to_be_won as nat,
                    ) == promotions(start.tickets.ticket_status, first, last, shortfall),
                    self@.tickets.winning_in_range(1, start.tickets.last_ticket_id as int)
                        == start.nr_winning_tickets + op.total_additional_winning_tickets,
                    self@.tickets.universe_covers_losing(
                        start.nr_winning_tickets + start_op.leftover_ticket_pos_offset,
                    ),
                    self@.tickets.universe_distinct(
                        start.nr_winning_tickets + start_op.leftover_ticket_pos_offset,
                    ),
                    forall|id: usize|
                        start.tickets.is_winning(id) ==> #[trigger] self@.tickets.is_winning(id),
                decreases last + 1 - current_ticket,
            {
                let ghost before = self@.tickets;
                let is_winning_ticket = self.tickets.get_ticket_status(current_ticket);
                if !is_winning_ticket {
                    self.tickets.set_winning(current_ticket);
                    proof {
                        lemma_count_winning_insert(
                            before.ticket_status,
                            current_ticket,
                            1,
                            start.tickets.last_ticket_id as int,
                        );
                        lemma_count_winning_bound(
                            self@.tickets.ticket_status,
                            1,
                            start.tickets.last_ticket_id as int,
                        );
                        before.lemma_win_keeps_universe(
                            current_ticket,
                            start.nr_winning_tickets + start_op.leftover_ticket_pos_offset,
                        );
                        assert(self@.tickets == before.with_winning(current_ticket));
                        assert forall|id: usize| start.tickets.is_winning(id) implies #[trigger] self@.tickets.is_winning(
                            id,
                        ) by {
                            assert(before.is_winning(id));
                        }
                        done = done + 1;
                    }
                    op.total_additional_winning_tickets += 1;
                    remaining_tickets_to_be_won -= 1;
                }
                current_ticket += 1;
            }
            op.leftover_tickets += remaining_tickets_to_be_won;
            proof {
                start.tickets.lemma_wf_ignores_status(self@.tickets);
            }
        } else {
            proof {
                lemma_nothing_to_promote(old(self)@, current_user);
            }
        }
        CONTINUE_OP
    }

    fn distribute_leftover_tickets_step(
        &mut self,
        op: &mut GuaranteedTicketsSelectionOperation,
    ) -> (loop_op: LoopOp) {
        let nr_original_winning_tickets = self.nr_winning_tickets;
        let last_ticket_pos = self.tickets.get_total_tickets();
        proof {
            lemma_count_winning_bound(self@.tickets.ticket_status, 1, last_ticket_pos as int);
        }
        if nr_original_winning_tickets + op.total_additional_winning_tickets >= last_ticket_pos {
            op.leftover_tickets = 0;
        }
        if op.leftover_tickets == 0 {
            return STOP_OP;
        }
        let current_ticket_pos = nr_original_winning_tickets + op.leftover_ticket_pos_offset;
        proof {
            let losing = lemma_some_ticket_losing(
                self@.tickets.ticket_status,
                1,
                last_ticket_pos as int,
            );
            assert(self@.tickets.reachable(current_ticket_pos as int, losing));
        }
        let ghost before = self@.tickets;
        let selection_result = self.try_select_winning_ticket(
            &mut op.rng,
            current_ticket_pos,
            last_ticket_pos,
        );
        match selection_result {
            AdditionalSelectionTryResult::Selected => {
                proof {
                    let rand_pos = reduce_to_range(
                        next_value(old(op)@.rng),
                        current_ticket_pos as nat,
                        (last_ticket_pos + 1) as nat,
                    ) as usize;
                    before.lemma_ticket_at_valid(rand_pos);
                    before.lemma_draw_keeps_universe(current_ticket_pos, rand_pos);
                    lemma_count_winning_insert(
                        before.ticket_status,
                        before.ticket_at(rand_pos),
                        1,
                        last_ticket_pos as int,
                    );
                    lemma_count_winning_bound(
                        self@.tickets.ticket_status,
                        1,
                        last_ticket_pos as int,
                    );
                }
                op.leftover_tickets -= 1;
                op.total_additional_winning_tickets += 1;
                op.leftover_ticket_pos_offset += 1;
            },
            AdditionalSelectionTryResult::CurrentAlreadyWinning => {
                proof {
                    before.lemma_skip_keeps_universe(current_ticket_pos);
                }
                op.leftover_ticket_pos_offset += 1;
            },
            AdditionalSelectionTryResult::NewlySelectedAlreadyWinning => {},
        }
        CONTINUE_OP
    }

    fn winning_tickets_in_range(&self, ticket_range: &TicketRange) -> (winning_tickets_no: usize) {
        let mut winning_tickets_no: usize = 0;
        let mut ticket_id = ticket_range.first_id;
        while ticket_id <= ticket_range.last_id
            invariant
                ticket_range.last_id < usize::MAX,
                ticket_range.first_id <= ticket_id,
                ticket_range.last_id < ticket_range.first_id ==> ticket_id == ticket_range.first_id,
                ticket_range.first_id <= ticket_range.last_id ==> ticket_id <= ticket_range.last_id + 1,
                winning_tickets_no == count_winning(
                    self@.tickets.ticket_status,
                    ticket_range.first_id as int,
                    ticket_id - 1,
                ),
                winning_tickets_no <= ticket_id - ticket_range.first_id,
            decreases ticket_range.last_id + 1 - ticket_id,
        {
            let ticket_status = self.tickets.get_ticket_status(ticket_id);
            if ticket_status == WINNING_TICKET {
                winning_tickets_no += 1;
            }
            ticket_id += 1;
        }
        winning_tickets_no
    }

    fn try_select_winning_ticket(
        &mut self,
        rng: &mut Random,
        current_ticket_position: usize,
        last_ticket_position: usize,
    ) -> (result: AdditionalSelectionTryResult) {
        let current_ticket_id = self.tickets.get_ticket_id_from_pos(current_ticket_position);
        if self.is_already_winning_ticket(current_ticket_id) {
            return AdditionalSelectionTryResult::CurrentAlreadyWinning;
        }
        let rand_pos = rng.next_usize_in_range(current_ticket_position, last_ticket_position + 1);
        let winning_ticket_id = self.tickets.get_ticket_id_from_pos(rand_pos);
        if self.is_already_winning_ticket(winning_ticket_id) {
            return AdditionalSelectionTryResult::NewlySelectedAlreadyWinning;
        }
        proof {
            self@.tickets.lemma_ticket_at_valid(current_ticket_position);
        }
        self.tickets.redirect(rand_pos, current_ticket_id);
        self.tickets.set_winning(winning_ticket_id);
        AdditionalSelectionTryResult::Selected
    }

    fn is_already_winning_ticket(&self, ticket_id: usize) -> (winning: bool) {
        self.tickets.get_ticket_status(ticket_id) == WINNING_TICKET
    }
}

/// Where the user's tickets already hold the user's earned wins, or the
/// user has earned none, no ticket is made to win.
pub proof fn lemma_nothing_to_promote(s: LaunchpadState, user: u64)
    requires
        s.shortfall(user, s.guaranteed_for(user)) == 0,
    ensures
        s.tickets_promoted_for(user) == s.tickets,
        s.promotions_for(user) == 0,
{
}

/// The length of the encoding of a selection's state.
pub const SELECTION_ENCODED_LEN: usize = 52;

/// The encoding of a selection's state: the generator, then the three
/// counters, each in four bytes.
pub open spec fn selection_encoding(op: SelectionState) -> Seq<u8> {
    random_encoding(op.rng) + be_bytes(op.leftover_tickets as nat) + be_bytes(
        op.leftover_ticket_pos_offset as nat,
    ) + be_bytes(op.total_additional_winning_tickets as nat)
}

/// The state of a selection that `bytes` stand for, where they are as
/// many as an encoding has and start with a generator.
pub open spec fn selection_decoding(bytes: Seq<u8>) -> Option<SelectionState> {
    if bytes.len() == SELECTION_ENCODED_LEN && random_decoding(bytes) is Some {
        Some(
            SelectionState {
                rng: random_decoding(bytes)->0,
                leftover_tickets: be_u32(bytes.subrange(40, 44)) as usize,
                leftover_ticket_pos_offset: be_u32(bytes.subrange(44, 48)) as usize,
                total_additional_winning_tickets: be_u32(bytes.subrange(48, 52)) as usize,
            },
        )
    } else {
        None
    }
}

impl SelectionState {
    /// Whether each number of the state has at most 32 bits, which is what
    /// the encoding keeps of a number.
    pub open spec fn fits_encoding(self) -> bool {
        &&& self.rng.seed.len() == crate::random::HASH_LEN
        &&& self.rng.index < 0x1_0000_0000
        &&& self.leftover_tickets < 0x1_0000_0000
        &&& self.leftover_ticket_pos_offset < 0x1_0000_0000
        &&& self.total_additional_winning_tickets < 0x1_0000_0000
    }
}

/// The encoding of a state whose numbers have at most 32 bits reads back
/// as that state.
pub proof fn lemma_selection_round_trip(op: SelectionState)
    requires
        op.fits_encoding(),
    ensures
        selection_encoding(op).len() == SELECTION_ENCODED_LEN,
        selection_decoding(selection_encoding(op)) == Some(op),
{
    let bytes = selection_encoding(op);
    lemma_random_round_trip(op.rng);
    lemma_be_round_trip(op.leftover_tickets as nat);
    lemma_be_round_trip(op.leftover_ticket_pos_offset as nat);
    lemma_be_round_trip(op.total_additional_winning_tickets as nat);
    let head = random_encoding(op.rng);
    assert(bytes.subrange(0, 4) == head.subrange(0, 4));
    assert(bytes.subrange(4, 36) == head.subrange(4, 36));
    assert(bytes.subrange(36, 40) == head.subrange(36, 40));
    assert(bytes.subrange(40, 44) == be_bytes(op.leftover_tickets as nat));
    assert(bytes.subrange(44, 48) == be_bytes(op.leftover_ticket_pos_offset as nat));
    assert(bytes.subrange(48, 52) == be_bytes(op.total_additional_winning_tickets as nat));
}

impl GuaranteedTicketsSelectionOperation {
    /// The state of a selection that starts now and draws from `rng`:
    /// nothing is left to draw, no ticket has been made to win, and the
    /// draw starts right behind the base winners.
    pub fn new(rng: Random) -> (op: GuaranteedTicketsSelectionOperation)
        ensures
            op@ == (SelectionState {
                rng: rng@,
                leftover_tickets: 0,
                leftover_ticket_pos_offset: 1,
                total_additional_winning_tickets: 0,
            }),
            op.rng == rng,
    {
        GuaranteedTicketsSelectionOperation {
            rng,
            leftover_tickets: 0,
            leftover_ticket_pos_offset: 1,
            total_additional_winning_tickets: 0,
        }
    }
}

impl CheckpointPayload for GuaranteedTicketsSelectionOperation {
    open spec fn encoding(v: SelectionState) -> Seq<u8> {
        selection_encoding(v)
    }

    open spec fn decoding(bytes: Seq<u8>) -> Option<SelectionState> {
        selection_decoding(bytes)
    }

    open spec fn encodable(v: SelectionState) -> bool {
        v.fits_encoding()
    }

    proof fn lemma_round_trip(v: SelectionState) {
        lemma_selection_round_trip(v);
    }

    fn encode(&self) -> (bytes: Vec<u8>) {
        let mut bytes = Vec::new();
        push_random(&mut bytes, &self.rng);
        push_be_u32(&mut bytes, self.leftover_tickets);
        push_be_u32(&mut bytes, self.leftover_ticket_pos_offset);
        push_be_u32(&mut bytes, self.total_additional_winning_tickets);
        bytes
    }

    fn decode(bytes: &[u8]) -> (value: Option<GuaranteedTicketsSelectionOperation>) {
        if bytes.len() != SELECTION_ENCODED_LEN {
            return None;
        }
        assert(bytes@.skip(0) == bytes@);
        let rng = match read_random(bytes, 0) {
            Some(rng) => rng,
            None => {
                return None;
            },
        };
        let leftover_tickets = read_be_u32(bytes, 40);
        let leftover_ticket_pos_offset = read_be_u32(bytes, 44);
        let total_additional_winning_tickets = read_be_u32(bytes, 48);
        Some(
            GuaranteedTicketsSelectionOperation {
                rng,
                leftover_tickets,
                leftover_ticket_pos_offset,
                total_additional_winning_tickets,
            },
        )
    }
}

/// What [`promote`] does to the tickets: at most `quota` tickets win, all
/// of them tickets of `[first, last]` that had not won; no ticket that had
/// won loses its win; and a range that holds `[first, last]` counts as
/// many more winners as tickets were made to win.
pub proof fn lemma_promote_effects(
    status: Map<usize, bool>,
    first: int,
    last: int,
    quota: nat,
    lo: int,
    hi: int,
)
    requires
        0 <= lo <= first,
        last <= hi <= usize::MAX,
    ensures
        promotions(status, first, last, quota) <= quota,
        forall|id: usize| has_won(status, id) ==> #[trigger] has_won(promote(status, first, last, quota), id),
        forall|id: usize|
            #[trigger] has_won(promote(status, first, last, quota), id) && !has_won(status, id)
                ==> first <= id <= last,
        count_winning(promote(status, first, last, quota), lo, hi) == count_winning(status, lo, hi)
            + promotions(status, first, last, quota),
    decreases last - first + 1,
{
    if last < first || first < 0 || last > usize::MAX || quota == 0 {
    } else if has_won(status, first as usize) {
        lemma_promote_effects(status, first + 1, last, quota, lo, hi);
    } else {
        let marked = status.insert(first as usize, WINNING_TICKET);
        lemma_promote_effects(marked, first + 1, last, (quota - 1) as nat, lo, hi);
        lemma_count_winning_insert(status, first as usize, lo, hi);
        let after = promote(status, first, last, quota);
        assert(after == promote(marked, first + 1, last, (quota - 1) as nat));
        assert forall|id: usize| has_won(status, id) implies #[trigger] has_won(after, id) by {
            assert(has_won(marked, id));
        }
        assert forall|id: usize| #[trigger] has_won(after, id) && !has_won(status, id) implies first
            <= id <= last by {
            if id != first {
                assert(!has_won(marked, id));
            }
        }
    }
}

impl TicketsState {
    /// Wins change nothing about the positions: where no win was taken
    /// back and every position holds the ticket it held, the positions
    /// from `from` on still hold distinct tickets, and among them every
    /// ticket that has not won.
    pub proof fn lemma_wins_keep_universe(self, after: TicketsState, from: int)
        requires
            self.universe_covers_losing(from),
            self.universe_distinct(from),
            after.last_ticket_id == self.last_ticket_id,
            after.ticket_pos_to_id == self.ticket_pos_to_id,
            forall|id: usize| self.is_winning(id) ==> #[trigger] after.is_winning(id),
        ensures
            after.universe_covers_losing(from),
            after.universe_distinct(from),
    {
        assert forall|x: usize| 1 <= x <= after.last_ticket_id && !after.is_winning(x) implies #[trigger] after.reachable(
            from,
            x,
        ) by {
            assert(!self.is_winning(x));
            assert(self.reachable(from, x));
            let pos = choose|pos: usize| from <= pos <= self.last_ticket_id && #[trigger] self.ticket_at(pos) == x;
            assert(after.ticket_at(pos) == x);
        }
        assert forall|p: usize, q: usize|
            from <= p <= after.last_ticket_id && from <= q <= after.last_ticket_id && p != q implies #[trigger] after.ticket_at(
            p,
        ) != #[trigger] after.ticket_at(q) by {
            assert(self.ticket_at(p) != self.ticket_at(q));
        }
    }
}

/// A user has earned no more wins than were promised to it.
pub proof fn lemma_guaranteed_within_promise(s: LaunchpadState, user: u64)
    ensures
        s.guaranteed_for(user) <= promised_to(s.user_ticket_status, user),
        s.shortfall(user, s.guaranteed_for(user)) <= s.guaranteed_for(user),
{
}

/// A step of the first kind leaves a state from which the selection can
/// go on, takes no win back, and keeps the promises accounted for.
pub proof fn lemma_selection_step_keeps_wf(s: LaunchpadState, op: SelectionState)
    requires
        s.wf_while_distributing(op),
    ensures
        selection_step(s, op).0.wf_while_distributing(selection_step(s, op).1),
        promises_accounted(selection_step(s, op).0, selection_step(s, op).1) == promises_accounted(
            s,
            op,
        ),
        forall|id: usize|
            s.tickets.is_winning(id) ==> #[trigger] selection_step(s, op).0.tickets.is_winning(id),
        selection_step(s, op).0.users_with_guaranteed_ticket.len() == if s.users_with_guaranteed_ticket.len()
            == 0 {
            0
        } else {
            s.users_with_guaranteed_ticket.len() - 1
        },
{
    if s.users_with_guaranteed_ticket.len() > 0 {
        let user = s.users_with_guaranteed_ticket[0];
        let after = selection_step(s, op).0;
        let after_op = selection_step(s, op).1;
        let last = s.tickets.last_ticket_id as int;
        let next_pos = s.nr_winning_tickets + op.leftover_ticket_pos_offset;
        lemma_promised_total_without_first(s.user_ticket_status, s.users_with_guaranteed_ticket);
        lemma_guaranteed_within_promise(s, user);
        if s.tickets.ticket_range_for_address.contains_key(user) {
            let range = s.tickets.ticket_range_for_address[user];
            lemma_promote_effects(
                s.tickets.ticket_status,
                range.first_id as int,
                range.last_id as int,
                s.shortfall(user, s.guaranteed_for(user)),
                1,
                last,
            );
        }
        s.tickets.lemma_wf_ignores_status(after.tickets);
        assert forall|id: usize| s.tickets.is_winning(id) implies #[trigger] after.tickets.is_winning(
            id,
        ) by {}
        s.tickets.lemma_wins_keep_universe(after.tickets, next_pos);
        lemma_count_winning_bound(after.tickets.ticket_status, 1, last);
    }
}

/// A step of the second kind leaves a state from which the selection can
/// go on and takes no win back. While tickets are left that have not won,
/// it keeps the promises accounted for.
pub proof fn lemma_leftover_step_keeps_wf(s: LaunchpadState, op: SelectionState)
    requires
        s.wf_while_distributing(op),
    ensures
        leftover_step(s, op).0.wf_while_distributing(leftover_step(s, op).1),
        s.nr_winning_tickets + op.total_additional_winning_tickets < s.tickets.last_ticket_id
            ==> promises_accounted(leftover_step(s, op).0, leftover_step(s, op).1)
            == promises_accounted(s, op),
        forall|id: usize|
            s.tickets.is_winning(id) ==> #[trigger] leftover_step(s, op).0.tickets.is_winning(id),
        leftover_step(s, op).1.total_additional_winning_tickets
            >= op.total_additional_winning_tickets,
        leftover_step(s, op).0.nr_winning_tickets == s.nr_winning_tickets,
        leftover_step(s, op).0.tickets.last_ticket_id == s.tickets.last_ticket_id,
{
    let last = s.tickets.last_ticket_id;
    lemma_count_winning_bound(s.tickets.ticket_status, 1, last as int);
    let exhausted = s.nr_winning_tickets + op.total_additional_winning_tickets >= last;
    if !(exhausted || op.leftover_tickets == 0) {
        let current = (s.nr_winning_tickets + op.leftover_ticket_pos_offset) as usize;
        let losing = lemma_some_ticket_losing(s.tickets.ticket_status, 1, last as int);
        assert(s.tickets.reachable(current as int, losing));
        let current_id = s.tickets.ticket_at(current);
        crate::random::lemma_advanced_settled(op.rng);
        if s.tickets.is_winning(current_id) {
            s.tickets.lemma_skip_keeps_universe(current);
        } else {
            let rand_pos = reduce_to_range(next_value(op.rng), current as nat, (last + 1) as nat) as usize;
            let winning_id = s.tickets.ticket_at(rand_pos);
            let drawn = next_value(op.rng) as int;
            let width = last + 1 - current;
            assert(0 <= drawn % width < width) by (nonlinear_arith)
                requires
                    width > 0,
                    drawn >= 0,
            {
            }
            assert(current <= rand_pos <= last);
            if !s.tickets.is_winning(winning_id) {
                let after = leftover_step(s, op).0;
                s.tickets.lemma_ticket_at_valid(rand_pos);
                s.tickets.lemma_shuffle_result_wf(current, rand_pos);
                s.tickets.lemma_draw_keeps_universe(current, rand_pos);
                lemma_count_winning_insert(s.tickets.ticket_status, winning_id, 1, last as int);
                lemma_count_winning_bound(after.tickets.ticket_status, 1, last as int);
            }
        }
    }
}

/// The launch and the selection after `steps` steps of the first kind.
pub open spec fn after_selection_steps(s: LaunchpadState, op: SelectionState, steps: nat) -> (
    LaunchpadState,
    SelectionState,
)
    decreases steps,
{
    if steps == 0 {
        (s, op)
    } else {
        after_selection_steps(
            selection_step(s, op).0,
            selection_step(s, op).1,
            (steps - 1) as nat,
        )
    }
}

/// The launch and the selection after `steps` steps of the second kind.
pub open spec fn after_leftover_steps(s: LaunchpadState, op: SelectionState, steps: nat) -> (
    LaunchpadState,
    SelectionState,
)
    decreases steps,
{
    if steps == 0 {
        (s, op)
    } else {
        after_leftover_steps(leftover_step(s, op).0, leftover_step(s, op).1, (steps - 1) as nat)
    }
}

/// Steps of the first kind made in two parts leave what they leave when
/// made in one: where a call stops between two steps is of no consequence.
pub proof fn lemma_selection_steps_in_parts(
    s: LaunchpadState,
    op: SelectionState,
    first_part: nat,
    second_part: nat,
)
    ensures
        after_selection_steps(s, op, first_part + second_part) == after_selection_steps(
            after_selection_steps(s, op, first_part).0,
            after_selection_steps(s, op, first_part).1,
            second_part,
        ),
    decreases first_part,
{
    if first_part > 0 {
        lemma_selection_steps_in_parts(
            selection_step(s, op).0,
            selection_step(s, op).1,
            (first_part - 1) as nat,
            second_part,
        );
    }
}

/// Steps of the second kind made in two parts leave what they leave when
/// made in one.
pub proof fn lemma_leftover_steps_in_parts(
    s: LaunchpadState,
    op: SelectionState,
    first_part: nat,
    second_part: nat,
)
    ensures
        after_leftover_steps(s, op, first_part + second_part) == after_leftover_steps(
            after_leftover_steps(s, op, first_part).0,
            after_leftover_steps(s, op, first_part).1,
            second_part,
        ),
    decreases first_part,
{
    if first_part > 0 {
        lemma_leftover_steps_in_parts(
            leftover_step(s, op).0,
            leftover_step(s, op).1,
            (first_part - 1) as nat,
            second_part,
        );
    }
}

/// However many steps of the first kind are made, the selection can go on
/// from what they leave, no win is taken back, the promises stay accounted
/// for, and each step takes one user off the list while there is one.
pub proof fn lemma_selection_steps_keep_wf(s: LaunchpadState, op: SelectionState, steps: nat)
    requires
        s.wf_while_distributing(op),
    ensures
        after_selection_steps(s, op, steps).0.wf_while_distributing(
            after_selection_steps(s, op, steps).1,
        ),
        promises_accounted(
            after_selection_steps(s, op, steps).0,
            after_selection_steps(s, op, steps).1,
        ) == promises_accounted(s, op),
        forall|id: usize|
            s.tickets.is_winning(id) ==> #[trigger] after_selection_steps(
                s,
                op,
                steps,
            ).0.tickets.is_winning(id),
        after_selection_steps(s, op, steps).0.users_with_guaranteed_ticket.len() == if steps
            >= s.users_with_guaranteed_ticket.len() {
            0
        } else {
            s.users_with_guaranteed_ticket.len() - steps
        },
    decreases steps,
{
    if steps > 0 {
        let next = selection_step(s, op);
        lemma_selection_step_keeps_wf(s, op);
        lemma_selection_steps_keep_wf(next.0, next.1, (steps - 1) as nat);
        let end = after_selection_steps(s, op, steps);
        assert forall|id: usize| s.tickets.is_winning(id) implies #[trigger] end.0.tickets.is_winning(
            id,
        ) by {
            assert(next.0.tickets.is_winning(id));
        }
    }
}

/// The first part of the selection comes to its end: after as many steps
/// as there are users on the list no user is left, and the next step
/// answers that it is done and changes nothing.
pub proof fn lemma_selection_completes(s: LaunchpadState, op: SelectionState)
    requires
        s.wf_while_distributing(op),
    ensures
        ({
            let end = after_selection_steps(s, op, s.users_with_guaranteed_ticket.len());
            &&& end.0.users_with_guaranteed_ticket.len() == 0
            &&& selection_step(end.0, end.1) == (end.0, end.1, STOP_OP)
        }),
{
    lemma_selection_steps_keep_wf(s, op, s.users_with_guaranteed_ticket.len());
}

/// However many steps of the second kind are made, the selection can go
/// on from what they leave and no win is taken back. As long as tickets
/// are left that have not won, the promises stay accounted for: each win
/// that is drawn is one promise less to keep.
pub proof fn lemma_leftover_steps_keep_wf(s: LaunchpadState, op: SelectionState, steps: nat)
    requires
        s.wf_while_distributing(op),
    ensures
        after_leftover_steps(s, op, steps).0.wf_while_distributing(
            after_leftover_steps(s, op, steps).1,
        ),
        forall|id: usize|
            s.tickets.is_winning(id) ==> #[trigger] after_leftover_steps(
                s,
                op,
                steps,
            ).0.tickets.is_winning(id),
        after_leftover_steps(s, op, steps).1.total_additional_winning_tickets
            >= op.total_additional_winning_tickets,
        after_leftover_steps(s, op, steps).0.nr_winning_tickets == s.nr_winning_tickets,
        after_leftover_steps(s, op, steps).0.tickets.last_ticket_id == s.tickets.last_ticket_id,
        s.nr_winning_tickets + after_leftover_steps(
            s,
            op,
            steps,
        ).1.total_additional_winning_tickets < s.tickets.last_ticket_id ==> promises_accounted(
            after_leftover_steps(s, op, steps).0,
            after_leftover_steps(s, op, steps).1,
        ) == promises_accounted(s, op),
    decreases steps,
{
    if steps > 0 {
        let next = leftover_step(s, op);
        lemma_leftover_step_keeps_wf(s, op);
        lemma_leftover_steps_keep_wf(next.0, next.1, (steps - 1) as nat);
        let end = after_leftover_steps(s, op, steps);
        assert forall|id: usize| s.tickets.is_winning(id) implies #[trigger] end.0.tickets.is_winning(
            id,
        ) by {
            assert(next.0.tickets.is_winning(id));
        }
    }
}

/// What is promised stays accounted for through the whole selection: the
/// wins given, the promised wins still to be drawn, and the promises not
/// yet looked at add up, after any number of steps of the first kind and
/// then of the second, to what they added up to at the start, unless every
/// ticket has won by then.
pub proof fn lemma_promises_kept(
    s: LaunchpadState,
    op: SelectionState,
    selection_steps: nat,
    leftover_steps: nat,
)
    requires
        s.wf_while_distributing(op),
    ensures
        ({
            let middle = after_selection_steps(s, op, selection_steps);
            let end = after_leftover_steps(middle.0, middle.1, leftover_steps);
            end.0.nr_winning_tickets + end.1.total_additional_winning_tickets
                < end.0.tickets.last_ticket_id ==> promises_accounted(end.0, end.1)
                == promises_accounted(s, op)
        }),
{
    lemma_selection_steps_keep_wf(s, op, selection_steps);
    let middle = after_selection_steps(s, op, selection_steps);
    lemma_leftover_steps_keep_wf(middle.0, middle.1, leftover_steps);
}

/// No ticket wins twice: an attempt that draws a winner makes a ticket win
/// that had not won, one of the tickets issued, and changes the status of
/// no other ticket, so that one more ticket has won than before.
pub proof fn lemma_draw_wins_new_ticket(t: TicketsState, rng: RandomState, current: usize, last: usize)
    requires
        t.wf(),
        1 <= current <= last,
        last == t.last_ticket_id,
        try_select(t, rng, current, last).2 == AdditionalSelectionTryResult::Selected,
    ensures
        exists|id: usize|
            1 <= id <= last && !t.is_winning(id) && #[trigger] try_select(
                t,
                rng,
                current,
                last,
            ).0.ticket_status == t.ticket_status.insert(id, WINNING_TICKET),
        try_select(t, rng, current, last).0.winning_in_range(1, last as int) == t.winning_in_range(
            1,
            last as int,
        ) + 1,
{
    let drawn = next_value(rng) as int;
    let width = last + 1 - current;
    assert(0 <= drawn % width < width) by (nonlinear_arith)
        requires
            width > 0,
            drawn >= 0,
    {
    }
    let rand_pos = reduce_to_range(next_value(rng), current as nat, (last + 1) as nat) as usize;
    let winning_id = t.ticket_at(rand_pos);
    t.lemma_ticket_at_valid(rand_pos);
    lemma_count_winning_insert(t.ticket_status, winning_id, 1, last as int);
    assert(try_select(t, rng, current, last).0.ticket_status == t.ticket_status.insert(
        winning_id,
        WINNING_TICKET,
    ));
}

} // verus!
