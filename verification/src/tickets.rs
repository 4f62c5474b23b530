//! The numbered tickets: ranges, wins, and the positions of the draw.

use std::collections::HashMap;
use vstd::prelude::*;
use vstd::std_specs::hash::group_hash_axioms;
use crate::error::LaunchpadError;
use crate::launch_stage::LaunchStage;

verus! {

broadcast use group_hash_axioms;

/// The id of the first ticket that is ever issued.
pub const FIRST_TICKET_ID: usize = 1;

/// Whether a ticket has won.
pub type TicketStatus = bool;

/// The status of a ticket that has won.
pub const WINNING_TICKET: TicketStatus = true;

/// The ids of the tickets of one user, both ends included.
#[derive(Clone, Copy, Debug, PartialEq, Eq, Structural)]
pub struct TicketRange {
    pub first_id: usize,
    pub last_id: usize,
}

/// The tickets that one user got in one registration.
#[derive(Clone, Copy, Debug, PartialEq, Eq, Structural)]
pub struct TicketBatch {
    pub address: u64,
    pub nr_tickets: usize,
}

/// The numbered tickets of a launch: who holds which, which have won, and
/// which ticket stands at which position of the draw.
pub struct TicketRegistry {
    /// The id of the last ticket issued; 0 while there is none.
    pub last_ticket_id: usize,
    /// The tickets that have won. A ticket without an entry has not.
    pub ticket_status: HashMap<usize, bool>,
    /// For each user, the range of ids of the user's tickets.
    pub ticket_range_for_address: HashMap<u64, TicketRange>,
    /// For the first id of each range, its holder and its length.
    pub ticket_batch: HashMap<usize, TicketBatch>,
    /// For each user, the number of tickets that the user has confirmed.
    pub nr_confirmed_tickets: HashMap<u64, usize>,
    /// The positions that hold another ticket than their own.
    pub ticket_pos_to_id: HashMap<usize, usize>,
}

/// What a [`TicketRegistry`] holds, as mathematical maps.
#[verifier::ext_equal]
pub struct TicketsState {
    pub last_ticket_id: usize,
    pub ticket_status: Map<usize, bool>,
    pub ticket_range_for_address: Map<u64, TicketRange>,
    pub ticket_batch: Map<usize, TicketBatch>,
    pub nr_confirmed_tickets: Map<u64, usize>,
    pub ticket_pos_to_id: Map<usize, usize>,
}

impl View for TicketRegistry {
    type V = TicketsState;

    open spec fn view(&self) -> TicketsState {
        TicketsState {
            last_ticket_id: self.last_ticket_id,
            ticket_status: self.ticket_status@,
            ticket_range_for_address: self.ticket_range_for_address@,
            ticket_batch: self.ticket_batch@,
            nr_confirmed_tickets: self.nr_confirmed_tickets@,
            ticket_pos_to_id: self.ticket_pos_to_id@,
        }
    }
}

/// Whether the ticket `id` has won. A ticket without an entry has not.
pub open spec fn has_won(status: Map<usize, bool>, id: usize) -> bool {
    status.contains_key(id) && status[id]
}

/// The number of tickets with an id of `[first, last]` that have won.
pub open spec fn count_winning(status: Map<usize, bool>, first: int, last: int) -> nat
    decreases last - first + 1,
{
    if last < first || first < 0 || last > usize::MAX {
        0
    } else {
        count_winning(status, first, last - 1) + if has_won(status, last as usize) {
            1nat
        } else {
            0nat
        }
    }
}

/// No more tickets of a range have won than the range holds.
pub proof fn lemma_count_winning_bound(status: Map<usize, bool>, first: int, last: int)
    requires
        first <= last + 1,
    ensures
        count_winning(status, first, last) <= last - first + 1,
    decreases last - first + 1,
{
    if !(last < first || first < 0 || last > usize::MAX) {
        lemma_count_winning_bound(status, first, last - 1);
    }
}

/// A win of a ticket that had not won raises the count of a range by one
/// where the ticket lies in the range, and leaves it where it does not.
pub proof fn lemma_count_winning_insert(status: Map<usize, bool>, id: usize, first: int, last: int)
    requires
        !has_won(status, id),
        0 <= first,
        last <= usize::MAX,
    ensures
        count_winning(status.insert(id, WINNING_TICKET), first, last) == count_winning(
            status,
            first,
            last,
        ) + if first <= id <= last {
            1nat
        } else {
            0nat
        },
    decreases last - first + 1,
{
    if !(last < first) {
        lemma_count_winning_insert(status, id, first, last - 1);
    }
}

/// A range of which fewer tickets have won than it holds, holds a ticket
/// that has not won.
pub proof fn lemma_some_ticket_losing(status: Map<usize, bool>, first: int, last: int) -> (id: usize)
    requires
        0 <= first,
        last <= usize::MAX,
        count_winning(status, first, last) < last - first + 1,
    ensures
        first <= id <= last,
        !has_won(status, id),
    decreases last - first + 1,
{
    if last < first {
        0
    } else if !has_won(status, last as usize) {
        last as usize
    } else {
        lemma_some_ticket_losing(status, first, last - 1)
    }
}

impl TicketsState {
    /// Every range lies within the tickets issued, only positions of
    /// tickets are recorded, each with the id of a ticket, and one more id
    /// can always be formed.
    pub open spec fn wf(self) -> bool {
        &&& self.last_ticket_id < usize::MAX - 1
        &&& forall|user: u64| #[trigger]
            self.ticket_range_for_address.contains_key(user) ==> {
                let range = self.ticket_range_for_address[user];
                &&& 1 <= range.first_id
                &&& range.first_id <= range.last_id + 1
                &&& range.last_id <= self.last_ticket_id
            }
        &&& forall|pos: usize| #[trigger]
            self.ticket_pos_to_id.contains_key(pos) ==> {
                &&& 1 <= pos <= self.last_ticket_id
                &&& 1 <= self.ticket_pos_to_id[pos] <= self.last_ticket_id
            }
    }

    /// A state that differs from a well-formed one in nothing but the
    /// tickets that have won and the tickets confirmed is well-formed too.
    pub proof fn lemma_wf_ignores_status(self, other: TicketsState)
        requires
            self.wf(),
            other.last_ticket_id == self.last_ticket_id,
            other.ticket_range_for_address == self.ticket_range_for_address,
            other.ticket_pos_to_id == self.ticket_pos_to_id,
        ensures
            other.wf(),
    {
        assert forall|user: u64| #[trigger]
            other.ticket_range_for_address.contains_key(user) implies {
            let range = other.ticket_range_for_address[user];
            &&& 1 <= range.first_id
            &&& range.first_id <= range.last_id + 1
            &&& range.last_id <= other.last_ticket_id
        } by {
            assert(self.ticket_range_for_address.contains_key(user));
        }
        assert forall|pos: usize| #[trigger]
            other.ticket_pos_to_id.contains_key(pos) implies {
            &&& 1 <= pos <= other.last_ticket_id
            &&& 1 <= other.ticket_pos_to_id[pos] <= other.last_ticket_id
        } by {
            assert(self.ticket_pos_to_id.contains_key(pos));
        }
    }

    /// Whether the ticket `id` has won. A ticket without an entry has not.
    pub open spec fn is_winning(self, id: usize) -> bool {
        has_won(self.ticket_status, id)
    }

    /// The id of the ticket that stands at position `pos`: the recorded
    /// one, or `pos` itself where none, or 0, is recorded.
    pub open spec fn ticket_at(self, pos: usize) -> usize {
        if self.ticket_pos_to_id.contains_key(pos) && self.ticket_pos_to_id[pos] != 0 {
            self.ticket_pos_to_id[pos]
        } else {
            pos
        }
    }

    /// The number of tickets that `address` has confirmed; 0 where none is recorded.
    pub open spec fn confirmed_tickets(self, address: u64) -> usize {
        if self.nr_confirmed_tickets.contains_key(address) {
            self.nr_confirmed_tickets[address]
        } else {
            0
        }
    }

    /// The number of tickets with an id of `[first, last]` that have won.
    pub open spec fn winning_in_range(self, first: int, last: int) -> nat {
        count_winning(self.ticket_status, first, last)
    }

    /// Whether no ticket has won and every position holds its own ticket,
    /// as before any draw.
    pub open spec fn draw_untouched(self) -> bool {
        &&& forall|id: usize| !#[trigger] self.is_winning(id)
        &&& forall|pos: usize| #[trigger] self.ticket_at(pos) == pos
    }

    /// Whether some position of `[from, last_ticket_id]` holds the ticket `id`.
    pub open spec fn reachable(self, from: int, id: usize) -> bool {
        exists|pos: usize| from <= pos <= self.last_ticket_id && #[trigger] self.ticket_at(pos) == id
    }

    /// Whether every ticket that has not won stands at some position of
    /// `[from, last_ticket_id]`: a draw among these positions can still
    /// reach each of them.
    pub open spec fn universe_covers_losing(self, from: int) -> bool {
        forall|id: usize|
            1 <= id <= self.last_ticket_id && !self.is_winning(id) ==> #[trigger] self.reachable(
                from,
                id,
            )
    }

    /// Whether the positions of `[from, last_ticket_id]` hold tickets that
    /// differ from each other: no ticket can be drawn at two of them.
    pub open spec fn universe_distinct(self, from: int) -> bool {
        forall|p: usize, q: usize|
            from <= p <= self.last_ticket_id && from <= q <= self.last_ticket_id && p != q
                ==> #[trigger] self.ticket_at(p) != #[trigger] self.ticket_at(q)
    }

    /// The state in which the ticket `id` has won.
    pub open spec fn with_winning(self, id: usize) -> TicketsState {
        TicketsState { ticket_status: self.ticket_status.insert(id, WINNING_TICKET), ..self }
    }

    /// The state in which position `pos` holds the ticket `id`.
    pub open spec fn with_redirect(self, pos: usize, id: usize) -> TicketsState {
        TicketsState { ticket_pos_to_id: self.ticket_pos_to_id.insert(pos, id), ..self }
    }

    /// What the registration of `nr_tickets` tickets for `buyer` meets: a
    /// user is registered once, and the new ids must stay below the largest
    /// number by more than one.
    pub open spec fn creation_outcome(self, buyer: u64, nr_tickets: usize) -> Result<
        (),
        LaunchpadError,
    > {
        if self.ticket_range_for_address.contains_key(buyer) {
            Err(LaunchpadError::DuplicateEntryForUser)
        } else if self.last_ticket_id + 1 >= usize::MAX - nr_tickets {
            Err(LaunchpadError::MaxTicketsReached)
        } else {
            Ok(())
        }
    }

    /// The state after `buyer` got the next `nr_tickets` ids.
    pub open spec fn with_tickets(self, buyer: u64, nr_tickets: usize) -> TicketsState {
        let first_id = (self.last_ticket_id + 1) as usize;
        let last_id = (self.last_ticket_id + nr_tickets) as usize;
        TicketsState {
            last_ticket_id: last_id,
            ticket_range_for_address: self.ticket_range_for_address.insert(
                buyer,
                TicketRange { first_id, last_id },
            ),
            ticket_batch: self.ticket_batch.insert(
                first_id,
                TicketBatch { address: buyer, nr_tickets },
            ),
            ..self
        }
    }

    /// Registering tickets leaves the wins, the confirmed tickets and the
    /// positions of the draw as they are, and takes no ticket away.
    pub proof fn lemma_with_all_tickets_keeps_draw(self, pairs: Seq<(u64, usize)>)
        ensures
            self.with_all_tickets(pairs).1.ticket_status == self.ticket_status,
            self.with_all_tickets(pairs).1.nr_confirmed_tickets == self.nr_confirmed_tickets,
            self.with_all_tickets(pairs).1.ticket_pos_to_id == self.ticket_pos_to_id,
        decreases pairs.len(),
    {
        if pairs.len() > 0 && self.creation_outcome(pairs[0].0, pairs[0].1) is Ok {
            self.with_tickets(pairs[0].0, pairs[0].1).lemma_with_all_tickets_keeps_draw(
                pairs.drop_first(),
            );
        }
    }

    /// The outcome of registering `pairs` in order, and the state that is
    /// left: registration stops at the first pair that is rejected.
    pub open spec fn with_all_tickets(self, pairs: Seq<(u64, usize)>) -> (
        Result<(), LaunchpadError>,
        TicketsState,
    )
        decreases pairs.len(),
    {
        if pairs.len() == 0 {
            (Ok(()), self)
        } else {
            let outcome = self.creation_outcome(pairs[0].0, pairs[0].1);
            if outcome is Ok {
                self.with_tickets(pairs[0].0, pairs[0].1).with_all_tickets(pairs.drop_first())
            } else {
                (outcome, self)
            }
        }
    }
}

impl TicketRegistry {
    /// A registry without tickets.
    pub fn new() -> (registry: TicketRegistry)
        ensures
            registry@.wf(),
            registry@ == (TicketsState {
                last_ticket_id: 0,
                ticket_status: Map::empty(),
                ticket_range_for_address: Map::empty(),
                ticket_batch: Map::empty(),
                nr_confirmed_tickets: Map::empty(),
                ticket_pos_to_id: Map::empty(),
            }),
    {
        TicketRegistry {
            last_ticket_id: 0,
            ticket_status: HashMap::new(),
            ticket_range_for_address: HashMap::new(),
            ticket_batch: HashMap::new(),
            nr_confirmed_tickets: HashMap::new(),
            ticket_pos_to_id: HashMap::new(),
        }
    }

    /// Whether the ticket `ticket_id` has won.
    pub fn get_ticket_status(&self, ticket_id: usize) -> (status: TicketStatus)
        ensures
            status == self@.is_winning(ticket_id),
    {
        match self.ticket_status.get(&ticket_id) {
            Some(status) => *status,
            None => false,
        }
    }

    /// Records that the ticket `ticket_id` has won. Nothing takes a win back.
    pub fn set_winning(&mut self, ticket_id: usize)
        ensures
            final(self)@ == old(self)@.with_winning(ticket_id),
            old(self)@.wf() ==> final(self)@.wf(),
    {
        self.ticket_status.insert(ticket_id, WINNING_TICKET);
        proof {
            if old(self)@.wf() {
                old(self)@.lemma_wf_ignores_status(self@);
            }
        }
    }

    /// Records that position `ticket_pos` holds the ticket `ticket_id` from now on.
    pub fn redirect(&mut self, ticket_pos: usize, ticket_id: usize)
        requires
            old(self)@.wf(),
            1 <= ticket_pos <= old(self)@.last_ticket_id,
            1 <= ticket_id <= old(self)@.last_ticket_id,
        ensures
            final(self)@ == old(self)@.with_redirect(ticket_pos, ticket_id),
            final(self)@.wf(),
    {
        self.ticket_pos_to_id.insert(ticket_pos, ticket_id);
        proof {
            let before = old(self)@;
            let after = self@;
            assert forall|user: u64| #[trigger]
                after.ticket_range_for_address.contains_key(user) implies {
                let range = after.ticket_range_for_address[user];
                &&& 1 <= range.first_id
                &&& range.first_id <= range.last_id + 1
                &&& range.last_id <= after.last_ticket_id
            } by {
                assert(before.ticket_range_for_address.contains_key(user));
            }
            assert forall|pos: usize| #[trigger]
                after.ticket_pos_to_id.contains_key(pos) implies {
                &&& 1 <= pos <= after.last_ticket_id
                &&& 1 <= after.ticket_pos_to_id[pos] <= after.last_ticket_id
            } by {
                if pos != ticket_pos {
                    assert(before.ticket_pos_to_id.contains_key(pos));
                }
            }
        }
    }

    /// The number of tickets that `address` has confirmed; 0 where none is recorded.
    pub fn get_nr_confirmed_tickets(&self, address: u64) -> (nr: usize)
        ensures
            nr == self@.confirmed_tickets(address),
    {
        match self.nr_confirmed_tickets.get(&address) {
            Some(nr) => *nr,
            None => 0,
        }
    }

    /// Records the number of tickets that `address` has confirmed.
    pub fn set_nr_confirmed_tickets(&mut self, address: u64, nr_tickets: usize)
        ensures
            final(self)@ == (TicketsState {
                nr_confirmed_tickets: old(self)@.nr_confirmed_tickets.insert(address, nr_tickets),
                ..old(self)@
            }),
            old(self)@.wf() ==> final(self)@.wf(),
    {
        self.nr_confirmed_tickets.insert(address, nr_tickets);
        proof {
            if old(self)@.wf() {
                old(self)@.lemma_wf_ignores_status(self@);
            }
        }
    }
}

/// The registration of tickets and the questions that the draw asks of them.
pub trait TicketsModule: View<V = TicketsState> + Sized {
    /// Registers tickets for each pair of a user and a number, in order,
    /// up to the first pair that is rejected. Tickets are only added during
    /// the first stage of a launch.
    fn add_tickets(&mut self, stage: LaunchStage, address_number_pairs: &Vec<(u64, usize)>) -> (res:
        Result<(), LaunchpadError>)
        requires
            old(self)@.wf(),
        ensures
            final(self)@.wf(),
            stage != LaunchStage::AddTickets ==> res == Err::<(), LaunchpadError>(
                LaunchpadError::AddTicketsPeriodPassed,
            ) && final(self)@ == old(self)@,
            stage == LaunchStage::AddTickets ==> (res, final(self)@) == old(self)@.with_all_tickets(
                address_number_pairs@,
            ),
    ;

    /// The range of the tickets of `address`, where it holds any.
    fn get_ticket_range_for_address(&self, address: u64) -> (range: Option<(usize, usize)>)
        ensures
            range == if self@.ticket_range_for_address.contains_key(address) {
                Some(
                    (
                        self@.ticket_range_for_address[address].first_id,
                        self@.ticket_range_for_address[address].last_id,
                    ),
                )
            } else {
                None
            },
    ;

    /// The number of tickets of `address`.
    fn get_total_number_of_tickets_for_address(&self, address: u64) -> (nr: usize)
        requires
            self@.wf(),
        ensures
            nr == if self@.ticket_range_for_address.contains_key(address) {
                self@.ticket_range_for_address[address].last_id
                    - self@.ticket_range_for_address[address].first_id + 1
            } else {
                0
            },
    ;

    /// Gives `buyer` the next `nr_tickets` ids.
    fn try_create_tickets(&mut self, buyer: u64, nr_tickets: usize) -> (res: Result<
        (),
        LaunchpadError,
    >)
        requires
            old(self)@.wf(),
        ensures
            final(self)@.wf(),
            res == old(self)@.creation_outcome(buyer, nr_tickets),
            res is Ok ==> final(self)@ == old(self)@.with_tickets(buyer, nr_tickets),
            res is Err ==> final(self)@ == old(self)@,
    ;

    /// The range of the tickets of `address`, which must hold some.
    fn try_get_ticket_range(&self, address: u64) -> (res: Result<TicketRange, LaunchpadError>)
        ensures
            res == if self@.ticket_range_for_address.contains_key(address) {
                Ok::<TicketRange, LaunchpadError>(self@.ticket_range_for_address[address])
            } else {
                Err::<TicketRange, LaunchpadError>(LaunchpadError::NoTickets)
            },
    ;

    /// The id of the ticket at position `ticket_pos` of the draw.
    fn get_ticket_id_from_pos(&self, ticket_pos: usize) -> (ticket_id: usize)
        ensures
            ticket_id == self@.ticket_at(ticket_pos),
    ;

    /// The number of tickets issued, which is the id of the last one.
    fn get_total_tickets(&self) -> (total: usize)
        ensures
            total == self@.last_ticket_id,
    ;
}

impl TicketsModule for TicketRegistry {
    fn add_tickets(&mut self, stage: LaunchStage, address_number_pairs: &Vec<(u64, usize)>) -> (res:
        Result<(), LaunchpadError>) {
        if stage != LaunchStage::AddTickets {
            return Err(LaunchpadError::AddTicketsPeriodPassed);
        }
        let mut i: usize = 0;
        assert(address_number_pairs@.skip(0) == address_number_pairs@);
        while i < address_number_pairs.len()
            invariant
                stage == LaunchStage::AddTickets,
                i <= address_number_pairs@.len(),
                self@.wf(),
                old(self)@.with_all_tickets(address_number_pairs@) == self@.with_all_tickets(
                    address_number_pairs@.skip(i as int),
                ),
            decreases address_number_pairs@.len() - i,
        {
            let (buyer, nr_tickets) = address_number_pairs[i];
            let ghost rest = address_number_pairs@.skip(i as int);
            assert(rest[0] == address_number_pairs@[i as int]);
            assert(rest.drop_first() == address_number_pairs@.skip(i + 1));
            let created = self.try_create_tickets(buyer, nr_tickets);
            if created.is_err() {
                return created;
            }
            i += 1;
        }
        assert(address_number_pairs@.skip(i as int).len() == 0);
        Ok(())
    }

    fn get_ticket_range_for_address(&self, address: u64) -> (range: Option<(usize, usize)>) {
        match self.ticket_range_for_address.get(&address) {
            Some(ticket_range) => Some((ticket_range.first_id, ticket_range.last_id)),
            None => None,
        }
    }

    fn get_total_number_of_tickets_for_address(&self, address: u64) -> (nr: usize) {
        match self.ticket_range_for_address.get(&address) {
            Some(ticket_range) => {
                assert(self@.ticket_range_for_address.contains_key(address));
                ticket_range.last_id + 1 - ticket_range.first_id
            },
            None => 0,
        }
    }

    fn try_create_tickets(&mut self, buyer: u64, nr_tickets: usize) -> (res: Result<
        (),
        LaunchpadError,
    >) {
        if self.ticket_range_for_address.contains_key(&buyer) {
            return Err(LaunchpadError::DuplicateEntryForUser);
        }
        let first_ticket_id = self.last_ticket_id + 1;
        if first_ticket_id >= usize::MAX - nr_tickets {
            return Err(LaunchpadError::MaxTicketsReached);
        }
        let last_ticket_id = first_ticket_id + nr_tickets - 1;
        self.ticket_range_for_address.insert(
            buyer,
            TicketRange { first_id: first_ticket_id, last_id: last_ticket_id },
        );
        self.ticket_batch.insert(first_ticket_id, TicketBatch { address: buyer, nr_tickets });
        self.last_ticket_id = last_ticket_id;
        proof {
            let before = old(self)@;
            let after = self@;
            assert forall|user: u64| #[trigger]
                after.ticket_range_for_address.contains_key(user) implies {
                let range = after.ticket_range_for_address[user];
                &&& 1 <= range.first_id
                &&& range.first_id <= range.last_id + 1
                &&& range.last_id <= after.last_ticket_id
            } by {
                if user != buyer {
                    assert(before.ticket_range_for_address.contains_key(user));
                }
            }
            assert forall|pos: usize| #[trigger]
                after.ticket_pos_to_id.contains_key(pos) implies {
                &&& 1 <= pos <= after.last_ticket_id
                &&& 1 <= after.ticket_pos_to_id[pos] <= after.last_ticket_id
            } by {
                assert(before.ticket_pos_to_id.contains_key(pos));
            }
        }
        Ok(())
    }

    fn try_get_ticket_range(&self, address: u64) -> (res: Result<TicketRange, LaunchpadError>) {
        match self.ticket_range_for_address.get(&address) {
            Some(ticket_range) => Ok(*ticket_range),
            None => Err(LaunchpadError::NoTickets),
        }
    }

    fn get_ticket_id_from_pos(&self, ticket_pos: usize) -> (ticket_id: usize) {
        match self.ticket_pos_to_id.get(&ticket_pos) {
            Some(ticket_id) => if *ticket_id == 0 {
                ticket_pos
            } else {
                *ticket_id
            },
            None => ticket_pos,
        }
    }

    fn get_total_tickets(&self) -> (total: usize) {
        self.last_ticket_id
    }
}

} // verus!
