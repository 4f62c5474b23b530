use launchpad::error::LaunchpadError;
use launchpad::guaranteed_ticket_winners::{
    GuaranteedTicketWinnersModule, GuaranteedTicketsSelectionOperation,
};
use launchpad::guaranteed_tickets_init::{GuaranteedTicketsLaunchpad, UserTicketsStatus};
use launchpad::launch_stage::{LaunchStage, LaunchStageModule, TimelineConfig};
use launchpad::launchpad_migration_guaranteed_tickets::LaunchpadMigrationGuaranteedTickets;
use launchpad::ongoing_operation::{OperationCompletionStatus, CONTINUE_OP, STOP_OP};
use launchpad::random::Random;
use launchpad::tickets::{TicketRange, TicketsModule, WINNING_TICKET};
use launchpad::winner_selection::WinnerSelectionModule;

const CONFIRM_START_BLOCK: u64 = 5;
const WINNER_SELECTION_START_BLOCK: u64 = 10;
const CLAIM_START_BLOCK: u64 = 15;

const NR_WINNING_TICKETS: usize = 3;
const MAX_TIER_TICKETS: usize = 3;

/// A budget under which no call is ever interrupted.
const AMPLE_GAS: u64 = u64::MAX;

/// One participant: the user, the tickets on the staking and on the
/// migration track, and whether the user migrated.
type Entry = (u64, usize, usize, bool);

struct LaunchpadSetup {
    lp: GuaranteedTicketsLaunchpad,
    participants: Vec<u64>,
}

/// What is promised to a participant: one win on the staking track from
/// the largest tier on, one on the migration track to those who migrated.
fn status_of(entry: &Entry) -> UserTicketsStatus {
    UserTicketsStatus {
        staking_tickets_allowance: entry.1,
        energy_tickets_allowance: entry.2,
        staking_guaranteed_tickets: if entry.1 >= MAX_TIER_TICKETS { 1 } else { 0 },
        migration_guaranteed_tickets: if entry.3 { 1 } else { 0 },
    }
}

impl LaunchpadSetup {
    /// Three participants with 1, 2 and 3 tickets on the staking track.
    fn new(nr_winning_tickets: usize) -> Self {
        let lp = GuaranteedTicketsLaunchpad::new(
            nr_winning_tickets,
            TimelineConfig {
                confirmation_period_start_block: CONFIRM_START_BLOCK,
                winner_selection_start_block: WINNER_SELECTION_START_BLOCK,
                claim_start_block: CLAIM_START_BLOCK,
            },
            MAX_TIER_TICKETS,
        )
        .unwrap();
        let mut setup = LaunchpadSetup { lp, participants: Vec::new() };
        let entries: Vec<Entry> = (0..3).map(|i| (i as u64 + 1, i + 1, 0, false)).collect();
        setup.add_entries(&entries).unwrap();

        // 1 ticket for the max tier gets removed
        assert_eq!(setup.lp.nr_winning_tickets, nr_winning_tickets - 1);
        assert_eq!(setup.lp.users_with_guaranteed_ticket.len(), 1);
        assert!(setup
            .lp
            .users_with_guaranteed_ticket
            .contains(setup.participants.last().unwrap()));
        setup
    }

    /// Records what is promised to each participant of `entries`.
    fn add_entries(&mut self, entries: &[Entry]) -> Result<(), LaunchpadError> {
        for entry in entries {
            let status = status_of(entry);
            if status.staking_guaranteed_tickets + status.migration_guaranteed_tickets > 0 {
                self.lp.add_user_with_guaranteed_tickets(entry.0, status)?;
            }
            self.participants.push(entry.0);
        }
        Ok(())
    }

    /// Gives each participant as many tickets as it has confirmed, in the
    /// order of the participants: those are the tickets that are left once
    /// the unconfirmed ones are filtered out.
    fn confirm(&mut self, confirmed: &[(u64, usize)]) {
        let kept: Vec<(u64, usize)> = confirmed.iter().filter(|c| c.1 > 0).cloned().collect();
        self.lp.add_tickets(CONFIRM_START_BLOCK - 1, &kept).unwrap();
        for (user, nr_tickets) in confirmed {
            self.lp.set_nr_confirmed_tickets(*user, *nr_tickets);
        }
    }

    fn select_base_winners(&mut self, nr_whales: usize) {
        let base_winning = NR_WINNING_TICKETS - nr_whales;
        assert_eq!(self.lp.nr_winning_tickets, base_winning);
        self.lp.select_winners_by_position(WINNER_SELECTION_START_BLOCK).unwrap();
    }

    fn distribute_tickets(&mut self, seed: [u8; 32]) -> OperationCompletionStatus {
        let mut run = self.lp.begin_distribution(WINNER_SELECTION_START_BLOCK, seed).unwrap();
        loop {
            if let Some(status) = self.lp.continue_distribution(&mut run, AMPLE_GAS) {
                return status;
            }
        }
    }

    fn ticket_status(&self, ticket_id: usize) -> bool {
        self.lp.tickets.get_ticket_status(ticket_id)
    }

    fn get_number_of_winning_tickets_for_address(&self, user: u64) -> usize {
        match self.lp.tickets.get_ticket_range_for_address(user) {
            Some((first_id, last_id)) => {
                self.lp.winning_tickets_in_range(&TicketRange { first_id, last_id })
            }
            None => 0,
        }
    }
}

/// Looks at the promises to all users, one after the other.
fn select_guaranteed_tickets(
    lp: &mut GuaranteedTicketsLaunchpad,
    op: &mut GuaranteedTicketsSelectionOperation,
) {
    while lp.select_guaranteed_tickets_step(op) == CONTINUE_OP {}
}

/// Draws until nothing is left to draw.
fn distribute_leftover_tickets(
    lp: &mut GuaranteedTicketsLaunchpad,
    op: &mut GuaranteedTicketsSelectionOperation,
) {
    while lp.distribute_leftover_tickets_step(op) == CONTINUE_OP {}
}

/// A seed whose first draw is `first_draw`.
fn seed_with_first_draw(first_draw: u32) -> [u8; 32] {
    let mut seed = [0u8; 32];
    seed[..4].copy_from_slice(&first_draw.to_be_bytes());
    seed
}

#[test]
fn guaranteed_tickets_test_init_test() {
    let _ = LaunchpadSetup::new(NR_WINNING_TICKETS);
}

#[test]
fn guaranteed_tickets_test_confirm_all_test() {
    let mut lp_setup = LaunchpadSetup::new(NR_WINNING_TICKETS);
    let participants = lp_setup.participants.clone();

    let confirmed: Vec<(u64, usize)> =
        participants.iter().enumerate().map(|(i, p)| (*p, i + 1)).collect();
    lp_setup.confirm(&confirmed);

    lp_setup.select_base_winners(1);

    assert_eq!(lp_setup.ticket_status(1), WINNING_TICKET);
    assert_eq!(lp_setup.ticket_status(2), WINNING_TICKET);
    assert_eq!(lp_setup.ticket_status(3), false);
    assert_eq!(lp_setup.ticket_status(4), false);
    assert_eq!(lp_setup.ticket_status(5), false);
    assert_eq!(lp_setup.ticket_status(6), false);

    assert_eq!(lp_setup.get_number_of_winning_tickets_for_address(participants[0]), 1);
    assert_eq!(lp_setup.get_number_of_winning_tickets_for_address(participants[1]), 1);
    assert_eq!(lp_setup.get_number_of_winning_tickets_for_address(participants[2]), 0);

    assert_eq!(lp_setup.lp.nr_winning_tickets, NR_WINNING_TICKETS - 1);

    assert_eq!(lp_setup.distribute_tickets([7u8; 32]), OperationCompletionStatus::Completed);

    // third user now has ticket with ID 4 as winning
    assert_eq!(lp_setup.ticket_status(1), WINNING_TICKET);
    assert_eq!(lp_setup.ticket_status(2), WINNING_TICKET);
    assert_eq!(lp_setup.ticket_status(3), false);
    assert_eq!(lp_setup.ticket_status(4), WINNING_TICKET);
    assert_eq!(lp_setup.ticket_status(5), false);
    assert_eq!(lp_setup.ticket_status(6), false);

    assert_eq!(lp_setup.get_number_of_winning_tickets_for_address(participants[0]), 1);
    assert_eq!(lp_setup.get_number_of_winning_tickets_for_address(participants[1]), 1);
    assert_eq!(lp_setup.get_number_of_winning_tickets_for_address(participants[2]), 1);

    assert_eq!(lp_setup.lp.nr_winning_tickets, NR_WINNING_TICKETS);
    assert_eq!(lp_setup.lp.users_with_guaranteed_ticket.len(), 0);
    assert!(lp_setup.lp.clock.flags.was_additional_step_completed);
    assert_eq!(
        lp_setup.lp.clock.get_launch_stage(CLAIM_START_BLOCK),
        LaunchStage::Claim
    );
}

#[test]
fn guaranteed_tickets_test_redistribute_test() {
    let mut lp_setup = LaunchpadSetup::new(NR_WINNING_TICKETS);
    let participants = lp_setup.participants.clone();

    lp_setup.confirm(&[(participants[0], 1), (participants[1], 2), (participants[2], 2)]);

    lp_setup.select_base_winners(1);

    assert_eq!(lp_setup.ticket_status(1), WINNING_TICKET);
    assert_eq!(lp_setup.ticket_status(2), WINNING_TICKET);
    assert_eq!(lp_setup.ticket_status(3), false);
    assert_eq!(lp_setup.ticket_status(4), false);
    assert_eq!(lp_setup.ticket_status(5), false);

    assert_eq!(lp_setup.get_number_of_winning_tickets_for_address(participants[0]), 1);
    assert_eq!(lp_setup.get_number_of_winning_tickets_for_address(participants[1]), 1);
    assert_eq!(lp_setup.get_number_of_winning_tickets_for_address(participants[2]), 0);

    assert_eq!(lp_setup.lp.nr_winning_tickets, NR_WINNING_TICKETS - 1);
    assert_eq!(lp_setup.lp.users_with_guaranteed_ticket.len(), 1);

    // the draw among the positions 3 to 5 falls on the first of them
    assert_eq!(
        lp_setup.distribute_tickets(seed_with_first_draw(0)),
        OperationCompletionStatus::Completed
    );

    // distribute leftover selected ticket ID 3 as winning
    assert_eq!(lp_setup.ticket_status(1), WINNING_TICKET);
    assert_eq!(lp_setup.ticket_status(2), WINNING_TICKET);
    assert_eq!(lp_setup.ticket_status(3), WINNING_TICKET);
    assert_eq!(lp_setup.ticket_status(4), false);
    assert_eq!(lp_setup.ticket_status(5), false);

    assert_eq!(lp_setup.get_number_of_winning_tickets_for_address(participants[0]), 1);
    assert_eq!(lp_setup.get_number_of_winning_tickets_for_address(participants[1]), 2);
    assert_eq!(lp_setup.get_number_of_winning_tickets_for_address(participants[2]), 0);

    assert_eq!(lp_setup.lp.nr_winning_tickets, NR_WINNING_TICKETS);
    assert_eq!(lp_setup.lp.users_with_guaranteed_ticket.len(), 0);
}

#[test]
fn guaranteed_tickets_test_combined_scenario_test() {
    let mut lp_setup = LaunchpadSetup::new(NR_WINNING_TICKETS);

    // add another "whale"
    let new_participant = 4u64;
    let second_new_participant = 5u64;
    lp_setup
        .add_entries(&[
            (new_participant, MAX_TIER_TICKETS, 0, false),
            (second_new_participant, 1, 0, false),
        ])
        .unwrap();
    let participants = lp_setup.participants.clone();

    // user[0] and user[1] will not confirm, so they get filtered
    lp_setup.confirm(&[(participants[2], 3), (participants[3], 3), (participants[4], 1)]);

    lp_setup.select_base_winners(2);

    assert_eq!(lp_setup.ticket_status(1), WINNING_TICKET);
    assert_eq!(lp_setup.ticket_status(2), false);
    assert_eq!(lp_setup.ticket_status(3), false);
    assert_eq!(lp_setup.ticket_status(4), false);
    assert_eq!(lp_setup.ticket_status(5), false);
    assert_eq!(lp_setup.ticket_status(6), false);
    assert_eq!(lp_setup.ticket_status(7), false);

    assert_eq!(lp_setup.lp.nr_winning_tickets, NR_WINNING_TICKETS - 2);
    assert_eq!(lp_setup.lp.users_with_guaranteed_ticket.len(), 2);

    // distribute by steps, to isolate each step's effect
    let mut op =
        GuaranteedTicketsSelectionOperation::new(Random::from_hash(seed_with_first_draw(0), 0));

    // first step
    select_guaranteed_tickets(&mut lp_setup.lp, &mut op);

    // user[3]'s first ticket was selected
    assert_eq!(lp_setup.ticket_status(1), WINNING_TICKET);
    assert_eq!(lp_setup.ticket_status(2), false);
    assert_eq!(lp_setup.ticket_status(3), false);
    assert_eq!(lp_setup.ticket_status(4), WINNING_TICKET);
    assert_eq!(lp_setup.ticket_status(5), false);
    assert_eq!(lp_setup.ticket_status(6), false);
    assert_eq!(lp_setup.ticket_status(7), false);

    assert_eq!(op.leftover_tickets, 1);
    assert_eq!(op.total_additional_winning_tickets, 1);
    assert_eq!(op.leftover_ticket_pos_offset, 1);

    // second step
    distribute_leftover_tickets(&mut lp_setup.lp, &mut op);

    // ticket ID 2 was selected as winner
    assert_eq!(lp_setup.ticket_status(1), WINNING_TICKET);
    assert_eq!(lp_setup.ticket_status(2), WINNING_TICKET);
    assert_eq!(lp_setup.ticket_status(3), false);
    assert_eq!(lp_setup.ticket_status(4), WINNING_TICKET);
    assert_eq!(lp_setup.ticket_status(5), false);
    assert_eq!(lp_setup.ticket_status(6), false);
    assert_eq!(lp_setup.ticket_status(7), false);

    assert_eq!(op.leftover_tickets, 0);
    assert_eq!(op.total_additional_winning_tickets, 2);
    assert_eq!(op.leftover_ticket_pos_offset, 2);

    assert_eq!(lp_setup.lp.users_with_guaranteed_ticket.len(), 0);
}

/// Five participants, two of them with promises on the migration track.
fn migration_setup(nr_winning_tickets: usize) -> LaunchpadSetup {
    let mut lp_setup = LaunchpadSetup::new(nr_winning_tickets);
    // add 2 new users with migration guaranteed tickets
    lp_setup
        .add_entries(&[(4, 1, 1, true), (5, MAX_TIER_TICKETS, MAX_TIER_TICKETS, true)])
        .unwrap();
    lp_setup
}

#[test]
fn add_migration_guaranteed_tickets_distribution_isolated_steps_scenario_test() {
    let nr_random_tickets = 1;
    let nr_staking_guaranteed_tickets = 2;
    let nr_migration_guaranteed_tickets = 2;
    let nr_winning_tickets =
        nr_random_tickets + nr_staking_guaranteed_tickets + nr_migration_guaranteed_tickets;
    let mut lp_setup = migration_setup(nr_winning_tickets);
    let participants = lp_setup.participants.clone();

    // user[0] and user[1] will not confirm, so they get filtered
    // user[3] confirms only 1 from maximum of 2 allowed tickets - should win by migration guaranteed
    lp_setup.confirm(&[(participants[2], 3), (participants[3], 1), (participants[4], 6)]);

    assert_eq!(
        lp_setup.lp.nr_winning_tickets,
        nr_winning_tickets - nr_staking_guaranteed_tickets - nr_migration_guaranteed_tickets
    );
    lp_setup.lp.select_winners_by_position(WINNER_SELECTION_START_BLOCK).unwrap();

    assert_eq!(lp_setup.ticket_status(1), WINNING_TICKET);
    for ticket_id in 2..=10 {
        assert_eq!(lp_setup.ticket_status(ticket_id), false);
    }
    // 1 user with 1 staking guaranteed ticket
    // 1 user with 2 guaranteed tickets (1 staking + 1 migration)
    // 1 user with 1 migration guaranteed ticket
    assert_eq!(lp_setup.lp.users_with_guaranteed_ticket.len(), 3);

    // distribute by steps, to isolate each step's effect
    // the draw among the positions 2 to 10 falls on the seventh of them
    let mut op =
        GuaranteedTicketsSelectionOperation::new(Random::from_hash(seed_with_first_draw(6), 0));

    // first step
    select_guaranteed_tickets(&mut lp_setup.lp, &mut op);

    assert_eq!(lp_setup.ticket_status(1), WINNING_TICKET); // randomly selected -> leftover_ticket
    assert_eq!(lp_setup.ticket_status(2), false);
    assert_eq!(lp_setup.ticket_status(3), false);
    assert_eq!(lp_setup.ticket_status(4), WINNING_TICKET); // migration guaranteed ticket -> additional_winning_tickets
    assert_eq!(lp_setup.ticket_status(5), WINNING_TICKET); // staking guaranteed ticket -> additional_winning_tickets
    assert_eq!(lp_setup.ticket_status(6), WINNING_TICKET); // migration guaranteed ticket -> additional_winning_tickets
    assert_eq!(lp_setup.ticket_status(7), false);
    assert_eq!(lp_setup.ticket_status(8), false);
    assert_eq!(lp_setup.ticket_status(9), false);
    assert_eq!(lp_setup.ticket_status(10), false);

    assert_eq!(op.leftover_tickets, 1);
    assert_eq!(op.total_additional_winning_tickets, 3);
    assert_eq!(op.leftover_ticket_pos_offset, 1);

    // second step
    distribute_leftover_tickets(&mut lp_setup.lp, &mut op);

    assert_eq!(lp_setup.ticket_status(1), WINNING_TICKET);
    assert_eq!(lp_setup.ticket_status(2), false);
    assert_eq!(lp_setup.ticket_status(3), false);
    assert_eq!(lp_setup.ticket_status(4), WINNING_TICKET);
    assert_eq!(lp_setup.ticket_status(5), WINNING_TICKET);
    assert_eq!(lp_setup.ticket_status(6), WINNING_TICKET);
    assert_eq!(lp_setup.ticket_status(7), false);
    assert_eq!(lp_setup.ticket_status(8), WINNING_TICKET); // randomly selected in distribute_leftover_tickets
    assert_eq!(lp_setup.ticket_status(9), false);
    assert_eq!(lp_setup.ticket_status(10), false);

    assert_eq!(op.leftover_tickets, 0);
    assert_eq!(op.total_additional_winning_tickets, 4);
    assert_eq!(op.leftover_ticket_pos_offset, 2);

    assert_eq!(lp_setup.lp.users_with_guaranteed_ticket.len(), 0);

    // the selection itself, as one call, finds the same state and completes
    assert_eq!(lp_setup.distribute_tickets([0u8; 32]), OperationCompletionStatus::Completed);
    assert_eq!(lp_setup.get_number_of_winning_tickets_for_address(participants[2]), 1);
}

#[test]
fn add_migration_guaranteed_tickets_distribution_and_claim_scenario_test() {
    let nr_random_tickets = 1;
    let nr_staking_guaranteed_tickets = 2;
    let nr_migration_guaranteed_tickets = 2;
    let nr_winning_tickets =
        nr_random_tickets + nr_staking_guaranteed_tickets + nr_migration_guaranteed_tickets;
    let mut lp_setup = migration_setup(nr_winning_tickets);
    let participants = lp_setup.participants.clone();

    // user[0] and user[1] will not confirm, so they get filtered
    // user[3] confirms only 1 from maximum of 2 allowed tickets - should win by migration guaranteed
    lp_setup.confirm(&[(participants[2], 3), (participants[3], 1), (participants[4], 6)]);

    lp_setup.lp.select_winners_by_position(WINNER_SELECTION_START_BLOCK).unwrap();

    // distribute guaranteed tickets
    assert_eq!(
        lp_setup.distribute_tickets(seed_with_first_draw(6)),
        OperationCompletionStatus::Completed
    );

    // 1st and 2nd participants have not confirmed anything. So they should not be able to claim anything.
    assert_eq!(
        lp_setup.lp.tickets.try_get_ticket_range(participants[0]).unwrap_err().message(),
        "You have no tickets"
    );
    assert_eq!(
        lp_setup.lp.tickets.try_get_ticket_range(participants[1]).unwrap_err().message(),
        "You have no tickets"
    );

    // Out of 3 confirmed tickets, 1 was won, and 2 were refunded.
    assert_eq!(lp_setup.get_number_of_winning_tickets_for_address(participants[2]), 1);
    // Out of 1 confirmed ticket, 1 was won.
    assert_eq!(lp_setup.get_number_of_winning_tickets_for_address(participants[3]), 1);
    // Out of 6 confirmed tickets, 3 are winning, 3 are refunded.
    assert_eq!(lp_setup.get_number_of_winning_tickets_for_address(participants[4]), 3);

    // All nr_winning_tickets are sold.
    assert_eq!(lp_setup.lp.nr_winning_tickets, nr_winning_tickets);
}

#[test]
fn condition_checks_test() {
    let nr_random_tickets = 1;
    let nr_staking_guaranteed_tickets = 1;
    let nr_migration_guaranteed_tickets = 1;
    let nr_winning_tickets =
        nr_random_tickets + nr_staking_guaranteed_tickets + nr_migration_guaranteed_tickets;
    let mut lp_setup = LaunchpadSetup::new(nr_winning_tickets);
    let new_participant = 4u64;

    // Check error - add tickets for user twice
    lp_setup.add_entries(&[(new_participant, 1, 1, true)]).unwrap();
    assert_eq!(
        lp_setup.add_entries(&[(new_participant, 1, 1, true)]).unwrap_err().message(),
        "Duplicate entry for user"
    );
    lp_setup.participants.truncate(4);
    let participants = lp_setup.participants.clone();

    // Check error - add tickets after allowed period
    let stage = lp_setup.lp.clock.get_launch_stage(CONFIRM_START_BLOCK + 1);
    assert_eq!(stage, LaunchStage::Confirm);
    assert_eq!(
        lp_setup.lp.tickets.add_tickets(stage, &vec![(new_participant, 2)]).unwrap_err().message(),
        "Add tickets period has passed"
    );
    assert_eq!(
        lp_setup
            .lp
            .add_tickets(CONFIRM_START_BLOCK + 1, &vec![(new_participant, 2)])
            .unwrap_err()
            .message(),
        "Add tickets period has passed"
    );
    assert_eq!(
        lp_setup
            .lp
            .clock
            .require_add_tickets_period(CONFIRM_START_BLOCK + 1)
            .unwrap_err()
            .message(),
        "Add tickets period has passed"
    );

    // User 0 confirms with 0 tickets - the flow should still work
    lp_setup.confirm(&[(participants[0], 0), (participants[2], 3), (participants[3], 1)]);

    assert_eq!(
        lp_setup
            .lp
            .clock
            .require_claim_period(WINNER_SELECTION_START_BLOCK)
            .unwrap_err()
            .message(),
        "Not in claim period"
    );

    lp_setup.lp.select_winners_by_position(WINNER_SELECTION_START_BLOCK).unwrap();

    assert_eq!(
        lp_setup.distribute_tickets(seed_with_first_draw(0)),
        OperationCompletionStatus::Completed
    );

    // the selection takes place once
    assert_eq!(
        lp_setup.lp.begin_distribution(WINNER_SELECTION_START_BLOCK, [0u8; 32]).err().unwrap().message(),
        "Already distributed tickets"
    );

    // Check user balance after winning 2 of 3 tickets
    assert_eq!(lp_setup.get_number_of_winning_tickets_for_address(participants[2]), 2);
    assert_eq!(lp_setup.get_number_of_winning_tickets_for_address(participants[3]), 1);
    assert_eq!(lp_setup.lp.nr_winning_tickets, nr_winning_tickets);
    assert!(lp_setup.lp.clock.require_claim_period(CLAIM_START_BLOCK).is_ok());
}

#[test]
fn step_answers_stop_once_no_user_is_left() {
    let mut lp_setup = LaunchpadSetup::new(NR_WINNING_TICKETS);
    let participants = lp_setup.participants.clone();
    lp_setup.confirm(&[(participants[0], 1), (participants[1], 2), (participants[2], 3)]);
    lp_setup.select_base_winners(1);
    let mut op = GuaranteedTicketsSelectionOperation::new(Random::from_hash([0u8; 32], 0));
    assert_eq!(lp_setup.lp.select_guaranteed_tickets_step(&mut op), CONTINUE_OP);
    assert_eq!(lp_setup.lp.select_guaranteed_tickets_step(&mut op), STOP_OP);
    assert_eq!(lp_setup.lp.select_guaranteed_tickets_step(&mut op), STOP_OP);
    assert_eq!(op.total_additional_winning_tickets, 1);
    assert_eq!(op.leftover_tickets, 0);
    assert_eq!(lp_setup.lp.distribute_leftover_tickets_step(&mut op), STOP_OP);
}

#[test]
fn blacklist_scenario_test() {
    let nr_random_tickets = 1;
    let nr_staking_guaranteed_tickets = 1;
    let nr_migration_guaranteed_tickets = 2;
    let nr_winning_tickets =
        nr_random_tickets + nr_staking_guaranteed_tickets + nr_migration_guaranteed_tickets;
    let mut lp_setup = LaunchpadSetup::new(nr_winning_tickets);

    // add 2 new users with migration guaranteed tickets
    lp_setup.add_entries(&[(4, 1, 1, true), (5, 1, 1, true)]).unwrap();
    let participants = lp_setup.participants.clone();

    let no_users_with_guaranteed_tickets = 3;
    assert_eq!(
        lp_setup.lp.nr_winning_tickets,
        nr_winning_tickets - nr_staking_guaranteed_tickets - nr_migration_guaranteed_tickets
    );
    assert_eq!(
        lp_setup.lp.total_guaranteed_tickets,
        nr_staking_guaranteed_tickets + nr_migration_guaranteed_tickets
    );
    assert_eq!(lp_setup.lp.users_with_guaranteed_ticket.len(), no_users_with_guaranteed_tickets);

    lp_setup.confirm(&[(participants[2], 3), (participants[3], 1), (participants[4], 2)]);

    // Check error - the list of users is closed in the winner selection phase
    assert_eq!(
        lp_setup
            .lp
            .clock
            .require_before_winner_selection(WINNER_SELECTION_START_BLOCK)
            .unwrap_err()
            .message(),
        "May only modify blacklist before winner selection"
    );
    assert!(lp_setup.lp.clock.require_before_winner_selection(CONFIRM_START_BLOCK).is_ok());

    lp_setup.lp.select_winners_by_position(WINNER_SELECTION_START_BLOCK).unwrap();

    assert_eq!(lp_setup.ticket_status(1), WINNING_TICKET);
    assert_eq!(lp_setup.ticket_status(2), false);
    assert_eq!(lp_setup.ticket_status(3), false);
    assert_eq!(lp_setup.ticket_status(4), false);
    assert_eq!(lp_setup.ticket_status(5), false);
    assert_eq!(lp_setup.ticket_status(6), false);
    assert_eq!(lp_setup.ticket_status(7), false);

    assert_eq!(lp_setup.lp.users_with_guaranteed_ticket.len(), 3);

    // the draw among the positions 2 to 6 falls on the second of them
    assert_eq!(
        lp_setup.distribute_tickets(seed_with_first_draw(1)),
        OperationCompletionStatus::Completed
    );

    assert_eq!(lp_setup.ticket_status(1), WINNING_TICKET);
    assert_eq!(lp_setup.ticket_status(2), false);
    assert_eq!(lp_setup.ticket_status(3), WINNING_TICKET);
    assert_eq!(lp_setup.ticket_status(4), WINNING_TICKET);
    assert_eq!(lp_setup.ticket_status(5), WINNING_TICKET);
    assert_eq!(lp_setup.ticket_status(6), false);

    assert_eq!(lp_setup.lp.users_with_guaranteed_ticket.len(), 0);

    // the last user has won only 1 ticket
    assert_eq!(lp_setup.get_number_of_winning_tickets_for_address(participants[4]), 1);
}

#[test]
fn confirm_less_tickets_than_total_available_with_vesting_scenario_test() {
    let nr_random_tickets = 1;
    let nr_staking_guaranteed_tickets = 1;
    let nr_migration_guaranteed_tickets = 1;
    let nr_winning_tickets =
        nr_random_tickets + nr_staking_guaranteed_tickets + nr_migration_guaranteed_tickets;
    let mut lp_setup = LaunchpadSetup::new(nr_winning_tickets);
    lp_setup.add_entries(&[(4, 1, 1, true)]).unwrap();
    let participants = lp_setup.participants.clone();

    lp_setup.confirm(&[(participants[3], 1)]);

    lp_setup.select_base_winners(2);

    assert_eq!(
        lp_setup.distribute_tickets(seed_with_first_draw(0)),
        OperationCompletionStatus::Completed
    );

    // 1 ticket was won
    assert_eq!(lp_setup.get_number_of_winning_tickets_for_address(participants[3]), 1);
    assert_eq!(lp_setup.ticket_status(1), WINNING_TICKET);

    // only 1 ticket was confirmed and won
    let actual_winning_tickets = 1;
    assert_eq!(lp_setup.lp.nr_winning_tickets, actual_winning_tickets);
    assert_eq!(lp_setup.lp.users_with_guaranteed_ticket.len(), 0);
}
