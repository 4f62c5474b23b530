use launchpad::error::LaunchpadError;
use launchpad::launch_stage::LaunchStage;
use launchpad::tickets::{
    TicketBatch, TicketRange, TicketRegistry, TicketsModule, FIRST_TICKET_ID, WINNING_TICKET,
};

#[test]
fn a_new_registry_has_no_tickets() {
    let registry = TicketRegistry::new();
    assert_eq!(registry.get_total_tickets(), 0);
    assert_eq!(registry.get_ticket_range_for_address(1), None);
    assert_eq!(registry.get_total_number_of_tickets_for_address(1), 0);
    assert_eq!(registry.get_ticket_status(1), false);
    assert_eq!(registry.get_ticket_id_from_pos(1), 1);
    assert_eq!(FIRST_TICKET_ID, 1);
    assert_eq!(WINNING_TICKET, true);
}

#[test]
fn try_create_tickets_gives_the_next_ids() {
    let mut registry = TicketRegistry::new();
    assert_eq!(registry.try_create_tickets(10, 3), Ok(()));
    assert_eq!(registry.try_create_tickets(20, 1), Ok(()));
    assert_eq!(registry.try_create_tickets(30, 2), Ok(()));
    assert_eq!(registry.get_total_tickets(), 6);
    assert_eq!(registry.get_ticket_range_for_address(10), Some((1, 3)));
    assert_eq!(registry.get_ticket_range_for_address(20), Some((4, 4)));
    assert_eq!(registry.get_ticket_range_for_address(30), Some((5, 6)));
    assert_eq!(registry.get_total_number_of_tickets_for_address(10), 3);
    assert_eq!(registry.get_total_number_of_tickets_for_address(20), 1);
    assert_eq!(registry.get_total_number_of_tickets_for_address(30), 2);
    assert_eq!(registry.try_get_ticket_range(30), Ok(TicketRange { first_id: 5, last_id: 6 }));
    assert_eq!(registry.ticket_batch.get(&1), Some(&TicketBatch { address: 10, nr_tickets: 3 }));
    assert_eq!(registry.ticket_batch.get(&4), Some(&TicketBatch { address: 20, nr_tickets: 1 }));
    assert_eq!(registry.ticket_batch.get(&5), Some(&TicketBatch { address: 30, nr_tickets: 2 }));
    assert_eq!(registry.ticket_batch.len(), 3);
}

#[test]
fn try_create_tickets_of_no_tickets_gives_an_empty_range() {
    let mut registry = TicketRegistry::new();
    assert_eq!(registry.try_create_tickets(10, 2), Ok(()));
    assert_eq!(registry.try_create_tickets(20, 0), Ok(()));
    assert_eq!(registry.get_total_tickets(), 2);
    assert_eq!(registry.get_ticket_range_for_address(20), Some((3, 2)));
    assert_eq!(registry.get_total_number_of_tickets_for_address(20), 0);
}

#[test]
fn try_create_tickets_rejects_a_second_entry() {
    let mut registry = TicketRegistry::new();
    assert_eq!(registry.try_create_tickets(10, 3), Ok(()));
    assert_eq!(registry.try_create_tickets(10, 1), Err(LaunchpadError::DuplicateEntryForUser));
    assert_eq!(LaunchpadError::DuplicateEntryForUser.message(), "Duplicate entry for user");
    assert_eq!(registry.get_total_tickets(), 3);
    assert_eq!(registry.get_ticket_range_for_address(10), Some((1, 3)));
}

#[test]
fn try_create_tickets_rejects_ids_near_the_largest_number() {
    let mut registry = TicketRegistry::new();
    // the first id, 1, must be below the largest number less the tickets asked for
    assert_eq!(
        registry.try_create_tickets(10, usize::MAX - 1),
        Err(LaunchpadError::MaxTicketsReached)
    );
    assert_eq!(registry.try_create_tickets(10, usize::MAX), Err(LaunchpadError::MaxTicketsReached));
    assert_eq!(
        LaunchpadError::MaxTicketsReached.message(),
        "Maximum number of tickets was reached"
    );
    assert_eq!(registry.get_total_tickets(), 0);
    assert_eq!(registry.get_ticket_range_for_address(10), None);
    assert_eq!(registry.try_create_tickets(10, usize::MAX - 2), Ok(()));
    assert_eq!(registry.get_total_tickets(), usize::MAX - 2);
    assert_eq!(registry.try_create_tickets(20, 1), Err(LaunchpadError::MaxTicketsReached));
    // no ticket is no id too many
    assert_eq!(registry.try_create_tickets(20, 0), Ok(()));
    assert_eq!(registry.get_ticket_range_for_address(20), Some((usize::MAX - 1, usize::MAX - 2)));
    assert_eq!(registry.get_total_tickets(), usize::MAX - 2);
}

#[test]
fn try_get_ticket_range_of_a_user_without_tickets() {
    let registry = TicketRegistry::new();
    assert_eq!(registry.try_get_ticket_range(10), Err(LaunchpadError::NoTickets));
    assert_eq!(LaunchpadError::NoTickets.message(), "You have no tickets");
}

#[test]
fn add_tickets_registers_each_pair() {
    let mut registry = TicketRegistry::new();
    let pairs = vec![(1u64, 1usize), (2, 2), (3, 3)];
    assert_eq!(registry.add_tickets(LaunchStage::AddTickets, &pairs), Ok(()));
    assert_eq!(registry.get_ticket_range_for_address(1), Some((1, 1)));
    assert_eq!(registry.get_ticket_range_for_address(2), Some((2, 3)));
    assert_eq!(registry.get_ticket_range_for_address(3), Some((4, 6)));
    assert_eq!(registry.get_total_tickets(), 6);
    assert_eq!(registry.add_tickets(LaunchStage::AddTickets, &vec![]), Ok(()));
    assert_eq!(registry.get_total_tickets(), 6);
}

#[test]
fn add_tickets_is_rejected_after_the_first_stage() {
    for stage in [LaunchStage::Confirm, LaunchStage::WinnerSelection, LaunchStage::Claim] {
        let mut registry = TicketRegistry::new();
        assert_eq!(
            registry.add_tickets(stage, &vec![(1, 1)]),
            Err(LaunchpadError::AddTicketsPeriodPassed)
        );
        assert_eq!(registry.get_total_tickets(), 0);
    }
}

#[test]
fn add_tickets_stops_at_the_first_rejected_pair() {
    let mut registry = TicketRegistry::new();
    let pairs = vec![(1u64, 2usize), (2, 1), (1, 5), (3, 1)];
    assert_eq!(
        registry.add_tickets(LaunchStage::AddTickets, &pairs),
        Err(LaunchpadError::DuplicateEntryForUser)
    );
    assert_eq!(registry.get_total_tickets(), 3);
    assert_eq!(registry.get_ticket_range_for_address(2), Some((3, 3)));
    assert_eq!(registry.get_ticket_range_for_address(3), None);
}

#[test]
fn a_position_holds_its_own_ticket_until_it_is_redirected() {
    let mut registry = TicketRegistry::new();
    registry.try_create_tickets(1, 5).unwrap();
    for pos in 0..8 {
        assert_eq!(registry.get_ticket_id_from_pos(pos), pos);
    }
    registry.redirect(4, 2);
    assert_eq!(registry.get_ticket_id_from_pos(4), 2);
    assert_eq!(registry.get_ticket_id_from_pos(2), 2);
    registry.redirect(4, 5);
    assert_eq!(registry.get_ticket_id_from_pos(4), 5);
    // an entry of 0 stands for no entry
    registry.ticket_pos_to_id.insert(3, 0);
    assert_eq!(registry.get_ticket_id_from_pos(3), 3);
}

#[test]
fn a_win_is_recorded_and_stays() {
    let mut registry = TicketRegistry::new();
    registry.try_create_tickets(1, 3).unwrap();
    assert_eq!(registry.get_ticket_status(2), false);
    registry.set_winning(2);
    assert_eq!(registry.get_ticket_status(2), true);
    registry.set_winning(2);
    registry.set_winning(3);
    registry.redirect(2, 1);
    registry.set_nr_confirmed_tickets(1, 3);
    assert_eq!(registry.get_ticket_status(1), false);
    assert_eq!(registry.get_ticket_status(2), true);
    assert_eq!(registry.get_ticket_status(3), true);
}

#[test]
fn confirmed_tickets_default_to_none() {
    let mut registry = TicketRegistry::new();
    assert_eq!(registry.get_nr_confirmed_tickets(7), 0);
    registry.set_nr_confirmed_tickets(7, 4);
    assert_eq!(registry.get_nr_confirmed_tickets(7), 4);
    assert_eq!(registry.get_nr_confirmed_tickets(8), 0);
    registry.set_nr_confirmed_tickets(7, 1);
    assert_eq!(registry.get_nr_confirmed_tickets(7), 1);
}
