//! Ticket launchpad: a fixed pool of winning slots is allotted among numbered
//! tickets by operations that may stop when their execution budget runs low
//! and pick up, on a later call, exactly where they stopped.
//!
//! The library never reads the budget itself. A caller takes a reading
//! before each step and hands it in; the library decides whether the step
//! runs, runs it, and says when the call is over. What a call has reached is
//! kept in one checkpoint, so that another call can go on from it.
//!
//! The base winners are drawn first ([`winner_selection`]). Then the wins
//! that were promised to some users are given ([`guaranteed_ticket_winners`],
//! [`launchpad_migration_guaranteed_tickets`]): from the user's own tickets
//! as far as they go, and by further draws among all tickets for the rest.

pub mod codec;
pub mod error;
pub mod guaranteed_ticket_winners;
pub mod guaranteed_tickets_init;
pub mod launch_stage;
pub mod launchpad_migration_guaranteed_tickets;
pub mod ongoing_operation;
pub mod random;
pub mod tickets;
pub mod winner_selection;
