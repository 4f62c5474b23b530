//! The reasons for which a call is rejected.

use vstd::prelude::*;

verus! {

/// The reasons for which the launchpad rejects a call.
#[derive(Clone, Copy, Debug, PartialEq, Eq, Structural)]
pub enum LaunchpadError {
    /// Tickets may only be added before the confirmation period starts.
    AddTicketsPeriodPassed,
    /// The call is only accepted during the confirmation period.
    NotInConfirmationPeriod,
    /// The call is only accepted before winner selection starts.
    NotBeforeWinnerSelection,
    /// The call is only accepted during winner selection.
    NotInWinnerSelectionPeriod,
    /// The call is only accepted during the claim period.
    NotInClaimPeriod,
    /// The user already holds a ticket range.
    DuplicateEntryForUser,
    /// No further ticket id can be issued.
    MaxTicketsReached,
    /// The user holds no tickets.
    NoTickets,
    /// The saved checkpoint belongs to another operation.
    AnotherOperationInProgress,
    /// The saved checkpoint payload is not a valid encoding.
    CheckpointDecodeFailed,
    /// The base winner selection has not finished yet.
    WinnersNotSelected,
    /// The guaranteed tickets have already been distributed.
    AlreadyDistributed,
    /// The minimum number of confirmed tickets must be positive.
    InvalidMinConfirmed,
    /// No guarantee record exists for the user.
    UserNotFound,
    /// The base winners have been selected before.
    WinnersAlreadySelected,
    /// More winners are asked for than there are tickets.
    NotEnoughTickets,
    /// More wins are promised than there are winning tickets.
    TooManyGuaranteedTickets,
}

impl LaunchpadError {
    /// The text that is reported for this error.
    pub fn message(&self) -> (text: &'static str)
        ensures
            text@ == self.message_text(),
    {
        match self {
            LaunchpadError::AddTicketsPeriodPassed => "Add tickets period has passed",
            LaunchpadError::NotInConfirmationPeriod => "Not in confirmation period",
            LaunchpadError::NotBeforeWinnerSelection => "May only modify blacklist before winner selection",
            LaunchpadError::NotInWinnerSelectionPeriod => "Not in winner selection period",
            LaunchpadError::NotInClaimPeriod => "Not in claim period",
            LaunchpadError::DuplicateEntryForUser => "Duplicate entry for user",
            LaunchpadError::MaxTicketsReached => "Maximum number of tickets was reached",
            LaunchpadError::NoTickets => "You have no tickets",
            LaunchpadError::AnotherOperationInProgress => "Another ongoing operation is in progress",
            LaunchpadError::CheckpointDecodeFailed => "Failed to deserialize custom ongoing operation",
            LaunchpadError::WinnersNotSelected => "Must select winners for base launchpad first",
            LaunchpadError::AlreadyDistributed => "Already distributed tickets",
            LaunchpadError::InvalidMinConfirmed => "Invalid minimum tickets confirmed for guaranteed winning ticket",
            LaunchpadError::UserNotFound => "User not found",
            LaunchpadError::WinnersAlreadySelected => "Already selected winners",
            LaunchpadError::NotEnoughTickets => "Not enough tickets for the winners",
            LaunchpadError::TooManyGuaranteedTickets => "Too many guaranteed tickets",
        }
    }

    /// The characters of [`LaunchpadError::message`].
    pub open spec fn message_text(&self) -> Seq<char> {
        match self {
            LaunchpadError::AddTicketsPeriodPassed => "Add tickets period has passed"@,
            LaunchpadError::NotInConfirmationPeriod => "Not in confirmation period"@,
            LaunchpadError::NotBeforeWinnerSelection => "May only modify blacklist before winner selection"@,
            LaunchpadError::NotInWinnerSelectionPeriod => "Not in winner selection period"@,
            LaunchpadError::NotInClaimPeriod => "Not in claim period"@,
            LaunchpadError::DuplicateEntryForUser => "Duplicate entry for user"@,
            LaunchpadError::MaxTicketsReached => "Maximum number of tickets was reached"@,
            LaunchpadError::NoTickets => "You have no tickets"@,
            LaunchpadError::AnotherOperationInProgress => "Another ongoing operation is in progress"@,
            LaunchpadError::CheckpointDecodeFailed => "Failed to deserialize custom ongoing operation"@,
            LaunchpadError::WinnersNotSelected => "Must select winners for base launchpad first"@,
            LaunchpadError::AlreadyDistributed => "Already distributed tickets"@,
            LaunchpadError::InvalidMinConfirmed => "Invalid minimum tickets confirmed for guaranteed winning ticket"@,
            LaunchpadError::UserNotFound => "User not found"@,
            LaunchpadError::WinnersAlreadySelected => "Already selected winners"@,
            LaunchpadError::NotEnoughTickets => "Not enough tickets for the winners"@,
            LaunchpadError::TooManyGuaranteedTickets => "Too many guaranteed tickets"@,
        }
    }
}

} // verus!
