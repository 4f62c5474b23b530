//! The four stages of a launch and the checks that gate the calls on them.

use vstd::prelude::*;
use crate::error::LaunchpadError;

verus! {

/// The four periods of a launch, in the order in which they follow each other.
#[derive(Clone, Copy, Debug, PartialEq, Eq, Structural)]
pub enum LaunchStage {
    /// Tickets are handed out.
    AddTickets,
    /// The holders confirm their tickets.
    Confirm,
    /// The winners are selected.
    WinnerSelection,
    /// The winners claim what they have won.
    Claim,
}

/// What the winner selection has got done so far.
#[derive(Clone, Copy, Debug, PartialEq, Eq, Structural)]
pub struct Flags {
    pub has_winner_selection_process_started: bool,
    pub were_tickets_filtered: bool,
    /// The base winners are selected.
    pub were_winners_selected: bool,
    /// The selection that follows that of the base winners is done.
    pub was_additional_step_completed: bool,
}

impl Default for Flags {
    fn default() -> (flags: Flags)
        ensures
            flags == (Flags {
                has_winner_selection_process_started: false,
                were_tickets_filtered: false,
                were_winners_selected: false,
                was_additional_step_completed: false,
            }),
    {
        Flags {
            has_winner_selection_process_started: false,
            were_tickets_filtered: false,
            were_winners_selected: false,
            was_additional_step_completed: false,
        }
    }
}

/// The blocks at which the periods after the first one start.
#[derive(Clone, Copy, Debug, PartialEq, Eq, Structural)]
pub struct TimelineConfig {
    pub confirmation_period_start_block: u64,
    pub winner_selection_start_block: u64,
    pub claim_start_block: u64,
}

impl LaunchStage {
    /// The place of the stage in the order of the launch, starting at 0.
    pub open spec fn rank(self) -> nat {
        match self {
            LaunchStage::AddTickets => 0,
            LaunchStage::Confirm => 1,
            LaunchStage::WinnerSelection => 2,
            LaunchStage::Claim => 3,
        }
    }

    /// Whether this stage comes strictly before `other`.
    pub fn is_before(&self, other: &LaunchStage) -> (before: bool)
        ensures
            before == (self.rank() < other.rank()),
    {
        match (self, other) {
            (LaunchStage::AddTickets, LaunchStage::AddTickets) => false,
            (LaunchStage::AddTickets, _) => true,
            (LaunchStage::Confirm, LaunchStage::WinnerSelection) => true,
            (LaunchStage::Confirm, LaunchStage::Claim) => true,
            (LaunchStage::Confirm, _) => false,
            (LaunchStage::WinnerSelection, LaunchStage::Claim) => true,
            (LaunchStage::WinnerSelection, _) => false,
            (LaunchStage::Claim, _) => false,
        }
    }
}

/// The stage that a launch is in at block `current_block`.
///
/// Winner selection lasts until both of its steps are done, however late
/// that is, and never ends before the claim period's start block.
pub open spec fn launch_stage_at(current_block: u64, config: TimelineConfig, flags: Flags) -> LaunchStage {
    if current_block < config.confirmation_period_start_block {
        LaunchStage::AddTickets
    } else if current_block < config.winner_selection_start_block {
        LaunchStage::Confirm
    } else if !(flags.were_winners_selected && flags.was_additional_step_completed)
        || current_block < config.claim_start_block {
        LaunchStage::WinnerSelection
    } else {
        LaunchStage::Claim
    }
}

/// The stage of a launch, and the checks that gate each call on it.
pub trait LaunchStageModule {
    /// The timeline that the launch was set up with.
    spec fn timeline(&self) -> TimelineConfig;

    /// The progress flags of the launch.
    spec fn stage_flags(&self) -> Flags;

    /// The stage of the launch at block `current_block`.
    fn get_launch_stage(&self, current_block: u64) -> (stage: LaunchStage)
        ensures
            stage == launch_stage_at(current_block, self.timeline(), self.stage_flags()),
    ;

    /// Passes while tickets are handed out.
    fn require_add_tickets_period(&self, current_block: u64) -> (res: Result<(), LaunchpadError>)
        ensures
            res is Ok <==> launch_stage_at(current_block, self.timeline(), self.stage_flags())
                == LaunchStage::AddTickets,
            res is Err ==> res == Err::<(), LaunchpadError>(LaunchpadError::AddTicketsPeriodPassed),
    ;

    /// Passes while the holders confirm their tickets.
    fn require_confirmation_period(&self, current_block: u64) -> (res: Result<(), LaunchpadError>)
        ensures
            res is Ok <==> launch_stage_at(current_block, self.timeline(), self.stage_flags())
                == LaunchStage::Confirm,
            res is Err ==> res == Err::<(), LaunchpadError>(LaunchpadError::NotInConfirmationPeriod),
    ;

    /// Passes before the winners are selected.
    fn require_before_winner_selection(&self, current_block: u64) -> (res: Result<(), LaunchpadError>)
        ensures
            res is Ok <==> launch_stage_at(current_block, self.timeline(), self.stage_flags()).rank()
                < LaunchStage::WinnerSelection.rank(),
            res is Err ==> res == Err::<(), LaunchpadError>(LaunchpadError::NotBeforeWinnerSelection),
    ;

    /// Passes while the winners are selected.
    fn require_winner_selection_period(&self, current_block: u64) -> (res: Result<(), LaunchpadError>)
        ensures
            res is Ok <==> launch_stage_at(current_block, self.timeline(), self.stage_flags())
                == LaunchStage::WinnerSelection,
            res is Err ==> res == Err::<(), LaunchpadError>(LaunchpadError::NotInWinnerSelectionPeriod),
    ;

    /// Passes while the winners claim what they have won.
    fn require_claim_period(&self, current_block: u64) -> (res: Result<(), LaunchpadError>)
        ensures
            res is Ok <==> launch_stage_at(current_block, self.timeline(), self.stage_flags())
                == LaunchStage::Claim,
            res is Err ==> res == Err::<(), LaunchpadError>(LaunchpadError::NotInClaimPeriod),
    ;
}

/// The timeline and the progress flags of one launch.
pub struct StageClock {
    pub configuration: TimelineConfig,
    pub flags: Flags,
}

impl LaunchStageModule for StageClock {
    open spec fn timeline(&self) -> TimelineConfig {
        self.configuration
    }

    open spec fn stage_flags(&self) -> Flags {
        self.flags
    }

    fn get_launch_stage(&self, current_block: u64) -> (stage: LaunchStage) {
        if current_block < self.configuration.confirmation_period_start_block {
            return LaunchStage::AddTickets;
        }
        if current_block < self.configuration.winner_selection_start_block {
            return LaunchStage::Confirm;
        }
        let both_selection_steps_completed = self.flags.were_winners_selected
            && self.flags.was_additional_step_completed;
        if !both_selection_steps_completed {
            return LaunchStage::WinnerSelection;
        }
        if current_block < self.configuration.claim_start_block {
            return LaunchStage::WinnerSelection;
        }
        LaunchStage::Claim
    }

    fn require_add_tickets_period(&self, current_block: u64) -> (res: Result<(), LaunchpadError>) {
        if self.get_launch_stage(current_block) == LaunchStage::AddTickets {
            Ok(())
        } else {
            Err(LaunchpadError::AddTicketsPeriodPassed)
        }
    }

    fn require_confirmation_period(&self, current_block: u64) -> (res: Result<(), LaunchpadError>) {
        if self.get_launch_stage(current_block) == LaunchStage::Confirm {
            Ok(())
        } else {
            Err(LaunchpadError::NotInConfirmationPeriod)
        }
    }

    fn require_before_winner_selection(&self, current_block: u64) -> (res: Result<(), LaunchpadError>) {
        if self.get_launch_stage(current_block).is_before(&LaunchStage::WinnerSelection) {
            Ok(())
        } else {
            Err(LaunchpadError::NotBeforeWinnerSelection)
        }
    }

    fn require_winner_selection_period(&self, current_block: u64) -> (res: Result<(), LaunchpadError>) {
        if self.get_launch_stage(current_block) == LaunchStage::WinnerSelection {
            Ok(())
        } else {
            Err(LaunchpadError::NotInWinnerSelectionPeriod)
        }
    }

    fn require_claim_period(&self, current_block: u64) -> (res: Result<(), LaunchpadError>) {
        if self.get_launch_stage(current_block) == LaunchStage::Claim {
            Ok(())
        } else {
            Err(LaunchpadError::NotInClaimPeriod)
        }
    }
}

} // verus!
