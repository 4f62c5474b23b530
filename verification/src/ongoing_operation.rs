//! Operations that take more than one call: the progress that is kept
//! between calls, and the decision, on each reading of the budget, whether
//! another step may run.

use vstd::prelude::*;
use crate::codec::CheckpointPayload;
use crate::error::LaunchpadError;
use crate::random::{Random, RandomState};
use crate::tickets::FIRST_TICKET_ID;

verus! {

/// The budget that must be left over for an operation to save its progress
/// and return.
pub const MIN_GAS_TO_SAVE_PROGRESS: u64 = 10_000_000;

/// What a step tells its driver: go on, or the operation is done.
pub type LoopOp = bool;

/// The step wants to be called again.
pub const CONTINUE_OP: bool = true;

/// The operation is done.
pub const STOP_OP: bool = false;

/// How a call that drives an operation ended.
#[derive(Clone, Copy, Debug, PartialEq, Eq, Structural)]
pub enum OperationCompletionStatus {
    /// The operation is done.
    Completed,
    /// The budget ran low; another call has to go on.
    InterruptedBeforeOutOfGas,
}

/// The progress of the one operation that may be under way.
#[derive(Clone, Debug, PartialEq, Eq)]
pub enum OngoingOperationType {
    /// No operation is under way.
    Empty,
    /// Tickets are being filtered.
    FilterTickets { first_ticket_id_in_batch: usize, nr_removed: usize },
    /// Winners are being drawn.
    SelectWinners { rng: Random, ticket_position: usize },
    /// Another selection is under way; it keeps its state as bytes.
    AdditionalSelection { encoded_data: Vec<u8> },
}

/// An [`OngoingOperationType`] as a mathematical value.
pub enum OperationRecord {
    Empty,
    FilterTickets { first_ticket_id_in_batch: usize, nr_removed: usize },
    SelectWinners { rng: RandomState, ticket_position: usize },
    AdditionalSelection { encoded_data: Seq<u8> },
}

impl View for OngoingOperationType {
    type V = OperationRecord;

    open spec fn view(&self) -> OperationRecord {
        match self {
            OngoingOperationType::Empty => OperationRecord::Empty,
            OngoingOperationType::FilterTickets { first_ticket_id_in_batch, nr_removed } =>
                OperationRecord::FilterTickets {
                    first_ticket_id_in_batch: *first_ticket_id_in_batch,
                    nr_removed: *nr_removed,
                },
            OngoingOperationType::SelectWinners { rng, ticket_position } =>
                OperationRecord::SelectWinners { rng: rng@, ticket_position: *ticket_position },
            OngoingOperationType::AdditionalSelection { encoded_data } =>
                OperationRecord::AdditionalSelection { encoded_data: encoded_data@ },
        }
    }
}

/// Whether a budget of `gas_left` allows another step that may cost as
/// much as `operation_cost` and still leaves enough to save the progress.
pub open spec fn budget_allows(gas_left: u64, operation_cost: u64) -> bool {
    gas_left > MIN_GAS_TO_SAVE_PROGRESS + operation_cost
}

/// The budget accounting of one call that drives an operation: the reading
/// before the last step, and the largest cost of a step seen in this call.
#[derive(Clone, Copy, Debug, PartialEq, Eq, Structural)]
pub struct GasTracker {
    /// The reading taken before the last step; `None` before the first.
    pub gas_before: Option<u64>,
    /// The largest cost of a step seen so far; 0 before the second reading.
    pub gas_per_iteration: u64,
}

impl GasTracker {
    /// The accounting at the start of a call: no step has run.
    pub fn new() -> (tracker: GasTracker)
        ensures
            tracker == (GasTracker { gas_before: None, gas_per_iteration: 0 }),
    {
        GasTracker { gas_before: None, gas_per_iteration: 0 }
    }

    /// The cost of the last step, as the reading `gas_left` shows it: what
    /// the budget has lost since the reading before that step. A budget is
    /// only ever used up, so a reading that went up counts as no cost.
    pub open spec fn last_cost(self, gas_left: u64) -> u64 {
        match self.gas_before {
            Some(before) => if gas_left <= before {
                (before - gas_left) as u64
            } else {
                0
            },
            None => 0,
        }
    }

    /// The largest cost of a step, the last one included.
    pub open spec fn worst_cost(self, gas_left: u64) -> u64 {
        if self.last_cost(gas_left) > self.gas_per_iteration {
            self.last_cost(gas_left)
        } else {
            self.gas_per_iteration
        }
    }

    /// The accounting after the reading `gas_left`.
    pub open spec fn after_reading(self, gas_left: u64) -> GasTracker {
        GasTracker { gas_before: Some(gas_left), gas_per_iteration: self.worst_cost(gas_left) }
    }

    /// Takes the reading `gas_left` before a step and decides whether the
    /// step may run: the budget must exceed the reserve by more than the
    /// largest cost of a step seen in this call.
    pub fn may_run_step(&mut self, gas_left: u64) -> (go_on: bool)
        ensures
            *final(self) == old(self).after_reading(gas_left),
            go_on == budget_allows(gas_left, old(self).worst_cost(gas_left)),
    {
        let current_iteration_cost = match self.gas_before {
            Some(before) => if gas_left <= before {
                before - gas_left
            } else {
                0
            },
            None => 0,
        };
        if current_iteration_cost > self.gas_per_iteration {
            self.gas_per_iteration = current_iteration_cost;
        }
        self.gas_before = Some(gas_left);
        can_continue_operation(gas_left, self.gas_per_iteration)
    }
}

/// Whether a budget of `gas_left` allows another step of cost `operation_cost`.
pub fn can_continue_operation(gas_left: u64, operation_cost: u64) -> (go_on: bool)
    ensures
        go_on == budget_allows(gas_left, operation_cost),
{
    gas_left > MIN_GAS_TO_SAVE_PROGRESS && gas_left - MIN_GAS_TO_SAVE_PROGRESS > operation_cost
}

/// What the driver of an operation does next.
#[derive(Clone, Copy, Debug, PartialEq, Eq, Structural)]
pub enum NextAction {
    /// Run one more step, and come back with its answer.
    RunStep,
    /// Return: the call ends in this way.
    Finish(OperationCompletionStatus),
}

/// What the driver does next, given the answer of the last step, where
/// one has run, and the budget that is left. After a step that answered
/// [`STOP_OP`] the operation is done. Else another step runs where the
/// budget allows it, and the call is interrupted where it does not.
pub open spec fn next_action(tracker: GasTracker, last_step: Option<LoopOp>, gas_left: u64) -> NextAction {
    if last_step == Some(STOP_OP) {
        NextAction::Finish(OperationCompletionStatus::Completed)
    } else if budget_allows(gas_left, tracker.worst_cost(gas_left)) {
        NextAction::RunStep
    } else {
        NextAction::Finish(OperationCompletionStatus::InterruptedBeforeOutOfGas)
    }
}

/// The one place in which the progress of an operation is kept between calls.
pub struct CheckpointStore {
    pub current_ongoing_operation: OngoingOperationType,
}

impl View for CheckpointStore {
    type V = OperationRecord;

    open spec fn view(&self) -> OperationRecord {
        self.current_ongoing_operation@
    }
}

/// The progress of a ticket filter that `record` holds: that of a fresh
/// one where none is under way.
pub open spec fn filter_tickets_progress(record: OperationRecord) -> Result<
    (usize, usize),
    LaunchpadError,
> {
    match record {
        OperationRecord::Empty => Ok((FIRST_TICKET_ID, 0usize)),
        OperationRecord::FilterTickets { first_ticket_id_in_batch, nr_removed } => Ok(
            (first_ticket_id_in_batch, nr_removed),
        ),
        _ => Err(LaunchpadError::AnotherOperationInProgress),
    }
}

/// The progress of a winner selection that `record` holds: where none is
/// under way, the first position and the generator `fresh`.
pub open spec fn select_winners_progress(record: OperationRecord, fresh: RandomState) -> Result<
    (RandomState, usize),
    LaunchpadError,
> {
    match record {
        OperationRecord::Empty => Ok((fresh, FIRST_TICKET_ID)),
        OperationRecord::SelectWinners { rng, ticket_position } => Ok((rng, ticket_position)),
        _ => Err(LaunchpadError::AnotherOperationInProgress),
    }
}

/// The state of another selection that `record` holds: `fresh` where none
/// is under way, else what the kept bytes stand for.
pub open spec fn additional_selection_progress<T: CheckpointPayload>(
    record: OperationRecord,
    fresh: T::V,
) -> Result<T::V, LaunchpadError> {
    match record {
        OperationRecord::Empty => Ok(fresh),
        OperationRecord::AdditionalSelection { encoded_data } => match T::decoding(encoded_data) {
            Some(value) => Ok(value),
            None => Err(LaunchpadError::CheckpointDecodeFailed),
        },
        _ => Err(LaunchpadError::AnotherOperationInProgress),
    }
}

/// Keeping the progress of operations that take more than one call. One
/// operation may be under way at a time: loading the progress of one kind
/// while another kind is under way is an error.
pub trait OngoingOperationModule: View<V = OperationRecord> + Sized {
    /// Decides what the driver of an operation does next. The driver
    /// calls this before the first step, with no answer, and after each
    /// step, with the step's answer, each time with a new reading of the
    /// budget, and does what it is told: it runs the step once more, or
    /// returns. Once the operation is done its progress is cleared; an
    /// interrupted call leaves what is kept as it is, and the caller
    /// saves what it needs to go on.
    fn run_while_it_has_gas(
        &mut self,
        tracker: &mut GasTracker,
        last_step: Option<LoopOp>,
        gas_left: u64,
    ) -> (action: NextAction)
        ensures
            action == next_action(*old(tracker), last_step, gas_left),
            last_step == Some(STOP_OP) ==> final(self)@ == OperationRecord::Empty && *final(tracker)
                == *old(tracker),
            last_step != Some(STOP_OP) ==> final(self)@ == old(self)@ && *final(tracker) == old(
                tracker,
            ).after_reading(gas_left),
    ;

    /// Keeps `op` as the progress of the operation under way.
    fn save_progress(&mut self, op: OngoingOperationType)
        ensures
            final(self)@ == op@,
    ;

    /// Keeps the encoding of `data` as the progress of another selection.
    fn save_additional_selection_progress<T: CheckpointPayload>(&mut self, data: &T)
        ensures
            final(self)@ == (OperationRecord::AdditionalSelection {
                encoded_data: T::encoding(data@),
            }),
    ;

    /// Records that no operation is under way.
    fn clear_operation(&mut self)
        ensures
            final(self)@ == OperationRecord::Empty,
    ;

    /// The first id of the batch that the ticket filter has reached, and the
    /// number of tickets that it has removed.
    fn load_filter_tickets_operation(&self) -> (res: Result<(usize, usize), LaunchpadError>)
        ensures
            res == filter_tickets_progress(self@),
    ;

    /// The generator and the position that the winner selection has
    /// reached. A selection that starts now draws from `fresh`.
    fn load_select_winners_operation(&self, fresh: Random) -> (res: Result<
        (Random, usize),
        LaunchpadError,
    >)
        ensures
            match res {
                Ok((rng, position)) => select_winners_progress(self@, fresh@) == Ok::<
                    (RandomState, usize),
                    LaunchpadError,
                >((rng@, position)),
                Err(e) => select_winners_progress(self@, fresh@) == Err::<
                    (RandomState, usize),
                    LaunchpadError,
                >(e),
            },
    ;

    /// The state that another selection has reached. A selection that
    /// starts now starts from `fresh`.
    fn load_additional_selection_operation<T: CheckpointPayload>(&self, fresh: T) -> (res: Result<
        T,
        LaunchpadError,
    >)
        ensures
            match res {
                Ok(value) => additional_selection_progress::<T>(self@, fresh@) == Ok::<
                    T::V,
                    LaunchpadError,
                >(value@),
                Err(e) => additional_selection_progress::<T>(self@, fresh@) == Err::<
                    T::V,
                    LaunchpadError,
                >(e),
            },
    ;
}

impl CheckpointStore {
    /// A store in which no operation is under way.
    pub fn new() -> (store: CheckpointStore)
        ensures
            store@ == OperationRecord::Empty,
    {
        CheckpointStore { current_ongoing_operation: OngoingOperationType::Empty }
    }
}

impl OngoingOperationModule for CheckpointStore {
    fn run_while_it_has_gas(
        &mut self,
        tracker: &mut GasTracker,
        last_step: Option<LoopOp>,
        gas_left: u64,
    ) -> (action: NextAction) {
        match last_step {
            Some(loop_op) => {
                if loop_op == STOP_OP {
                    self.clear_operation();
                    return NextAction::Finish(OperationCompletionStatus::Completed);
                }
            },
            None => {},
        }
        if tracker.may_run_step(gas_left) {
            NextAction::RunStep
        } else {
            NextAction::Finish(OperationCompletionStatus::InterruptedBeforeOutOfGas)
        }
    }

    fn save_progress(&mut self, op: OngoingOperationType) {
        self.current_ongoing_operation = op;
    }

    fn save_additional_selection_progress<T: CheckpointPayload>(&mut self, data: &T) {
        let encoded_data = data.encode();
        self.save_progress(OngoingOperationType::AdditionalSelection { encoded_data });
    }

    fn clear_operation(&mut self) {
        self.current_ongoing_operation = OngoingOperationType::Empty;
    }

    fn load_filter_tickets_operation(&self) -> (res: Result<(usize, usize), LaunchpadError>) {
        match &self.current_ongoing_operation {
            OngoingOperationType::Empty => Ok((FIRST_TICKET_ID, 0)),
            OngoingOperationType::FilterTickets { first_ticket_id_in_batch, nr_removed } => Ok(
                (*first_ticket_id_in_batch, *nr_removed),
            ),
            _ => Err(LaunchpadError::AnotherOperationInProgress),
        }
    }

    fn load_select_winners_operation(&self, fresh: Random) -> (res: Result<
        (Random, usize),
        LaunchpadError,
    >) {
        match &self.current_ongoing_operation {
            OngoingOperationType::Empty => Ok((fresh, FIRST_TICKET_ID)),
            OngoingOperationType::SelectWinners { rng, ticket_position } => Ok(
                (*rng, *ticket_position),
            ),
            _ => Err(LaunchpadError::AnotherOperationInProgress),
        }
    }

    fn load_additional_selection_operation<T: CheckpointPayload>(&self, fresh: T) -> (res: Result<
        T,
        LaunchpadError,
    >) {
        match &self.current_ongoing_operation {
            OngoingOperationType::Empty => Ok(fresh),
            OngoingOperationType::AdditionalSelection { encoded_data } => {
                match T::decode(encoded_data.as_slice()) {
                    Some(value) => Ok(value),
                    None => Err(LaunchpadError::CheckpointDecodeFailed),
                }
            },
            _ => Err(LaunchpadError::AnotherOperationInProgress),
        }
    }
}

} // verus!
