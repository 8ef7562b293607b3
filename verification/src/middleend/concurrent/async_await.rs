//! Records of the async/await transformation and of async optimisation,
//! and the polling interface of futures.

use vstd::prelude::*;
use crate::middleend::ir::FunctionId;
use crate::middleend::concurrent::future::FutureState;

verus! {

/// How an async function is transformed.
#[derive(Debug, Clone, Copy, PartialEq, Eq, Structural)]
pub enum TransformationMode {
    /// Continuation-passing style.
    CPS,
    /// A state machine.
    StateMachine,
    /// A state machine with continuation passing.
    Hybrid,
}

/// Counts kept by the transformation.
#[derive(Debug, Clone)]
pub struct TransformationStats {
    pub transformed_function_count: usize,
    pub state_machine_count: usize,
    /// Lines of code generated.
    pub generated_code_lines: usize,
    /// Lines of code before the transformation.
    pub original_code_lines: usize,
    pub cps_transformations: usize,
    pub state_machine_transformations: usize,
    pub hybrid_transformations: usize,
}

impl Default for TransformationStats {
    fn default() -> (r: Self)
        ensures
            r.transformed_function_count == 0,
            r.state_machine_count == 0,
            r.generated_code_lines == 0,
            r.original_code_lines == 0,
            r.cps_transformations == 0,
            r.state_machine_transformations == 0,
            r.hybrid_transformations == 0,
    {
        TransformationStats {
            transformed_function_count: 0,
            state_machine_count: 0,
            generated_code_lines: 0,
            original_code_lines: 0,
            cps_transformations: 0,
            state_machine_transformations: 0,
            hybrid_transformations: 0,
        }
    }
}

/// A function as the transformation produced it.
#[derive(Debug, Clone)]
pub struct TransformedFunction {
    pub original_function_id: FunctionId,
    pub transformed_function_id: FunctionId,
    pub transformation_mode: TransformationMode,
    /// The state machine, where one was made.
    pub state_machine_id: Option<FunctionId>,
    pub await_point_count: usize,
    /// Code size before, in bytes.
    pub original_size: usize,
    /// Code size after, in bytes.
    pub transformed_size: usize,
}

/// A computation that can be polled until it is ready.
pub trait AsyncTrait {
    /// What the computation yields.
    type Output;

    /// Polls the computation once.
    fn poll(&mut self) -> PollResult<Self::Output>;
}

/// The result of polling.
#[derive(Debug, Clone)]
pub enum PollResult<T> {
    /// Finished, with its value.
    Ready(T),
    /// Not finished yet.
    Pending,
}

/// A handle on a spawned task.
#[derive(Debug, Clone)]
pub struct ExecutorHandle {
    pub task_id: usize,
    pub state: TaskState,
    pub priority: usize,
}

/// The state of a spawned task.
#[derive(Debug, Clone, Copy, PartialEq, Eq, Structural)]
pub enum TaskState {
    New,
    Running,
    Waiting,
    Completed,
    Failed,
    Cancelled,
}

/// A future that yields once.
#[derive(Debug, Clone)]
pub struct YieldFuture {
    state: FutureState,
}

/// A future that completes after a time.
#[derive(Debug, Clone)]
pub struct SleepFuture {
    /// How long to wait, in milliseconds.
    millis: u64,
    /// When the wait began.
    start_time: u64,
    state: FutureState,
}

/// A future that completes when all the tasks have.
#[derive(Debug, Clone)]
pub struct JoinAllFuture {
    handles: Vec<ExecutorHandle>,
    state: FutureState,
}

/// Which async optimisations are on.
#[derive(Debug, Clone)]
pub struct AsyncOptimizationOptions {
    pub enable_future_fusion: bool,
    /// Removes awaits that are not needed.
    pub enable_await_elision: bool,
    pub enable_async_inlining: bool,
    pub enable_lazy_execution: bool,
    /// Finds futures that can be reused.
    pub enable_future_reuse: bool,
}

/// Counts kept by the async optimiser.
#[derive(Debug, Clone)]
pub struct OptimizationStats {
    pub fused_futures: usize,
    pub elided_awaits: usize,
    pub inlined_async_functions: usize,
    pub optimized_function_count: usize,
    /// Memory saved, in bytes.
    pub saved_memory_bytes: usize,
}

impl Default for OptimizationStats {
    fn default() -> (r: Self)
        ensures
            r.fused_futures == 0,
            r.elided_awaits == 0,
            r.inlined_async_functions == 0,
            r.optimized_function_count == 0,
            r.saved_memory_bytes == 0,
    {
        OptimizationStats {
            fused_futures: 0,
            elided_awaits: 0,
            inlined_async_functions: 0,
            optimized_function_count: 0,
            saved_memory_bytes: 0,
        }
    }
}

} // verus!
