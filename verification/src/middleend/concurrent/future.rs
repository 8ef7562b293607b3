//! Futures: descriptive records used by the async analysis, and the runtime
//! map that tracks future states, results and dependencies.

use vstd::prelude::*;
use vstd::string::StringExecFns;
use std::collections::HashMap;
use std::collections::HashSet;
use crate::middleend::ir::{TypeId, FunctionId, ValueId, InstructionId};
use crate::middleend::OptimizationLevel;

verus! {

/// The state of an asynchronous computation.
#[derive(Debug, Clone, Copy, PartialEq, Eq, Hash, Structural)]
pub enum FutureState {
    Pending,
    Running,
    Completed,
    Failed,
    Cancelled,
    TimedOut,
    Suspended,
    Deadlocked,
}

/// A type-level state transition.
#[derive(Debug, Clone)]
pub struct TypeStateTransition {
    pub from_state: String,
    pub to_state: String,
    pub condition: String,
    pub verification_fn_id: Option<FunctionId>,
}

/// A type-level invariant.
#[derive(Debug, Clone)]
pub struct TypeInvariant {
    pub expression: String,
    pub verification_fn_id: Option<FunctionId>,
}

/// A type-level precondition.
#[derive(Debug, Clone)]
pub struct TypePrecondition {
    pub expression: String,
    pub verification_fn_id: Option<FunctionId>,
}

/// A type-level postcondition.
#[derive(Debug, Clone)]
pub struct TypePostcondition {
    pub expression: String,
    pub verification_fn_id: Option<FunctionId>,
}

/// Type-level state tracking of a future type.
#[derive(Debug, Clone)]
pub struct TypeStateInfo {
    pub state_transitions: Vec<TypeStateTransition>,
    pub invariants: Vec<TypeInvariant>,
    pub preconditions: Vec<TypePrecondition>,
    pub postconditions: Vec<TypePostcondition>,
}

/// A completion guarantee expressed with dependent types.
#[derive(Debug, Clone)]
pub struct CompletionProof {
    pub proof_expression: String,
    pub verification_fn_id: Option<FunctionId>,
    pub dependencies: Vec<String>,
}

/// Optimisation hints for a future.
#[derive(Debug, Clone)]
pub struct OptimizationHints {
    pub should_inline: bool,
    pub prefer_stackless: bool,
    pub prefer_stackful: bool,
    pub state_machine_optimization: OptimizationLevel,
    pub should_specialize: bool,
    pub vectorizable: bool,
    pub parallelizable: bool,
    pub memory_hints: Vec<String>,
}

/// How cancellation propagates.
#[derive(Debug, Clone, Copy, PartialEq, Eq, Structural)]
pub enum CancellationPolicy {
    /// No propagation (`None` in the language's own naming).
    NoPropagation,
    ChildrenOnly,
    ParentOnly,
    Bidirectional,
    FullGraph,
}

/// What happens on a timeout.
#[derive(Debug, Clone, Copy, PartialEq, Eq, Structural)]
pub enum TimeoutAction {
    Cancel,
    Error,
    ReturnDefault,
    Retry,
}

/// Timeout configuration.
#[derive(Debug, Clone, Copy, PartialEq, Eq, Structural)]
pub struct TimeoutConfig {
    pub timeout_ms: u64,
    pub timeout_action: TimeoutAction,
    pub retry_count: u32,
    pub retry_interval_ms: u64,
}

/// Priority of a future, lowest first.
#[derive(Debug, Clone, Copy, PartialEq, Eq, PartialOrd, Ord, Structural)]
pub enum FuturePriority {
    Lowest,
    Low,
    Normal,
    High,
    Highest,
    RealTime,
}

/// A heuristic optimisation rule.
#[derive(Debug, Clone)]
pub struct OptimizationRule {
    pub name: String,
    pub condition: String,
    pub action: String,
    pub priority: i32,
}

/// Generates optimisation hints from rules.
#[derive(Debug, Clone)]
pub struct OptimizationHintGenerator {
    rules: Vec<OptimizationRule>,
    ml_model_enabled: bool,
}

/// Await points that can run in parallel.
#[derive(Debug)]
pub struct ParallelAwaitGroup {
    pub group_id: usize,
    pub await_indices: Vec<usize>,
    pub parallelism_degree: usize,
    pub data_dependencies: HashMap<usize, HashSet<usize>>,
}

/// Optimisation hints for an async function.
#[derive(Debug, Clone)]
pub struct AsyncFunctionOptimizationHints {
    pub should_inline: bool,
    pub prefer_stackless: bool,
    pub prefer_stackful: bool,
    pub minimize_states: bool,
    pub state_machine_optimization: OptimizationLevel,
    pub should_specialize: bool,
    pub parallelize: bool,
    pub memory_hints: Vec<String>,
    pub share_context: bool,
}

/// Optimisation hints for one await.
#[derive(Debug, Clone, Copy, PartialEq, Eq, Structural)]
pub struct AwaitOptimizationHints {
    pub should_inline: bool,
    pub lazy_evaluation: bool,
    pub eager_evaluation: bool,
    pub parallelize: bool,
    /// Memoise the awaited value.
    pub memoization: bool,
}

/// Backoff between retries.
#[derive(Debug, Clone, Copy, PartialEq, Eq, Structural)]
pub enum BackoffStrategy {
    Fixed,
    Linear,
    Exponential,
    ExponentialWithJitter,
}

/// Retry strategy.
#[derive(Debug, Clone, Copy, PartialEq, Eq, Structural)]
pub struct RetryStrategy {
    pub max_retries: u32,
    pub retry_interval_ms: u64,
    pub backoff_strategy: BackoffStrategy,
    pub retry_condition_fn_id: Option<FunctionId>,
}

/// Error handling at an await point.
#[derive(Debug, Clone, Copy, PartialEq, Eq, Structural)]
pub struct ErrorHandlingInfo {
    pub handler_block_id: Option<usize>,
    pub retry_strategy: Option<RetryStrategy>,
    pub fallback_value_id: Option<ValueId>,
    pub error_transform_fn_id: Option<FunctionId>,
}

/// An await point of an async function.
#[derive(Debug)]
pub struct AwaitPoint {
    pub expr_id: usize,
    pub future_value_id: ValueId,
    pub await_inst_id: InstructionId,
    pub before_block_id: usize,
    pub after_block_id: usize,
    pub saved_variables: HashSet<ValueId>,
    pub parallelizable: bool,
    pub optimization_hints: AwaitOptimizationHints,
    pub timeout_config: Option<TimeoutConfig>,
    pub error_handling: Option<ErrorHandlingInfo>,
    pub cancellation_policy: CancellationPolicy,
}

/// What was optimised in a state machine.
#[derive(Debug, Clone)]
pub struct StateMachineOptimizationInfo {
    pub states_minimized: bool,
    pub transitions_optimized: bool,
    pub context_slots_optimized: bool,
    pub hot_paths_optimized: bool,
    pub memory_layout_optimized: bool,
    pub applied_optimizations: Vec<String>,
}

/// How a state machine is implemented.
#[derive(Debug, Clone, Copy, PartialEq, Eq, Structural)]
pub enum StateMachineImplementationType {
    Stackless,
    Stackful,
    Hybrid,
    Inline,
}

/// The result of turning an async function into a state machine.
#[derive(Debug, Clone, Copy, PartialEq, Eq, Structural)]
pub struct StateTransformerResult {
    pub original_function_id: FunctionId,
    pub state_type_id: TypeId,
    pub context_type_id: TypeId,
    pub poll_function_id: FunctionId,
    pub init_function_id: FunctionId,
    pub resume_function_id: FunctionId,
    pub drop_function_id: Option<FunctionId>,
    pub transformed_code_size: usize,
}

/// A future tracked at run time.
#[derive(Debug)]
pub struct RuntimeFuture {
    pub id: usize,
    pub type_id: TypeId,
    pub state: FutureState,
    /// The result value, once completed.
    pub result: Option<ValueId>,
    /// The error value, once failed.
    pub error: Option<ValueId>,
    /// The futures this one depends on.
    pub children: Vec<usize>,
    /// The futures that depend on this one.
    pub parents: Vec<usize>,
    pub completion_callback: Option<FunctionId>,
    pub creation_time: u64,
    pub completion_time: Option<u64>,
}

/// The decimal digits of `n`.
pub open spec fn decimal(n: nat) -> Seq<char>
    decreases n,
{
    if n < 10 {
        seq![digit_char(n)]
    } else {
        decimal(n / 10).push(digit_char(n % 10))
    }
}

/// The digit character for `d` (below ten).
pub open spec fn digit_char(d: nat) -> char {
    if d == 0 { '0' }
    else if d == 1 { '1' }
    else if d == 2 { '2' }
    else if d == 3 { '3' }
    else if d == 4 { '4' }
    else if d == 5 { '5' }
    else if d == 6 { '6' }
    else if d == 7 { '7' }
    else if d == 8 { '8' }
    else { '9' }
}

/// Appends the digit character for `d`.
fn push_digit(out: &mut String, d: usize)
    requires
        d < 10,
    ensures
        final(out)@ == old(out)@.push(digit_char(d as nat)),
{
    match d {
        0 => {
            proof {
                reveal_strlit("0");
            }
            out.append("0");
        },
        1 => {
            proof {
                reveal_strlit("1");
            }
            out.append("1");
        },
        2 => {
            proof {
                reveal_strlit("2");
            }
            out.append("2");
        },
        3 => {
            proof {
                reveal_strlit("3");
            }
            out.append("3");
        },
        4 => {
            proof {
                reveal_strlit("4");
            }
            out.append("4");
        },
        5 => {
            proof {
                reveal_strlit("5");
            }
            out.append("5");
        },
        6 => {
            proof {
                reveal_strlit("6");
            }
            out.append("6");
        },
        7 => {
            proof {
                reveal_strlit("7");
            }
            out.append("7");
        },
        8 => {
            proof {
                reveal_strlit("8");
            }
            out.append("8");
        },
        _ => {
            proof {
                reveal_strlit("9");
            }
            out.append("9");
        },
    }
}

/// Appends `n` written in decimal, without sign or padding.
fn push_decimal(out: &mut String, n: usize)
    ensures
        final(out)@ == old(out)@ + decimal(n as nat),
    decreases n,
{
    let ghost before = out@;
    if n >= 10 {
        push_decimal(out, n / 10);
    }
    push_digit(out, n % 10);
    proof {
        if n >= 10 {
            assert(decimal(n as nat) == decimal((n / 10) as nat).push(digit_char((n % 10) as nat)));
            assert(out@ =~= before + decimal(n as nat));
        } else {
            assert(decimal(n as nat) == seq![digit_char(n as nat)]);
            assert(out@ =~= before + decimal(n as nat));
        }
    }
}

/// `n` written in decimal, without sign or padding.
pub(crate) fn decimal_string(n: usize) -> (r: String)
    ensures
        r@ == decimal(n as nat),
{
    let mut out = String::new();
    push_decimal(&mut out, n);
    proof {
        assert(out@ =~= decimal(n as nat));
    }
    out
}

/// The error text for a missing future.
pub open spec fn not_found_text(id: usize) -> Seq<char> {
    "Future ID "@ + decimal(id as nat) + " が見つかりません"@
}

/// The error text for a missing parent future.
pub open spec fn parent_not_found_text(id: usize) -> Seq<char> {
    "親Future ID "@ + decimal(id as nat) + " が見つかりません"@
}

/// The error text for a missing child future.
pub open spec fn child_not_found_text(id: usize) -> Seq<char> {
    "子Future ID "@ + decimal(id as nat) + " が見つかりません"@
}

fn id_message(prefix: &str, id: usize) -> (r: String)
    ensures
        r@ == prefix@ + decimal(id as nat) + " が見つかりません"@,
{
    let mut m = String::from_str(prefix);
    let d = decimal_string(id);
    m.append(d.as_str());
    m.append(" が見つかりません");
    m
}

/// Tracks futures at run time. Futures get the identifiers 1, 2, ... in
/// creation order.
pub struct FutureMap {
    futures: Vec<RuntimeFuture>,
    next_id: usize,
}

impl FutureMap {
    /// The identifier the next future gets.
    pub closed spec fn next(&self) -> usize {
        self.next_id
    }

    /// The future with identifier `id`, if one was created.
    pub closed spec fn future(&self, id: usize) -> Option<RuntimeFuture> {
        if 1 <= id < self.next_id {
            Some(self.futures@[id - 1])
        } else {
            None
        }
    }

    /// Whether a future with identifier `id` exists.
    pub open spec fn exists_id(&self, id: usize) -> bool {
        self.future(id) is Some
    }

    /// Futures sit at the position of their identifier minus one.
    pub closed spec fn wf(&self) -> bool {
        &&& self.next_id >= 1
        &&& self.futures@.len() == self.next_id - 1
        &&& forall|k: int| 0 <= k < self.futures@.len() ==> (#[trigger] self.futures@[k]).id == k + 1
    }

    /// How many futures have been created: `new` starts at none,
    /// `create_future` adds one, and no other operation changes it.
    pub open spec fn created(&self) -> nat {
        (self.next() - 1) as nat
    }

    /// The identifiers in use are exactly 1, 2, ... up to the number of
    /// futures created, each future's own: the k-th future created has
    /// identifier k, and no identifier is reused.
    pub proof fn lemma_ids_in_use(&self)
        requires
            self.wf(),
        ensures
            self.next() >= 1,
            forall|id: usize| #[trigger] self.exists_id(id) <==> 1 <= id <= self.created(),
            forall|id: usize| #[trigger] self.exists_id(id) <==> 1 <= id < self.next(),
            forall|id: usize| #[trigger] self.exists_id(id) ==> self.future(id).unwrap().id == id,
    {
        assert forall|id: usize| #[trigger] self.exists_id(id) implies self.future(id).unwrap().id == id by {
            assert(self.futures@[id - 1].id == (id - 1) + 1);
        }
    }

    /// An empty map; the first future gets identifier 1.
    pub fn new() -> (r: Self)
        ensures
            r.wf(),
            r.next() == 1,
            r.created() == 0,
            forall|id: usize| #[trigger] r.future(id) is None,
    {
        FutureMap { futures: Vec::new(), next_id: 1 }
    }

    /// Creates a pending future of type `type_id`, with no result, error,
    /// dependencies or callback, and returns its identifier.
    pub fn create_future(&mut self, type_id: TypeId) -> (r: usize)
        requires
            old(self).wf(),
            old(self).next() < usize::MAX,
        ensures
            final(self).wf(),
            r == old(self).next(),
            final(self).next() == old(self).next() + 1,
            r == old(self).created() + 1,
            final(self).created() == old(self).created() + 1,
            final(self).future(r) == Some(RuntimeFuture {
                id: r,
                type_id,
                state: FutureState::Pending,
                result: None,
                error: None,
                children: final(self).future(r).unwrap().children,
                parents: final(self).future(r).unwrap().parents,
                completion_callback: None,
                creation_time: 0,
                completion_time: None,
            }),
            final(self).future(r).unwrap().children@ == Seq::<usize>::empty(),
            final(self).future(r).unwrap().parents@ == Seq::<usize>::empty(),
            forall|id: usize| id != r ==> #[trigger] final(self).future(id) == old(self).future(id),
    {
        let id = self.next_id;
        self.next_id = self.next_id + 1;
        let future = RuntimeFuture {
            id,
            type_id,
            state: FutureState::Pending,
            result: None,
            error: None,
            children: Vec::new(),
            parents: Vec::new(),
            completion_callback: None,
            creation_time: 0,
            completion_time: None,
        };
        self.futures.push(future);
        id
    }

    /// The position of future `id`, if it exists.
    fn slot(&self, id: usize) -> (r: Option<usize>)
        requires
            self.wf(),
        ensures
            match r {
                Some(k) => self.exists_id(id) && k == id - 1 && (k as int) < self.futures@.len(),
                None => !self.exists_id(id),
            },
    {
        if 1 <= id && id < self.next_id {
            Some(id - 1)
        } else {
            None
        }
    }

    /// Takes the future at position `k` out, leaving the others in place.
    fn take(&mut self, k: usize) -> (r: RuntimeFuture)
        requires
            old(self).wf(),
            (k as int) < old(self).futures@.len(),
        ensures
            r == old(self).futures@[k as int],
            final(self).futures@ == old(self).futures@.remove(k as int),
            final(self).next_id == old(self).next_id,
    {
        self.futures.remove(k)
    }

    /// Puts a future back at position `k`.
    fn put(&mut self, k: usize, f: RuntimeFuture)
        requires
            (k as int) <= old(self).futures@.len(),
        ensures
            final(self).futures@ == old(self).futures@.insert(k as int, f),
            final(self).next_id == old(self).next_id,
    {
        self.futures.insert(k, f);
    }

    proof fn lemma_replace(&self, old_map: &FutureMap, k: int, f: RuntimeFuture)
        requires
            old_map.wf(),
            0 <= k < old_map.futures@.len(),
            self.futures@ == old_map.futures@.remove(k).insert(k, f),
            self.next_id == old_map.next_id,
            f.id == k + 1,
        ensures
            self.wf(),
            self.future((k + 1) as usize) == Some(f),
            forall|id: usize| id != k + 1 ==> #[trigger] self.future(id) == old_map.future(id),
    {
        assert(self.futures@ =~= old_map.futures@.update(k, f));
    }

    /// Sets the state of future `id`; reaching `Completed` or `Failed` also
    /// records completion time 0. A missing future is an error.
    pub fn update_future_state(&mut self, id: usize, state: FutureState) -> (r: Result<(), String>)
        requires
            old(self).wf(),
        ensures
            final(self).wf(),
            final(self).next() == old(self).next(),
            r is Ok <==> old(self).exists_id(id),
            r matches Err(e) ==> e@ == not_found_text(id) && *final(self) == *old(self),
            r is Ok ==> final(self).future(id) == Some(RuntimeFuture {
                state,
                completion_time: if state == FutureState::Completed || state == FutureState::Failed {
                    Some(0u64)
                } else {
                    old(self).future(id).unwrap().completion_time
                },
                ..old(self).future(id).unwrap()
            }),
            forall|other: usize| other != id ==> #[trigger] final(self).future(other) == old(self).future(other),
    {
        match self.slot(id) {
            None => Err(id_message("Future ID ", id)),
            Some(k) => {
                let ghost g0 = *self;
                let mut f = self.take(k);
                f.state = state;
                if state == FutureState::Completed || state == FutureState::Failed {
                    f.completion_time = Some(0);
                }
                self.put(k, f);
                proof {
                    self.lemma_replace(&g0, k as int, f);
                }
                Ok(())
            },
        }
    }

    /// Records the result of future `id` and marks it completed.
    pub fn set_future_result(&mut self, id: usize, result: ValueId) -> (r: Result<(), String>)
        requires
            old(self).wf(),
        ensures
            final(self).wf(),
            final(self).next() == old(self).next(),
            r is Ok <==> old(self).exists_id(id),
            r matches Err(e) ==> e@ == not_found_text(id) && *final(self) == *old(self),
            r is Ok ==> final(self).future(id) == Some(RuntimeFuture {
                result: Some(result),
                state: FutureState::Completed,
                completion_time: Some(0u64),
                ..old(self).future(id).unwrap()
            }),
            forall|other: usize| other != id ==> #[trigger] final(self).future(other) == old(self).future(other),
    {
        match self.slot(id) {
            None => Err(id_message("Future ID ", id)),
            Some(k) => {
                let ghost g0 = *self;
                let mut f = self.take(k);
                f.result = Some(result);
                self.put(k, f);
                proof {
                    self.lemma_replace(&g0, k as int, f);
                }
                self.update_future_state(id, FutureState::Completed)
            },
        }
    }

    /// Records the error of future `id` and marks it failed.
    pub fn set_future_error(&mut self, id: usize, error: ValueId) -> (r: Result<(), String>)
        requires
            old(self).wf(),
        ensures
            final(self).wf(),
            final(self).next() == old(self).next(),
            r is Ok <==> old(self).exists_id(id),
            r matches Err(e) ==> e@ == not_found_text(id) && *final(self) == *old(self),
            r is Ok ==> final(self).future(id) == Some(RuntimeFuture {
                error: Some(error),
                state: FutureState::Failed,
                completion_time: Some(0u64),
                ..old(self).future(id).unwrap()
            }),
            forall|other: usize| other != id ==> #[trigger] final(self).future(other) == old(self).future(other),
    {
        match self.slot(id) {
            None => Err(id_message("Future ID ", id)),
            Some(k) => {
                let ghost g0 = *self;
                let mut f = self.take(k);
                f.error = Some(error);
                self.put(k, f);
                proof {
                    self.lemma_replace(&g0, k as int, f);
                }
                self.update_future_state(id, FutureState::Failed)
            },
        }
    }

    /// The state of future `id`.
    pub fn get_future_state(&self, id: usize) -> (r: Result<FutureState, String>)
        requires
            self.wf(),
        ensures
            match self.future(id) {
                Some(f) => r == Ok::<FutureState, String>(f.state),
                None => r matches Err(e) && e@ == not_found_text(id),
            },
    {
        match self.slot(id) {
            Some(k) => Ok(self.futures[k].state),
            None => Err(id_message("Future ID ", id)),
        }
    }

    /// The result of future `id`.
    pub fn get_future_result(&self, id: usize) -> (r: Result<Option<ValueId>, String>)
        requires
            self.wf(),
        ensures
            match self.future(id) {
                Some(f) => r == Ok::<Option<ValueId>, String>(f.result),
                None => r matches Err(e) && e@ == not_found_text(id),
            },
    {
        match self.slot(id) {
            Some(k) => Ok(self.futures[k].result),
            None => Err(id_message("Future ID ", id)),
        }
    }

    /// One step of waiting for future `id` to complete: its final state once
    /// it has completed, failed, been cancelled or timed out; `None` while
    /// it has not, for a caller that drives the futures to ask again.
    pub fn completion_step(&self, id: usize) -> (r: Result<Option<FutureState>, String>)
        requires
            self.wf(),
        ensures
            match self.future(id) {
                Some(f) => r == Ok::<Option<FutureState>, String>(
                    if is_finished(f.state) {
                        Some(f.state)
                    } else {
                        None
                    },
                ),
                None => r matches Err(e) && e@ == not_found_text(id),
            },
    {
        match self.get_future_state(id) {
            Ok(state) => {
                match state {
                    FutureState::Completed | FutureState::Failed | FutureState::Cancelled
                    | FutureState::TimedOut => Ok(Some(state)),
                    _ => Ok(None),
                }
            },
            Err(e) => Err(e),
        }
    }

    /// The state that waiting for future `id` ends in, as far as this map
    /// can tell: nothing changes a future while the map is only read, so the
    /// wait is a single look at its state. A future that has finished gives
    /// its final state; one that has not gives its current state, for the
    /// caller to wait on (see `completion_step`).
    pub fn wait_for_completion(&self, id: usize) -> (r: Result<FutureState, String>)
        requires
            self.wf(),
        ensures
            match self.future(id) {
                Some(f) => r == Ok::<FutureState, String>(f.state),
                None => r matches Err(e) && e@ == not_found_text(id),
            },
    {
        self.get_future_state(id)
    }
}

/// Whether a future in state `s` has come to an end.
pub open spec fn is_finished(s: FutureState) -> bool {
    s == FutureState::Completed || s == FutureState::Failed || s == FutureState::Cancelled
        || s == FutureState::TimedOut
}

/// A list with `x` appended unless it is already there.
pub open spec fn add_once(s: Seq<usize>, x: usize) -> Seq<usize> {
    if s.contains(x) {
        s
    } else {
        s.push(x)
    }
}

/// Two futures agree on everything but their dependency lists.
pub open spec fn same_but_links(a: RuntimeFuture, b: RuntimeFuture) -> bool {
    &&& a.id == b.id
    &&& a.type_id == b.type_id
    &&& a.state == b.state
    &&& a.result == b.result
    &&& a.error == b.error
    &&& a.completion_callback == b.completion_callback
    &&& a.creation_time == b.creation_time
    &&& a.completion_time == b.completion_time
}

/// A future with its state set to `Cancelled`.
pub open spec fn cancelled(f: RuntimeFuture) -> RuntimeFuture {
    RuntimeFuture { state: FutureState::Cancelled, ..f }
}

/// The number of `false` entries.
pub open spec fn count_false(s: Seq<bool>) -> nat
    decreases s.len(),
{
    if s.len() == 0 {
        0
    } else {
        count_false(s.drop_last()) + if s.last() {
            0nat
        } else {
            1nat
        }
    }
}

proof fn lemma_count_false_set(s: Seq<bool>, k: int)
    requires
        0 <= k < s.len(),
        !s[k],
    ensures
        count_false(s.update(k, true)) + 1 == count_false(s),
    decreases s.len(),
{
    if k == s.len() - 1 {
        assert(s.update(k, true).drop_last() =~= s.drop_last());
    } else {
        lemma_count_false_set(s.drop_last(), k);
        assert(s.update(k, true).drop_last() =~= s.drop_last().update(k, true));
    }
}

/// Whether a list of positions holds `x`.
fn holds(v: &Vec<usize>, x: usize) -> (r: bool)
    ensures
        r == v@.contains(x),
{
    let mut i: usize = 0;
    while i < v.len()
        invariant
            i <= v.len(),
            forall|k: int| 0 <= k < i ==> v@[k] != x,
        decreases v.len() - i,
    {
        if v[i] == x {
            return true;
        }
        i = i + 1;
    }
    false
}

impl FutureMap {
    /// A walk from a future through the futures it depends on: each step goes
    /// from an existing future to one of its children.
    pub open spec fn child_walk(&self, p: Seq<usize>) -> bool {
        &&& p.len() > 0
        &&& forall|k: int|
            0 <= k < p.len() - 1 ==> self.exists_id(#[trigger] p[k]) && self.future(
                p[k],
            ).unwrap().children@.contains(p[k + 1])
    }

    /// Whether cancelling `id` reaches `x`: `x` is `id` or a child, a child of
    /// a child, and so on.
    pub open spec fn cancel_reaches(&self, id: usize, x: usize) -> bool {
        exists|p: Seq<usize>| #[trigger] self.child_walk(p) && p[0] == id && p.last() == x
    }

    /// Adds the dependency of `parent_id` on `child_id`: the child is listed
    /// among the parent's children and the parent among the child's parents,
    /// each at most once. The parent is updated before the child is looked
    /// up, so a missing child leaves the parent's list extended.
    pub fn add_dependency(&mut self, parent_id: usize, child_id: usize) -> (r: Result<(), String>)
        requires
            old(self).wf(),
        ensures
            final(self).wf(),
            final(self).next() == old(self).next(),
            forall|x: usize| #[trigger] final(self).exists_id(x) == old(self).exists_id(x),
            r is Ok <==> (old(self).exists_id(parent_id) && old(self).exists_id(child_id)),
            !old(self).exists_id(parent_id) ==> (r matches Err(e) && e@ == parent_not_found_text(
                parent_id,
            )) && *final(self) == *old(self),
            old(self).exists_id(parent_id) && !old(self).exists_id(child_id) ==> (r matches Err(e)
                && e@ == child_not_found_text(child_id)),
            old(self).exists_id(parent_id) ==> {
                let p0 = old(self).future(parent_id).unwrap();
                let p1 = final(self).future(parent_id).unwrap();
                &&& final(self).exists_id(parent_id)
                &&& same_but_links(p0, p1)
                &&& p1.children@ == add_once(p0.children@, child_id)
                &&& (parent_id != child_id || !old(self).exists_id(child_id)) ==> p1.parents@
                    == p0.parents@
            },
            old(self).exists_id(parent_id) && old(self).exists_id(child_id) ==> {
                let c0 = old(self).future(child_id).unwrap();
                let c1 = final(self).future(child_id).unwrap();
                &&& same_but_links(c0, c1)
                &&& c1.parents@ == add_once(c0.parents@, parent_id)
                &&& parent_id != child_id ==> c1.children@ == c0.children@
            },
            forall|other: usize|
                other != parent_id && other != child_id ==> #[trigger] final(self).future(other)
                    == old(self).future(other),
    {
        let ghost g0 = *self;
        let pk = match self.slot(parent_id) {
            Some(k) => k,
            None => {
                return Err(id_message("親Future ID ", parent_id));
            },
        };
        let mut pf = self.take(pk);
        if !holds(&pf.children, child_id) {
            pf.children.push(child_id);
        }
        let ghost pf_v = pf;
        self.put(pk, pf);
        proof {
            self.lemma_replace(&g0, pk as int, pf_v);
        }
        let ghost g1 = *self;
        let ck = match self.slot(child_id) {
            Some(k) => k,
            None => {
                return Err(id_message("子Future ID ", child_id));
            },
        };
        let mut cf = self.take(ck);
        if !holds(&cf.parents, parent_id) {
            cf.parents.push(parent_id);
        }
        let ghost cf_v = cf;
        self.put(ck, cf);
        proof {
            self.lemma_replace(&g1, ck as int, cf_v);
        }
        Ok(())
    }

    /// Cancelling a future reaches the future itself and, from every
    /// future it reaches, each of that future's children.
    pub proof fn lemma_walk_extend(&self, id: usize, x: usize, c: usize)
        requires
            self.cancel_reaches(id, x),
            self.exists_id(x),
            self.future(x).unwrap().children@.contains(c),
        ensures
            self.cancel_reaches(id, id),
            self.cancel_reaches(id, c),
    {
        assert(self.child_walk(seq![id]));
        let p = choose|p: Seq<usize>| #[trigger] self.child_walk(p) && p[0] == id && p.last() == x;
        let q = p.push(c);
        assert forall|k: int|
            0 <= k < q.len() - 1 implies self.exists_id(#[trigger] q[k]) && self.future(
            q[k],
        ).unwrap().children@.contains(q[k + 1]) by {
            if k < p.len() - 1 {
                assert(q[k] == p[k] && q[k + 1] == p[k + 1]);
                assert(self.exists_id(p[k]));
            } else {
                assert(q[k] == x && q[k + 1] == c);
            }
        }
        assert(self.child_walk(q));
    }

    proof fn lemma_walk_closed(&self, seen: Set<usize>, p: Seq<usize>, k: int)
        requires
            self.child_walk(p),
            seen.contains(p[0]),
            forall|x: usize, c: usize|
                seen.contains(x) && self.exists_id(x) && #[trigger] self.future(x).unwrap().children@.contains(c)
                    ==> seen.contains(c),
            forall|x: usize| seen.contains(x) ==> self.exists_id(x),
            0 <= k < p.len(),
        ensures
            seen.contains(p[k]),
        decreases k,
    {
        if k > 0 {
            self.lemma_walk_closed(seen, p, k - 1);
            let j = k - 1;
            assert(self.exists_id(p[j]));
            assert(self.future(p[j]).unwrap().children@.contains(p[j + 1]));
        }
    }

    /// Cancels future `id` and, through their children, every future it
    /// depends on, directly or not. When a future on the way is missing, the
    /// call stops with an error naming it; the futures cancelled until then
    /// stay cancelled.
    pub fn cancel_future(&mut self, id: usize) -> (r: Result<(), String>)
        requires
            old(self).wf(),
        ensures
            final(self).wf(),
            final(self).next() == old(self).next(),
            r is Ok <==> forall|x: usize| #[trigger] old(self).cancel_reaches(id, x) ==> old(self).exists_id(x),
            r is Ok ==> forall|x: usize|
                #[trigger] final(self).future(x) == if old(self).cancel_reaches(id, x) {
                    Some(cancelled(old(self).future(x).unwrap()))
                } else {
                    old(self).future(x)
                },
            r matches Err(e) ==> exists|x: usize|
                #[trigger] old(self).cancel_reaches(id, x) && !old(self).exists_id(x) && e@
                    == not_found_text(x),
            !old(self).exists_id(id) ==> *final(self) == *old(self),
            r is Err ==> forall|x: usize|
                #[trigger] final(self).future(x) == old(self).future(x) || (old(self).cancel_reaches(id, x)
                    && final(self).future(x) == Some(cancelled(old(self).future(x).unwrap()))),
    {
        let ghost g0 = *self;
        let n = self.futures.len();
        let mut seen: Vec<bool> = Vec::new();
        let mut i: usize = 0;
        while i < n
            invariant
                i <= n,
                seen@.len() == i,
                forall|k: int| 0 <= k < i ==> !seen@[k],
            decreases n - i,
        {
            seen.push(false);
            i = i + 1;
        }
        let mut stack: Vec<usize> = Vec::new();
        stack.push(id);
        proof {
            let p = seq![id];
            assert(g0.child_walk(p));
            assert(g0.cancel_reaches(id, id));
            assert(stack@[0] == id);
        }
        while stack.len() > 0
            invariant
                g0 == *old(self),
                g0.wf(),
                self.wf(),
                n == g0.futures@.len(),
                self.next_id == g0.next_id,
                seen@.len() == n,
                forall|k: int| 0 <= k < stack@.len() ==> g0.cancel_reaches(id, #[trigger] stack@[k]),
                forall|x: usize|
                    1 <= x < g0.next_id ==> #[trigger] self.future(x) == if seen@[x - 1] {
                        Some(cancelled(g0.future(x).unwrap()))
                    } else {
                        g0.future(x)
                    },
                forall|x: usize| !(1 <= x < g0.next_id) ==> #[trigger] self.future(x) == g0.future(x),
                forall|x: usize| 1 <= x < g0.next_id && #[trigger] seen@[x - 1] ==> g0.cancel_reaches(id, x),
                forall|x: usize, c: usize|
                    1 <= x < g0.next_id && seen@[x - 1] && #[trigger] g0.future(x).unwrap().children@.contains(c)
                        ==> stack@.contains(c) || (g0.exists_id(c) && seen@[c - 1]),
                stack@.contains(id) || (g0.exists_id(id) && seen@[id - 1]),
                !g0.exists_id(id) ==> stack@ == seq![id] && *self == g0,
            decreases count_false(seen@), stack@.len(),
        {
            let ghost s_before = stack@;
            let x = match stack.pop() {
                Some(v) => v,
                None => {
                    return Ok(());
                },
            };
            let ghost popped_stack = stack@;
            proof {
                assert forall|c: usize| s_before.contains(c) implies popped_stack.contains(c) || c == x by {
                    let t = choose|t: int| 0 <= t < s_before.len() && s_before[t] == c;
                    if t < s_before.len() - 1 {
                        assert(popped_stack[t] == c);
                    }
                }
            }
            proof {
                assert(g0.cancel_reaches(id, x));
            }
            match self.slot(x) {
                None => {
                    return Err(id_message("Future ID ", x));
                },
                Some(k) => {
                    if !seen[k] {
                        proof {
                            lemma_count_false_set(seen@, k as int);
                        }
                        let ghost old_seen = seen@;
                        seen.set(k, true);
                        let ghost gs = *self;
                        let mut f = self.take(k);
                        let kids = copy_ids(&f.children);
                        f.state = FutureState::Cancelled;
                        let ghost fv = f;
                        self.put(k, f);
                        proof {
                            self.lemma_replace(&gs, k as int, fv);
                            assert(fv == cancelled(g0.future(x).unwrap()));
                            assert(kids@ == g0.future(x).unwrap().children@);
                        }
                        let mut j: usize = kids.len();
                        while j > 0
                            invariant
                                j <= kids@.len(),
                                kids@ == g0.future(x).unwrap().children@,
                                g0.exists_id(x),
                                g0.cancel_reaches(id, x),
                                forall|m: int| 0 <= m < stack@.len() ==> g0.cancel_reaches(id, #[trigger] stack@[m]),
                                stack@.len() >= popped_stack.len(),
                                forall|m: int| 0 <= m < popped_stack.len() ==> stack@[m] == popped_stack[m],
                                forall|m: int| j <= m < kids@.len() ==> stack@.contains(#[trigger] kids@[m]),
                            decreases j,
                        {
                            j = j - 1;
                            let c = kids[j];
                            proof {
                                assert(g0.future(x).unwrap().children@.contains(c));
                                g0.lemma_walk_extend(id, x, c);
                            }
                            let ghost before = stack@;
                            stack.push(c);
                            proof {
                                assert forall|m: int| j <= m < kids@.len() implies stack@.contains(#[trigger] kids@[m]) by {
                                    if m == j {
                                        assert(stack@[before.len() as int] == c);
                                    } else {
                                        let t = choose|t: int| 0 <= t < before.len() && before[t] == kids@[m];
                                        assert(stack@[t] == kids@[m]);
                                    }
                                }
                            }
                        }
                        proof {
                            assert forall|y: usize, c: usize|
                                1 <= y < g0.next_id && seen@[y - 1] && #[trigger] g0.future(y).unwrap().children@.contains(c)
                                    implies stack@.contains(c) || (g0.exists_id(c) && seen@[c - 1]) by {
                                if y == x {
                                    let m = choose|m: int| 0 <= m < kids@.len() && kids@[m] == c;
                                    assert(stack@.contains(kids@[m]));
                                } else {
                                    assert(old_seen[y - 1]);
                                    if popped_stack.contains(c) {
                                        let t = choose|t: int| 0 <= t < popped_stack.len() && popped_stack[t] == c;
                                        assert(stack@[t] == c);
                                    } else if c == x {
                                        assert(seen@[c - 1]);
                                    } else {
                                        assert(!s_before.contains(c));
                                        assert(g0.exists_id(c) && old_seen[c - 1]);
                                    }
                                }
                            }
                            if popped_stack.contains(id) {
                                let t = choose|t: int| 0 <= t < popped_stack.len() && popped_stack[t] == id;
                                assert(stack@[t] == id);
                            } else if id != x {
                                assert(!s_before.contains(id));
                            }
                        }
                    } else {
                        proof {
                            assert forall|y: usize, c: usize|
                                1 <= y < g0.next_id && seen@[y - 1] && #[trigger] g0.future(y).unwrap().children@.contains(c)
                                    implies stack@.contains(c) || (g0.exists_id(c) && seen@[c - 1]) by {
                                if !popped_stack.contains(c) && c == x {
                                    assert(seen@[c - 1]);
                                } else if !popped_stack.contains(c) {
                                    assert(!s_before.contains(c));
                                }
                            }
                            if !popped_stack.contains(id) && id != x {
                                assert(!s_before.contains(id));
                            }
                        }
                    }
                },
            }
        }
        proof {
            let seen_set = Set::new(|x: usize| 1 <= x < g0.next_id && seen@[x - 1]);
            assert(g0.exists_id(id) && seen@[id - 1]);
            assert forall|x: usize| #[trigger] g0.cancel_reaches(id, x) implies seen_set.contains(x) by {
                let p = choose|p: Seq<usize>| #[trigger] g0.child_walk(p) && p[0] == id && p.last() == x;
                g0.lemma_walk_closed(seen_set, p, p.len() - 1);
            }
            assert forall|x: usize| #[trigger] self.future(x) == if g0.cancel_reaches(id, x) {
                Some(cancelled(g0.future(x).unwrap()))
            } else {
                g0.future(x)
            } by {
                if 1 <= x < g0.next_id && seen@[x - 1] {
                    assert(g0.cancel_reaches(id, x));
                } else if g0.cancel_reaches(id, x) {
                    assert(seen_set.contains(x));
                }
            }
        }
        Ok(())
    }
}

/// Copies a list of identifiers.
fn copy_ids(v: &Vec<usize>) -> (r: Vec<usize>)
    ensures
        r@ == v@,
{
    let mut r: Vec<usize> = Vec::new();
    let mut i: usize = 0;
    while i < v.len()
        invariant
            i <= v.len(),
            r@ == v@.take(i as int),
        decreases v.len() - i,
    {
        r.push(v[i]);
        assert(v@.take(i + 1) =~= v@.take(i as int).push(v@[i as int]));
        i = i + 1;
    }
    assert(v@.take(v.len() as int) =~= v@);
    r
}

} // verus!
