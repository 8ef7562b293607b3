//! Records of the task executor: priorities, task states, trace events and
//! the conditions a blocked task waits for.

use vstd::prelude::*;

verus! {

/// The priority of a task; earlier variants come first.
#[derive(Debug, Clone, Copy, PartialEq, Eq, PartialOrd, Ord, Structural)]
pub enum Priority {
    /// Critical to the system, the highest.
    Critical,
    High,
    Normal,
    /// Background work.
    Low,
    /// Runs only when nothing else does.
    Idle,
}

impl Default for Priority {
    fn default() -> (r: Self)
        ensures
            r == Priority::Normal,
    {
        Priority::Normal
    }
}

/// An event of a task's trace.
#[derive(Debug)]
pub struct TraceEvent {
    pub kind: TraceEventKind,
    pub timestamp: std::time::Instant,
    /// The object the event concerns.
    pub object_id: Option<usize>,
    pub details: String,
}

/// The kind of a trace event.
#[derive(Debug, Clone, PartialEq, Eq)]
pub enum TraceEventKind {
    TaskCreated,
    TaskStarted,
    TaskSuspended,
    TaskResumed,
    TaskCompleted,
    TaskFailed,
    TaskCancelled,
    ActorMessageSent,
    ActorMessageReceived,
    ChannelMessageSent,
    ChannelMessageReceived,
    FutureCreated,
    FutureCompleted,
    FutureRejected,
    LockAcquired,
    LockReleased,
    MemoryAllocated,
    MemoryFreed,
    IOStarted,
    IOCompleted,
    Custom(String),
}

/// The state of a task.
#[derive(Debug, Clone, Copy, PartialEq, Eq, Structural)]
pub enum TaskState {
    /// Created, not run yet.
    Created,
    Ready,
    Running,
    Suspended,
    /// Waiting for I/O or a lock.
    Blocked,
    Completed,
    Failed,
    Cancelled,
}

/// What a blocked task waits for.
#[derive(Debug)]
pub enum BlockCondition {
    ChannelReceive(usize),
    ActorMessage(usize),
    FutureCompletion(usize),
    IOCompletion(usize),
    LockAcquisition(usize),
    /// A moment of the clock.
    Timeout(std::time::Instant),
    /// Any of the conditions.
    Any(Vec<BlockCondition>),
    /// All of the conditions.
    All(Vec<BlockCondition>),
}

} // verus!
