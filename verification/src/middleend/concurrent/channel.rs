//! Channels: the static classification of channel kinds and modes, channel
//! type descriptions, and the runtime channel with its factory.

use vstd::prelude::*;
use vstd::string::StringExecFns;
use vstd::string::StrSliceExecFns;
use std::collections::VecDeque;
use std::collections::HashMap;
use crate::middleend::ir::{TypeId, FunctionId};
use crate::name_table::NameTable;

verus! {

/// The kind of a channel.
#[derive(Debug, Clone, Copy, PartialEq, Eq, Hash, Structural)]
pub enum ChannelKind {
    /// One sender, one receiver.
    Unidirectional,
    /// One-to-one, both directions.
    Bidirectional,
    /// One-to-many.
    Broadcast,
    /// Many producers, one consumer.
    MPSC,
    /// Many producers, many consumers.
    MPMC,
    /// Supports `select`.
    Selectable,
    /// Messages with priorities.
    Priority,
    /// Filters messages by a condition.
    Filtering,
    /// Integrated with software transactional memory.
    Transactional,
    /// With timing constraints.
    TimeBounded,
    /// Between nodes.
    Distributed,
    /// Persists messages.
    Persistent,
    /// Encrypted.
    Encrypted,
    /// Compressed.
    Compressed,
    /// Collects metrics.
    Monitored,
    /// Detects and recovers from failures.
    SelfHealing,
    /// Adapts to load.
    Adaptive,
    /// Safety guaranteed at the type level.
    TypeSafe,
    /// Protocol checked by session types.
    SessionTyped,
    /// Constrained by dependent types.
    DependentlyTyped,
    /// Usable once.
    LinearlyTyped,
    /// Carries quantum information.
    Quantum,
}

/// Safety level.
#[derive(Debug, Clone, Copy, PartialEq, Eq, Hash, PartialOrd, Ord, Structural)]
pub enum SafetyLevel {
    Experimental,
    VeryLow,
    Low,
    Medium,
    High,
    VeryHigh,
    Maximum,
}

/// Latency level.
#[derive(Debug, Clone, Copy, PartialEq, Eq, Hash, PartialOrd, Ord, Structural)]
pub enum LatencyLevel {
    VeryLow,
    Low,
    Medium,
    High,
    VeryHigh,
}

/// Throughput level.
#[derive(Debug, Clone, Copy, PartialEq, Eq, Hash, PartialOrd, Ord, Structural)]
pub enum ThroughputLevel {
    VeryLow,
    Low,
    Medium,
    High,
    VeryHigh,
}

/// Memory usage level.
#[derive(Debug, Clone, Copy, PartialEq, Eq, Hash, PartialOrd, Ord, Structural)]
pub enum MemoryUsageLevel {
    VeryLow,
    Low,
    Medium,
    High,
    VeryHigh,
}

/// Scalability level.
#[derive(Debug, Clone, Copy, PartialEq, Eq, Hash, PartialOrd, Ord, Structural)]
pub enum ScalabilityLevel {
    VeryLow,
    Low,
    Medium,
    High,
    VeryHigh,
}

/// How far a channel kind lends itself to formal verification.
#[derive(Debug, Clone, Copy, PartialEq, Eq, Hash, PartialOrd, Ord, Structural)]
pub enum FormalVerifiabilityLevel {
    Impossible,
    Limited,
    Partial,
    Complete,
    Theoretical,
}

/// Performance characteristics of a channel kind.
#[derive(Debug, Clone, Copy, PartialEq, Eq, Structural)]
pub struct PerformanceCharacteristics {
    pub latency: LatencyLevel,
    pub throughput: ThroughputLevel,
    pub memory_usage: MemoryUsageLevel,
    pub scalability: ScalabilityLevel,
}

/// The safety level of each channel kind.
pub open spec fn safety_level_of(k: ChannelKind) -> SafetyLevel {
    match k {
        ChannelKind::Unidirectional => SafetyLevel::High,
        ChannelKind::Bidirectional => SafetyLevel::Medium,
        ChannelKind::Broadcast => SafetyLevel::Medium,
        ChannelKind::MPSC => SafetyLevel::Medium,
        ChannelKind::MPMC => SafetyLevel::Low,
        ChannelKind::Selectable => SafetyLevel::Medium,
        ChannelKind::Priority => SafetyLevel::Medium,
        ChannelKind::Filtering => SafetyLevel::High,
        ChannelKind::Transactional => SafetyLevel::VeryHigh,
        ChannelKind::TimeBounded => SafetyLevel::Medium,
        ChannelKind::Distributed => SafetyLevel::Low,
        ChannelKind::Persistent => SafetyLevel::High,
        ChannelKind::Encrypted => SafetyLevel::VeryHigh,
        ChannelKind::Compressed => SafetyLevel::High,
        ChannelKind::Monitored => SafetyLevel::High,
        ChannelKind::SelfHealing => SafetyLevel::High,
        ChannelKind::Adaptive => SafetyLevel::Medium,
        ChannelKind::TypeSafe => SafetyLevel::VeryHigh,
        ChannelKind::SessionTyped => SafetyLevel::VeryHigh,
        ChannelKind::DependentlyTyped => SafetyLevel::Maximum,
        ChannelKind::LinearlyTyped => SafetyLevel::VeryHigh,
        ChannelKind::Quantum => SafetyLevel::Experimental,
    }
}

/// The performance characteristics of each channel kind: dedicated values
/// for unidirectional, MPSC, MPMC, transactional and encrypted channels,
/// medium on every axis for the others.
pub open spec fn performance_of(k: ChannelKind) -> PerformanceCharacteristics {
    match k {
        ChannelKind::Unidirectional => PerformanceCharacteristics {
            latency: LatencyLevel::VeryLow,
            throughput: ThroughputLevel::VeryHigh,
            memory_usage: MemoryUsageLevel::Low,
            scalability: ScalabilityLevel::High,
        },
        ChannelKind::MPSC => PerformanceCharacteristics {
            latency: LatencyLevel::Low,
            throughput: ThroughputLevel::High,
            memory_usage: MemoryUsageLevel::Medium,
            scalability: ScalabilityLevel::High,
        },
        ChannelKind::MPMC => PerformanceCharacteristics {
            latency: LatencyLevel::Medium,
            throughput: ThroughputLevel::Medium,
            memory_usage: MemoryUsageLevel::High,
            scalability: ScalabilityLevel::Medium,
        },
        ChannelKind::Transactional => PerformanceCharacteristics {
            latency: LatencyLevel::High,
            throughput: ThroughputLevel::Low,
            memory_usage: MemoryUsageLevel::High,
            scalability: ScalabilityLevel::Medium,
        },
        ChannelKind::Encrypted => PerformanceCharacteristics {
            latency: LatencyLevel::High,
            throughput: ThroughputLevel::Low,
            memory_usage: MemoryUsageLevel::Medium,
            scalability: ScalabilityLevel::Medium,
        },
        _ => PerformanceCharacteristics {
            latency: LatencyLevel::Medium,
            throughput: ThroughputLevel::Medium,
            memory_usage: MemoryUsageLevel::Medium,
            scalability: ScalabilityLevel::Medium,
        },
    }
}

/// The formal verifiability of each channel kind; `Partial` for the kinds
/// not listed.
pub open spec fn verifiability_of(k: ChannelKind) -> FormalVerifiabilityLevel {
    match k {
        ChannelKind::Unidirectional => FormalVerifiabilityLevel::Complete,
        ChannelKind::Bidirectional => FormalVerifiabilityLevel::Partial,
        ChannelKind::MPSC => FormalVerifiabilityLevel::Partial,
        ChannelKind::MPMC => FormalVerifiabilityLevel::Limited,
        ChannelKind::Transactional => FormalVerifiabilityLevel::Complete,
        ChannelKind::TypeSafe => FormalVerifiabilityLevel::Complete,
        ChannelKind::SessionTyped => FormalVerifiabilityLevel::Complete,
        ChannelKind::DependentlyTyped => FormalVerifiabilityLevel::Complete,
        ChannelKind::LinearlyTyped => FormalVerifiabilityLevel::Complete,
        ChannelKind::Quantum => FormalVerifiabilityLevel::Theoretical,
        _ => FormalVerifiabilityLevel::Partial,
    }
}

impl ChannelKind {
    /// The safety level of the channel kind.
    pub fn safety_level(&self) -> (r: SafetyLevel)
        ensures
            r == safety_level_of(*self),
    {
        match self {
            ChannelKind::Unidirectional => SafetyLevel::High,
            ChannelKind::Bidirectional => SafetyLevel::Medium,
            ChannelKind::Broadcast => SafetyLevel::Medium,
            ChannelKind::MPSC => SafetyLevel::Medium,
            ChannelKind::MPMC => SafetyLevel::Low,
            ChannelKind::Selectable => SafetyLevel::Medium,
            ChannelKind::Priority => SafetyLevel::Medium,
            ChannelKind::Filtering => SafetyLevel::High,
            ChannelKind::Transactional => SafetyLevel::VeryHigh,
            ChannelKind::TimeBounded => SafetyLevel::Medium,
            ChannelKind::Distributed => SafetyLevel::Low,
            ChannelKind::Persistent => SafetyLevel::High,
            ChannelKind::Encrypted => SafetyLevel::VeryHigh,
            ChannelKind::Compressed => SafetyLevel::High,
            ChannelKind::Monitored => SafetyLevel::High,
            ChannelKind::SelfHealing => SafetyLevel::High,
            ChannelKind::Adaptive => SafetyLevel::Medium,
            ChannelKind::TypeSafe => SafetyLevel::VeryHigh,
            ChannelKind::SessionTyped => SafetyLevel::VeryHigh,
            ChannelKind::DependentlyTyped => SafetyLevel::Maximum,
            ChannelKind::LinearlyTyped => SafetyLevel::VeryHigh,
            ChannelKind::Quantum => SafetyLevel::Experimental,
        }
    }

    /// The performance characteristics of the channel kind.
    pub fn performance_characteristics(&self) -> (r: PerformanceCharacteristics)
        ensures
            r == performance_of(*self),
    {
        match self {
            ChannelKind::Unidirectional => PerformanceCharacteristics {
                latency: LatencyLevel::VeryLow,
                throughput: ThroughputLevel::VeryHigh,
                memory_usage: MemoryUsageLevel::Low,
                scalability: ScalabilityLevel::High,
            },
            ChannelKind::MPSC => PerformanceCharacteristics {
                latency: LatencyLevel::Low,
                throughput: ThroughputLevel::High,
                memory_usage: MemoryUsageLevel::Medium,
                scalability: ScalabilityLevel::High,
            },
            ChannelKind::MPMC => PerformanceCharacteristics {
                latency: LatencyLevel::Medium,
                throughput: ThroughputLevel::Medium,
                memory_usage: MemoryUsageLevel::High,
                scalability: ScalabilityLevel::Medium,
            },
            ChannelKind::Transactional => PerformanceCharacteristics {
                latency: LatencyLevel::High,
                throughput: ThroughputLevel::Low,
                memory_usage: MemoryUsageLevel::High,
                scalability: ScalabilityLevel::Medium,
            },
            ChannelKind::Encrypted => PerformanceCharacteristics {
                latency: LatencyLevel::High,
                throughput: ThroughputLevel::Low,
                memory_usage: MemoryUsageLevel::Medium,
                scalability: ScalabilityLevel::Medium,
            },
            _ => PerformanceCharacteristics {
                latency: LatencyLevel::Medium,
                throughput: ThroughputLevel::Medium,
                memory_usage: MemoryUsageLevel::Medium,
                scalability: ScalabilityLevel::Medium,
            },
        }
    }

    /// The formal verifiability of the channel kind.
    pub fn formal_verifiability(&self) -> (r: FormalVerifiabilityLevel)
        ensures
            r == verifiability_of(*self),
    {
        match self {
            ChannelKind::Unidirectional => FormalVerifiabilityLevel::Complete,
            ChannelKind::Bidirectional => FormalVerifiabilityLevel::Partial,
            ChannelKind::MPSC => FormalVerifiabilityLevel::Partial,
            ChannelKind::MPMC => FormalVerifiabilityLevel::Limited,
            ChannelKind::Transactional => FormalVerifiabilityLevel::Complete,
            ChannelKind::TypeSafe => FormalVerifiabilityLevel::Complete,
            ChannelKind::SessionTyped => FormalVerifiabilityLevel::Complete,
            ChannelKind::DependentlyTyped => FormalVerifiabilityLevel::Complete,
            ChannelKind::LinearlyTyped => FormalVerifiabilityLevel::Complete,
            ChannelKind::Quantum => FormalVerifiabilityLevel::Theoretical,
            _ => FormalVerifiabilityLevel::Partial,
        }
    }
}

/// Whether `word` occurs in `name`.
pub open spec fn mentions(name: Seq<char>, word: Seq<char>) -> bool {
    exists|i: int| 0 <= i && i + word.len() <= name.len() && #[trigger] name.subrange(i, i + word.len()) == word
}

/// Whether `word` occurs in `name`.
fn name_mentions(name: &str, word: &str) -> (r: bool)
    ensures
        r == mentions(name@, word@),
{
    let n = name.unicode_len();
    let m = word.unicode_len();
    if m > n {
        proof {
            assert forall|i: int| 0 <= i && i + word@.len() <= name@.len() implies #[trigger] name@.subrange(
                i,
                i + word@.len(),
            ) != word@ by {}
        }
        return false;
    }
    let mut i: usize = 0;
    while i <= n - m
        invariant
            n == name@.len(),
            m == word@.len(),
            m <= n,
            i <= n - m + 1,
            forall|k: int| 0 <= k < i ==> #[trigger] name@.subrange(k, k + m) != word@,
        decreases n - m + 1 - i,
    {
        let mut j: usize = 0;
        let mut same = true;
        while j < m
            invariant
                n == name@.len(),
                m == word@.len(),
                i + m <= n,
                j <= m,
                same == forall|q: int| 0 <= q < j ==> name@[i + q] == word@[q],
            decreases m - j,
        {
            if name.get_char(i + j) != word.get_char(j) {
                same = false;
            }
            j = j + 1;
        }
        if same {
            proof {
                assert(name@.subrange(i as int, i + m) =~= word@);
            }
            return true;
        }
        proof {
            let q = choose|q: int| 0 <= q < m && name@[i + q] != word@[q];
            assert(name@.subrange(i as int, i + m)[q] == name@[i + q]);
        }
        i = i + 1;
    }
    proof {
        assert forall|k: int| 0 <= k && k + word@.len() <= name@.len() implies #[trigger] name@.subrange(
            k,
            k + word@.len(),
        ) != word@ by {
            assert(k < i);
        }
    }
    false
}

/// The channel kind a channel type's name indicates; unidirectional when it
/// names none.
pub open spec fn kind_from_name(name: Seq<char>) -> ChannelKind {
    if mentions(name, "Mpsc"@) {
        ChannelKind::MPSC
    } else if mentions(name, "Mpmc"@) {
        ChannelKind::MPMC
    } else if mentions(name, "Broadcast"@) {
        ChannelKind::Broadcast
    } else if mentions(name, "Bidirectional"@) {
        ChannelKind::Bidirectional
    } else if mentions(name, "Selectable"@) {
        ChannelKind::Selectable
    } else if mentions(name, "Priority"@) {
        ChannelKind::Priority
    } else if mentions(name, "Filtering"@) {
        ChannelKind::Filtering
    } else if mentions(name, "Transactional"@) {
        ChannelKind::Transactional
    } else {
        ChannelKind::Unidirectional
    }
}

/// The communication mode a channel type's name indicates; asynchronous
/// when it names none.
pub open spec fn mode_from_name(name: Seq<char>) -> ChannelMode {
    if mentions(name, "Sync"@) {
        ChannelMode::Synchronous
    } else if mentions(name, "Async"@) {
        ChannelMode::Asynchronous
    } else if mentions(name, "Rendezvous"@) {
        ChannelMode::Rendezvous
    } else if mentions(name, "Unbounded"@) {
        ChannelMode::Unbounded
    } else if mentions(name, "Backpressure"@) {
        ChannelMode::Backpressure
    } else if mentions(name, "Timeout"@) {
        ChannelMode::Timeout
    } else if mentions(name, "Batch"@) {
        ChannelMode::Batch
    } else {
        ChannelMode::Asynchronous
    }
}

/// The buffer size of a generic channel type in `mode` with `n_params` type
/// parameters: 32 or 16 slots for buffered modes (32 when a parameter
/// beyond the element type is given), none for an unbounded channel, no
/// slots for the others.
pub open spec fn generic_buffer_size(mode: ChannelMode, n_params: usize) -> Option<usize> {
    match mode {
        ChannelMode::Asynchronous | ChannelMode::Backpressure | ChannelMode::Batch => if n_params > 1 {
            Some(32)
        } else {
            Some(16)
        },
        ChannelMode::Unbounded => None,
        _ => Some(0),
    }
}

/// What a generic channel type's name says of the channel: its kind, its
/// mode and its buffer size, given how many type parameters it has.
pub fn channel_traits_from_name(name: &str, n_params: usize) -> (r: (ChannelKind, ChannelMode, Option<usize>))
    ensures
        r == (kind_from_name(name@), mode_from_name(name@), generic_buffer_size(mode_from_name(name@), n_params)),
{
    let kind = if name_mentions(name, "Mpsc") {
        ChannelKind::MPSC
    } else if name_mentions(name, "Mpmc") {
        ChannelKind::MPMC
    } else if name_mentions(name, "Broadcast") {
        ChannelKind::Broadcast
    } else if name_mentions(name, "Bidirectional") {
        ChannelKind::Bidirectional
    } else if name_mentions(name, "Selectable") {
        ChannelKind::Selectable
    } else if name_mentions(name, "Priority") {
        ChannelKind::Priority
    } else if name_mentions(name, "Filtering") {
        ChannelKind::Filtering
    } else if name_mentions(name, "Transactional") {
        ChannelKind::Transactional
    } else {
        ChannelKind::Unidirectional
    };
    let mode = if name_mentions(name, "Sync") {
        ChannelMode::Synchronous
    } else if name_mentions(name, "Async") {
        ChannelMode::Asynchronous
    } else if name_mentions(name, "Rendezvous") {
        ChannelMode::Rendezvous
    } else if name_mentions(name, "Unbounded") {
        ChannelMode::Unbounded
    } else if name_mentions(name, "Backpressure") {
        ChannelMode::Backpressure
    } else if name_mentions(name, "Timeout") {
        ChannelMode::Timeout
    } else if name_mentions(name, "Batch") {
        ChannelMode::Batch
    } else {
        ChannelMode::Asynchronous
    };
    let buffer_size = match mode {
        ChannelMode::Asynchronous | ChannelMode::Backpressure | ChannelMode::Batch => if n_params > 1 {
            Some(32)
        } else {
            Some(16)
        },
        ChannelMode::Unbounded => None,
        _ => Some(0),
    };
    (kind, mode, buffer_size)
}

/// The communication mode of a channel.
#[derive(Debug, Clone, Copy, PartialEq, Eq, Hash, Structural)]
pub enum ChannelMode {
    Synchronous,
    Asynchronous,
    Rendezvous,
    Unbounded,
    Backpressure,
    Timeout,
    Batch,
    Priority,
    Acknowledged,
    Retry,
    OrderedDelivery,
    AtMostOnce,
    AtLeastOnce,
    ExactlyOnce,
    LazyEvaluation,
    EagerEvaluation,
    ConditionalDelivery,
    DistributedConsensus,
    Quantum,
}

/// Reliability level.
#[derive(Debug, Clone, Copy, PartialEq, Eq, Hash, PartialOrd, Ord, Structural)]
pub enum ReliabilityLevel {
    Experimental,
    VeryLow,
    Low,
    Medium,
    High,
    VeryHigh,
}

/// Performance overhead level.
#[derive(Debug, Clone, Copy, PartialEq, Eq, Hash, PartialOrd, Ord, Structural)]
pub enum PerformanceOverheadLevel {
    Experimental,
    VeryLow,
    Low,
    Medium,
    High,
    VeryHigh,
}

/// Whether each mode blocks: the synchronous, rendezvous, backpressure,
/// acknowledged, exactly-once, distributed-consensus and quantum modes do.
pub open spec fn blocks(m: ChannelMode) -> bool {
    match m {
        ChannelMode::Synchronous => true,
        ChannelMode::Rendezvous => true,
        ChannelMode::Backpressure => true,
        ChannelMode::Acknowledged => true,
        ChannelMode::ExactlyOnce => true,
        ChannelMode::DistributedConsensus => true,
        ChannelMode::Quantum => true,
        _ => false,
    }
}

/// The reliability of each mode.
pub open spec fn reliability_of(m: ChannelMode) -> ReliabilityLevel {
    match m {
        ChannelMode::Synchronous => ReliabilityLevel::High,
        ChannelMode::Rendezvous => ReliabilityLevel::High,
        ChannelMode::Asynchronous => ReliabilityLevel::Medium,
        ChannelMode::Unbounded => ReliabilityLevel::Low,
        ChannelMode::Backpressure => ReliabilityLevel::High,
        ChannelMode::Timeout => ReliabilityLevel::Medium,
        ChannelMode::Batch => ReliabilityLevel::Medium,
        ChannelMode::Priority => ReliabilityLevel::Medium,
        ChannelMode::Acknowledged => ReliabilityLevel::VeryHigh,
        ChannelMode::Retry => ReliabilityLevel::High,
        ChannelMode::OrderedDelivery => ReliabilityLevel::High,
        ChannelMode::AtMostOnce => ReliabilityLevel::Medium,
        ChannelMode::AtLeastOnce => ReliabilityLevel::High,
        ChannelMode::ExactlyOnce => ReliabilityLevel::VeryHigh,
        ChannelMode::LazyEvaluation => ReliabilityLevel::Medium,
        ChannelMode::EagerEvaluation => ReliabilityLevel::High,
        ChannelMode::ConditionalDelivery => ReliabilityLevel::Medium,
        ChannelMode::DistributedConsensus => ReliabilityLevel::VeryHigh,
        ChannelMode::Quantum => ReliabilityLevel::Experimental,
    }
}

/// The performance overhead of each mode.
pub open spec fn overhead_of(m: ChannelMode) -> PerformanceOverheadLevel {
    match m {
        ChannelMode::Synchronous => PerformanceOverheadLevel::Low,
        ChannelMode::Rendezvous => PerformanceOverheadLevel::Low,
        ChannelMode::Asynchronous => PerformanceOverheadLevel::Low,
        ChannelMode::Unbounded => PerformanceOverheadLevel::Medium,
        ChannelMode::Backpressure => PerformanceOverheadLevel::Medium,
        ChannelMode::Timeout => PerformanceOverheadLevel::Medium,
        ChannelMode::Batch => PerformanceOverheadLevel::Medium,
        ChannelMode::Priority => PerformanceOverheadLevel::Medium,
        ChannelMode::Acknowledged => PerformanceOverheadLevel::High,
        ChannelMode::Retry => PerformanceOverheadLevel::High,
        ChannelMode::OrderedDelivery => PerformanceOverheadLevel::High,
        ChannelMode::AtMostOnce => PerformanceOverheadLevel::Low,
        ChannelMode::AtLeastOnce => PerformanceOverheadLevel::Medium,
        ChannelMode::ExactlyOnce => PerformanceOverheadLevel::VeryHigh,
        ChannelMode::LazyEvaluation => PerformanceOverheadLevel::Medium,
        ChannelMode::EagerEvaluation => PerformanceOverheadLevel::Low,
        ChannelMode::ConditionalDelivery => PerformanceOverheadLevel::Medium,
        ChannelMode::DistributedConsensus => PerformanceOverheadLevel::VeryHigh,
        ChannelMode::Quantum => PerformanceOverheadLevel::Experimental,
    }
}

impl ChannelMode {
    /// Whether the mode blocks the sender.
    pub fn is_blocking(&self) -> (r: bool)
        ensures
            r == blocks(*self),
    {
        match self {
            ChannelMode::Synchronous => true,
            ChannelMode::Rendezvous => true,
            ChannelMode::Asynchronous => false,
            ChannelMode::Unbounded => false,
            ChannelMode::Backpressure => true,
            ChannelMode::Timeout => false,
            ChannelMode::Batch => false,
            ChannelMode::Priority => false,
            ChannelMode::Acknowledged => true,
            ChannelMode::Retry => false,
            ChannelMode::OrderedDelivery => false,
            ChannelMode::AtMostOnce => false,
            ChannelMode::AtLeastOnce => false,
            ChannelMode::ExactlyOnce => true,
            ChannelMode::LazyEvaluation => false,
            ChannelMode::EagerEvaluation => false,
            ChannelMode::ConditionalDelivery => false,
            ChannelMode::DistributedConsensus => true,
            ChannelMode::Quantum => true,
        }
    }

    /// The reliability of the mode.
    pub fn reliability_level(&self) -> (r: ReliabilityLevel)
        ensures
            r == reliability_of(*self),
    {
        match self {
            ChannelMode::Synchronous => ReliabilityLevel::High,
            ChannelMode::Rendezvous => ReliabilityLevel::High,
            ChannelMode::Asynchronous => ReliabilityLevel::Medium,
            ChannelMode::Unbounded => ReliabilityLevel::Low,
            ChannelMode::Backpressure => ReliabilityLevel::High,
            ChannelMode::Timeout => ReliabilityLevel::Medium,
            ChannelMode::Batch => ReliabilityLevel::Medium,
            ChannelMode::Priority => ReliabilityLevel::Medium,
            ChannelMode::Acknowledged => ReliabilityLevel::VeryHigh,
            ChannelMode::Retry => ReliabilityLevel::High,
            ChannelMode::OrderedDelivery => ReliabilityLevel::High,
            ChannelMode::AtMostOnce => ReliabilityLevel::Medium,
            ChannelMode::AtLeastOnce => ReliabilityLevel::High,
            ChannelMode::ExactlyOnce => ReliabilityLevel::VeryHigh,
            ChannelMode::LazyEvaluation => ReliabilityLevel::Medium,
            ChannelMode::EagerEvaluation => ReliabilityLevel::High,
            ChannelMode::ConditionalDelivery => ReliabilityLevel::Medium,
            ChannelMode::DistributedConsensus => ReliabilityLevel::VeryHigh,
            ChannelMode::Quantum => ReliabilityLevel::Experimental,
        }
    }

    /// The performance overhead of the mode.
    pub fn performance_overhead(&self) -> (r: PerformanceOverheadLevel)
        ensures
            r == overhead_of(*self),
    {
        match self {
            ChannelMode::Synchronous => PerformanceOverheadLevel::Low,
            ChannelMode::Rendezvous => PerformanceOverheadLevel::Low,
            ChannelMode::Asynchronous => PerformanceOverheadLevel::Low,
            ChannelMode::Unbounded => PerformanceOverheadLevel::Medium,
            ChannelMode::Backpressure => PerformanceOverheadLevel::Medium,
            ChannelMode::Timeout => PerformanceOverheadLevel::Medium,
            ChannelMode::Batch => PerformanceOverheadLevel::Medium,
            ChannelMode::Priority => PerformanceOverheadLevel::Medium,
            ChannelMode::Acknowledged => PerformanceOverheadLevel::High,
            ChannelMode::Retry => PerformanceOverheadLevel::High,
            ChannelMode::OrderedDelivery => PerformanceOverheadLevel::High,
            ChannelMode::AtMostOnce => PerformanceOverheadLevel::Low,
            ChannelMode::AtLeastOnce => PerformanceOverheadLevel::Medium,
            ChannelMode::ExactlyOnce => PerformanceOverheadLevel::VeryHigh,
            ChannelMode::LazyEvaluation => PerformanceOverheadLevel::Medium,
            ChannelMode::EagerEvaluation => PerformanceOverheadLevel::Low,
            ChannelMode::ConditionalDelivery => PerformanceOverheadLevel::Medium,
            ChannelMode::DistributedConsensus => PerformanceOverheadLevel::VeryHigh,
            ChannelMode::Quantum => PerformanceOverheadLevel::Experimental,
        }
    }
}

/// One step of a communication protocol.
#[derive(Debug, Clone)]
pub enum CommunicationAction {
    /// Send a message of the given type.
    Send { message_type_id: TypeId, label: Option<String> },
    /// Receive a message of the given type.
    Receive { message_type_id: TypeId, label: Option<String> },
    /// Internal choice among labelled continuations.
    Select { options: Vec<(String, usize)> },
    /// External choice among labelled continuations.
    Offer { options: Vec<(String, usize)> },
    /// Parallel composition of states.
    Parallel { states: Vec<usize> },
    /// Recursion through a variable.
    Recursion { variable: String, body_state: usize },
    /// A recursion variable.
    Variable { name: String },
    /// End of the protocol.
    End,
}

/// A state of a protocol state machine.
#[derive(Debug, Clone)]
pub struct ProtocolState {
    pub id: usize,
    pub name: String,
    pub description: Option<String>,
    pub transitions: Vec<(usize, CommunicationAction)>,
    pub is_terminal: bool,
}

/// The result of checking a session type.
#[derive(Debug, Clone)]
pub struct SessionTypeVerificationResult {
    pub success: bool,
    pub message: String,
    pub verified_properties: Vec<String>,
    pub counterexample: Option<String>,
    pub progress_guarantee: bool,
    pub communication_safety: bool,
    pub protocol_fidelity: bool,
}

/// Session type information of a channel type.
#[derive(Debug, Clone)]
pub struct SessionTypeInfo {
    pub definition: String,
    pub protocol_states: Vec<ProtocolState>,
    pub communication_actions: Vec<CommunicationAction>,
    pub dual_type_id: Option<TypeId>,
    pub verification_result: Option<SessionTypeVerificationResult>,
}

/// A parameter of a dependent type.
#[derive(Debug, Clone)]
pub struct DependentParameter {
    pub name: String,
    pub type_id: TypeId,
    pub description: Option<String>,
}

/// A refinement predicate.
#[derive(Debug, Clone)]
pub struct RefinementPredicate {
    pub name: String,
    pub expression: String,
    pub description: Option<String>,
}

/// The result of checking a dependent type.
#[derive(Debug, Clone)]
pub struct DependentTypeVerificationResult {
    pub success: bool,
    pub message: String,
    pub verified_properties: Vec<String>,
    pub counterexample: Option<String>,
}

/// Dependent type information of a channel type.
#[derive(Debug, Clone)]
pub struct DependentTypeInfo {
    pub definition: String,
    pub dependent_parameters: Vec<DependentParameter>,
    pub refinement_predicates: Vec<RefinementPredicate>,
    pub verification_result: Option<DependentTypeVerificationResult>,
}

/// Risk of information leakage.
#[derive(Debug, Clone, Copy, PartialEq, Eq, Hash, Structural)]
pub enum SecurityRiskLevel {
    NoRisk,
    Low,
    Medium,
    High,
    Critical,
}

/// Authentication level.
#[derive(Debug, Clone, Copy, PartialEq, Eq, Hash, Structural)]
pub enum AuthenticationLevel {
    NoAuthentication,
    Basic,
    Strong,
    MultiFactorAuth,
}

/// Encryption level.
#[derive(Debug, Clone, Copy, PartialEq, Eq, Hash, Structural)]
pub enum EncryptionLevel {
    NoEncryption,
    Basic,
    Strong,
    EndToEnd,
}

/// Access control level.
#[derive(Debug, Clone, Copy, PartialEq, Eq, Hash, Structural)]
pub enum AccessControlLevel {
    NoAccessControl,
    Basic,
    RoleBased,
    ContextAware,
}

/// Security characteristics of a channel.
#[derive(Debug, Clone, Copy, PartialEq, Eq, Structural)]
pub struct ChannelSecurityCharacteristics {
    pub information_leakage_risk: SecurityRiskLevel,
    pub authentication_level: AuthenticationLevel,
    pub encryption_level: EncryptionLevel,
    pub access_control_level: AccessControlLevel,
}

impl Default for ChannelSecurityCharacteristics {
    fn default() -> (r: Self)
        ensures
            r == (ChannelSecurityCharacteristics {
                information_leakage_risk: SecurityRiskLevel::NoRisk,
                authentication_level: AuthenticationLevel::NoAuthentication,
                encryption_level: EncryptionLevel::NoEncryption,
                access_control_level: AccessControlLevel::NoAccessControl,
            }),
    {
        ChannelSecurityCharacteristics {
            information_leakage_risk: SecurityRiskLevel::NoRisk,
            authentication_level: AuthenticationLevel::NoAuthentication,
            encryption_level: EncryptionLevel::NoEncryption,
            access_control_level: AccessControlLevel::NoAccessControl,
        }
    }
}

/// How a channel may be accessed concurrently.
#[derive(Debug, Clone, Copy, PartialEq, Eq, Hash, Structural)]
pub enum ConcurrentAccessMode {
    Exclusive,
    SharedRead,
    ReadWrite,
    Transactional,
}

/// A security requirement of a channel.
#[derive(Debug, Clone, Copy, PartialEq, Eq, Structural)]
pub enum SecurityRequirement {
    Authentication(AuthenticationLevel),
    Encryption(EncryptionLevel),
    AccessControl(AccessControlLevel),
    InformationFlowControl(SecurityRiskLevel),
}

/// How a value's ownership moves through a channel.
#[derive(Debug, Clone, Copy, PartialEq, Eq, Hash, Structural)]
pub enum OwnershipRequirement {
    Owned,
    Borrowed,
    SharedRef,
    ExclusiveRef,
    Copy,
    Clone,
    ZeroCopy,
    /// Ownership for a limited time, in milliseconds.
    TemporaryOwned(u64),
}

/// Communication pattern of a group of channels.
#[derive(Debug, Clone, Copy, PartialEq, Eq, Structural)]
pub enum CommunicationPattern {
    OneToOne,
    FanOut,
    FanIn,
    Pipeline,
    PubSub,
    RequestResponse,
    WorkerPool,
    EventStream,
}

/// The result of a verification.
#[derive(Debug, Clone)]
pub struct VerificationResult {
    pub success: bool,
    pub message: String,
    pub verified_properties: Vec<String>,
    pub counterexample: Option<String>,
}

/// The description of a channel type.
#[derive(Debug, Clone)]
pub struct ChannelType {
    pub type_id: TypeId,
    pub element_type_id: TypeId,
    pub kind: ChannelKind,
    pub mode: ChannelMode,
    pub buffer_size: Option<usize>,
    pub send_method_id: Option<FunctionId>,
    pub receive_method_id: Option<FunctionId>,
    pub select_method_id: Option<FunctionId>,
    pub type_level_verification_id: Option<FunctionId>,
    pub session_type_info: Option<SessionTypeInfo>,
    pub dependent_type_info: Option<DependentTypeInfo>,
    pub metadata: HashMap<String, String>,
}

/// The error text of a send on a closed channel.
pub open spec fn closed_text() -> Seq<char> {
    "チャネルは閉じられています"@
}

/// The error text of a send on a full buffer.
pub open spec fn full_text() -> Seq<char> {
    "チャネルバッファが満杯です"@
}

/// The error text of a receive on an empty, open channel.
pub open spec fn empty_text() -> Seq<char> {
    "チャネルバッファが空です"@
}

/// A runtime channel: a FIFO buffer with an optional capacity, sender and
/// receiver counts, and a closed flag.
pub struct RuntimeChannel<T> {
    id: usize,
    buffer: VecDeque<T>,
    capacity: Option<usize>,
    sender_count: usize,
    receiver_count: usize,
    is_closed: bool,
}

/// The state of a runtime channel.
pub struct ChannelState<T> {
    pub id: usize,
    /// Buffered messages, oldest first.
    pub buffer: Seq<T>,
    pub capacity: Option<usize>,
    pub senders: usize,
    pub receivers: usize,
    pub closed: bool,
}

impl<T> View for RuntimeChannel<T> {
    type V = ChannelState<T>;

    closed spec fn view(&self) -> ChannelState<T> {
        ChannelState {
            id: self.id,
            buffer: self.buffer@,
            capacity: self.capacity,
            senders: self.sender_count,
            receivers: self.receiver_count,
            closed: self.is_closed,
        }
    }
}

/// Whether a send into a channel in state `c` is accepted: the channel is
/// open and its buffer is unbounded or below capacity.
pub open spec fn accepts_send<T>(c: ChannelState<T>) -> bool {
    !c.closed && match c.capacity {
        Some(cap) => c.buffer.len() < cap,
        None => true,
    }
}

/// The state after an accepted send of `m`.
pub open spec fn after_send<T>(c: ChannelState<T>, m: T) -> ChannelState<T> {
    ChannelState { buffer: c.buffer.push(m), ..c }
}

/// The state after a receive.
pub open spec fn after_receive<T>(c: ChannelState<T>) -> ChannelState<T> {
    if c.buffer.len() > 0 {
        ChannelState { buffer: c.buffer.drop_first(), ..c }
    } else {
        c
    }
}

/// What a receive gives: the oldest message; `None` once the channel is
/// closed and drained; an error while it is open and empty.
pub open spec fn received<T>(c: ChannelState<T>) -> Option<Option<T>> {
    if c.buffer.len() > 0 {
        Some(Some(c.buffer[0]))
    } else if c.closed {
        Some(None)
    } else {
        None
    }
}

impl<T> RuntimeChannel<T> {
    /// A new open channel with one sender and one receiver.
    pub fn new(id: usize, capacity: Option<usize>) -> (r: Self)
        ensures
            r@ == (ChannelState::<T> {
                id,
                buffer: Seq::empty(),
                capacity,
                senders: 1,
                receivers: 1,
                closed: false,
            }),
    {
        let buffer = match capacity {
            Some(cap) => VecDeque::with_capacity(cap),
            None => VecDeque::new(),
        };
        RuntimeChannel { id, buffer, capacity, sender_count: 1, receiver_count: 1, is_closed: false }
    }

    /// Sends a message: appended to the buffer when the channel is open and
    /// has room; otherwise an error, checked in that order, and the channel
    /// is unchanged.
    pub fn send(&mut self, message: T) -> (r: Result<(), String>)
        ensures
            accepts_send(old(self)@) ==> r is Ok && final(self)@ == after_send(old(self)@, message),
            !accepts_send(old(self)@) ==> final(self)@ == old(self)@ && (r matches Err(e) && e@
                == if old(self)@.closed {
                closed_text()
            } else {
                full_text()
            }),
    {
        if self.is_closed {
            return Err(String::from_str("チャネルは閉じられています"));
        }
        let has_room = match self.capacity {
            None => true,
            Some(cap) => self.buffer.len() < cap,
        };
        if has_room {
            self.buffer.push_back(message);
            Ok(())
        } else {
            Err(String::from_str("チャネルバッファが満杯です"))
        }
    }

    /// Receives the oldest message.
    pub fn receive(&mut self) -> (r: Result<Option<T>, String>)
        ensures
            final(self)@ == after_receive(old(self)@),
            match received(old(self)@) {
                Some(o) => r == Ok::<Option<T>, String>(o),
                None => r matches Err(e) && e@ == empty_text(),
            },
    {
        match self.buffer.pop_front() {
            Some(message) => Ok(Some(message)),
            None => {
                if self.is_closed {
                    Ok(None)
                } else {
                    Err(String::from_str("チャネルバッファが空です"))
                }
            },
        }
    }

    /// Adds a sender.
    pub fn add_sender(&mut self)
        requires
            old(self)@.senders < usize::MAX,
        ensures
            final(self)@ == (ChannelState { senders: (old(self)@.senders + 1) as usize, ..old(self)@ }),
    {
        self.sender_count = self.sender_count + 1;
    }

    /// Adds a receiver.
    pub fn add_receiver(&mut self)
        requires
            old(self)@.receivers < usize::MAX,
        ensures
            final(self)@ == (ChannelState { receivers: (old(self)@.receivers + 1) as usize, ..old(self)@ }),
    {
        self.receiver_count = self.receiver_count + 1;
    }

    /// Removes a sender; removing the last one closes the channel.
    pub fn remove_sender(&mut self)
        requires
            old(self)@.senders > 0,
        ensures
            final(self)@ == (ChannelState {
                senders: (old(self)@.senders - 1) as usize,
                closed: old(self)@.closed || old(self)@.senders == 1,
                ..old(self)@
            }),
    {
        self.sender_count = self.sender_count - 1;
        if self.sender_count == 0 {
            self.is_closed = true;
        }
    }

    /// Removes a receiver.
    pub fn remove_receiver(&mut self)
        requires
            old(self)@.receivers > 0,
        ensures
            final(self)@ == (ChannelState { receivers: (old(self)@.receivers - 1) as usize, ..old(self)@ }),
    {
        self.receiver_count = self.receiver_count - 1;
    }

    /// Closes the channel; buffered messages stay receivable.
    pub fn close(&mut self)
        ensures
            final(self)@ == (ChannelState { closed: true, ..old(self)@ }),
    {
        self.is_closed = true;
    }

    /// The number of buffered messages.
    pub fn len(&self) -> (r: usize)
        ensures
            r == self@.buffer.len(),
    {
        self.buffer.len()
    }

    /// Whether no message is buffered.
    pub fn is_empty(&self) -> (r: bool)
        ensures
            r == (self@.buffer.len() == 0),
    {
        self.buffer.len() == 0
    }

    /// Whether the buffer has reached its capacity; never for an unbounded
    /// channel.
    pub fn is_full(&self) -> (r: bool)
        ensures
            r == match self@.capacity {
                Some(cap) => self@.buffer.len() >= cap,
                None => false,
            },
    {
        match self.capacity {
            Some(capacity) => self.buffer.len() >= capacity,
            None => false,
        }
    }

    /// Whether the channel is closed.
    pub fn is_closed(&self) -> (r: bool)
        ensures
            r == self@.closed,
    {
        self.is_closed
    }
}

/// A channel is first in, first out: after an accepted send of `m`, the next
/// receive gives the oldest buffered message, or `m` when the buffer was
/// empty.
pub proof fn lemma_channel_fifo<T>(c: ChannelState<T>, m: T)
    requires
        accepts_send(c),
    ensures
        received(after_send(c, m)) == Some(Some(if c.buffer.len() == 0 {
            m
        } else {
            c.buffer[0]
        })),
{
}

/// Messages come out in the order they went in: receiving from the state
/// after an accepted send, once for each message buffered before it, leaves
/// `m` as the next message.
pub proof fn lemma_channel_order<T>(c: ChannelState<T>, m: T)
    requires
        accepts_send(c),
    ensures
        received(drain(after_send(c, m), c.buffer.len())) == Some(Some(m)),
    decreases c.buffer.len(),
{
    let d = drain(after_send(c, m), c.buffer.len());
    lemma_drain_buffer(after_send(c, m), c.buffer.len());
    assert(d.buffer =~= seq![m]);
}

/// The state after `k` receives.
pub open spec fn drain<T>(c: ChannelState<T>, k: nat) -> ChannelState<T>
    decreases k,
{
    if k == 0 {
        c
    } else {
        drain(after_receive(c), (k - 1) as nat)
    }
}

proof fn lemma_drain_buffer<T>(c: ChannelState<T>, k: nat)
    requires
        k <= c.buffer.len(),
    ensures
        drain(c, k).buffer == c.buffer.subrange(k as int, c.buffer.len() as int),
        drain(c, k).closed == c.closed,
    decreases k,
{
    if k == 0 {
        assert(c.buffer.subrange(0, c.buffer.len() as int) =~= c.buffer);
    } else {
        lemma_drain_buffer(after_receive(c), (k - 1) as nat);
        assert(after_receive(c).buffer.subrange((k - 1) as int, after_receive(c).buffer.len() as int)
            =~= c.buffer.subrange(k as int, c.buffer.len() as int));
    }
}

/// A closed channel never accepts a message.
pub proof fn lemma_closed_rejects<T>(c: ChannelState<T>)
    requires
        c.closed,
    ensures
        !accepts_send(c),
{
}

/// Creates runtime channels with consecutive identifiers and keeps a registry
/// of named channel types.
pub struct ActorChannelFactory {
    next_channel_id: usize,
    channel_types: NameTable<ChannelType>,
}

impl ActorChannelFactory {
    /// The identifier the next channel gets.
    pub closed spec fn next_id(&self) -> usize {
        self.next_channel_id
    }

    /// How many channels the factory has made: `new` starts at none, each
    /// `create_*` call adds one, whichever kind it makes, and nothing else
    /// changes it.
    pub open spec fn created(&self) -> int {
        self.next_id() - 1
    }

    /// The channel type registered under `name`.
    pub closed spec fn registered(&self, name: Seq<char>) -> Option<ChannelType> {
        self.channel_types.lookup(name)
    }

    /// The registry holds each name once.
    pub closed spec fn wf(&self) -> bool {
        self.channel_types.wf()
    }

    /// A factory whose first channel gets identifier 1, with no registered
    /// channel types.
    pub fn new() -> (r: Self)
        ensures
            r.wf(),
            r.next_id() == 1,
            r.created() == 0,
            forall|name: Seq<char>| #[trigger] r.registered(name) is None,
    {
        ActorChannelFactory { next_channel_id: 1, channel_types: NameTable::new() }
    }

    /// Registers a channel type under `name`, replacing one registered under
    /// the same name.
    pub fn register_channel_type(&mut self, name: &str, channel_type: ChannelType)
        requires
            old(self).wf(),
        ensures
            final(self).wf(),
            final(self).next_id() == old(self).next_id(),
            final(self).registered(name@) == Some(channel_type),
            forall|other: Seq<char>|
                other != name@ ==> #[trigger] final(self).registered(other) == old(self).registered(
                    other,
                ),
    {
        self.channel_types.insert(String::from_str(name), channel_type);
    }

    /// Takes the next channel identifier.
    fn take_id(&mut self) -> (r: usize)
        requires
            old(self).next_id() < usize::MAX,
        ensures
            r == old(self).next_id(),
            final(self).next_id() == old(self).next_id() + 1,
            final(self).channel_types == old(self).channel_types,
    {
        let id = self.next_channel_id;
        self.next_channel_id = self.next_channel_id + 1;
        id
    }

    /// Creates a unidirectional channel with the next identifier.
    pub fn create_unidirectional<T>(&mut self, element_type_id: TypeId, buffer_size: Option<usize>) -> (r: RuntimeChannel<T>)
        requires
            old(self).next_id() < usize::MAX,
        ensures
            r@ == RuntimeChannel::<T>::fresh(old(self).next_id(), buffer_size),
            r@.id == old(self).created() + 1,
            final(self).next_id() == old(self).next_id() + 1,
            final(self).created() == old(self).created() + 1,
            forall|name: Seq<char>| #[trigger] final(self).registered(name) == old(self).registered(name),
            final(self).wf() == old(self).wf(),
    {
        let id = self.take_id();
        RuntimeChannel::new(id, buffer_size)
    }

    /// Creates a many-producer, single-consumer channel with the next
    /// identifier.
    pub fn create_mpsc<T>(&mut self, element_type_id: TypeId, buffer_size: Option<usize>) -> (r: RuntimeChannel<T>)
        requires
            old(self).next_id() < usize::MAX,
        ensures
            r@ == RuntimeChannel::<T>::fresh(old(self).next_id(), buffer_size),
            r@.id == old(self).created() + 1,
            final(self).next_id() == old(self).next_id() + 1,
            final(self).created() == old(self).created() + 1,
            forall|name: Seq<char>| #[trigger] final(self).registered(name) == old(self).registered(name),
            final(self).wf() == old(self).wf(),
    {
        let id = self.take_id();
        RuntimeChannel::new(id, buffer_size)
    }

    /// Creates a broadcast channel with the next identifier.
    pub fn create_broadcast<T>(&mut self, element_type_id: TypeId, buffer_size: Option<usize>) -> (r: RuntimeChannel<T>)
        requires
            old(self).next_id() < usize::MAX,
        ensures
            r@ == RuntimeChannel::<T>::fresh(old(self).next_id(), buffer_size),
            r@.id == old(self).created() + 1,
            final(self).next_id() == old(self).next_id() + 1,
            final(self).created() == old(self).created() + 1,
            forall|name: Seq<char>| #[trigger] final(self).registered(name) == old(self).registered(name),
            final(self).wf() == old(self).wf(),
    {
        let id = self.take_id();
        RuntimeChannel::new(id, buffer_size)
    }

    /// The channel type registered under `name`.
    pub fn get_channel_type(&self, name: &str) -> (r: Option<&ChannelType>)
        requires
            self.wf(),
        ensures
            match self.registered(name@) {
                Some(t) => r == Some(&t),
                None => r is None,
            },
    {
        self.channel_types.get(&String::from_str(name))
    }
}

/// Type-level computation: named functions from type identifiers to a type
/// identifier, evaluated by name.
pub struct TypeLevelComputationEngine<F> {
    state: NameTable<TypeId>,
    type_functions: NameTable<F>,
}

/// The error text for an unknown type-level function.
pub open spec fn undefined_function_text(name: Seq<char>) -> Seq<char> {
    "未定義の型レベル関数: "@ + name
}

impl<F: Fn(&[TypeId]) -> Result<TypeId, String>> TypeLevelComputationEngine<F> {
    /// The function registered under `name`.
    pub closed spec fn function_named(&self, name: Seq<char>) -> Option<F> {
        self.type_functions.lookup(name)
    }

    /// The registry holds each name once.
    pub closed spec fn wf(&self) -> bool {
        self.type_functions.wf() && self.state.wf()
    }

    /// An engine with no functions.
    pub fn new() -> (r: Self)
        ensures
            r.wf(),
            forall|name: Seq<char>| #[trigger] r.function_named(name) is None,
    {
        TypeLevelComputationEngine { state: NameTable::new(), type_functions: NameTable::new() }
    }

    /// Whether `after` is `before` with `func` registered under `name`.
    pub open spec fn registers(before: Self, after: Self, name: Seq<char>, func: F) -> bool {
        &&& after.function_named(name) == Some(func)
        &&& forall|other: Seq<char>|
            other != name ==> #[trigger] after.function_named(other) == before.function_named(other)
    }

    /// Whether evaluating `name` on `args` may give `r`: what the function
    /// registered under `name` returns, or the error for an unknown name.
    pub open spec fn evaluates_to(&self, name: Seq<char>, args: &[TypeId], r: Result<TypeId, String>) -> bool {
        match self.function_named(name) {
            Some(f) => call_ensures(f, (args,), r),
            None => r matches Err(e) && e@ == undefined_function_text(name),
        }
    }

    /// After `func` is registered under `name`, evaluating `name` gives what
    /// `func` gives; evaluating any other name gives what it gave before.
    pub proof fn lemma_register_then_evaluate(
        before: Self,
        after: Self,
        name: Seq<char>,
        func: F,
        other: Seq<char>,
        args: &[TypeId],
        r: Result<TypeId, String>,
    )
        requires
            Self::registers(before, after, name, func),
        ensures
            after.evaluates_to(name, args, r) == call_ensures(func, (args,), r),
            other != name ==> after.evaluates_to(other, args, r) == before.evaluates_to(other, args, r),
    {
    }

    /// Registers `func` under `name`, replacing a function registered under
    /// the same name.
    pub fn register_function(&mut self, name: &str, func: F)
        requires
            old(self).wf(),
        ensures
            final(self).wf(),
            Self::registers(*old(self), *final(self), name@, func),
    {
        self.type_functions.insert(String::from_str(name), func);
    }

    /// Applies the function registered under `expr` to `args`; an unknown
    /// name is an error.
    pub fn evaluate(&mut self, expr: &str, args: &[TypeId]) -> (r: Result<TypeId, String>)
        requires
            old(self).wf(),
            old(self).function_named(expr@) matches Some(f) ==> call_requires(f, (args,)),
        ensures
            *final(self) == *old(self),
            old(self).evaluates_to(expr@, args, r),
    {
        match self.type_functions.get(&String::from_str(expr)) {
            Some(func) => func(args),
            None => {
                let mut msg = String::from_str("未定義の型レベル関数: ");
                msg.append(expr);
                Err(msg)
            },
        }
    }
}

impl<T> RuntimeChannel<T> {
    /// The state of a freshly made channel.
    pub open spec fn fresh(id: usize, capacity: Option<usize>) -> ChannelState<T> {
        ChannelState { id, buffer: Seq::empty(), capacity, senders: 1, receivers: 1, closed: false }
    }
}

} // verus!
