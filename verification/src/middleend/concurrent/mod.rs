//! Concurrency: channels, futures, async/await and the executor, and the
//! records of the concurrency analysis.

pub mod async_await;
pub mod channel;
pub mod executor;
pub mod future;

use vstd::prelude::*;
use crate::middleend::ir::TypeId;

verus! {

/// How safe a piece of concurrent code is.
#[derive(Debug, Clone, Copy, PartialEq, Eq, Hash, Structural)]
pub enum ConcurrencySafetyLevel {
    Safe,
    PotentiallyUnsafe,
    Unsafe,
    SafeWithErrorHandling,
    AtomicSafe,
    FormallyVerified,
    HybridSafe,
    TypeSystemGuaranteed,
    StaticallyVerified,
    DynamicallyVerified,
    ContractBased,
    SeparationTypeGuaranteed,
    QuantumSafe,
}

/// A region of memory that concurrent code touches.
#[derive(Debug, Clone)]
pub struct MemoryRegion {
    pub name: String,
    pub type_id: TypeId,
    pub source_location: Option<SourceLocation>,
    pub region_kind: MemoryRegionKind,
}

/// A place in the source.
#[derive(Debug, Clone)]
pub struct SourceLocation {
    pub file: String,
    pub line: usize,
    pub column: usize,
}

/// Where a memory region lives.
#[derive(Debug, Clone, PartialEq, Eq, Structural)]
pub enum MemoryRegionKind {
    LocalVariable,
    GlobalVariable,
    HeapAllocation,
    StackAllocation,
    StaticVariable,
    ActorState,
    SharedMemory,
    ThreadLocalStorage,
    MemoryMappedFile,
    PersistentMemory,
    GpuSharedMemory,
    FpgaDedicatedMemory,
    QuantumMemory,
    DistributedSharedMemory,
    TransactionalMemory,
    ImmutableMemory,
    ZeroCopyMemory,
    EncryptedMemory,
    CompressedMemory,
    GarbageCollectedMemory,
    RegionBasedMemory,
    HardwareTransactionalMemory,
}

/// The kind of a data race.
#[derive(Debug, Clone, PartialEq, Eq, Structural)]
pub enum RaceType {
    ReadWrite,
    WriteWrite,
    NonAtomicAccess,
    LackOfOrdering,
    InterFunctionRace,
    CompoundRace,
    MissingMemoryBarrier,
    VisibilityIssue,
    CacheCoherencyIssue,
    PartialUpdateIssue,
    ReadModifyWriteIssue,
    InitializationRace,
    UseAfterFree,
    DoubleFree,
    OutOfBoundsAccess,
    TypePunningIssue,
    AlignmentViolation,
    QuantumSuperpositionRace,
    DistributedConsistencyViolation,
}

/// How an issue was found.
#[derive(Debug, Clone, PartialEq, Eq, Structural)]
pub enum DetectionMethod {
    StaticAnalysis,
    DataflowAnalysis,
    PointerAnalysis,
    FormalVerification,
    PatternMatching,
    Heuristic,
    DynamicAnalysis,
    FuzzingTest,
    SymbolicExecution,
    ModelChecking,
    AbstractInterpretation,
    TypeSystemVerification,
    RuntimeVerification,
    HybridAnalysis,
    MachineLearningBased,
    HistoricalDataAnalysis,
    CodeReview,
    QuantumAlgorithmVerification,
    DistributedConsistencyVerification,
    HardwareAssistedVerification,
}

/// The kind of a suggested fix.
#[derive(Debug, Clone, PartialEq, Eq, Structural)]
pub enum FixType {
    UseMutex,
    UseReadLock,
    UseAtomic,
    ConvertToMessagePassing,
    ConvertToActorModel,
    SeparateState,
    UseThreadLocalStorage,
    AddMemoryBarrier,
    MakeSequential,
    UseSTM,
    UseLockFreeAlgorithm,
    UseWaitFreeAlgorithm,
    UseImmutableDataStructure,
    UseTypeSystemGuarantee,
    UseStaticAnalysisGuarantee,
    AddDynamicVerification,
    UseContractBasedProgramming,
    UseSeparationTypeSystem,
    ApplyFormalVerification,
    UseHardwareTransactionalMemory,
    UseQuantumEntanglementSynchronization,
    UseDistributedConsistencyProtocol,
    UseHybridSynchronizationMechanism,
}

/// How severe an issue is; later variants are more severe.
#[derive(Debug, Clone, Copy, PartialEq, Eq, PartialOrd, Ord, Structural)]
pub enum IssueSeverity {
    Info,
    Low,
    Medium,
    High,
    Critical,
    Fatal,
    SecurityVulnerability,
    DataLossRisk,
    SystemHaltRisk,
    DistributedSystemFailureRisk,
    QuantumComputationErrorRisk,
}

/// The kind of a synchronised resource.
#[derive(Debug, Clone, PartialEq, Eq, Structural)]
pub enum ResourceType {
    Mutex,
    RwLock,
    Semaphore,
    CondVar,
    Channel,
    Actor,
    Future,
    OtherSyncPrimitive,
    ReentrantLock,
    SpinLock,
    Barrier,
    Latch,
    PhasedBarrier,
    CountingSemaphore,
    BinarySemaphore,
    TimeoutLock,
    ReadPreferringLock,
    WritePreferringLock,
    FairLock,
    UnfairLock,
    TransactionalMemory,
    AtomicVariable,
    MemoryFence,
    FileLock,
}

/// The shape of a deadlock.
#[derive(Debug, Clone, PartialEq, Eq, Structural)]
pub enum DeadlockPattern {
    CircularWait,
    ResourceHierarchyViolation,
    WaitWithoutTimeout,
    BidirectionalChannelBlock,
    IncompleteErrorHandling,
    ExceptionAfterAcquisition,
    CircularActorDependency,
    DistributedDeadlock,
    PriorityInversion,
    ConditionVariableMisuse,
    LockOrderMismatch,
    PartialLockRelease,
}

/// How a region is accessed concurrently.
#[derive(Debug, Clone, PartialEq, Eq, Structural)]
pub enum AccessPattern {
    ReadOnly,
    WriteOnly,
    ReadWrite,
    ExclusiveAccess,
    SharedRead,
    OwnershipSeparated,
    TemporallySeparated,
}

/// Settings of the concurrency analysis.
#[derive(Debug, Clone)]
pub struct ConcurrencyAnalysisConfig {
    /// How deep deadlock detection searches.
    pub max_deadlock_detection_depth: usize,
    pub data_race_detection_precision: DetectionPrecision,
    pub enable_type_system_verification: bool,
    pub enable_model_checking: bool,
    pub enable_abstract_interpretation: bool,
    pub enable_efficiency_analysis: bool,
    pub enable_distributed_analysis: bool,
    pub generate_fix_suggestions: bool,
}

impl Default for ConcurrencyAnalysisConfig {
    fn default() -> (r: Self)
        ensures
            r.max_deadlock_detection_depth == 10,
            r.data_race_detection_precision == DetectionPrecision::Balanced,
            r.enable_type_system_verification,
            !r.enable_model_checking,
            r.enable_abstract_interpretation,
            r.enable_efficiency_analysis,
            !r.enable_distributed_analysis,
            r.generate_fix_suggestions,
    {
        ConcurrencyAnalysisConfig {
            max_deadlock_detection_depth: 10,
            data_race_detection_precision: DetectionPrecision::Balanced,
            enable_type_system_verification: true,
            enable_model_checking: false,
            enable_abstract_interpretation: true,
            enable_efficiency_analysis: true,
            enable_distributed_analysis: false,
            generate_fix_suggestions: true,
        }
    }
}

/// How precisely data races are looked for.
#[derive(Debug, Clone, Copy, PartialEq, Eq, Structural)]
pub enum DetectionPrecision {
    /// Fast, with more false alarms.
    Fast,
    Balanced,
    /// Precise, missing fewer races.
    Precise,
    /// Exhaustive: slow but the most exact.
    Exhaustive,
}

} // verus!
