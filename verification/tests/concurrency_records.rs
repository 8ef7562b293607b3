use swiftlight_compiler::middleend::concurrent::async_await::{OptimizationStats, PollResult, TransformationStats};
use swiftlight_compiler::middleend::concurrent::executor::Priority;
use swiftlight_compiler::middleend::concurrent::{ConcurrencyAnalysisConfig, DetectionPrecision, IssueSeverity};

#[test]
fn analysis_config_defaults() {
    let c = ConcurrencyAnalysisConfig::default();
    assert_eq!(c.max_deadlock_detection_depth, 10);
    assert_eq!(c.data_race_detection_precision, DetectionPrecision::Balanced);
    assert!(c.enable_type_system_verification);
    assert!(!c.enable_model_checking);
    assert!(c.enable_abstract_interpretation);
    assert!(c.enable_efficiency_analysis);
    assert!(!c.enable_distributed_analysis);
    assert!(c.generate_fix_suggestions);
}

#[test]
fn priorities_order_from_critical() {
    assert_eq!(Priority::default(), Priority::Normal);
    assert!(Priority::Critical < Priority::High);
    assert!(Priority::Low < Priority::Idle);
}

#[test]
fn severities_order_by_gravity() {
    assert!(IssueSeverity::Info < IssueSeverity::Critical);
    assert!(IssueSeverity::Fatal < IssueSeverity::QuantumComputationErrorRisk);
}

#[test]
fn statistics_start_at_zero() {
    let t = TransformationStats::default();
    assert_eq!(t.transformed_function_count, 0);
    assert_eq!(t.hybrid_transformations, 0);
    let o = OptimizationStats::default();
    assert_eq!(o.fused_futures, 0);
    assert_eq!(o.saved_memory_bytes, 0);
    let p: PollResult<u8> = PollResult::Ready(3);
    assert!(matches!(p, PollResult::Ready(3)));
}
