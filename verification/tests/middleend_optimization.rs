use swiftlight_compiler::middleend::optimization::vectorization::{
    determine_optimal_vector_width, is_simple_loop, InductionPattern, LoopInfo,
};
use swiftlight_compiler::middleend::optimization::OptimizationManager;
use swiftlight_compiler::middleend::OptimizationLevel;

#[test]
fn test_optimization_manager_creation() {
    let manager = OptimizationManager::new(OptimizationLevel::Standard);

    assert!(manager.is_pass_enabled("dce"));
    assert!(manager.is_pass_enabled("constfold"));
    assert!(manager.is_pass_enabled("simplifycfg"));

    assert!(!manager.is_pass_enabled("loopunroll"));
}

#[test]
fn test_enable_disable_pass() {
    let mut manager = OptimizationManager::new(OptimizationLevel::Disabled);

    assert!(!manager.is_pass_enabled("testpass"));

    manager.enable_pass("testpass");
    assert!(manager.is_pass_enabled("testpass"));

    manager.disable_pass("testpass");
    assert!(!manager.is_pass_enabled("testpass"));
}

#[test]
fn test_is_simple_loop() {
    let induction_vars = vec![(1, InductionPattern::Linear { base: 0, step: 1 })];

    let loop_info = LoopInfo {
        header: 1,
        blocks: vec![1, 2, 3],
        exit_blocks: vec![4],
        induction_vars,
        depth: 1,
    };

    assert!(is_simple_loop(&loop_info));

    let complex_induction_vars = vec![(1, InductionPattern::NonLinear)];

    let complex_loop_info = LoopInfo {
        header: 1,
        blocks: vec![1, 2, 3],
        exit_blocks: vec![4, 5],
        induction_vars: complex_induction_vars,
        depth: 1,
    };

    assert!(!is_simple_loop(&complex_loop_info));
}

#[test]
fn levels_enable_cumulative_passes() {
    let basic = OptimizationManager::new(OptimizationLevel::Basic);
    let standard = OptimizationManager::new(OptimizationLevel::Standard);
    let aggressive = OptimizationManager::new(OptimizationLevel::Aggressive);
    let none = OptimizationManager::new(OptimizationLevel::Disabled);
    for pass in ["dce", "constfold", "simplifycfg"] {
        assert!(basic.is_pass_enabled(pass));
        assert!(standard.is_pass_enabled(pass));
        assert!(aggressive.is_pass_enabled(pass));
        assert!(!none.is_pass_enabled(pass));
    }
    for pass in ["gvn", "instcombine", "licm"] {
        assert!(!basic.is_pass_enabled(pass));
        assert!(standard.is_pass_enabled(pass));
        assert!(aggressive.is_pass_enabled(pass));
    }
    for pass in ["inline", "loopunroll", "tailcall"] {
        assert!(!standard.is_pass_enabled(pass));
        assert!(aggressive.is_pass_enabled(pass));
    }
    assert_eq!(aggressive.stats().passes_run, 0);
}

#[test]
fn enabling_twice_then_disabling_once_disables() {
    let mut manager = OptimizationManager::new(OptimizationLevel::Basic);
    manager.enable_pass("dce");
    manager.disable_pass("dce");
    assert!(!manager.is_pass_enabled("dce"));
    assert!(manager.is_pass_enabled("constfold"));
}

#[test]
fn simple_loop_edge_cases() {
    let down = LoopInfo {
        header: 0,
        blocks: vec![],
        exit_blocks: vec![1],
        induction_vars: vec![(1, InductionPattern::Linear { base: 10, step: -1 })],
        depth: 1,
    };
    assert!(is_simple_loop(&down));
    let stride = LoopInfo {
        header: 0,
        blocks: vec![],
        exit_blocks: vec![1],
        induction_vars: vec![(1, InductionPattern::Linear { base: 0, step: 2 })],
        depth: 1,
    };
    assert!(!is_simple_loop(&stride));
    let no_exit = LoopInfo {
        header: 0,
        blocks: vec![],
        exit_blocks: vec![],
        induction_vars: vec![],
        depth: 1,
    };
    assert!(!is_simple_loop(&no_exit));
    assert_eq!(determine_optimal_vector_width(), 4);
}

#[test]
fn induction_variables_are_recorded_once() {
    let mut loop_info = LoopInfo {
        header: 1,
        blocks: vec![1, 2],
        exit_blocks: vec![3],
        induction_vars: vec![],
        depth: 1,
    };
    loop_info.set_induction_var(7, InductionPattern::NonLinear);
    loop_info.set_induction_var(8, InductionPattern::Linear { base: 0, step: 1 });
    assert!(!is_simple_loop(&loop_info));
    loop_info.set_induction_var(7, InductionPattern::Linear { base: 10, step: -1 });
    assert_eq!(loop_info.induction_vars.len(), 2);
    assert_eq!(loop_info.induction_vars[0], (7, InductionPattern::Linear { base: 10, step: -1 }));
    assert!(is_simple_loop(&loop_info));
}
