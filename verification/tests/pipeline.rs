use std::cell::Cell;
use swiftlight_compiler::optimization::{
    ASTOptimizationPass, CommonSubexpressionElimination, ConstantFolding, DeadCodeElimination,
    IROptimizationPass, InstructionCombining, LoopOptimization,
    OptimizationLevel, OptimizationManager, OptimizationPass, OptimizationPassId, OptimizationPassKind,
    OptimizationPassResult, OptimizationPipelineConfig, OptimizationPipelineResult,
};

struct Changing {
    name: &'static str,
    remaining: Cell<usize>,
}

impl OptimizationPass<()> for Changing {
    fn id(&self) -> OptimizationPassId {
        OptimizationPassId::new(self.name, OptimizationPassKind::AST)
    }

    fn description(&self) -> &str {
        "changes the tree a few times"
    }
}

impl ASTOptimizationPass<Vec<&'static str>, ()> for Changing {
    fn run_on_ast(&self, ast: &mut Vec<&'static str>) -> OptimizationPassResult {
        ast.push(self.name);
        let left = self.remaining.get();
        if left > 0 {
            self.remaining.set(left - 1);
            OptimizationPassResult::new(true, 5)
        } else {
            OptimizationPassResult::new(false, 5)
        }
    }
}

struct Off;

impl OptimizationPass<()> for Off {
    fn id(&self) -> OptimizationPassId {
        OptimizationPassId::new("Off", OptimizationPassKind::AST)
    }

    fn description(&self) -> &str {
        "always turned off"
    }

    fn is_disabled(&self, _config: &()) -> bool {
        true
    }
}

impl ASTOptimizationPass<Vec<&'static str>, ()> for Off {
    fn run_on_ast(&self, ast: &mut Vec<&'static str>) -> OptimizationPassResult {
        ast.push("Off");
        OptimizationPassResult::new(true, 0)
    }
}

fn id(name: &str) -> OptimizationPassId {
    OptimizationPassId::new(name, OptimizationPassKind::AST)
}

#[test]
fn default_level_is_o2() {
    assert_eq!(OptimizationLevel::default(), OptimizationLevel::O2);
    assert_eq!(OptimizationLevel::Os.to_string(), "Os");
    assert_eq!(OptimizationPassKind::IR.to_string(), "IR");
}

#[test]
fn config_enables_and_disables() {
    let mut config = OptimizationPipelineConfig::new();
    assert!(config.is_pass_enabled(&id("A")));
    config.enable_pass(id("A"));
    assert!(config.is_pass_enabled(&id("A")));
    assert!(!config.is_pass_enabled(&id("B")));
    config.disable_pass(id("A"));
    assert!(!config.is_pass_enabled(&id("A")));
    assert_eq!(config.max_iterations, 10);
    config.set_max_iterations(3);
    assert_eq!(config.max_iterations, 3);
    config.set_time_limit(1000);
    assert_eq!(config.time_limit_ns, Some(1000));
}

#[test]
fn schedule_follows_the_order_and_keeps_ties() {
    let mut config = OptimizationPipelineConfig::new();
    config.set_pass_order(vec![id("C"), id("A")]);
    let ids = vec![id("A"), id("B"), id("C"), id("D")];
    let order = config.schedule(&ids, &vec![false, false, false, false]);
    assert_eq!(order, vec![2, 0, 1, 3]);
    let order = config.schedule(&ids, &vec![false, false, true, false]);
    assert_eq!(order, vec![0, 1, 3]);
}

#[test]
fn schedule_without_order_keeps_registration_order() {
    let mut config = OptimizationPipelineConfig::new();
    config.disable_pass(id("B"));
    let ids = vec![id("A"), id("B"), id("C")];
    assert_eq!(config.schedule(&ids, &vec![false, false, false]), vec![0, 2]);
}

#[test]
fn standard_passes_run_once_without_change() {
    let mut manager: OptimizationManager<(), (), ()> = OptimizationManager::new(OptimizationPipelineConfig::new());
    manager.register_standard_passes();
    assert_eq!(manager.ast_passes.len(), 2);
    assert_eq!(manager.ir_passes.len(), 3);
    let r = manager.run_ast_optimizations(&mut (), &());
    assert_eq!(r.iterations, 1);
    assert!(!r.changed);
    assert!(r.pass_results.get(&ConstantFolding::pass_id()).is_some());
    assert!(r.pass_results.get(&DeadCodeElimination::pass_id()).is_some());
    let r = manager.run_ir_optimizations(&mut (), &());
    assert_eq!(r.iterations, 1);
    assert!(!r.changed);
    assert_eq!(r.total_duration_ns, 0);
    assert!(r.pass_results.get(&CommonSubexpressionElimination::pass_id()).is_some());
    assert!(r.pass_results.get(&InstructionCombining::pass_id()).is_some());
    assert!(r.pass_results.get(&LoopOptimization::pass_id()).is_some());
    assert!(r.pass_results.get(&ConstantFolding::pass_id()).is_none());
}

#[test]
fn passes_repeat_while_they_change() {
    let mut manager: OptimizationManager<Vec<&'static str>, (), ()> =
        OptimizationManager::new(OptimizationPipelineConfig::new());
    manager.register_ast_pass(Box::new(Changing { name: "X", remaining: Cell::new(2) }));
    manager.register_ast_pass(Box::new(Off));
    let mut ast = Vec::new();
    let r = manager.run_ast_optimizations(&mut ast, &());
    assert_eq!(r.iterations, 3);
    assert!(r.changed);
    assert_eq!(ast, vec!["X", "X", "X"]);
    assert_eq!(r.total_duration_ns, 15);
}

#[test]
fn iterations_are_capped() {
    let mut config = OptimizationPipelineConfig::new();
    config.set_max_iterations(2);
    let mut manager: OptimizationManager<Vec<&'static str>, (), ()> = OptimizationManager::new(config);
    manager.register_ast_pass(Box::new(Changing { name: "Y", remaining: Cell::new(10) }));
    let mut ast = Vec::new();
    let r = manager.run_ast_optimizations(&mut ast, &());
    assert_eq!(r.iterations, 2);
    assert_eq!(ast.len(), 2);
}

#[test]
fn order_decides_which_pass_runs_first() {
    let mut config = OptimizationPipelineConfig::new();
    config.set_pass_order(vec![id("Second"), id("First")]);
    let mut manager: OptimizationManager<Vec<&'static str>, (), ()> = OptimizationManager::new(config);
    manager.register_ast_pass(Box::new(Changing { name: "First", remaining: Cell::new(0) }));
    manager.register_ast_pass(Box::new(Changing { name: "Second", remaining: Cell::new(0) }));
    let mut ast = Vec::new();
    manager.run_ast_optimizations(&mut ast, &());
    assert_eq!(ast, vec!["Second", "First"]);
}

#[test]
fn zero_iterations_run_nothing() {
    let mut config = OptimizationPipelineConfig::new();
    config.set_max_iterations(0);
    let mut manager: OptimizationManager<Vec<&'static str>, (), ()> = OptimizationManager::new(config);
    manager.register_ast_pass(Box::new(Changing { name: "Z", remaining: Cell::new(1) }));
    let mut ast = Vec::new();
    let r = manager.run_ast_optimizations(&mut ast, &());
    assert_eq!(r.iterations, 0);
    assert!(ast.is_empty());
}

#[test]
fn pass_results_record_stats() {
    let r = OptimizationPassResult::new(true, 7).with_stat("folded", 3);
    assert!(r.changed);
    assert_eq!(r.duration_ns, 7);
    assert_eq!(r.stats.get(&"folded".to_string()), Some(&3));
    let mut p = OptimizationPipelineResult::new();
    p.add_pass_result(id("A"), r);
    p.increment_iteration();
    assert!(p.changed);
    assert_eq!(p.total_duration_ns, 7);
    assert_eq!(p.iterations, 1);
}
