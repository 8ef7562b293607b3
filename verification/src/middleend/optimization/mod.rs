//! Optimisation management: which passes each optimisation level enables,
//! and loop vectorisation checks.

pub mod type_specialization;
pub mod vectorization;

use vstd::prelude::*;
use vstd::string::StringExecFns;
use crate::middleend::OptimizationLevel;

verus! {

broadcast use vstd::seq_lib::group_seq_properties;

/// Statistics of an optimisation run.
#[derive(Debug, Clone, Copy, PartialEq, Eq, Structural)]
pub struct OptimizationStats {
    /// Passes run.
    pub passes_run: usize,
    /// Instructions removed.
    pub instructions_removed: usize,
    /// Basic blocks removed.
    pub blocks_removed: usize,
    /// Calls inlined.
    pub functions_inlined: usize,
    /// Constants folded.
    pub constants_folded: usize,
    /// Time spent, in milliseconds.
    pub time_ms: u64,
}

impl Default for OptimizationStats {
    fn default() -> (r: Self)
        ensures
            r == (OptimizationStats {
                passes_run: 0,
                instructions_removed: 0,
                blocks_removed: 0,
                functions_inlined: 0,
                constants_folded: 0,
                time_ms: 0,
            }),
    {
        OptimizationStats {
            passes_run: 0,
            instructions_removed: 0,
            blocks_removed: 0,
            functions_inlined: 0,
            constants_folded: 0,
            time_ms: 0,
        }
    }
}

/// The passes of basic optimisation: dead code elimination, constant folding
/// and control-flow simplification.
pub open spec fn basic_passes() -> Set<Seq<char>> {
    set!["dce"@, "constfold"@, "simplifycfg"@]
}

/// The passes of standard optimisation: the basic ones, global value
/// numbering, instruction combining and loop-invariant code motion.
pub open spec fn standard_passes() -> Set<Seq<char>> {
    basic_passes().union(set!["gvn"@, "instcombine"@, "licm"@])
}

/// The passes of aggressive optimisation: the standard ones, inlining, loop
/// unrolling and tail-call optimisation.
pub open spec fn aggressive_passes() -> Set<Seq<char>> {
    standard_passes().union(set!["inline"@, "loopunroll"@, "tailcall"@])
}

/// The passes an optimisation level enables.
pub open spec fn level_passes(level: OptimizationLevel) -> Set<Seq<char>> {
    match level {
        OptimizationLevel::Disabled => Set::empty(),
        OptimizationLevel::Basic => basic_passes(),
        OptimizationLevel::Standard => standard_passes(),
        OptimizationLevel::Aggressive => aggressive_passes(),
    }
}

/// Each level enables every pass of the levels below it.
pub proof fn lemma_levels_cumulative()
    ensures
        level_passes(OptimizationLevel::Disabled).subset_of(level_passes(OptimizationLevel::Basic)),
        level_passes(OptimizationLevel::Basic).subset_of(level_passes(OptimizationLevel::Standard)),
        level_passes(OptimizationLevel::Standard).subset_of(
            level_passes(OptimizationLevel::Aggressive),
        ),
{
}

/// Manages which optimisation passes are enabled.
pub struct OptimizationManager {
    enabled_passes: Vec<String>,
    level: OptimizationLevel,
    stats: OptimizationStats,
}

impl OptimizationManager {
    /// The names of the enabled passes.
    pub closed spec fn enabled(&self) -> Set<Seq<char>> {
        self.enabled_passes@.map_values(|s: String| s@).to_set()
    }

    /// The optimisation level.
    pub closed spec fn opt_level(&self) -> OptimizationLevel {
        self.level
    }

    /// The statistics gathered so far.
    pub closed spec fn current_stats(&self) -> OptimizationStats {
        self.stats
    }

    /// Each pass name is held once.
    pub closed spec fn wf(&self) -> bool {
        self.enabled_passes@.map_values(|s: String| s@).no_duplicates()
    }

    /// A manager for `level`, with the passes of that level enabled and
    /// empty statistics.
    pub fn new(level: OptimizationLevel) -> (r: Self)
        ensures
            r.wf(),
            r.opt_level() == level,
            r.enabled() == level_passes(level),
            r.current_stats() == OptimizationStats::default_spec(),
    {
        let mut manager = OptimizationManager {
            enabled_passes: Vec::new(),
            level,
            stats: OptimizationStats::default(),
        };
        proof {
            assert(manager.enabled() =~= Set::<Seq<char>>::empty());
        }
        manager.configure_passes();
        manager
    }

    /// Enables the passes of the manager's level.
    fn configure_passes(&mut self)
        requires
            old(self).wf(),
            old(self).enabled() == Set::<Seq<char>>::empty(),
        ensures
            final(self).wf(),
            final(self).enabled() == level_passes(old(self).opt_level()),
            final(self).opt_level() == old(self).opt_level(),
            final(self).current_stats() == old(self).current_stats(),
    {
        match self.level {
            OptimizationLevel::Disabled => {},
            OptimizationLevel::Basic => {
                self.enable_pass("dce");
                self.enable_pass("constfold");
                self.enable_pass("simplifycfg");
            },
            OptimizationLevel::Standard => {
                self.enable_pass("dce");
                self.enable_pass("constfold");
                self.enable_pass("simplifycfg");
                self.enable_pass("gvn");
                self.enable_pass("instcombine");
                self.enable_pass("licm");
            },
            OptimizationLevel::Aggressive => {
                self.enable_pass("dce");
                self.enable_pass("constfold");
                self.enable_pass("simplifycfg");
                self.enable_pass("gvn");
                self.enable_pass("instcombine");
                self.enable_pass("licm");
                self.enable_pass("inline");
                self.enable_pass("loopunroll");
                self.enable_pass("tailcall");
            },
        }
        proof {
            assert(self.enabled() =~= level_passes(self.level));
        }
    }

    /// The position of pass `name`, if enabled.
    fn position(&self, name: &str) -> (r: Option<usize>)
        requires
            self.wf(),
        ensures
            match r {
                Some(i) => (i as int) < self.enabled_passes@.len() && self.enabled_passes@[i as int]@ == name@,
                None => !self.enabled().contains(name@),
            },
    {
        let key = String::from_str(name);
        let mut i: usize = 0;
        while i < self.enabled_passes.len()
            invariant
                key@ == name@,
                i <= self.enabled_passes@.len(),
                forall|k: int| 0 <= k < i ==> self.enabled_passes@[k]@ != name@,
            decreases self.enabled_passes@.len() - i,
        {
            if self.enabled_passes[i] == key {
                return Some(i);
            }
            i = i + 1;
        }
        proof {
            if self.enabled().contains(name@) {
                let names = self.enabled_passes@.map_values(|s: String| s@);
                let k = choose|k: int| 0 <= k < names.len() && names[k] == name@;
                assert(self.enabled_passes@[k]@ == name@);
            }
        }
        None
    }

    /// Enables pass `pass_name`.
    pub fn enable_pass(&mut self, pass_name: &str)
        requires
            old(self).wf(),
        ensures
            final(self).wf(),
            final(self).enabled() == old(self).enabled().insert(pass_name@),
            final(self).opt_level() == old(self).opt_level(),
            final(self).current_stats() == old(self).current_stats(),
    {
        match self.position(pass_name) {
            Some(i) => {
                proof {
                    let names = self.enabled_passes@.map_values(|s: String| s@);
                    assert(names[i as int] == pass_name@);
                    assert(self.enabled() =~= self.enabled().insert(pass_name@));
                }
            },
            None => {
                let ghost old_names = self.enabled_passes@.map_values(|s: String| s@);
                self.enabled_passes.push(String::from_str(pass_name));
                proof {
                    let names = self.enabled_passes@.map_values(|s: String| s@);
                    assert(names =~= old_names.push(pass_name@));
                    assert(!old_names.contains(pass_name@));
                    assert(names.to_set() =~= old_names.to_set().insert(pass_name@));
                }
            },
        }
    }

    /// Disables pass `pass_name`.
    pub fn disable_pass(&mut self, pass_name: &str)
        requires
            old(self).wf(),
        ensures
            final(self).wf(),
            final(self).enabled() == old(self).enabled().remove(pass_name@),
            final(self).opt_level() == old(self).opt_level(),
            final(self).current_stats() == old(self).current_stats(),
    {
        match self.position(pass_name) {
            Some(i) => {
                let ghost old_names = self.enabled_passes@.map_values(|s: String| s@);
                self.enabled_passes.remove(i);
                proof {
                    let names = self.enabled_passes@.map_values(|s: String| s@);
                    assert(names =~= old_names.remove(i as int));
                    assert forall|x: Seq<char>| names.to_set().contains(x) <==> old_names.to_set().remove(pass_name@).contains(x) by {
                        if names.contains(x) {
                            let k = choose|k: int| 0 <= k < names.len() && names[k] == x;
                            assert(old_names[i as int] == pass_name@);
                            if k < i {
                                assert(old_names[k] == x);
                                assert(x != pass_name@);
                            } else {
                                assert(old_names[k + 1] == x);
                                assert(x != pass_name@);
                            }
                            assert(old_names.contains(x));
                        }
                        if old_names.contains(x) && x != pass_name@ {
                            let k = choose|k: int| 0 <= k < old_names.len() && old_names[k] == x;
                            if k < i {
                                assert(names[k] == x);
                            } else {
                                assert(k != i);
                                assert(names[k - 1] == x);
                            }
                        }
                    }
                    assert(names.to_set() =~= old_names.to_set().remove(pass_name@));
                }
            },
            None => {
                proof {
                    assert(self.enabled() =~= self.enabled().remove(pass_name@));
                }
            },
        }
    }

    /// Whether pass `pass_name` is enabled.
    pub fn is_pass_enabled(&self, pass_name: &str) -> (r: bool)
        requires
            self.wf(),
        ensures
            r == self.enabled().contains(pass_name@),
    {
        match self.position(pass_name) {
            Some(i) => {
                proof {
                    let names = self.enabled_passes@.map_values(|s: String| s@);
                    assert(names[i as int] == pass_name@);
                }
                true
            },
            None => false,
        }
    }

    /// The statistics gathered so far.
    pub fn stats(&self) -> (r: &OptimizationStats)
        ensures
            *r == self.current_stats(),
    {
        &self.stats
    }
}

impl OptimizationStats {
    /// Statistics with every count zero.
    pub open spec fn default_spec() -> OptimizationStats {
        OptimizationStats {
            passes_run: 0,
            instructions_removed: 0,
            blocks_removed: 0,
            functions_inlined: 0,
            constants_folded: 0,
            time_ms: 0,
        }
    }
}

} // verus!
