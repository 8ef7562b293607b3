//! Loop vectorisation checks.

use vstd::prelude::*;

verus! {

/// How an induction variable evolves.
#[derive(Debug, Clone, Copy, PartialEq, Eq, Structural)]
pub enum InductionPattern {
    /// `base + step * i`.
    Linear { base: i64, step: i64 },
    /// Anything else.
    NonLinear,
}

/// A natural loop.
#[derive(Debug, Clone)]
pub struct LoopInfo {
    /// Header block.
    pub header: u32,
    /// Blocks of the loop.
    pub blocks: Vec<u32>,
    /// Blocks control leaves the loop to.
    pub exit_blocks: Vec<u32>,
    /// Induction variables and how each evolves.
    pub induction_vars: Vec<(u32, InductionPattern)>,
    /// Nesting depth.
    pub depth: u32,
}

impl LoopInfo {
    /// Each induction variable is listed once.
    pub open spec fn wf(&self) -> bool {
        forall|i: int, j: int|
            0 <= i < j < self.induction_vars@.len() ==> #[trigger] self.induction_vars@[i].0
                != #[trigger] self.induction_vars@[j].0
    }

    /// The pattern recorded for induction variable `var`, if any.
    pub open spec fn pattern_of(&self, var: u32) -> Option<InductionPattern> {
        if exists|i: int| 0 <= i < self.induction_vars@.len() && #[trigger] self.induction_vars@[i].0 == var {
            let i = choose|i: int| 0 <= i < self.induction_vars@.len() && #[trigger] self.induction_vars@[i].0 == var;
            Some(self.induction_vars@[i].1)
        } else {
            None
        }
    }

    /// Records how induction variable `var` evolves, replacing what was
    /// recorded for it before.
    pub fn set_induction_var(&mut self, var: u32, pattern: InductionPattern)
        requires
            old(self).wf(),
        ensures
            final(self).wf(),
            final(self).pattern_of(var) == Some(pattern),
            forall|other: u32| other != var ==> #[trigger] final(self).pattern_of(other) == old(self).pattern_of(other),
            final(self).header == old(self).header,
            final(self).blocks == old(self).blocks,
            final(self).exit_blocks == old(self).exit_blocks,
            final(self).depth == old(self).depth,
    {
        let ghost before = self.induction_vars@;
        let mut i: usize = 0;
        while i < self.induction_vars.len()
            invariant
                *self == *old(self),
                before == old(self).induction_vars@,
                old(self).wf(),
                i <= before.len(),
                forall|k: int| 0 <= k < i ==> before[k].0 != var,
            decreases before.len() - i,
        {
            if self.induction_vars[i].0 == var {
                self.induction_vars.set(i, (var, pattern));
                proof {
                    let after = self.induction_vars@;
                    assert forall|k: int| 0 <= k < after.len() && k != i implies after[k] == before[k] by {}
                    assert(self.wf()) by {
                        assert forall|a: int, b: int| 0 <= a < b < after.len() implies #[trigger] after[a].0
                            != #[trigger] after[b].0 by {
                            assert(before[a].0 != before[b].0);
                        }
                    }
                    assert forall|k: int| 0 <= k < after.len() && #[trigger] after[k].0 == var implies k == i by {
                        if k != i {
                            assert(before[k].0 == var);
                            if k < i {
                            } else {
                                assert(before[i as int].0 != before[k].0);
                            }
                        }
                    }
                    assert(after[i as int].0 == var);
                    assert(self.pattern_of(var) == Some(pattern));
                    assert forall|other: u32| other != var implies #[trigger] self.pattern_of(other)
                        == old(self).pattern_of(other) by {
                        if exists|k: int| 0 <= k < before.len() && #[trigger] before[k].0 == other {
                            let k = choose|k: int| 0 <= k < before.len() && #[trigger] before[k].0 == other;
                            assert(after[k] == before[k]);
                            let k2 = choose|k2: int| 0 <= k2 < after.len() && #[trigger] after[k2].0 == other;
                            assert(after[k2] == before[k2]);
                            assert(k2 == k);
                        }
                        if exists|k: int| 0 <= k < after.len() && #[trigger] after[k].0 == other {
                            let k = choose|k: int| 0 <= k < after.len() && #[trigger] after[k].0 == other;
                            assert(before[k] == after[k]);
                        }
                    }
                }
                return;
            }
            i = i + 1;
        }
        self.induction_vars.push((var, pattern));
        proof {
            let after = self.induction_vars@;
            let n = before.len() as int;
            assert(after[n] == (var, pattern));
            assert forall|k: int| 0 <= k < n implies #[trigger] after[k] == before[k] by {}
            assert forall|a: int, b: int| 0 <= a < b < after.len() implies #[trigger] after[a].0
                != #[trigger] after[b].0 by {
                if b < n {
                    assert(before[a].0 != before[b].0);
                }
            }
            assert forall|k: int| 0 <= k < after.len() && #[trigger] after[k].0 == var implies k == n by {}
            assert(after[n].0 == var);
            assert(self.pattern_of(var) == Some(pattern));
            assert forall|other: u32| other != var implies #[trigger] self.pattern_of(other)
                == old(self).pattern_of(other) by {
                if exists|k: int| 0 <= k < before.len() && #[trigger] before[k].0 == other {
                    let k = choose|k: int| 0 <= k < before.len() && #[trigger] before[k].0 == other;
                    assert(after[k] == before[k]);
                    let k2 = choose|k2: int| 0 <= k2 < after.len() && #[trigger] after[k2].0 == other;
                    assert(k2 < n);
                    assert(after[k2] == before[k2]);
                    assert(k2 == k);
                }
                if exists|k: int| 0 <= k < after.len() && #[trigger] after[k].0 == other {
                    let k = choose|k: int| 0 <= k < after.len() && #[trigger] after[k].0 == other;
                    assert(k < n);
                    assert(before[k] == after[k]);
                }
            }
        }
    }
}

/// Whether an induction pattern steps by one, up or down.
pub open spec fn unit_step(p: InductionPattern) -> bool {
    match p {
        InductionPattern::Linear { step, .. } => step == 1 || step == -1,
        InductionPattern::NonLinear => false,
    }
}

/// A loop is simple when it has exactly one exit and every induction
/// variable is linear with step 1 or -1.
pub fn is_simple_loop(loop_info: &LoopInfo) -> (r: bool)
    ensures
        r == (loop_info.exit_blocks@.len() == 1 && forall|i: int|
            0 <= i < loop_info.induction_vars@.len() ==> unit_step(
                #[trigger] loop_info.induction_vars@[i].1,
            )),
{
    if loop_info.exit_blocks.len() != 1 {
        return false;
    }
    let mut i: usize = 0;
    while i < loop_info.induction_vars.len()
        invariant
            i <= loop_info.induction_vars@.len(),
            forall|k: int| 0 <= k < i ==> unit_step(#[trigger] loop_info.induction_vars@[k].1),
        decreases loop_info.induction_vars@.len() - i,
    {
        match loop_info.induction_vars[i].1 {
            InductionPattern::Linear { step, .. } => {
                if step != 1 && step != -1 {
                    return false;
                }
            },
            InductionPattern::NonLinear => {
                return false;
            },
        }
        i = i + 1;
    }
    true
}

/// The vector width used for vectorised loops: four lanes, the narrowest
/// common SIMD width.
pub fn determine_optimal_vector_width() -> (r: u32)
    ensures
        r == 4,
{
    4
}

} // verus!
