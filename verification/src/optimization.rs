//! The optimisation framework: pass identifiers and results, the pipeline
//! configuration, and the manager that runs AST and IR passes.

use vstd::prelude::*;
use vstd::string::StringExecFns;
use crate::name_table::{KeyTable, NameTable, TableKey};

verus! {

broadcast use vstd::seq_lib::group_seq_properties;

/// Optimisation level.
#[derive(Debug, Clone, Copy, PartialEq, Eq, Structural)]
pub enum OptimizationLevel {
    /// No optimisation.
    O0,
    /// Minimal optimisation.
    O1,
    /// Standard optimisation, the default.
    O2,
    /// Aggressive optimisation.
    O3,
    /// Optimise for size.
    Os,
    /// Optimise for debugging.
    Og,
}

impl Default for OptimizationLevel {
    fn default() -> (r: Self)
        ensures
            r == OptimizationLevel::O2,
    {
        OptimizationLevel::O2
    }
}

/// How an optimisation level is written.
pub open spec fn level_text(l: OptimizationLevel) -> Seq<char> {
    match l {
        OptimizationLevel::O0 => "O0"@,
        OptimizationLevel::O1 => "O1"@,
        OptimizationLevel::O2 => "O2"@,
        OptimizationLevel::O3 => "O3"@,
        OptimizationLevel::Os => "Os"@,
        OptimizationLevel::Og => "Og"@,
    }
}

impl OptimizationLevel {
    /// How the level is written.
    pub fn to_string(&self) -> (r: String)
        ensures
            r@ == level_text(*self),
    {
        match self {
            OptimizationLevel::O0 => String::from_str("O0"),
            OptimizationLevel::O1 => String::from_str("O1"),
            OptimizationLevel::O2 => String::from_str("O2"),
            OptimizationLevel::O3 => String::from_str("O3"),
            OptimizationLevel::Os => String::from_str("Os"),
            OptimizationLevel::Og => String::from_str("Og"),
        }
    }
}

/// Where in the compiler a pass works.
#[derive(Debug, Clone, Copy, PartialEq, Eq, Hash, Structural)]
pub enum OptimizationPassKind {
    Preprocessing,
    AST,
    IR,
    Backend,
    LinkTime,
}

/// How a pass kind is written.
pub open spec fn kind_text(k: OptimizationPassKind) -> Seq<char> {
    match k {
        OptimizationPassKind::Preprocessing => "前処理"@,
        OptimizationPassKind::AST => "AST"@,
        OptimizationPassKind::IR => "IR"@,
        OptimizationPassKind::Backend => "バックエンド"@,
        OptimizationPassKind::LinkTime => "リンク時"@,
    }
}

impl OptimizationPassKind {
    /// How the kind is written.
    pub fn to_string(&self) -> (r: String)
        ensures
            r@ == kind_text(*self),
    {
        match self {
            OptimizationPassKind::Preprocessing => String::from_str("前処理"),
            OptimizationPassKind::AST => String::from_str("AST"),
            OptimizationPassKind::IR => String::from_str("IR"),
            OptimizationPassKind::Backend => String::from_str("バックエンド"),
            OptimizationPassKind::LinkTime => String::from_str("リンク時"),
        }
    }
}

/// The identity of a pass: its name and kind.
#[derive(Debug, PartialEq, Eq, Hash)]
pub struct OptimizationPassId {
    pub name: String,
    pub kind: OptimizationPassKind,
}

impl View for OptimizationPassId {
    type V = (Seq<char>, OptimizationPassKind);

    open spec fn view(&self) -> (Seq<char>, OptimizationPassKind) {
        (self.name@, self.kind)
    }
}

impl Clone for OptimizationPassId {
    fn clone(&self) -> (r: Self)
        ensures
            r@ == self@,
    {
        OptimizationPassId { name: self.name.clone(), kind: self.kind }
    }
}

impl OptimizationPassId {
    /// The identity of pass `name` of kind `kind`.
    pub fn new(name: &str, kind: OptimizationPassKind) -> (r: Self)
        ensures
            r@ == (name@, kind),
    {
        OptimizationPassId { name: String::from_str(name), kind }
    }

    /// Whether two identities are equal.
    pub fn same(&self, other: &OptimizationPassId) -> (r: bool)
        ensures
            r == (self@ == other@),
    {
        self.name == other.name && self.kind == other.kind
    }

    /// How the identity is written: `name(kind)`.
    pub fn to_string(&self) -> (r: String)
        ensures
            r@ == self.name@ + "("@ + kind_text(self.kind) + ")"@,
    {
        let mut r = self.name.clone();
        r.append("(");
        let k = self.kind.to_string();
        r.append(k.as_str());
        r.append(")");
        r
    }
}

/// The values of a list of pass identities.
pub open spec fn id_views(v: Seq<OptimizationPassId>) -> Seq<(Seq<char>, OptimizationPassKind)> {
    v.map_values(|p: OptimizationPassId| p@)
}

/// A set of pass identities.
pub struct PassIdSet {
    items: Vec<OptimizationPassId>,
}

impl PassIdSet {
    /// The identities in the set.
    pub closed spec fn members(&self) -> Set<(Seq<char>, OptimizationPassKind)> {
        id_views(self.items@).to_set()
    }

    /// Each identity is held once.
    pub closed spec fn wf(&self) -> bool {
        id_views(self.items@).no_duplicates()
    }

    /// An empty set.
    pub fn new() -> (r: Self)
        ensures
            r.wf(),
            r.members() == Set::<(Seq<char>, OptimizationPassKind)>::empty(),
    {
        let r = PassIdSet { items: Vec::new() };
        assert(r.members() =~= Set::<(Seq<char>, OptimizationPassKind)>::empty());
        r
    }

    fn position(&self, id: &OptimizationPassId) -> (r: Option<usize>)
        ensures
            match r {
                Some(i) => (i as int) < self.items@.len() && self.items@[i as int]@ == id@,
                None => !self.members().contains(id@),
            },
    {
        let mut i: usize = 0;
        while i < self.items.len()
            invariant
                i <= self.items@.len(),
                forall|k: int| 0 <= k < i ==> self.items@[k]@ != id@,
            decreases self.items@.len() - i,
        {
            if self.items[i].same(id) {
                return Some(i);
            }
            i = i + 1;
        }
        proof {
            if self.members().contains(id@) {
                let k = choose|k: int| 0 <= k < id_views(self.items@).len() && id_views(self.items@)[k] == id@;
                assert(self.items@[k]@ == id@);
            }
        }
        None
    }

    /// Whether `id` is in the set.
    pub fn contains(&self, id: &OptimizationPassId) -> (r: bool)
        ensures
            r == self.members().contains(id@),
    {
        match self.position(id) {
            Some(i) => {
                assert(id_views(self.items@)[i as int] == id@);
                true
            },
            None => false,
        }
    }

    /// Whether the set is empty.
    pub fn is_empty(&self) -> (r: bool)
        ensures
            r == (self.members() == Set::<(Seq<char>, OptimizationPassKind)>::empty()),
    {
        proof {
            if self.items@.len() > 0 {
                assert(self.members().contains(id_views(self.items@)[0]));
            } else {
                assert(self.members() =~= Set::<(Seq<char>, OptimizationPassKind)>::empty());
            }
        }
        self.items.len() == 0
    }

    /// Adds `id`.
    pub fn insert(&mut self, id: OptimizationPassId)
        requires
            old(self).wf(),
        ensures
            final(self).wf(),
            final(self).members() == old(self).members().insert(id@),
    {
        match self.position(&id) {
            Some(i) => {
                assert(id_views(self.items@)[i as int] == id@);
                assert(self.members() =~= self.members().insert(id@));
            },
            None => {
                let ghost old_v = id_views(self.items@);
                let ghost v = id@;
                self.items.push(id);
                assert(id_views(self.items@) =~= old_v.push(v));
                assert(id_views(self.items@).to_set() =~= old_v.to_set().insert(v));
            },
        }
    }

    /// Removes `id`.
    pub fn remove(&mut self, id: &OptimizationPassId)
        requires
            old(self).wf(),
        ensures
            final(self).wf(),
            final(self).members() == old(self).members().remove(id@),
    {
        match self.position(id) {
            Some(i) => {
                let ghost old_v = id_views(self.items@);
                self.items.remove(i);
                proof {
                    let v = id_views(self.items@);
                    assert(v =~= old_v.remove(i as int));
                    assert(old_v[i as int] == id@);
                    assert forall|x| v.to_set().contains(x) <==> old_v.to_set().remove(id@).contains(x) by {
                        if v.contains(x) {
                            let k = choose|k: int| 0 <= k < v.len() && v[k] == x;
                            if k < i {
                                assert(old_v[k] == x);
                            } else {
                                assert(old_v[k + 1] == x);
                            }
                            assert(old_v.contains(x));
                        }
                        if old_v.contains(x) && x != id@ {
                            let k = choose|k: int| 0 <= k < old_v.len() && old_v[k] == x;
                            if k < i {
                                assert(v[k] == x);
                            } else {
                                assert(v[k - 1] == x);
                            }
                        }
                    }
                    assert(v.to_set() =~= old_v.to_set().remove(id@));
                }
            },
            None => {
                assert(self.members() =~= self.members().remove(id@));
            },
        }
    }
}

/// What one run of a pass reports.
pub struct OptimizationPassResult {
    /// Whether the pass changed the program.
    pub changed: bool,
    /// Time the pass took, in nanoseconds.
    pub duration_ns: u64,
    /// Named statistics.
    pub stats: NameTable<usize>,
}

impl OptimizationPassResult {
    /// A result with no statistics.
    pub fn new(changed: bool, duration_ns: u64) -> (r: Self)
        ensures
            r.changed == changed,
            r.duration_ns == duration_ns,
            r.stats.wf(),
            forall|name: Seq<char>| #[trigger] r.stats.lookup(name) is None,
    {
        OptimizationPassResult { changed, duration_ns, stats: NameTable::new() }
    }

    /// The result with statistic `name` set to `value`.
    pub fn with_stat(self, name: &str, value: usize) -> (r: Self)
        requires
            self.stats.wf(),
        ensures
            r.changed == self.changed,
            r.duration_ns == self.duration_ns,
            r.stats.wf(),
            r.stats.lookup(name@) == Some(value),
            forall|other: Seq<char>|
                other != name@ ==> #[trigger] r.stats.lookup(other) == self.stats.lookup(other),
    {
        let mut r = self;
        r.stats.insert(String::from_str(name), value);
        r
    }
}

/// Configuration of the optimisation pipeline.
pub struct OptimizationPipelineConfig {
    /// Passes explicitly enabled; when empty, every pass not disabled runs.
    pub enabled_passes: PassIdSet,
    /// Passes disabled.
    pub disabled_passes: PassIdSet,
    /// The order in which passes run; passes not listed run last.
    pub pass_order: Vec<OptimizationPassId>,
    /// The most iterations of the pipeline.
    pub max_iterations: usize,
    /// Time limit, in nanoseconds.
    pub time_limit_ns: Option<u64>,
}

/// Whether pass `id` runs under the given enabled and disabled sets: it is
/// not disabled, and either no pass is explicitly enabled or it is.
pub open spec fn runs_under(
    enabled: Set<(Seq<char>, OptimizationPassKind)>,
    disabled: Set<(Seq<char>, OptimizationPassKind)>,
    id: (Seq<char>, OptimizationPassKind),
) -> bool {
    !disabled.contains(id) && (enabled == Set::<(Seq<char>, OptimizationPassKind)>::empty()
        || enabled.contains(id))
}

/// Enabling a pass makes it run, and disabling it stops it, whatever was
/// configured before.
pub proof fn lemma_enable_disable(
    enabled: Set<(Seq<char>, OptimizationPassKind)>,
    disabled: Set<(Seq<char>, OptimizationPassKind)>,
    id: (Seq<char>, OptimizationPassKind),
)
    ensures
        runs_under(enabled.insert(id), disabled.remove(id), id),
        !runs_under(enabled.remove(id), disabled.insert(id), id),
{
}

impl OptimizationPipelineConfig {
    /// The configuration is consistent.
    pub open spec fn wf(&self) -> bool {
        self.enabled_passes.wf() && self.disabled_passes.wf()
    }

    /// Whether pass `id` runs under this configuration.
    pub open spec fn runs(&self, id: (Seq<char>, OptimizationPassKind)) -> bool {
        runs_under(self.enabled_passes.members(), self.disabled_passes.members(), id)
    }

    /// No pass enabled or disabled explicitly, no order, at most 10
    /// iterations and no time limit.
    pub fn new() -> (r: Self)
        ensures
            r.wf(),
            r.enabled_passes.members() == Set::<(Seq<char>, OptimizationPassKind)>::empty(),
            r.disabled_passes.members() == Set::<(Seq<char>, OptimizationPassKind)>::empty(),
            r.pass_order@.len() == 0,
            r.max_iterations == 10,
            r.time_limit_ns is None,
    {
        OptimizationPipelineConfig {
            enabled_passes: PassIdSet::new(),
            disabled_passes: PassIdSet::new(),
            pass_order: Vec::new(),
            max_iterations: 10,
            time_limit_ns: None,
        }
    }

    /// Enables pass `pass_id`, taking it off the disabled set.
    pub fn enable_pass(&mut self, pass_id: OptimizationPassId)
        requires
            old(self).wf(),
        ensures
            final(self).wf(),
            final(self).enabled_passes.members() == old(self).enabled_passes.members().insert(pass_id@),
            final(self).disabled_passes.members() == old(self).disabled_passes.members().remove(pass_id@),
            final(self).pass_order == old(self).pass_order,
            final(self).max_iterations == old(self).max_iterations,
            final(self).time_limit_ns == old(self).time_limit_ns,
            final(self).runs(pass_id@),
    {
        let copy = pass_id.clone();
        self.enabled_passes.insert(copy);
        self.disabled_passes.remove(&pass_id);
    }

    /// Disables pass `pass_id`, taking it off the enabled set.
    pub fn disable_pass(&mut self, pass_id: OptimizationPassId)
        requires
            old(self).wf(),
        ensures
            final(self).wf(),
            final(self).disabled_passes.members() == old(self).disabled_passes.members().insert(pass_id@),
            final(self).enabled_passes.members() == old(self).enabled_passes.members().remove(pass_id@),
            final(self).pass_order == old(self).pass_order,
            final(self).max_iterations == old(self).max_iterations,
            final(self).time_limit_ns == old(self).time_limit_ns,
            !final(self).runs(pass_id@),
    {
        let copy = pass_id.clone();
        self.disabled_passes.insert(copy);
        self.enabled_passes.remove(&pass_id);
    }

    /// Whether pass `pass_id` runs.
    pub fn is_pass_enabled(&self, pass_id: &OptimizationPassId) -> (r: bool)
        requires
            self.wf(),
        ensures
            r == self.runs(pass_id@),
    {
        if self.disabled_passes.contains(pass_id) {
            return false;
        }
        if self.enabled_passes.is_empty() {
            return true;
        }
        self.enabled_passes.contains(pass_id)
    }

    /// Sets the order of the passes.
    pub fn set_pass_order(&mut self, order: Vec<OptimizationPassId>)
        ensures
            final(self).pass_order == order,
            final(self).enabled_passes == old(self).enabled_passes,
            final(self).disabled_passes == old(self).disabled_passes,
            final(self).max_iterations == old(self).max_iterations,
            final(self).time_limit_ns == old(self).time_limit_ns,
    {
        self.pass_order = order;
    }

    /// Sets the most iterations.
    pub fn set_max_iterations(&mut self, iterations: usize)
        ensures
            final(self).max_iterations == iterations,
            final(self).pass_order == old(self).pass_order,
            final(self).enabled_passes == old(self).enabled_passes,
            final(self).disabled_passes == old(self).disabled_passes,
            final(self).time_limit_ns == old(self).time_limit_ns,
    {
        self.max_iterations = iterations;
    }

    /// Sets the time limit, in nanoseconds.
    pub fn set_time_limit(&mut self, limit_ns: u64)
        ensures
            final(self).time_limit_ns == Some(limit_ns),
            final(self).max_iterations == old(self).max_iterations,
            final(self).pass_order == old(self).pass_order,
            final(self).enabled_passes == old(self).enabled_passes,
            final(self).disabled_passes == old(self).disabled_passes,
    {
        self.time_limit_ns = Some(limit_ns);
    }
}

impl Default for OptimizationPipelineConfig {
    fn default() -> (r: Self)
        ensures
            r.wf(),
            r.max_iterations == 10,
            r.time_limit_ns is None,
    {
        OptimizationPipelineConfig::new()
    }
}

impl TableKey for OptimizationPassId {
    fn same_key(&self, other: &Self) -> (r: bool) {
        self.same(other)
    }

    fn copy_key(&self) -> (r: Self) {
        self.clone()
    }
}

/// What a run of the pipeline reports.
pub struct OptimizationPipelineResult {
    /// The last result of each pass that ran.
    pub pass_results: KeyTable<OptimizationPassId, OptimizationPassResult>,
    /// Iterations of the pipeline.
    pub iterations: usize,
    /// Total time of the passes, in nanoseconds.
    pub total_duration_ns: u64,
    /// Whether any pass changed the program.
    pub changed: bool,
}

impl OptimizationPipelineResult {
    /// The result is consistent.
    pub open spec fn wf(&self) -> bool {
        self.pass_results.wf()
    }

    /// An empty result.
    pub fn new() -> (r: Self)
        ensures
            r.wf(),
            forall|id: (Seq<char>, OptimizationPassKind)| #[trigger] r.pass_results.lookup(id) is None,
            r.iterations == 0,
            r.total_duration_ns == 0,
            !r.changed,
    {
        OptimizationPipelineResult {
            pass_results: KeyTable::new(),
            iterations: 0,
            total_duration_ns: 0,
            changed: false,
        }
    }

    /// Records the result of pass `pass_id`: its time is added to the total,
    /// a change marks the pipeline changed, and it replaces an earlier result
    /// of the same pass.
    pub fn add_pass_result(&mut self, pass_id: OptimizationPassId, result: OptimizationPassResult)
        requires
            old(self).wf(),
            old(self).total_duration_ns + result.duration_ns <= u64::MAX,
        ensures
            final(self).wf(),
            final(self).changed == (old(self).changed || result.changed),
            final(self).total_duration_ns == old(self).total_duration_ns + result.duration_ns,
            final(self).iterations == old(self).iterations,
            final(self).pass_results.lookup(pass_id@) == Some(result),
            forall|other: (Seq<char>, OptimizationPassKind)|
                other != pass_id@ ==> #[trigger] final(self).pass_results.lookup(other)
                    == old(self).pass_results.lookup(other),
    {
        if result.changed {
            self.changed = true;
        }
        self.total_duration_ns = self.total_duration_ns + result.duration_ns;
        self.pass_results.insert(pass_id, result);
    }

    /// Counts one more iteration.
    pub fn increment_iteration(&mut self)
        requires
            old(self).iterations < usize::MAX,
        ensures
            final(self).iterations == old(self).iterations + 1,
            final(self).changed == old(self).changed,
            final(self).total_duration_ns == old(self).total_duration_ns,
            final(self).pass_results == old(self).pass_results,
    {
        self.iterations = self.iterations + 1;
    }
}

/// The first position of `x` in `s`, if any.
pub open spec fn first_pos<A>(s: Seq<A>, x: A) -> int {
    if s.contains(x) {
        choose|i: int| 0 <= i < s.len() && s[i] == x && forall|j: int| 0 <= j < i ==> s[j] != x
    } else {
        -1
    }
}

/// Inserting `i` at position `p` of a list ordered by `(keys, position)`
/// keeps it ordered, when everything before `p` has a key at most `ki`,
/// everything from `p` on a larger key, and every entry is below `i`.
proof fn lemma_insert_keeps_order(old_r: Seq<usize>, keys: Seq<usize>, p: int, i: usize, ki: usize)
    requires
        0 <= p <= old_r.len(),
        (i as int) < keys.len(),
        keys[i as int] == ki,
        forall|k: int| 0 <= k < old_r.len() ==> (#[trigger] old_r[k] as int) < keys.len(),
        forall|k: int| 0 <= k < old_r.len() ==> (#[trigger] old_r[k]) < i,
        forall|k: int| 0 <= k < p ==> keys[#[trigger] old_r[k] as int] <= ki,
        p < old_r.len() ==> keys[old_r[p] as int] > ki,
        forall|a: int, b: int|
            #![trigger old_r[a], old_r[b]]
            0 <= a < b < old_r.len() ==> {
                let ka = keys[old_r[a] as int];
                let kb = keys[old_r[b] as int];
                ka < kb || (ka == kb && old_r[a] < old_r[b])
            },
    ensures
        forall|a: int, b: int|
            #![trigger old_r.insert(p, i)[a], old_r.insert(p, i)[b]]
            0 <= a < b < old_r.len() + 1 ==> {
                let r = old_r.insert(p, i);
                let ka = keys[r[a] as int];
                let kb = keys[r[b] as int];
                ka < kb || (ka == kb && r[a] < r[b])
            },
{
    let r = old_r.insert(p, i);
    assert forall|a: int, b: int|
        #![trigger r[a], r[b]]
        0 <= a < b < r.len() implies {
            let ka = keys[r[a] as int];
            let kb = keys[r[b] as int];
            ka < kb || (ka == kb && r[a] < r[b])
        } by {
        if b < p {
            assert(r[a] == old_r[a] && r[b] == old_r[b]);
        } else if b == p {
            assert(r[a] == old_r[a]);
            assert(keys[old_r[a] as int] <= ki);
            assert(old_r[a] < i);
        } else if a == p {
            assert(r[b] == old_r[b - 1]);
            assert(keys[old_r[p] as int] > ki);
            if b - 1 > p {
                assert(keys[old_r[p] as int] <= keys[old_r[b - 1] as int]);
            }
        } else if a < p {
            assert(r[a] == old_r[a] && r[b] == old_r[b - 1]);
        } else {
            assert(r[a] == old_r[a - 1] && r[b] == old_r[b - 1]);
        }
    }
}

/// What a list holds after inserting `i` at position `p`.
proof fn lemma_insert_members(old_r: Seq<usize>, p: int, i: usize)
    requires
        0 <= p <= old_r.len(),
    ensures
        forall|x: usize| #[trigger] old_r.insert(p, i).contains(x) <==> (old_r.contains(x) || x == i),
        forall|k: int|
            0 <= k < old_r.len() + 1 ==> (#[trigger] old_r.insert(p, i)[k] == i || old_r.contains(
                old_r.insert(p, i)[k],
            )),
{
    let r = old_r.insert(p, i);
    assert forall|x: usize| #[trigger] r.contains(x) <==> (old_r.contains(x) || x == i) by {
        if r.contains(x) && x != i {
            let k = choose|k: int| 0 <= k < r.len() && r[k] == x;
            if k < p {
                assert(old_r[k] == x);
            } else {
                assert(k != p);
                assert(old_r[k - 1] == x);
            }
        }
        if old_r.contains(x) {
            let k = choose|k: int| 0 <= k < old_r.len() && old_r[k] == x;
            if k < p {
                assert(r[k] == x);
            } else {
                assert(r[k + 1] == x);
            }
        }
        if x == i {
            assert(r[p] == i);
        }
    }
    assert forall|k: int| 0 <= k < old_r.len() + 1 implies (#[trigger] r[k] == i || old_r.contains(r[k])) by {
        if k < p {
            assert(r[k] == old_r[k]);
        } else if k > p {
            assert(r[k] == old_r[k - 1]);
        }
    }
}

impl OptimizationPipelineConfig {
    /// The sort key of a pass: its first position in the configured order,
    /// the largest key when it is not listed, and the same key for every
    /// pass when no order is configured.
    pub open spec fn order_key(&self, id: (Seq<char>, OptimizationPassKind)) -> int {
        if self.pass_order@.len() == 0 {
            0
        } else if id_views(self.pass_order@).contains(id) {
            first_pos(id_views(self.pass_order@), id)
        } else {
            usize::MAX as int
        }
    }

    /// Whether `order` lists, as positions in `ids`, exactly the passes that
    /// run (not `disabled` and let run by the configuration), by their sort
    /// key and, among equal keys, by position.
    pub open spec fn is_run_order(&self, ids: Seq<OptimizationPassId>, disabled: Seq<bool>, order: Seq<usize>) -> bool {
        &&& forall|k: int| 0 <= k < order.len() ==> (#[trigger] order[k] as int) < ids.len()
        &&& forall|x: usize|
            #[trigger] order.contains(x) <==> ((x as int) < ids.len() && !disabled[x as int] && self.runs(
                ids[x as int]@,
            ))
        &&& forall|a: int, b: int|
            #![trigger order[a], order[b]]
            0 <= a < b < order.len() ==> {
                let ka = self.order_key(ids[order[a] as int]@);
                let kb = self.order_key(ids[order[b] as int]@);
                ka < kb || (ka == kb && order[a] < order[b])
            }
    }

    /// The sort key of pass `id`.
    fn key_of(&self, id: &OptimizationPassId) -> (r: usize)
        ensures
            r as int == self.order_key(id@),
    {
        if self.pass_order.len() == 0 {
            return 0;
        }
        let mut i: usize = 0;
        while i < self.pass_order.len()
            invariant
                0 < self.pass_order@.len(),
                i <= self.pass_order@.len(),
                forall|k: int| 0 <= k < i ==> self.pass_order@[k]@ != id@,
            decreases self.pass_order@.len() - i,
        {
            if self.pass_order[i].same(id) {
                proof {
                    let v = id_views(self.pass_order@);
                    assert(v[i as int] == id@);
                    assert(v.contains(id@));
                    let c = first_pos(v, id@);
                    assert(0 <= c < v.len() && v[c] == id@ && forall|j: int| 0 <= j < c ==> v[j] != id@);
                    if c < i {
                        assert(self.pass_order@[c]@ == id@);
                    }
                    if i < c {
                        assert(v[i as int] != id@);
                    }
                }
                return i;
            }
            i = i + 1;
        }
        proof {
            let v = id_views(self.pass_order@);
            if v.contains(id@) {
                let k = choose|k: int| 0 <= k < v.len() && v[k] == id@;
                assert(self.pass_order@[k]@ == id@);
            }
        }
        usize::MAX
    }

    /// Which of the passes `ids` run and in what order: a pass runs when it
    /// is not disabled by its own condition (`disabled`) and the
    /// configuration lets it run; the passes are ordered by their sort key,
    /// keeping their given order among equal keys. The result lists
    /// positions in `ids`.
    pub fn schedule(&self, ids: &Vec<OptimizationPassId>, disabled: &Vec<bool>) -> (r: Vec<usize>)
        requires
            self.wf(),
            ids@.len() == disabled@.len(),
        ensures
            forall|k: int| 0 <= k < r@.len() ==> (#[trigger] r@[k] as int) < ids@.len(),
            forall|x: usize|
                #[trigger] r@.contains(x) <==> ((x as int) < ids@.len() && !disabled@[x as int]
                    && self.runs(ids@[x as int]@)),
            forall|a: int, b: int|
                #![trigger r@[a], r@[b]]
                0 <= a < b < r@.len() ==> {
                    let ka = self.order_key(ids@[r@[a] as int]@);
                    let kb = self.order_key(ids@[r@[b] as int]@);
                    ka < kb || (ka == kb && r@[a] < r@[b])
                },
            self.is_run_order(ids@, disabled@, r@),
    {
        let n = ids.len();
        let mut keys: Vec<usize> = Vec::new();
        let mut i: usize = 0;
        while i < n
            invariant
                n == ids@.len(),
                i <= n,
                keys@.len() == i,
                forall|k: int| 0 <= k < i ==> keys@[k] as int == self.order_key(ids@[k]@),
            decreases n - i,
        {
            keys.push(self.key_of(&ids[i]));
            i = i + 1;
        }
        let mut r: Vec<usize> = Vec::new();
        let mut i: usize = 0;
        while i < n
            invariant
                self.wf(),
                n == ids@.len(),
                n == disabled@.len(),
                i <= n,
                keys@.len() == n,
                forall|k: int| 0 <= k < n ==> keys@[k] as int == self.order_key(ids@[k]@),
                forall|k: int| 0 <= k < r@.len() ==> (#[trigger] r@[k]) < i,
                forall|x: usize|
                    #[trigger] r@.contains(x) <==> (x < i && !disabled@[x as int] && self.runs(
                        ids@[x as int]@,
                    )),
                forall|a: int, b: int|
                    #![trigger r@[a], r@[b]]
                    0 <= a < b < r@.len() ==> {
                        let ka = keys@[r@[a] as int];
                        let kb = keys@[r@[b] as int];
                        ka < kb || (ka == kb && r@[a] < r@[b])
                    },
            decreases n - i,
        {
            if !disabled[i] && self.is_pass_enabled(&ids[i]) {
                let ki = keys[i];
                let mut p: usize = 0;
                while p < r.len() && keys[r[p]] <= ki
                    invariant
                        p <= r@.len(),
                        keys@.len() == n,
                        forall|k: int| 0 <= k < r@.len() ==> (#[trigger] r@[k]) < i,
                        i < n,
                        forall|k: int| 0 <= k < p ==> keys@[r@[k] as int] <= ki,
                    decreases r@.len() - p,
                {
                    p = p + 1;
                }
                let ghost old_r = r@;
                r.insert(p, i);
                proof {
                    assert(r@ == old_r.insert(p as int, i));
                    lemma_insert_keeps_order(old_r, keys@, p as int, i, ki);
                    lemma_insert_members(old_r, p as int, i);
                    assert forall|k: int| 0 <= k < r@.len() implies (#[trigger] r@[k]) < i + 1 by {
                        if r@[k] != i {
                            assert(old_r.contains(r@[k]));
                            let k2 = choose|k2: int| 0 <= k2 < old_r.len() && old_r[k2] == r@[k];
                            assert(old_r[k2] < i);
                        }
                    }
                    assert forall|x: usize|
                        #[trigger] r@.contains(x) <==> (x < i + 1 && !disabled@[x as int] && self.runs(
                            ids@[x as int]@,
                        )) by {
                        assert(r@.contains(x) <==> (old_r.contains(x) || x == i));
                        if x == i {
                            assert(!old_r.contains(x)) by {
                                if old_r.contains(x) {
                                    let k = choose|k: int| 0 <= k < old_r.len() && old_r[k] == x;
                                    assert(old_r[k] < i);
                                }
                            }
                        }
                    }
                }
            } else {
                proof {
                    assert forall|x: usize|
                        #[trigger] r@.contains(x) <==> (x < i + 1 && !disabled@[x as int] && self.runs(
                            ids@[x as int]@,
                        )) by {
                        if x == i && r@.contains(x) {
                            let k = choose|k: int| 0 <= k < r@.len() && r@[k] == x;
                            assert(r@[k] < i);
                        }
                    }
                }
            }
            i = i + 1;
        }
        r
    }
}

/// A moment of the monotonic clock.
#[verifier::external_type_specification]
#[verifier::external_body]
pub struct ExInstant(std::time::Instant);

/// Calls `std::time::Instant::now`: the current moment of the monotonic
/// clock. Nothing is claimed of it.
#[verifier::external_body]
fn clock_now() -> std::time::Instant {
    std::time::Instant::now()
}

/// Calls `std::time::Instant::elapsed`: the time since `start`. Nothing is
/// claimed of it.
#[verifier::external_body]
fn clock_elapsed(start: &std::time::Instant) -> std::time::Duration {
    start.elapsed()
}

/// Calls `std::time::Duration::as_nanos`: the whole nanoseconds of `d`.
/// Nothing is claimed of it, as a duration is opaque here.
#[verifier::external_body]
fn duration_nanos(d: &std::time::Duration) -> u128 {
    d.as_nanos()
}

/// A run of a pass that changed nothing: the program is as before, and the
/// result reports no change, no time and no statistics.
pub open spec fn reports_no_change<T>(before: T, after: T, result: OptimizationPassResult) -> bool {
    &&& after == before
    &&& !result.changed
    &&& result.duration_ns == 0
    &&& result.stats.wf()
    &&& forall|name: Seq<char>| #[trigger] result.stats.lookup(name) is None
}

/// An optimisation pass, checked against a compiler configuration `C`.
pub trait OptimizationPass<C> {
    /// The identity the pass promises to report, if it promises one.
    open spec fn identity(&self) -> Option<(Seq<char>, OptimizationPassKind)> {
        None
    }

    /// The description the pass promises to report, if it promises one.
    open spec fn description_text(&self) -> Option<Seq<char>> {
        None
    }

    /// The identity of the pass.
    fn id(&self) -> (r: OptimizationPassId)
        ensures
            self.identity() matches Some(i) ==> r@ == i,
    ;

    /// What the pass does.
    fn description(&self) -> (r: &str)
        ensures
            self.description_text() matches Some(t) ==> r@ == t,
    ;

    /// The passes this one depends on; none unless the pass says otherwise.
    fn dependencies(&self) -> (r: Vec<OptimizationPassId>)
        default_ensures
            r@.len() == 0,
    {
        Vec::new()
    }

    /// Whether the pass promises not to turn itself off under `config`;
    /// no promise unless the pass makes one.
    open spec fn stays_enabled(&self, config: C) -> bool {
        false
    }

    /// Whether the configuration turns the pass off; never unless the pass
    /// says otherwise.
    fn is_disabled(&self, config: &C) -> (r: bool)
        ensures
            self.stays_enabled(*config) ==> !r,
        default_ensures
            !r,
    {
        false
    }
}

/// A pass over the syntax tree `A`.
pub trait ASTOptimizationPass<A, C>: OptimizationPass<C> {
    /// What a run may do, given the tree before, the tree after and the
    /// result; anything, unless the pass says otherwise.
    open spec fn ast_outcome(&self, before: A, after: A, result: OptimizationPassResult) -> bool {
        true
    }

    /// Runs the pass on the tree.
    fn run_on_ast(&self, ast: &mut A) -> (r: OptimizationPassResult)
        ensures
            self.ast_outcome(*old(ast), *final(ast), r),
    ;
}

/// A pass over the IR module `I`.
pub trait IROptimizationPass<I, C>: OptimizationPass<C> {
    /// What a run may do, given the module before, the module after and the
    /// result; anything, unless the pass says otherwise.
    open spec fn ir_outcome(&self, before: I, after: I, result: OptimizationPassResult) -> bool {
        true
    }

    /// Runs the pass on the module.
    fn run_on_ir(&self, ir: &mut I) -> (r: OptimizationPassResult)
        ensures
            self.ir_outcome(*old(ir), *final(ir), r),
    ;
}

/// The pass positions of `n` rounds that each run the passes at `order`.
pub open spec fn repeated(order: Seq<usize>, n: nat) -> Seq<usize>
    decreases n,
{
    if n == 0 {
        Seq::empty()
    } else {
        repeated(order, (n - 1) as nat) + order
    }
}

/// Whether `p` is `res` as it is recorded: the same change flag and
/// statistics, its time possibly cut down.
pub open spec fn recorded_as(p: OptimizationPassResult, res: OptimizationPassResult) -> bool {
    p.changed == res.changed && p.stats == res.stats && p.duration_ns <= res.duration_ns
}

/// Whether each round of `m` pass results but the last holds a result that
/// reports a change.
pub open spec fn rounds_continue(results: Seq<OptimizationPassResult>, m: nat) -> bool
    decreases results.len(),
{
    if m == 0 || results.len() <= m {
        true
    } else {
        let prev = results.subrange(0, results.len() - m);
        rounds_continue(prev, m) && exists|q: int| prev.len() - m <= q < prev.len() && #[trigger] results[q].changed
    }
}

/// Whether the time since `start` exceeds `limit_ns` nanoseconds.
fn over_time(start: &std::time::Instant, limit_ns: u64) -> bool {
    let elapsed = clock_elapsed(start);
    duration_nanos(&elapsed) > limit_ns as u128
}

/// The time a pass result adds to a total of `total` nanoseconds: its own
/// time, cut down where the sum would pass the largest `u64`.
pub open spec fn clamped_duration(total: u64, d: u64) -> u64 {
    if d > u64::MAX - total {
        (u64::MAX - total) as u64
    } else {
        d
    }
}

/// Records a pass result under `id`, holding the total time at its largest
/// value rather than letting it overflow.
pub fn record_pass(result: &mut OptimizationPipelineResult, id: OptimizationPassId, pass_result: OptimizationPassResult)
    requires
        old(result).wf(),
    ensures
        final(result).wf(),
        final(result).changed == (old(result).changed || pass_result.changed),
        final(result).iterations == old(result).iterations,
        final(result).total_duration_ns == old(result).total_duration_ns + clamped_duration(
            old(result).total_duration_ns,
            pass_result.duration_ns,
        ),
        final(result).total_duration_ns == if old(result).total_duration_ns + pass_result.duration_ns
            > u64::MAX {
            u64::MAX as int
        } else {
            old(result).total_duration_ns + pass_result.duration_ns
        },
        final(result).pass_results.lookup(id@) == Some(
            OptimizationPassResult {
                duration_ns: clamped_duration(old(result).total_duration_ns, pass_result.duration_ns),
                ..pass_result
            },
        ),
        forall|other: (Seq<char>, OptimizationPassKind)|
            other != id@ ==> #[trigger] final(result).pass_results.lookup(other)
                == old(result).pass_results.lookup(other),
{
    let mut pr = pass_result;
    if pr.duration_ns > u64::MAX - result.total_duration_ns {
        pr.duration_ns = u64::MAX - result.total_duration_ns;
    }
    result.add_pass_result(id, pr);
}

/// Whether the pipeline goes on to another round: something changed in the
/// last one and the rounds are not used up.
pub fn continue_rounds(changed: bool, iteration: usize, max: usize) -> (b: bool)
    ensures
        b == (changed && iteration < max),
{
    changed && iteration < max
}

/// Runs optimisation passes over syntax trees `A` and IR modules `I` as a
/// pipeline configuration says, for compiler configurations `C`.
#[verifier::reject_recursive_types(A)]
#[verifier::reject_recursive_types(I)]
#[verifier::reject_recursive_types(C)]
pub struct OptimizationManager<A, I, C> {
    /// The AST passes, in the order of registration.
    pub ast_passes: Vec<Box<dyn ASTOptimizationPass<A, C>>>,
    /// The IR passes, in the order of registration.
    pub ir_passes: Vec<Box<dyn IROptimizationPass<I, C>>>,
    /// The pipeline configuration.
    pub config: OptimizationPipelineConfig,
}

impl<A, I, C> OptimizationManager<A, I, C> {
    /// A manager with no passes.
    pub fn new(config: OptimizationPipelineConfig) -> (r: Self)
        ensures
            r.ast_passes@.len() == 0,
            r.ir_passes@.len() == 0,
            r.config == config,
    {
        OptimizationManager { ast_passes: Vec::new(), ir_passes: Vec::new(), config }
    }

    /// Whether `trees` are the trees that the AST passes at positions
    /// `steps`, run one after the other, may go through, with `results`
    /// reported: each step is one run of its pass, from one tree to the
    /// next.
    pub open spec fn ast_trace(&self, steps: Seq<usize>, trees: Seq<A>, results: Seq<OptimizationPassResult>) -> bool {
        &&& trees.len() == steps.len() + 1
        &&& results.len() == steps.len()
        &&& forall|q: int| 0 <= q < steps.len() ==> (#[trigger] steps[q] as int) < self.ast_passes@.len()
        &&& forall|q: int|
            0 <= q < steps.len() ==> self.ast_passes@[#[trigger] steps[q] as int].ast_outcome(trees[q], trees[q + 1], results[q])
    }

    /// Whether `modules` are the modules that the IR passes at positions
    /// `steps`, run one after the other, may go through, with `results`
    /// reported: each step is one run of its pass, from one module to the
    /// next.
    pub open spec fn ir_trace(&self, steps: Seq<usize>, modules: Seq<I>, results: Seq<OptimizationPassResult>) -> bool {
        &&& modules.len() == steps.len() + 1
        &&& results.len() == steps.len()
        &&& forall|q: int| 0 <= q < steps.len() ==> (#[trigger] steps[q] as int) < self.ir_passes@.len()
        &&& forall|q: int|
            0 <= q < steps.len() ==> self.ir_passes@[#[trigger] steps[q] as int].ir_outcome(modules[q], modules[q + 1], results[q])
    }

    /// Registers an AST pass after the others.
    pub fn register_ast_pass(&mut self, pass: Box<dyn ASTOptimizationPass<A, C>>)
        ensures
            final(self).ast_passes@ == old(self).ast_passes@.push(pass),
            final(self).ast_passes@.len() == old(self).ast_passes@.len() + 1,
            final(self).ir_passes@ == old(self).ir_passes@,
            final(self).config == old(self).config,
    {
        let ghost before = self.ast_passes@;
        let ghost added = pass;
        self.ast_passes.push(pass);
        proof {
            vstd::seq::axiom_seq_push_len(before, added);
        }
    }

    /// Registers an IR pass after the others.
    pub fn register_ir_pass(&mut self, pass: Box<dyn IROptimizationPass<I, C>>)
        ensures
            final(self).ir_passes@ == old(self).ir_passes@.push(pass),
            final(self).ir_passes@.len() == old(self).ir_passes@.len() + 1,
            final(self).ast_passes@ == old(self).ast_passes@,
            final(self).config == old(self).config,
    {
        let ghost before = self.ir_passes@;
        let ghost added = pass;
        self.ir_passes.push(pass);
        proof {
            vstd::seq::axiom_seq_push_len(before, added);
        }
    }

    /// Registers the standard passes: constant folding and dead code
    /// elimination on the tree; common subexpression elimination,
    /// instruction combining and loop optimisation on the IR.
    pub fn register_standard_passes(&mut self)
        ensures
            final(self).ast_passes@.len() == old(self).ast_passes@.len() + 2,
            final(self).ir_passes@.len() == old(self).ir_passes@.len() + 3,
            final(self).config == old(self).config,
    {
        self.register_ast_pass(Box::new(ConstantFolding::new()));
        self.register_ast_pass(Box::new(DeadCodeElimination::new()));
        self.register_ir_pass(Box::new(CommonSubexpressionElimination::new()));
        self.register_ir_pass(Box::new(InstructionCombining::new()));
        self.register_ir_pass(Box::new(LoopOptimization::new()));
    }

    /// Runs the AST passes that the configuration lets run, in its order,
    /// again and again while one of them changes the tree, at most
    /// `max_iterations` times; a pass round stops early once the time
    /// limit is passed. The tree goes through one run of each scheduled
    /// pass after the other, round after round.
    pub fn run_ast_optimizations(&self, ast: &mut A, compiler_config: &C) -> (r: OptimizationPipelineResult)
        requires
            self.config.wf(),
        ensures
            r.wf(),
            r.iterations <= self.config.max_iterations,
            self.config.max_iterations > 0 ==> r.iterations >= 1,
            self.config.max_iterations == 0 ==> r.iterations == 0 && !r.changed,
            !r.changed ==> r.iterations == if self.config.max_iterations == 0 {
                0usize
            } else {
                1usize
            },
            self.config.max_iterations == 0 || self.ast_passes@.len() == 0 ==> {
                &&& !r.changed
                &&& r.total_duration_ns == 0
                &&& forall|k: (Seq<char>, OptimizationPassKind)| #[trigger] r.pass_results.lookup(k) is None
            },
            forall|k: (Seq<char>, OptimizationPassKind)|
                #[trigger] r.pass_results.lookup(k) matches Some(p) ==> (p.changed ==> r.changed),
            exists|
                ids: Seq<OptimizationPassId>,
                dis: Seq<bool>,
                order: Seq<usize>,
                steps: Seq<usize>,
                states: Seq<A>,
                results: Seq<OptimizationPassResult>,
            |
                #![trigger self.config.is_run_order(ids, dis, order), self.ast_trace(steps, states, results)]
                {
                    &&& ids.len() == self.ast_passes@.len()
                    &&& dis.len() == self.ast_passes@.len()
                    &&& forall|x: int|
                        0 <= x < dis.len() ==> ((#[trigger] self.ast_passes@[x]).stays_enabled(*compiler_config) ==> !dis[x])
                    &&& forall|x: int|
                        0 <= x < ids.len() ==> ((#[trigger] self.ast_passes@[x]).identity() matches Some(i) ==> ids[x]@ == i)
                    &&& self.config.is_run_order(ids, dis, order)
                    &&& self.ast_trace(steps, states, results)
                    &&& r.changed == exists|q: int| 0 <= q < results.len() && #[trigger] results[q].changed
                    &&& (forall|x: int| 0 <= x < self.ast_passes@.len() ==> (#[trigger] self.ast_passes@[x]).identity() is Some)
                        ==> forall|k: (Seq<char>, OptimizationPassKind)|
                        #[trigger] r.pass_results.lookup(k) matches Some(p) ==> exists|q: int|
                            0 <= q < results.len() && self.ast_passes@[steps[q] as int].identity() == Some(k)
                                && recorded_as(p, #[trigger] results[q]) && forall|q2: int|
                                q < q2 < results.len() ==> self.ast_passes@[#[trigger] steps[q2] as int].identity() != Some(k)
                    &&& self.config.time_limit_ns is None ==> rounds_continue(results, order.len())
                    &&& self.config.time_limit_ns is None && r.iterations < self.config.max_iterations ==> forall|q: int|
                        results.len() - order.len() <= q < results.len() ==> !(#[trigger] results[q]).changed
                    &&& states[0] == *old(ast)
                    &&& states.last() == *final(ast)
                    &&& forall|q: int| 0 <= q < steps.len() ==> order.contains(#[trigger] steps[q])
                    &&& self.config.time_limit_ns is None ==> steps == repeated(order, r.iterations as nat)
                    &&& self.config.time_limit_ns is None && self.config.max_iterations > 0 && (forall|x: int|
                        0 <= x < self.ast_passes@.len() ==> (#[trigger] self.ast_passes@[x]).identity() is Some)
                        ==> forall|k: (Seq<char>, OptimizationPassKind)|
                        #[trigger] r.pass_results.lookup(k) is Some <==> (self.config.runs(k) && exists|x: int|
                            0 <= x < dis.len() && !dis[x] && (#[trigger] self.ast_passes@[x]).identity() == Some(k))
                },
    {
        let mut ids: Vec<OptimizationPassId> = Vec::new();
        let mut disabled: Vec<bool> = Vec::new();
        let mut k: usize = 0;
        while k < self.ast_passes.len()
            invariant
                k <= self.ast_passes@.len(),
                ids@.len() == k,
                disabled@.len() == k,
                forall|q: int|
                    0 <= q < k ==> ((#[trigger] self.ast_passes@[q]).stays_enabled(*compiler_config) ==> !disabled@[q]),
                forall|q: int|
                    0 <= q < k ==> ((#[trigger] self.ast_passes@[q]).identity() matches Some(i) ==> ids@[q]@ == i),
            decreases self.ast_passes@.len() - k,
        {
            ids.push(self.ast_passes[k].id());
            disabled.push(self.ast_passes[k].is_disabled(compiler_config));
            k = k + 1;
        }
        let order = self.config.schedule(&ids, &disabled);
        proof {
            assert forall|q: int| 0 <= q < order@.len() implies self.config.runs(
                #[trigger] ids@[order@[q] as int]@,
            ) by {
                assert(order@.contains(order@[q]));
            }
        }
        let ghost promised = self.config.time_limit_ns is None && (forall|x: int|
            0 <= x < self.ast_passes@.len() ==> (#[trigger] self.ast_passes@[x]).identity() is Some);
        let ghost sched = Set::new(
            |key: (Seq<char>, OptimizationPassKind)|
                self.config.runs(key) && exists|x: int|
                    0 <= x < disabled@.len() && !disabled@[x] && (#[trigger] self.ast_passes@[x]).identity() == Some(key),
        );
        let ghost first_state = *ast;
        let ghost mut states: Seq<A> = seq![*ast];
        let ghost mut steps: Seq<usize> = Seq::empty();
        let ghost mut results: Seq<OptimizationPassResult> = Seq::empty();
        proof {
            assert(self.config.is_run_order(ids@, disabled@, order@));
            assert(repeated(order@, 0) =~= Seq::<usize>::empty());
        }
        let mut result = OptimizationPipelineResult::new();
        let start_time = clock_now();
        let mut changed = true;
        let mut iteration: usize = 0;
        while continue_rounds(changed, iteration, self.config.max_iterations)
            invariant
                result.wf(),
                self.config.wf(),
                forall|j: int| 0 <= j < order@.len() ==> (#[trigger] order@[j] as int) < ids@.len(),
                forall|x: usize|
                    #[trigger] order@.contains(x) <==> ((x as int) < ids@.len() && !disabled@[x as int]
                        && self.config.runs(ids@[x as int]@)),
                ids@.len() == self.ast_passes@.len(),
                disabled@.len() == self.ast_passes@.len(),
                ids@.len() <= usize::MAX,
                forall|q: int|
                    0 <= q < disabled@.len() ==> ((#[trigger] self.ast_passes@[q]).stays_enabled(*compiler_config) ==> !disabled@[q]),
                forall|q: int|
                    0 <= q < ids@.len() ==> ((#[trigger] self.ast_passes@[q]).identity() matches Some(i) ==> ids@[q]@ == i),
                promised == (self.config.time_limit_ns is None && (forall|x: int|
                    0 <= x < self.ast_passes@.len() ==> (#[trigger] self.ast_passes@[x]).identity() is Some)),
                sched == Set::new(
                    |key: (Seq<char>, OptimizationPassKind)|
                        self.config.runs(key) && exists|x: int|
                            0 <= x < disabled@.len() && !disabled@[x] && (#[trigger] self.ast_passes@[x]).identity() == Some(key),
                ),
                result.iterations == iteration,
                iteration <= self.config.max_iterations,
                self.ast_trace(steps, states, results),
                result.changed == exists|q: int| 0 <= q < results.len() && #[trigger] results[q].changed,
                (forall|x: int| 0 <= x < self.ast_passes@.len() ==> (#[trigger] self.ast_passes@[x]).identity() is Some) ==> forall|k: (Seq<char>, OptimizationPassKind)|
                    #[trigger] result.pass_results.lookup(k) matches Some(p) ==> exists|q: int|
                        0 <= q < results.len() && self.ast_passes@[steps[q] as int].identity() == Some(k) && recorded_as(
                            p,
                            #[trigger] results[q],
                        ) && forall|q2: int| q < q2 < results.len() ==> self.ast_passes@[#[trigger] steps[q2] as int].identity() != Some(k),
                self.config.time_limit_ns is None ==> rounds_continue(results, order@.len() as nat),
                self.config.time_limit_ns is None && iteration > 0 ==> (changed <==> exists|q: int|
                    results.len() - order@.len() <= q < results.len() && #[trigger] results[q].changed),
                states[0] == first_state,
                states.last() == *ast,
                forall|q: int| 0 <= q < steps.len() ==> order@.contains(#[trigger] steps[q]),
                self.config.time_limit_ns is None ==> steps == repeated(order@, iteration as nat),
                iteration == 0 ==> changed && !result.changed && result.total_duration_ns == 0
                    && forall|key: (Seq<char>, OptimizationPassKind)| #[trigger] result.pass_results.lookup(key) is None,
                changed ==> result.changed || iteration == 0,
                !result.changed ==> iteration <= 1,
                forall|key: (Seq<char>, OptimizationPassKind)|
                    #[trigger] result.pass_results.lookup(key) matches Some(p) ==> (p.changed ==> result.changed),
                forall|q: int| 0 <= q < order@.len() ==> self.config.runs(#[trigger] ids@[order@[q] as int]@),
                self.ast_passes@.len() == 0 ==> !changed || iteration == 0,
                self.ast_passes@.len() == 0 ==> !result.changed && result.total_duration_ns == 0
                    && forall|key: (Seq<char>, OptimizationPassKind)| #[trigger] result.pass_results.lookup(key) is None,
                promised && iteration > 0 ==> forall|key: (Seq<char>, OptimizationPassKind)|
                    #[trigger] result.pass_results.lookup(key) is Some <==> sched.contains(key),
            decreases self.config.max_iterations - iteration,
        {
            let ghost was_changed = result.changed;
            let ghost first = iteration == 0;
            let ghost entry_changed = changed;
            let ghost results0 = results;
            let ghost round_start = results.len();
            changed = false;
            let mut j: usize = 0;
            while j < order.len()
                invariant
                    result.wf(),
                    forall|q: int| 0 <= q < order@.len() ==> (#[trigger] order@[q] as int) < ids@.len(),
                    ids@.len() == self.ast_passes@.len(),
                    forall|q: int|
                        0 <= q < ids@.len() ==> ((#[trigger] self.ast_passes@[q]).identity() matches Some(i) ==> ids@[q]@ == i),
                    promised == (self.config.time_limit_ns is None && (forall|x: int|
                        0 <= x < self.ast_passes@.len() ==> (#[trigger] self.ast_passes@[x]).identity() is Some)),
                    result.iterations == iteration,
                    changed ==> result.changed,
                    was_changed ==> result.changed,
                    !was_changed && !changed ==> !result.changed,
                    ids@.len() == 0 ==> !changed,
                    j <= order@.len(),
                    self.ast_trace(steps, states, results),
                    round_start == results0.len(),
                    results.len() >= round_start,
                    results.subrange(0, round_start as int) == results0,
                    result.changed == exists|q: int| 0 <= q < results.len() && #[trigger] results[q].changed,
                    (forall|x: int| 0 <= x < self.ast_passes@.len() ==> (#[trigger] self.ast_passes@[x]).identity() is Some) ==> forall|k: (Seq<char>, OptimizationPassKind)|
                        #[trigger] result.pass_results.lookup(k) matches Some(p) ==> exists|q: int|
                            0 <= q < results.len() && self.ast_passes@[steps[q] as int].identity() == Some(k) && recorded_as(
                                p,
                                #[trigger] results[q],
                            ) && forall|q2: int| q < q2 < results.len() ==> self.ast_passes@[#[trigger] steps[q2] as int].identity() != Some(k),
                    changed <==> exists|q: int| round_start <= q < results.len() && #[trigger] results[q].changed,
                    self.config.time_limit_ns is None ==> results.len() == round_start + j,
                    states[0] == first_state,
                    states.last() == *ast,
                    forall|q: int| 0 <= q < steps.len() ==> order@.contains(#[trigger] steps[q]),
                    self.config.time_limit_ns is None ==> steps == repeated(order@, iteration as nat) + order@.subrange(
                        0,
                        j as int,
                    ),
                    forall|key: (Seq<char>, OptimizationPassKind)|
                        #[trigger] result.pass_results.lookup(key) matches Some(p) ==> (p.changed ==> result.changed),
                    forall|q: int| 0 <= q < order@.len() ==> self.config.runs(#[trigger] ids@[order@[q] as int]@),
                    ids@.len() == 0 ==> !result.changed && result.total_duration_ns == 0
                        && forall|key: (Seq<char>, OptimizationPassKind)| #[trigger] result.pass_results.lookup(key) is None,
                    promised ==> forall|key: (Seq<char>, OptimizationPassKind)|
                        #[trigger] result.pass_results.lookup(key) is Some <==> ((!first && sched.contains(key))
                            || exists|q: int| 0 <= q < j && ids@[#[trigger] order@[q] as int]@ == key),
                ensures
                    self.config.time_limit_ns is None ==> j == order@.len(),
                decreases order@.len() - j,
            {
                if let Some(limit) = self.config.time_limit_ns {
                    if over_time(&start_time, limit) {
                        break;
                    }
                }
                let pass = &self.ast_passes[order[j]];
                let ghost state_before = *ast;
                let ghost results_before = results;
                let ghost steps_before = steps;
                let ghost changed_before = changed;
                let ghost total_changed_before = result.changed;
                let pass_result = pass.run_on_ast(ast);
                proof {
                    let s0 = steps;
                    let t0 = states;
                    let x = order@[j as int];
                    assert(self.ast_passes@[x as int].ast_outcome(state_before, *ast, pass_result));
                    let r0 = results;
                    steps = steps.push(x);
                    states = states.push(*ast);
                    results = results.push(pass_result);
                    assert forall|q: int| 0 <= q < steps.len() implies self.ast_passes@[#[trigger] steps[q] as int].ast_outcome(
                        states[q],
                        states[q + 1],
                        results[q],
                    ) by {
                        if q < s0.len() {
                            assert(steps[q] == s0[q] && states[q] == t0[q] && states[q + 1] == t0[q + 1]
                                && results[q] == r0[q]);
                        } else {
                            assert(steps[q] == x && states[q] == state_before && states[q + 1] == *ast
                                && results[q] == pass_result);
                        }
                    }
                    assert(results.subrange(0, round_start as int) =~= r0.subrange(0, round_start as int));
                    assert forall|q: int| 0 <= q < steps.len() implies order@.contains(#[trigger] steps[q]) by {
                        if q < s0.len() {
                            assert(steps[q] == s0[q]);
                        } else {
                            assert(order@[j as int] == x);
                        }
                    }
                    assert forall|q: int| 0 <= q < steps.len() implies (#[trigger] steps[q] as int)
                        < self.ast_passes@.len() by {
                        if q < s0.len() {
                            assert(steps[q] == s0[q]);
                        }
                    }
                    assert(self.ast_trace(steps, states, results));
                    assert(order@.subrange(0, j + 1) =~= order@.subrange(0, j as int).push(x));
                    assert(repeated(order@, iteration as nat) + order@.subrange(0, j + 1) =~= (repeated(
                        order@,
                        iteration as nat,
                    ) + order@.subrange(0, j as int)).push(x));
                }
                if pass_result.changed {
                    changed = true;
                }
                let pid = pass.id();
                proof {
                    assert(pass.identity() matches Some(i) ==> pid@ == i);
                    if promised {
                        assert(self.ast_passes@[order@[j as int] as int].identity() is Some);
                        assert(pid@ == ids@[order@[j as int] as int]@);
                    }
                }
                let ghost before = result;
                record_pass(&mut result, pid, pass_result);
                proof {
                    if (forall|x: int| 0 <= x < self.ast_passes@.len() ==> (#[trigger] self.ast_passes@[x]).identity() is Some) {
                        let n0 = results.len() - 1;
                        assert(steps[n0] == order@[j as int] && results[n0] == pass_result);
                        assert(self.ast_passes@[order@[j as int] as int].identity() is Some);
                        assert forall|k: (Seq<char>, OptimizationPassKind)|
                            #[trigger] result.pass_results.lookup(k) is Some implies exists|q: int|
                                0 <= q < results.len() && self.ast_passes@[steps[q] as int].identity() == Some(k)
                                    && recorded_as(result.pass_results.lookup(k)->0, #[trigger] results[q]) && forall|q2: int|
                                    q < q2 < results.len() ==> self.ast_passes@[#[trigger] steps[q2] as int].identity()
                                        != Some(k) by {
                            if k == pid@ {
                                assert(recorded_as(result.pass_results.lookup(k)->0, results[n0]));
                            } else {
                                let p = before.pass_results.lookup(k)->0;
                                let q = choose|q: int|
                                    0 <= q < results_before.len() && self.ast_passes@[steps_before[q] as int].identity() == Some(k)
                                        && recorded_as(p, #[trigger] results_before[q]) && forall|q2: int|
                                        q < q2 < results_before.len() ==> self.ast_passes@[#[trigger] steps_before[q2] as int].identity()
                                            != Some(k);
                                assert(results[q] == results_before[q] && steps[q] == steps_before[q]);
                                assert forall|q2: int| q < q2 < results.len() implies self.ast_passes@[#[trigger] steps[q2] as int].identity()
                                    != Some(k) by {
                                    if q2 < n0 {
                                        assert(steps[q2] == steps_before[q2]);
                                    }
                                }
                            }
                        }
                    }
                    if promised {
                        assert forall|key: (Seq<char>, OptimizationPassKind)|
                            #[trigger] result.pass_results.lookup(key) is Some <==> ((!first && sched.contains(key))
                                || exists|q: int| 0 <= q < j + 1 && ids@[#[trigger] order@[q] as int]@ == key) by {
                            if key != pid@ {
                                assert(result.pass_results.lookup(key) == before.pass_results.lookup(key));
                                if exists|q: int| 0 <= q < j + 1 && ids@[#[trigger] order@[q] as int]@ == key {
                                    let q = choose|q: int| 0 <= q < j + 1 && ids@[#[trigger] order@[q] as int]@ == key;
                                    assert(q != j);
                                }
                            } else {
                                assert(ids@[order@[j as int] as int]@ == key);
                            }
                        }
                    }
                }
                proof {
                    assert(results =~= results_before.push(pass_result));
                    let n0 = results_before.len() as int;
                    assert(results[n0] == pass_result);
                    assert forall|q: int| 0 <= q < n0 implies #[trigger] results[q] == results_before[q] by {}
                    if total_changed_before {
                        let q = choose|q: int| 0 <= q < n0 && #[trigger] results_before[q].changed;
                        assert(results[q] == results_before[q]);
                    }
                    if changed_before {
                        let q = choose|q: int| round_start <= q < n0 && #[trigger] results_before[q].changed;
                        assert(results[q] == results_before[q]);
                    }
                    if exists|q: int| 0 <= q < results.len() && #[trigger] results[q].changed {
                        let q = choose|q: int| 0 <= q < results.len() && #[trigger] results[q].changed;
                        if q < n0 {
                            assert(results_before[q].changed);
                        }
                    }
                    if exists|q: int| round_start <= q < results.len() && #[trigger] results[q].changed {
                        let q = choose|q: int| round_start <= q < results.len() && #[trigger] results[q].changed;
                        if q < n0 {
                            assert(results_before[q].changed);
                        }
                    }
                }
                j = j + 1;
            }
            proof {
                if promised {
                    assert forall|key: (Seq<char>, OptimizationPassKind)|
                        #[trigger] result.pass_results.lookup(key) is Some <==> sched.contains(key) by {
                        if exists|q: int| 0 <= q < order@.len() && ids@[#[trigger] order@[q] as int]@ == key {
                            let q = choose|q: int| 0 <= q < order@.len() && ids@[#[trigger] order@[q] as int]@ == key;
                            let x = order@[q];
                            assert(order@.contains(x));
                            assert(self.ast_passes@[x as int].identity() is Some);
                            assert(self.ast_passes@[x as int].identity() == Some(key));
                        }
                        if sched.contains(key) && first {
                            assert(self.config.runs(key) && exists|x: int|
                                0 <= x < disabled@.len() && !disabled@[x] && (#[trigger] self.ast_passes@[x]).identity() == Some(key));
                            let x = choose|x: int|
                                0 <= x < disabled@.len() && !disabled@[x] && (#[trigger] self.ast_passes@[x]).identity() == Some(key);
                            assert(ids@[x]@ == key);
                            assert(order@.contains(x as usize));
                            let q = choose|q: int| 0 <= q < order@.len() && order@[q] == x as usize;
                            assert(ids@[order@[q] as int]@ == key);
                        }
                    }
                }
            }
            proof {
                if self.config.time_limit_ns is None {
                    let m = order@.len();
                    if results.len() > m && m > 0 {
                        assert(results.subrange(0, results.len() - m) =~= results0);
                        assert(iteration > 0) by {
                            if iteration == 0 {
                                assert(steps == repeated(order@, 0) + order@.subrange(0, m as int));
                            }
                        }
                        let q = choose|q: int|
                            results0.len() - m <= q < results0.len() && #[trigger] results0[q].changed;
                        assert(results[q] == results0[q]);
                    }
                }
                assert(order@.subrange(0, order@.len() as int) =~= order@);
                assert(repeated(order@, (iteration + 1) as nat) == repeated(order@, iteration as nat) + order@);
            }
            result.increment_iteration();
            iteration = iteration + 1;
        }
        proof {
            if promised && self.config.max_iterations > 0 {
                assert(disabled@.len() == self.ast_passes@.len());
                assert forall|key: (Seq<char>, OptimizationPassKind)|
                    #[trigger] result.pass_results.lookup(key) is Some <==> (self.config.runs(key) && exists|x: int|
                        0 <= x < disabled@.len() && !disabled@[x] && (#[trigger] self.ast_passes@[x]).identity() == Some(key)) by {
                    assert(sched.contains(key) == (self.config.runs(key) && exists|x: int|
                        0 <= x < disabled@.len() && !disabled@[x] && (#[trigger] self.ast_passes@[x]).identity() == Some(key)));
                }
            }
        }
        proof {
            assert(self.config.is_run_order(ids@, disabled@, order@) && self.ast_trace(steps, states, results));
            assert(disabled@.len() == self.ast_passes@.len());
        }
        result
    }

    /// Runs the IR passes that the configuration lets run, in its order,
    /// again and again while one of them changes the module, at most
    /// `max_iterations` times; a pass round stops early once the time
    /// limit is passed. The module goes through one run of each scheduled
    /// pass after the other, round after round.
    pub fn run_ir_optimizations(&self, ir: &mut I, compiler_config: &C) -> (r: OptimizationPipelineResult)
        requires
            self.config.wf(),
        ensures
            r.wf(),
            r.iterations <= self.config.max_iterations,
            self.config.max_iterations > 0 ==> r.iterations >= 1,
            self.config.max_iterations == 0 ==> r.iterations == 0 && !r.changed,
            !r.changed ==> r.iterations == if self.config.max_iterations == 0 {
                0usize
            } else {
                1usize
            },
            self.config.max_iterations == 0 || self.ir_passes@.len() == 0 ==> {
                &&& !r.changed
                &&& r.total_duration_ns == 0
                &&& forall|k: (Seq<char>, OptimizationPassKind)| #[trigger] r.pass_results.lookup(k) is None
            },
            forall|k: (Seq<char>, OptimizationPassKind)|
                #[trigger] r.pass_results.lookup(k) matches Some(p) ==> (p.changed ==> r.changed),
            exists|
                ids: Seq<OptimizationPassId>,
                dis: Seq<bool>,
                order: Seq<usize>,
                steps: Seq<usize>,
                states: Seq<I>,
                results: Seq<OptimizationPassResult>,
            |
                #![trigger self.config.is_run_order(ids, dis, order), self.ir_trace(steps, states, results)]
                {
                    &&& ids.len() == self.ir_passes@.len()
                    &&& dis.len() == self.ir_passes@.len()
                    &&& forall|x: int|
                        0 <= x < dis.len() ==> ((#[trigger] self.ir_passes@[x]).stays_enabled(*compiler_config) ==> !dis[x])
                    &&& forall|x: int|
                        0 <= x < ids.len() ==> ((#[trigger] self.ir_passes@[x]).identity() matches Some(i) ==> ids[x]@ == i)
                    &&& self.config.is_run_order(ids, dis, order)
                    &&& self.ir_trace(steps, states, results)
                    &&& r.changed == exists|q: int| 0 <= q < results.len() && #[trigger] results[q].changed
                    &&& (forall|x: int| 0 <= x < self.ir_passes@.len() ==> (#[trigger] self.ir_passes@[x]).identity() is Some)
                        ==> forall|k: (Seq<char>, OptimizationPassKind)|
                        #[trigger] r.pass_results.lookup(k) matches Some(p) ==> exists|q: int|
                            0 <= q < results.len() && self.ir_passes@[steps[q] as int].identity() == Some(k)
                                && recorded_as(p, #[trigger] results[q]) && forall|q2: int|
                                q < q2 < results.len() ==> self.ir_passes@[#[trigger] steps[q2] as int].identity() != Some(k)
                    &&& self.config.time_limit_ns is None ==> rounds_continue(results, order.len())
                    &&& self.config.time_limit_ns is None && r.iterations < self.config.max_iterations ==> forall|q: int|
                        results.len() - order.len() <= q < results.len() ==> !(#[trigger] results[q]).changed
                    &&& states[0] == *old(ir)
                    &&& states.last() == *final(ir)
                    &&& forall|q: int| 0 <= q < steps.len() ==> order.contains(#[trigger] steps[q])
                    &&& self.config.time_limit_ns is None ==> steps == repeated(order, r.iterations as nat)
                    &&& self.config.time_limit_ns is None && self.config.max_iterations > 0 && (forall|x: int|
                        0 <= x < self.ir_passes@.len() ==> (#[trigger] self.ir_passes@[x]).identity() is Some)
                        ==> forall|k: (Seq<char>, OptimizationPassKind)|
                        #[trigger] r.pass_results.lookup(k) is Some <==> (self.config.runs(k) && exists|x: int|
                            0 <= x < dis.len() && !dis[x] && (#[trigger] self.ir_passes@[x]).identity() == Some(k))
                },
    {
        let mut ids: Vec<OptimizationPassId> = Vec::new();
        let mut disabled: Vec<bool> = Vec::new();
        let mut k: usize = 0;
        while k < self.ir_passes.len()
            invariant
                k <= self.ir_passes@.len(),
                ids@.len() == k,
                disabled@.len() == k,
                forall|q: int|
                    0 <= q < k ==> ((#[trigger] self.ir_passes@[q]).stays_enabled(*compiler_config) ==> !disabled@[q]),
                forall|q: int|
                    0 <= q < k ==> ((#[trigger] self.ir_passes@[q]).identity() matches Some(i) ==> ids@[q]@ == i),
            decreases self.ir_passes@.len() - k,
        {
            ids.push(self.ir_passes[k].id());
            disabled.push(self.ir_passes[k].is_disabled(compiler_config));
            k = k + 1;
        }
        let order = self.config.schedule(&ids, &disabled);
        proof {
            assert forall|q: int| 0 <= q < order@.len() implies self.config.runs(
                #[trigger] ids@[order@[q] as int]@,
            ) by {
                assert(order@.contains(order@[q]));
            }
        }
        let ghost promised = self.config.time_limit_ns is None && (forall|x: int|
            0 <= x < self.ir_passes@.len() ==> (#[trigger] self.ir_passes@[x]).identity() is Some);
        let ghost sched = Set::new(
            |key: (Seq<char>, OptimizationPassKind)|
                self.config.runs(key) && exists|x: int|
                    0 <= x < disabled@.len() && !disabled@[x] && (#[trigger] self.ir_passes@[x]).identity() == Some(key),
        );
        let ghost first_state = *ir;
        let ghost mut states: Seq<I> = seq![*ir];
        let ghost mut steps: Seq<usize> = Seq::empty();
        let ghost mut results: Seq<OptimizationPassResult> = Seq::empty();
        proof {
            assert(self.config.is_run_order(ids@, disabled@, order@));
            assert(repeated(order@, 0) =~= Seq::<usize>::empty());
        }
        let mut result = OptimizationPipelineResult::new();
        let start_time = clock_now();
        let mut changed = true;
        let mut iteration: usize = 0;
        while continue_rounds(changed, iteration, self.config.max_iterations)
            invariant
                result.wf(),
                self.config.wf(),
                forall|j: int| 0 <= j < order@.len() ==> (#[trigger] order@[j] as int) < ids@.len(),
                forall|x: usize|
                    #[trigger] order@.contains(x) <==> ((x as int) < ids@.len() && !disabled@[x as int]
                        && self.config.runs(ids@[x as int]@)),
                ids@.len() == self.ir_passes@.len(),
                disabled@.len() == self.ir_passes@.len(),
                ids@.len() <= usize::MAX,
                forall|q: int|
                    0 <= q < disabled@.len() ==> ((#[trigger] self.ir_passes@[q]).stays_enabled(*compiler_config) ==> !disabled@[q]),
                forall|q: int|
                    0 <= q < ids@.len() ==> ((#[trigger] self.ir_passes@[q]).identity() matches Some(i) ==> ids@[q]@ == i),
                promised == (self.config.time_limit_ns is None && (forall|x: int|
                    0 <= x < self.ir_passes@.len() ==> (#[trigger] self.ir_passes@[x]).identity() is Some)),
                sched == Set::new(
                    |key: (Seq<char>, OptimizationPassKind)|
                        self.config.runs(key) && exists|x: int|
                            0 <= x < disabled@.len() && !disabled@[x] && (#[trigger] self.ir_passes@[x]).identity() == Some(key),
                ),
                result.iterations == iteration,
                iteration <= self.config.max_iterations,
                self.ir_trace(steps, states, results),
                result.changed == exists|q: int| 0 <= q < results.len() && #[trigger] results[q].changed,
                (forall|x: int| 0 <= x < self.ir_passes@.len() ==> (#[trigger] self.ir_passes@[x]).identity() is Some) ==> forall|k: (Seq<char>, OptimizationPassKind)|
                    #[trigger] result.pass_results.lookup(k) matches Some(p) ==> exists|q: int|
                        0 <= q < results.len() && self.ir_passes@[steps[q] as int].identity() == Some(k) && recorded_as(
                            p,
                            #[trigger] results[q],
                        ) && forall|q2: int| q < q2 < results.len() ==> self.ir_passes@[#[trigger] steps[q2] as int].identity() != Some(k),
                self.config.time_limit_ns is None ==> rounds_continue(results, order@.len() as nat),
                self.config.time_limit_ns is None && iteration > 0 ==> (changed <==> exists|q: int|
                    results.len() - order@.len() <= q < results.len() && #[trigger] results[q].changed),
                states[0] == first_state,
                states.last() == *ir,
                forall|q: int| 0 <= q < steps.len() ==> order@.contains(#[trigger] steps[q]),
                self.config.time_limit_ns is None ==> steps == repeated(order@, iteration as nat),
                iteration == 0 ==> changed && !result.changed && result.total_duration_ns == 0
                    && forall|key: (Seq<char>, OptimizationPassKind)| #[trigger] result.pass_results.lookup(key) is None,
                changed ==> result.changed || iteration == 0,
                !result.changed ==> iteration <= 1,
                forall|key: (Seq<char>, OptimizationPassKind)|
                    #[trigger] result.pass_results.lookup(key) matches Some(p) ==> (p.changed ==> result.changed),
                forall|q: int| 0 <= q < order@.len() ==> self.config.runs(#[trigger] ids@[order@[q] as int]@),
                self.ir_passes@.len() == 0 ==> !changed || iteration == 0,
                self.ir_passes@.len() == 0 ==> !result.changed && result.total_duration_ns == 0
                    && forall|key: (Seq<char>, OptimizationPassKind)| #[trigger] result.pass_results.lookup(key) is None,
                promised && iteration > 0 ==> forall|key: (Seq<char>, OptimizationPassKind)|
                    #[trigger] result.pass_results.lookup(key) is Some <==> sched.contains(key),
            decreases self.config.max_iterations - iteration,
        {
            let ghost was_changed = result.changed;
            let ghost first = iteration == 0;
            let ghost entry_changed = changed;
            let ghost results0 = results;
            let ghost round_start = results.len();
            changed = false;
            let mut j: usize = 0;
            while j < order.len()
                invariant
                    result.wf(),
                    forall|q: int| 0 <= q < order@.len() ==> (#[trigger] order@[q] as int) < ids@.len(),
                    ids@.len() == self.ir_passes@.len(),
                    forall|q: int|
                        0 <= q < ids@.len() ==> ((#[trigger] self.ir_passes@[q]).identity() matches Some(i) ==> ids@[q]@ == i),
                    promised == (self.config.time_limit_ns is None && (forall|x: int|
                        0 <= x < self.ir_passes@.len() ==> (#[trigger] self.ir_passes@[x]).identity() is Some)),
                    result.iterations == iteration,
                    changed ==> result.changed,
                    was_changed ==> result.changed,
                    !was_changed && !changed ==> !result.changed,
                    ids@.len() == 0 ==> !changed,
                    j <= order@.len(),
                    self.ir_trace(steps, states, results),
                    round_start == results0.len(),
                    results.len() >= round_start,
                    results.subrange(0, round_start as int) == results0,
                    result.changed == exists|q: int| 0 <= q < results.len() && #[trigger] results[q].changed,
                    (forall|x: int| 0 <= x < self.ir_passes@.len() ==> (#[trigger] self.ir_passes@[x]).identity() is Some) ==> forall|k: (Seq<char>, OptimizationPassKind)|
                        #[trigger] result.pass_results.lookup(k) matches Some(p) ==> exists|q: int|
                            0 <= q < results.len() && self.ir_passes@[steps[q] as int].identity() == Some(k) && recorded_as(
                                p,
                                #[trigger] results[q],
                            ) && forall|q2: int| q < q2 < results.len() ==> self.ir_passes@[#[trigger] steps[q2] as int].identity() != Some(k),
                    changed <==> exists|q: int| round_start <= q < results.len() && #[trigger] results[q].changed,
                    self.config.time_limit_ns is None ==> results.len() == round_start + j,
                    states[0] == first_state,
                    states.last() == *ir,
                    forall|q: int| 0 <= q < steps.len() ==> order@.contains(#[trigger] steps[q]),
                    self.config.time_limit_ns is None ==> steps == repeated(order@, iteration as nat) + order@.subrange(
                        0,
                        j as int,
                    ),
                    forall|key: (Seq<char>, OptimizationPassKind)|
                        #[trigger] result.pass_results.lookup(key) matches Some(p) ==> (p.changed ==> result.changed),
                    forall|q: int| 0 <= q < order@.len() ==> self.config.runs(#[trigger] ids@[order@[q] as int]@),
                    ids@.len() == 0 ==> !result.changed && result.total_duration_ns == 0
                        && forall|key: (Seq<char>, OptimizationPassKind)| #[trigger] result.pass_results.lookup(key) is None,
                    promised ==> forall|key: (Seq<char>, OptimizationPassKind)|
                        #[trigger] result.pass_results.lookup(key) is Some <==> ((!first && sched.contains(key))
                            || exists|q: int| 0 <= q < j && ids@[#[trigger] order@[q] as int]@ == key),
                ensures
                    self.config.time_limit_ns is None ==> j == order@.len(),
                decreases order@.len() - j,
            {
                if let Some(limit) = self.config.time_limit_ns {
                    if over_time(&start_time, limit) {
                        break;
                    }
                }
                let pass = &self.ir_passes[order[j]];
                let ghost state_before = *ir;
                let ghost results_before = results;
                let ghost steps_before = steps;
                let ghost changed_before = changed;
                let ghost total_changed_before = result.changed;
                let pass_result = pass.run_on_ir(ir);
                proof {
                    let s0 = steps;
                    let t0 = states;
                    let x = order@[j as int];
                    assert(self.ir_passes@[x as int].ir_outcome(state_before, *ir, pass_result));
                    let r0 = results;
                    steps = steps.push(x);
                    states = states.push(*ir);
                    results = results.push(pass_result);
                    assert forall|q: int| 0 <= q < steps.len() implies self.ir_passes@[#[trigger] steps[q] as int].ir_outcome(
                        states[q],
                        states[q + 1],
                        results[q],
                    ) by {
                        if q < s0.len() {
                            assert(steps[q] == s0[q] && states[q] == t0[q] && states[q + 1] == t0[q + 1]
                                && results[q] == r0[q]);
                        } else {
                            assert(steps[q] == x && states[q] == state_before && states[q + 1] == *ir
                                && results[q] == pass_result);
                        }
                    }
                    assert(results.subrange(0, round_start as int) =~= r0.subrange(0, round_start as int));
                    assert forall|q: int| 0 <= q < steps.len() implies order@.contains(#[trigger] steps[q]) by {
                        if q < s0.len() {
                            assert(steps[q] == s0[q]);
                        } else {
                            assert(order@[j as int] == x);
                        }
                    }
                    assert forall|q: int| 0 <= q < steps.len() implies (#[trigger] steps[q] as int)
                        < self.ir_passes@.len() by {
                        if q < s0.len() {
                            assert(steps[q] == s0[q]);
                        }
                    }
                    assert(self.ir_trace(steps, states, results));
                    assert(order@.subrange(0, j + 1) =~= order@.subrange(0, j as int).push(x));
                    assert(repeated(order@, iteration as nat) + order@.subrange(0, j + 1) =~= (repeated(
                        order@,
                        iteration as nat,
                    ) + order@.subrange(0, j as int)).push(x));
                }
                if pass_result.changed {
                    changed = true;
                }
                let pid = pass.id();
                proof {
                    assert(pass.identity() matches Some(i) ==> pid@ == i);
                    if promised {
                        assert(self.ir_passes@[order@[j as int] as int].identity() is Some);
                        assert(pid@ == ids@[order@[j as int] as int]@);
                    }
                }
                let ghost before = result;
                record_pass(&mut result, pid, pass_result);
                proof {
                    if (forall|x: int| 0 <= x < self.ir_passes@.len() ==> (#[trigger] self.ir_passes@[x]).identity() is Some) {
                        let n0 = results.len() - 1;
                        assert(steps[n0] == order@[j as int] && results[n0] == pass_result);
                        assert(self.ir_passes@[order@[j as int] as int].identity() is Some);
                        assert forall|k: (Seq<char>, OptimizationPassKind)|
                            #[trigger] result.pass_results.lookup(k) is Some implies exists|q: int|
                                0 <= q < results.len() && self.ir_passes@[steps[q] as int].identity() == Some(k)
                                    && recorded_as(result.pass_results.lookup(k)->0, #[trigger] results[q]) && forall|q2: int|
                                    q < q2 < results.len() ==> self.ir_passes@[#[trigger] steps[q2] as int].identity()
                                        != Some(k) by {
                            if k == pid@ {
                                assert(recorded_as(result.pass_results.lookup(k)->0, results[n0]));
                            } else {
                                let p = before.pass_results.lookup(k)->0;
                                let q = choose|q: int|
                                    0 <= q < results_before.len() && self.ir_passes@[steps_before[q] as int].identity() == Some(k)
                                        && recorded_as(p, #[trigger] results_before[q]) && forall|q2: int|
                                        q < q2 < results_before.len() ==> self.ir_passes@[#[trigger] steps_before[q2] as int].identity()
                                            != Some(k);
                                assert(results[q] == results_before[q] && steps[q] == steps_before[q]);
                                assert forall|q2: int| q < q2 < results.len() implies self.ir_passes@[#[trigger] steps[q2] as int].identity()
                                    != Some(k) by {
                                    if q2 < n0 {
                                        assert(steps[q2] == steps_before[q2]);
                                    }
                                }
                            }
                        }
                    }
                    if promised {
                        assert forall|key: (Seq<char>, OptimizationPassKind)|
                            #[trigger] result.pass_results.lookup(key) is Some <==> ((!first && sched.contains(key))
                                || exists|q: int| 0 <= q < j + 1 && ids@[#[trigger] order@[q] as int]@ == key) by {
                            if key != pid@ {
                                assert(result.pass_results.lookup(key) == before.pass_results.lookup(key));
                                if exists|q: int| 0 <= q < j + 1 && ids@[#[trigger] order@[q] as int]@ == key {
                                    let q = choose|q: int| 0 <= q < j + 1 && ids@[#[trigger] order@[q] as int]@ == key;
                                    assert(q != j);
                                }
                            } else {
                                assert(ids@[order@[j as int] as int]@ == key);
                            }
                        }
                    }
                }
                proof {
                    assert(results =~= results_before.push(pass_result));
                    let n0 = results_before.len() as int;
                    assert(results[n0] == pass_result);
                    assert forall|q: int| 0 <= q < n0 implies #[trigger] results[q] == results_before[q] by {}
                    if total_changed_before {
                        let q = choose|q: int| 0 <= q < n0 && #[trigger] results_before[q].changed;
                        assert(results[q] == results_before[q]);
                    }
                    if changed_before {
                        let q = choose|q: int| round_start <= q < n0 && #[trigger] results_before[q].changed;
                        assert(results[q] == results_before[q]);
                    }
                    if exists|q: int| 0 <= q < results.len() && #[trigger] results[q].changed {
                        let q = choose|q: int| 0 <= q < results.len() && #[trigger] results[q].changed;
                        if q < n0 {
                            assert(results_before[q].changed);
                        }
                    }
                    if exists|q: int| round_start <= q < results.len() && #[trigger] results[q].changed {
                        let q = choose|q: int| round_start <= q < results.len() && #[trigger] results[q].changed;
                        if q < n0 {
                            assert(results_before[q].changed);
                        }
                    }
                }
                j = j + 1;
            }
            proof {
                if promised {
                    assert forall|key: (Seq<char>, OptimizationPassKind)|
                        #[trigger] result.pass_results.lookup(key) is Some <==> sched.contains(key) by {
                        if exists|q: int| 0 <= q < order@.len() && ids@[#[trigger] order@[q] as int]@ == key {
                            let q = choose|q: int| 0 <= q < order@.len() && ids@[#[trigger] order@[q] as int]@ == key;
                            let x = order@[q];
                            assert(order@.contains(x));
                            assert(self.ir_passes@[x as int].identity() is Some);
                            assert(self.ir_passes@[x as int].identity() == Some(key));
                        }
                        if sched.contains(key) && first {
                            assert(self.config.runs(key) && exists|x: int|
                                0 <= x < disabled@.len() && !disabled@[x] && (#[trigger] self.ir_passes@[x]).identity() == Some(key));
                            let x = choose|x: int|
                                0 <= x < disabled@.len() && !disabled@[x] && (#[trigger] self.ir_passes@[x]).identity() == Some(key);
                            assert(ids@[x]@ == key);
                            assert(order@.contains(x as usize));
                            let q = choose|q: int| 0 <= q < order@.len() && order@[q] == x as usize;
                            assert(ids@[order@[q] as int]@ == key);
                        }
                    }
                }
            }
            proof {
                if self.config.time_limit_ns is None {
                    let m = order@.len();
                    if results.len() > m && m > 0 {
                        assert(results.subrange(0, results.len() - m) =~= results0);
                        assert(iteration > 0) by {
                            if iteration == 0 {
                                assert(steps == repeated(order@, 0) + order@.subrange(0, m as int));
                            }
                        }
                        let q = choose|q: int|
                            results0.len() - m <= q < results0.len() && #[trigger] results0[q].changed;
                        assert(results[q] == results0[q]);
                    }
                }
                assert(order@.subrange(0, order@.len() as int) =~= order@);
                assert(repeated(order@, (iteration + 1) as nat) == repeated(order@, iteration as nat) + order@);
            }
            result.increment_iteration();
            iteration = iteration + 1;
        }
        proof {
            if promised && self.config.max_iterations > 0 {
                assert(disabled@.len() == self.ir_passes@.len());
                assert forall|key: (Seq<char>, OptimizationPassKind)|
                    #[trigger] result.pass_results.lookup(key) is Some <==> (self.config.runs(key) && exists|x: int|
                        0 <= x < disabled@.len() && !disabled@[x] && (#[trigger] self.ir_passes@[x]).identity() == Some(key)) by {
                    assert(sched.contains(key) == (self.config.runs(key) && exists|x: int|
                        0 <= x < disabled@.len() && !disabled@[x] && (#[trigger] self.ir_passes@[x]).identity() == Some(key)));
                }
            }
        }
        proof {
            assert(self.config.is_run_order(ids@, disabled@, order@) && self.ir_trace(steps, states, results));
            assert(disabled@.len() == self.ir_passes@.len());
        }
        result
    }
}

/// Evaluates constant expressions at compile time.
pub struct ConstantFolding;

impl ConstantFolding {
    /// The pass.
    pub fn new() -> Self {
        ConstantFolding
    }

    /// The identity of the pass.
    pub fn pass_id() -> (r: OptimizationPassId)
        ensures
            r@ == ("ConstantFolding"@, OptimizationPassKind::AST),
    {
        OptimizationPassId::new("ConstantFolding", OptimizationPassKind::AST)
    }
}

impl<C> OptimizationPass<C> for ConstantFolding {
    open spec fn stays_enabled(&self, config: C) -> bool {
        true
    }

    open spec fn identity(&self) -> Option<(Seq<char>, OptimizationPassKind)> {
        Some(("ConstantFolding"@, OptimizationPassKind::AST))
    }

    open spec fn description_text(&self) -> Option<Seq<char>> {
        Some("コンパイル時に計算可能な定数式を評価します"@)
    }

    fn id(&self) -> OptimizationPassId {
        ConstantFolding::pass_id()
    }

    fn description(&self) -> &str {
        "コンパイル時に計算可能な定数式を評価します"
    }
}

impl<A, C> ASTOptimizationPass<A, C> for ConstantFolding {
    open spec fn ast_outcome(&self, before: A, after: A, result: OptimizationPassResult) -> bool {
        reports_no_change(before, after, result)
    }

    fn run_on_ast(&self, ast: &mut A) -> OptimizationPassResult {
        OptimizationPassResult::new(false, 0)
    }
}

/// Removes unreachable code and unused variables.
pub struct DeadCodeElimination;

impl DeadCodeElimination {
    /// The pass.
    pub fn new() -> Self {
        DeadCodeElimination
    }

    /// The identity of the pass.
    pub fn pass_id() -> (r: OptimizationPassId)
        ensures
            r@ == ("DeadCodeElimination"@, OptimizationPassKind::AST),
    {
        OptimizationPassId::new("DeadCodeElimination", OptimizationPassKind::AST)
    }
}

impl<C> OptimizationPass<C> for DeadCodeElimination {
    open spec fn stays_enabled(&self, config: C) -> bool {
        true
    }

    open spec fn identity(&self) -> Option<(Seq<char>, OptimizationPassKind)> {
        Some(("DeadCodeElimination"@, OptimizationPassKind::AST))
    }

    open spec fn description_text(&self) -> Option<Seq<char>> {
        Some("到達不能コードや使用されない変数を削除します"@)
    }

    fn id(&self) -> OptimizationPassId {
        DeadCodeElimination::pass_id()
    }

    fn description(&self) -> &str {
        "到達不能コードや使用されない変数を削除します"
    }
}

impl<A, C> ASTOptimizationPass<A, C> for DeadCodeElimination {
    open spec fn ast_outcome(&self, before: A, after: A, result: OptimizationPassResult) -> bool {
        reports_no_change(before, after, result)
    }

    fn run_on_ast(&self, ast: &mut A) -> OptimizationPassResult {
        OptimizationPassResult::new(false, 0)
    }
}

/// Finds repeated computations and removes them.
pub struct CommonSubexpressionElimination;

impl CommonSubexpressionElimination {
    /// The pass.
    pub fn new() -> Self {
        CommonSubexpressionElimination
    }

    /// The identity of the pass.
    pub fn pass_id() -> (r: OptimizationPassId)
        ensures
            r@ == ("CommonSubexpressionElimination"@, OptimizationPassKind::IR),
    {
        OptimizationPassId::new("CommonSubexpressionElimination", OptimizationPassKind::IR)
    }
}

impl<C> OptimizationPass<C> for CommonSubexpressionElimination {
    open spec fn stays_enabled(&self, config: C) -> bool {
        true
    }

    open spec fn identity(&self) -> Option<(Seq<char>, OptimizationPassKind)> {
        Some(("CommonSubexpressionElimination"@, OptimizationPassKind::IR))
    }

    open spec fn description_text(&self) -> Option<Seq<char>> {
        Some("重複する計算を検出して除去します"@)
    }

    fn id(&self) -> OptimizationPassId {
        CommonSubexpressionElimination::pass_id()
    }

    fn description(&self) -> &str {
        "重複する計算を検出して除去します"
    }
}

impl<I, C> IROptimizationPass<I, C> for CommonSubexpressionElimination {
    open spec fn ir_outcome(&self, before: I, after: I, result: OptimizationPassResult) -> bool {
        reports_no_change(before, after, result)
    }

    fn run_on_ir(&self, ir: &mut I) -> OptimizationPassResult {
        OptimizationPassResult::new(false, 0)
    }
}

/// Combines simple instructions into more efficient ones.
pub struct InstructionCombining;

impl InstructionCombining {
    /// The pass.
    pub fn new() -> Self {
        InstructionCombining
    }

    /// The identity of the pass.
    pub fn pass_id() -> (r: OptimizationPassId)
        ensures
            r@ == ("InstructionCombining"@, OptimizationPassKind::IR),
    {
        OptimizationPassId::new("InstructionCombining", OptimizationPassKind::IR)
    }
}

impl<C> OptimizationPass<C> for InstructionCombining {
    open spec fn stays_enabled(&self, config: C) -> bool {
        true
    }

    open spec fn identity(&self) -> Option<(Seq<char>, OptimizationPassKind)> {
        Some(("InstructionCombining"@, OptimizationPassKind::IR))
    }

    open spec fn description_text(&self) -> Option<Seq<char>> {
        Some("単純な命令を組み合わせてより効率的な命令に変換します"@)
    }

    fn id(&self) -> OptimizationPassId {
        InstructionCombining::pass_id()
    }

    fn description(&self) -> &str {
        "単純な命令を組み合わせてより効率的な命令に変換します"
    }
}

impl<I, C> IROptimizationPass<I, C> for InstructionCombining {
    open spec fn ir_outcome(&self, before: I, after: I, result: OptimizationPassResult) -> bool {
        reports_no_change(before, after, result)
    }

    fn run_on_ir(&self, ir: &mut I) -> OptimizationPassResult {
        OptimizationPassResult::new(false, 0)
    }
}

/// Optimises loops: unrolling, hoisting invariants, vectorising.
pub struct LoopOptimization;

impl LoopOptimization {
    /// The pass.
    pub fn new() -> Self {
        LoopOptimization
    }

    /// The identity of the pass.
    pub fn pass_id() -> (r: OptimizationPassId)
        ensures
            r@ == ("LoopOptimization"@, OptimizationPassKind::IR),
    {
        OptimizationPassId::new("LoopOptimization", OptimizationPassKind::IR)
    }
}

impl<C> OptimizationPass<C> for LoopOptimization {
    open spec fn stays_enabled(&self, config: C) -> bool {
        true
    }

    open spec fn identity(&self) -> Option<(Seq<char>, OptimizationPassKind)> {
        Some(("LoopOptimization"@, OptimizationPassKind::IR))
    }

    open spec fn description_text(&self) -> Option<Seq<char>> {
        Some("ループの最適化（展開、不変式移動、ベクトル化）を行います"@)
    }

    fn id(&self) -> OptimizationPassId {
        LoopOptimization::pass_id()
    }

    fn description(&self) -> &str {
        "ループの最適化（展開、不変式移動、ベクトル化）を行います"
    }
}

impl<I, C> IROptimizationPass<I, C> for LoopOptimization {
    open spec fn ir_outcome(&self, before: I, after: I, result: OptimizationPassResult) -> bool {
        reports_no_change(before, after, result)
    }

    fn run_on_ir(&self, ir: &mut I) -> OptimizationPassResult {
        OptimizationPassResult::new(false, 0)
    }
}

} // verus!
