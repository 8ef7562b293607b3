//! The module dependency graph: dependencies between modules, cycle detection,
//! dependency order and reachability.

use vstd::prelude::*;
use super::{ModuleId, ModuleIdView, ModuleSystemError, id_text};
use vstd::string::StringExecFns;

verus! {

broadcast use vstd::seq_lib::group_seq_properties;

/// Traversal state of a node during a depth-first search.
#[derive(Debug, Clone, Copy, PartialEq, Eq, Structural)]
enum VisitState {
    NotVisited,
    Visiting,
    Visited,
}

/// The module dependency graph.
///
/// Nodes are module identifiers, each held once; an edge `from -> to` says
/// that `from` depends on `to`.
#[derive(Debug)]
pub struct DependencyGraph {
    nodes: Vec<ModuleId>,
    deps: Vec<Vec<usize>>,
    rdeps: Vec<Vec<usize>>,
    edge_list: Vec<(usize, usize)>,
    in_cycle: Vec<bool>,
    cycles: Vec<Vec<ModuleId>>,
}

/// Whether `piece` occurs in `text`.
pub open spec fn text_holds(text: Seq<char>, piece: Seq<char>) -> bool {
    exists|i: int| 0 <= i && i + piece.len() <= text.len() && #[trigger] text.subrange(i, i + piece.len()) == piece
}

/// The start of the DOT line that draws module `x` depending on module `y`.
pub open spec fn edge_text(x: ModuleIdView, y: ModuleIdView) -> Seq<char> {
    "    \""@ + id_text(x) + "\" -> \""@ + id_text(y) + "\" "@
}

/// The whole DOT line that draws module `x` depending on module `y`:
/// red and thick when both were found on a cycle, black otherwise.
pub open spec fn edge_line_text(x: ModuleIdView, y: ModuleIdView, on_cycle: bool) -> Seq<char> {
    edge_text(x, y) + if on_cycle {
        "[color=red,penwidth=2.0]"@
    } else {
        "[color=black]"@
    } + ";\n"@
}

/// The whole DOT line that lists module `x`: filled pink when it was found
/// on a cycle, blue otherwise.
pub open spec fn node_line_text(x: ModuleIdView, on_cycle: bool) -> Seq<char> {
    "    \""@ + id_text(x) + "\" "@ + if on_cycle {
        "[color=red,style=filled,fillcolor=pink]"@
    } else {
        "[color=blue]"@
    } + ";\n"@
}

/// What occurs in a text occurs in it with more around it.
proof fn lemma_text_holds_within(a: Seq<char>, t: Seq<char>, piece: Seq<char>)
    ensures
        text_holds(t, piece) ==> text_holds(a + t, piece),
        text_holds(a, piece) ==> text_holds(a + t, piece),
{
    if text_holds(t, piece) {
        let i = choose|i: int| 0 <= i && i + piece.len() <= t.len() && #[trigger] t.subrange(i, i + piece.len()) == piece;
        assert((a + t).subrange(a.len() + i, a.len() + i + piece.len()) =~= t.subrange(i, i + piece.len()));
    }
    if text_holds(a, piece) {
        let i = choose|i: int| 0 <= i && i + piece.len() <= a.len() && #[trigger] a.subrange(i, i + piece.len()) == piece;
        assert((a + t).subrange(i, i + piece.len()) =~= a.subrange(i, i + piece.len()));
    }
}

/// What occurs in a text occurs in it without its end.
proof fn lemma_text_holds_prefix(t: Seq<char>, piece: Seq<char>, rest: Seq<char>)
    requires
        text_holds(t, piece + rest),
    ensures
        text_holds(t, piece),
{
    let w = piece + rest;
    let i = choose|i: int| 0 <= i && i + w.len() <= t.len() && #[trigger] t.subrange(i, i + w.len()) == w;
    assert(t.subrange(i, i + piece.len()) =~= w.subrange(0, piece.len() as int));
    assert(w.subrange(0, piece.len() as int) =~= piece);
}

/// The values of a list of module identifiers.
pub open spec fn ids_of(v: Seq<ModuleId>) -> Seq<ModuleIdView> {
    v.map_values(|m: ModuleId| m@)
}

impl DependencyGraph {
    /// The nodes, in the order in which they were added.
    pub closed spec fn node_ids(&self) -> Seq<ModuleIdView> {
        ids_of(self.nodes@)
    }

    /// The number of nodes.
    pub open spec fn n(&self) -> nat {
        self.node_ids().len()
    }

    /// Whether node `i` depends on node `j` (positions in `node_ids`).
    pub closed spec fn has_edge(&self, i: usize, j: usize) -> bool {
        self.edge_list@.contains((i, j))
    }

    /// The set of edges, as pairs of node positions.
    pub closed spec fn edge_set(&self) -> Set<(usize, usize)> {
        self.edge_list@.to_set()
    }

    /// The edges in the order in which they were added, as pairs of node
    /// positions.
    pub closed spec fn edges(&self) -> Seq<(usize, usize)> {
        self.edge_list@
    }

    /// What a consistent graph guarantees of its parts: node identifiers are
    /// distinct; an edge is a pair in the edge set, listed once in `edges`,
    /// and joins two nodes; a cycle member is a node.
    pub proof fn lemma_graph_facts(&self)
        requires
            self.wf(),
        ensures
            self.node_ids().no_duplicates(),
            self.edges().no_duplicates(),
            self.edges().to_set() == self.edge_set(),
            self.edge_set().len() == self.edges().len(),
            forall|i: usize, j: usize| #[trigger] self.has_edge(i, j) <==> self.edge_set().contains((i, j)),
            forall|i: usize, j: usize|
                #[trigger] self.has_edge(i, j) ==> (i as int) < self.n() && (j as int) < self.n(),
            forall|k: int|
                0 <= k < self.edges().len() ==> #[trigger] self.has_edge(self.edges()[k].0, self.edges()[k].1),
            forall|i: usize| #[trigger] self.cycle_members().contains(i) ==> (i as int) < self.n(),
    {
        self.edge_list@.unique_seq_to_set();
        assert forall|i: usize, j: usize| #[trigger] self.has_edge(i, j) implies (i as int) < self.n()
            && (j as int) < self.n() by {
            let k = choose|k: int| 0 <= k < self.edge_list@.len() && self.edge_list@[k] == (i, j);
            assert(self.edge_list@[k].0 < self.nodes@.len());
        }
        assert forall|k: int| 0 <= k < self.edges().len() implies #[trigger] self.has_edge(
            self.edges()[k].0,
            self.edges()[k].1,
        ) by {
            assert(self.edge_list@[k] == (self.edges()[k].0, self.edges()[k].1));
        }
    }

    /// The node at position `k` is found at position `k`.
    pub proof fn lemma_node_position(&self, k: int)
        requires
            self.wf(),
            0 <= k < self.n(),
        ensures
            self.has_node(self.node_ids()[k]),
            self.pos(self.node_ids()[k]) == k,
    {
        self.lemma_pos(k);
    }

    /// The positions of the nodes that the last cycle check found on a cycle.
    pub closed spec fn cycle_members(&self) -> Set<usize> {
        Set::new(|i: usize| (i as int) < self.in_cycle@.len() && self.in_cycle@[i as int])
    }

    /// The internal representation is consistent: node identifiers are
    /// distinct, edges join nodes, and the adjacency lists list exactly the
    /// edges.
    pub closed spec fn wf(&self) -> bool {
        let n = self.nodes@.len();
        &&& n <= usize::MAX
        &&& self.node_ids().no_duplicates()
        &&& self.deps@.len() == n
        &&& self.rdeps@.len() == n
        &&& self.in_cycle@.len() == n
        &&& self.edge_list@.no_duplicates()
        &&& forall|k: int|
            0 <= k < self.edge_list@.len() ==> (#[trigger] self.edge_list@[k]).0 < n
                && self.edge_list@[k].1 < n
        &&& forall|i: int| 0 <= i < n ==> (#[trigger] self.deps@[i])@.no_duplicates()
        &&& forall|i: int| 0 <= i < n ==> (#[trigger] self.rdeps@[i])@.no_duplicates()
        &&& forall|i: usize, j: usize|
            (i as int) < n ==> ((#[trigger] self.deps@[i as int]@.contains(j))
                <==> self.edge_list@.contains((i, j)))
        &&& forall|i: usize, j: usize|
            (j as int) < n ==> ((#[trigger] self.rdeps@[j as int]@.contains(i))
                <==> self.edge_list@.contains((i, j)))
    }

    /// Whether `x` is a node.
    pub open spec fn has_node(&self, x: ModuleIdView) -> bool {
        self.node_ids().contains(x)
    }

    /// The position of node `x`.
    pub open spec fn pos(&self, x: ModuleIdView) -> int {
        self.node_ids().index_of(x)
    }

    /// Whether module `x` depends directly on module `y`.
    pub open spec fn depends(&self, x: ModuleIdView, y: ModuleIdView) -> bool {
        self.has_node(x) && self.has_node(y) && self.has_edge(
            self.pos(x) as usize,
            self.pos(y) as usize,
        )
    }

    /// A non-empty walk along edges through node positions.
    pub open spec fn is_walk(&self, p: Seq<usize>) -> bool {
        &&& p.len() > 0
        &&& forall|k: int| 0 <= k < p.len() ==> (#[trigger] p[k] as int) < self.n()
        &&& forall|k: int| 0 <= k < p.len() - 1 ==> #[trigger] self.has_edge(p[k], p[k + 1])
    }

    /// A walk that closes on itself: its last node depends on its first.
    pub open spec fn is_cycle(&self, p: Seq<usize>) -> bool {
        self.is_walk(p) && self.has_edge(p.last(), p[0])
    }

    /// Whether the graph has a circular dependency.
    pub open spec fn has_cycle(&self) -> bool {
        exists|p: Seq<usize>| self.is_cycle(p)
    }

    /// Whether node `j` can be reached from node `i` by following dependencies
    /// (every node reaches itself).
    pub open spec fn reaches(&self, i: usize, j: usize) -> bool {
        exists|p: Seq<usize>| #[trigger] self.is_walk(p) && p[0] == i && p.last() == j
    }

    /// The modules reachable from `start` along dependencies; a module that is
    /// not a node reaches only itself.
    pub open spec fn reachable_ids(&self, start: ModuleIdView) -> Set<ModuleIdView> {
        if self.has_node(start) {
            Set::new(
                |y: ModuleIdView|
                    self.has_node(y) && self.reaches(self.pos(start) as usize, self.pos(y) as usize),
            )
        } else {
            set![start]
        }
    }

    /// The modules from which `target` is reachable along dependencies; a
    /// module that is not a node is reached only from itself.
    pub open spec fn reverse_reachable_ids(&self, target: ModuleIdView) -> Set<ModuleIdView> {
        if self.has_node(target) {
            Set::new(
                |y: ModuleIdView|
                    self.has_node(y) && self.reaches(
                        self.pos(y) as usize,
                        self.pos(target) as usize,
                    ),
            )
        } else {
            set![target]
        }
    }

    /// The node identifiers at a list of positions.
    pub open spec fn ids_at(&self, s: Seq<usize>) -> Seq<ModuleIdView> {
        s.map_values(|k: usize| self.node_ids()[k as int])
    }

    proof fn lemma_pos(&self, k: int)
        requires
            self.wf(),
            0 <= k < self.n(),
        ensures
            self.has_node(self.node_ids()[k]),
            self.pos(self.node_ids()[k]) == k,
    {
        let x = self.node_ids()[k];
        assert(self.node_ids().contains(x));
        let i = self.pos(x);
        assert(0 <= i < self.n() && self.node_ids()[i] == x);
    }

    proof fn lemma_ids_at(&self, s: Seq<usize>)
        requires
            self.wf(),
            s.no_duplicates(),
            forall|k: int| 0 <= k < s.len() ==> (#[trigger] s[k] as int) < self.n(),
        ensures
            self.ids_at(s).no_duplicates(),
            forall|y: ModuleIdView|
                #![trigger self.ids_at(s).contains(y)]
                self.ids_at(s).contains(y) <==> (self.has_node(y) && s.contains(
                    self.pos(y) as usize,
                )),
    {
        let t = self.ids_at(s);
        assert forall|a: int, b: int| 0 <= a < t.len() && 0 <= b < t.len() && a != b implies t[a]
            != t[b] by {
            assert(s[a] != s[b]);
            assert(self.node_ids()[s[a] as int] != self.node_ids()[s[b] as int]);
        }
        assert forall|y: ModuleIdView| self.ids_at(s).contains(y) implies (self.has_node(y)
            && s.contains(self.pos(y) as usize)) by {
            let a = choose|a: int| 0 <= a < t.len() && t[a] == y;
            self.lemma_pos(s[a] as int);
            assert(s[a] == self.pos(y) as usize);
        }
        assert forall|y: ModuleIdView| (self.has_node(y) && s.contains(self.pos(y) as usize))
            implies self.ids_at(s).contains(y) by {
            let a = choose|a: int| 0 <= a < s.len() && s[a] == self.pos(y) as usize;
            let i = self.pos(y);
            assert(0 <= i < self.n() && self.node_ids()[i] == y);
            assert(t[a] == y);
        }
    }

    /// Copies the node identifiers at a list of positions.
    fn ids_for(&self, s: &Vec<usize>) -> (r: Vec<ModuleId>)
        requires
            self.wf(),
            forall|k: int| 0 <= k < s@.len() ==> (#[trigger] s@[k] as int) < self.n(),
        ensures
            ids_of(r@) == self.ids_at(s@),
    {
        let mut r: Vec<ModuleId> = Vec::new();
        let mut i: usize = 0;
        while i < s.len()
            invariant
                self.wf(),
                forall|k: int| 0 <= k < s@.len() ==> (#[trigger] s@[k] as int) < self.n(),
                i <= s.len(),
                r@.len() == i,
                forall|k: int| 0 <= k < i ==> r@[k]@ == self.node_ids()[s@[k] as int],
            decreases s.len() - i,
        {
            r.push(self.nodes[s[i]].clone());
            i = i + 1;
        }
        assert(ids_of(r@) =~= self.ids_at(s@));
        r
    }

    /// An empty graph.
    pub fn new() -> (r: Self)
        ensures
            r.wf(),
            r.node_ids() == Seq::<ModuleIdView>::empty(),
            r.edge_set() == Set::<(usize, usize)>::empty(),
            r.edges() == Seq::<(usize, usize)>::empty(),
            forall|i: usize, j: usize| !#[trigger] r.has_edge(i, j),
            forall|x: ModuleIdView, y: ModuleIdView| !#[trigger] r.depends(x, y),
            r.cycle_members() == Set::<usize>::empty(),
    {
        let r = DependencyGraph {
            nodes: Vec::new(),
            deps: Vec::new(),
            rdeps: Vec::new(),
            edge_list: Vec::new(),
            in_cycle: Vec::new(),
            cycles: Vec::new(),
        };
        assert(r.node_ids() =~= Seq::<ModuleIdView>::empty());
        assert(r.edge_set() =~= Set::<(usize, usize)>::empty());
        assert(r.cycle_members() =~= Set::<usize>::empty());
        r
    }

    /// The position of node `id`, if it is a node.
    fn find(&self, id: &ModuleId) -> (r: Option<usize>)
        requires
            self.wf(),
        ensures
            match r {
                Some(i) => self.has_node(id@) && i as int == self.pos(id@) && (i as int) < self.n(),
                None => !self.has_node(id@),
            },
    {
        let mut i: usize = 0;
        while i < self.nodes.len()
            invariant
                self.wf(),
                i <= self.nodes@.len(),
                forall|k: int| 0 <= k < i ==> self.node_ids()[k] != id@,
            decreases self.nodes@.len() - i,
        {
            if self.nodes[i].same(id) {
                proof {
                    self.lemma_pos(i as int);
                }
                return Some(i);
            }
            i = i + 1;
        }
        None
    }

    /// Adds a node; a module that is already a node is not added again.
    pub fn add_node(&mut self, id: ModuleId)
        requires
            old(self).wf(),
        ensures
            final(self).wf(),
            final(self).node_ids() == if old(self).has_node(id@) {
                old(self).node_ids()
            } else {
                old(self).node_ids().push(id@)
            },
            final(self).edge_set() == old(self).edge_set(),
            final(self).edges() == old(self).edges(),
            forall|i: usize, j: usize| final(self).has_edge(i, j) == old(self).has_edge(i, j),
            forall|x: ModuleIdView, y: ModuleIdView|
                #[trigger] final(self).depends(x, y) == old(self).depends(x, y),
            !old(self).has_node(id@) ==> forall|y: ModuleIdView|
                !#[trigger] final(self).depends(id@, y) && !final(self).depends(y, id@),
            final(self).cycle_members() == old(self).cycle_members(),
    {
        let ghost g0 = *self;
        self.add_node_inner(id);
        proof {
            assert(g0.node_ids().is_prefix_of(self.node_ids()));
            g0.lemma_graph_facts();
            assert forall|x: ModuleIdView, y: ModuleIdView|
                #[trigger] self.depends(x, y) == g0.depends(x, y) by {
                if g0.has_node(x) {
                    g0.lemma_pos_stable(*self, x);
                }
                if g0.has_node(y) {
                    g0.lemma_pos_stable(*self, y);
                }
                if self.depends(x, y) {
                    let i = self.pos(x) as usize;
                    let j = self.pos(y) as usize;
                    assert(g0.has_edge(i, j));
                    assert((i as int) < g0.n() && (j as int) < g0.n());
                    assert(g0.has_node(self.node_ids()[i as int])) by {
                        assert(self.node_ids()[i as int] == g0.node_ids()[i as int]);
                    }
                    assert(self.node_ids()[i as int] == x);
                    assert(self.node_ids()[j as int] == y);
                    assert(self.node_ids()[j as int] == g0.node_ids()[j as int]);
                }
            }
        }
    }

    /// Adds a node unless it is one already.
    fn add_node_inner(&mut self, id: ModuleId)
        requires
            old(self).wf(),
        ensures
            final(self).wf(),
            final(self).node_ids() == if old(self).has_node(id@) {
                old(self).node_ids()
            } else {
                old(self).node_ids().push(id@)
            },
            final(self).edge_set() == old(self).edge_set(),
            final(self).edges() == old(self).edges(),
            forall|i: usize, j: usize| final(self).has_edge(i, j) == old(self).has_edge(i, j),
            final(self).cycle_members() == old(self).cycle_members(),
    {
        match self.find(&id) {
            Some(_) => {},
            None => {
                let ghost old_ids = self.node_ids();
                let ghost old_cm = self.cycle_members();
                let ghost v = id@;
                self.nodes.push(id);
                self.deps.push(Vec::new());
                self.rdeps.push(Vec::new());
                self.in_cycle.push(false);
                let _ = self.nodes.len();
                proof {
                    assert(self.node_ids() =~= old_ids.push(v));
                    assert(self.cycle_members() =~= old_cm);
                    let n = self.nodes@.len();
                    assert forall|i: usize, j: usize|
                        (i as int) < n implies ((#[trigger] self.deps@[i as int]@.contains(j))
                        <==> self.edge_list@.contains((i, j))) by {
                        if i as int == n - 1 {
                            if self.edge_list@.contains((i, j)) {
                                let k = choose|k: int|
                                    0 <= k < self.edge_list@.len() && self.edge_list@[k] == (i, j);
                                assert(self.edge_list@[k].0 < n - 1);
                            }
                        }
                    }
                    assert forall|i: usize, j: usize|
                        (j as int) < n implies ((#[trigger] self.rdeps@[j as int]@.contains(i))
                        <==> self.edge_list@.contains((i, j))) by {
                        if j as int == n - 1 {
                            if self.edge_list@.contains((i, j)) {
                                let k = choose|k: int|
                                    0 <= k < self.edge_list@.len() && self.edge_list@[k] == (i, j);
                                assert(self.edge_list@[k].1 < n - 1);
                            }
                        }
                    }
                }
            },
        }
    }

    /// Adds the dependency `from -> to`, adding either module as a node first
    /// where it is not one.
    pub fn add_dependency(&mut self, from: ModuleId, to: ModuleId)
        requires
            old(self).wf(),
        ensures
            final(self).wf(),
            final(self).node_ids() == with_node(with_node(old(self).node_ids(), from@), to@),
            final(self).edge_set() == old(self).edge_set().insert(
                (final(self).pos(from@) as usize, final(self).pos(to@) as usize),
            ),
            forall|x: ModuleIdView, y: ModuleIdView|
                #[trigger] final(self).depends(x, y) <==> (old(self).depends(x, y) || (x == from@
                    && y == to@)),
            final(self).edges() == if old(self).depends(from@, to@) {
                old(self).edges()
            } else {
                old(self).edges().push((final(self).pos(from@) as usize, final(self).pos(to@) as usize))
            },
            final(self).edge_set().len() == old(self).edge_set().len() + if old(self).depends(
                from@,
                to@,
            ) {
                0int
            } else {
                1int
            },
            final(self).cycle_members() == old(self).cycle_members(),
    {
        let ghost g0 = *self;
        let from2 = from.clone();
        let to2 = to.clone();
        self.add_node(from2);
        self.add_node(to2);
        let fi = match self.find(&from) {
            Some(i) => i,
            None => {
                proof {
                    assert(self.node_ids().contains(from@)) by {
                        if g0.has_node(from@) {
                            let k = choose|k: int| 0 <= k < g0.n() && g0.node_ids()[k] == from@;
                            assert(self.node_ids()[k] == from@);
                        } else {
                            let k = g0.n() as int;
                            assert(self.node_ids()[k] == from@);
                        }
                    }
                }
                return;
            },
        };
        let ti = match self.find(&to) {
            Some(i) => i,
            None => {
                proof {
                    assert(self.node_ids().contains(to@)) by {
                        assert(self.node_ids().last() == to@ || with_node(
                            g0.node_ids(),
                            from@,
                        ).contains(to@));
                        if !with_node(g0.node_ids(), from@).contains(to@) {
                            assert(self.node_ids()[self.n() - 1] == to@);
                        } else {
                            let k = choose|k: int|
                                0 <= k < with_node(g0.node_ids(), from@).len() && with_node(
                                    g0.node_ids(),
                                    from@,
                                )[k] == to@;
                            assert(self.node_ids()[k] == to@);
                        }
                    }
                }
                return;
            },
        };
        let ghost g1 = *self;
        proof {
            assert(g1.depends(from@, to@) == g0.depends(from@, to@));
            assert(g1.depends(from@, to@) == g1.has_edge(fi, ti));
            assert(g1.edges() == g0.edges());
        }
        if !vec_contains(&self.deps[fi], ti) {
            let mut d = copy_indices(&self.deps[fi]);
            d.push(ti);
            self.deps.set(fi, d);
            let mut rd = copy_indices(&self.rdeps[ti]);
            rd.push(fi);
            self.rdeps.set(ti, rd);
            self.edge_list.push((fi, ti));
            proof {
                let n = self.nodes@.len();
                assert(!g1.edge_list@.contains((fi, ti)));
                assert(!g1.rdeps@[ti as int]@.contains(fi));
                assert(self.edge_list@ =~= g1.edge_list@.push((fi, ti)));
                assert forall|k: int|
                    0 <= k < self.edge_list@.len() implies (#[trigger] self.edge_list@[k]).0 < n
                    && self.edge_list@[k].1 < n by {
                    if k < g1.edge_list@.len() {
                        assert(self.edge_list@[k] == g1.edge_list@[k]);
                    }
                }
                assert forall|i: int| 0 <= i < n implies (#[trigger] self.deps@[i])@.no_duplicates() by {
                    if i != fi as int {
                        assert(self.deps@[i] == g1.deps@[i]);
                    } else {
                        assert(g1.deps@[i]@.no_duplicates());
                    }
                }
                assert forall|i: int| 0 <= i < n implies (#[trigger] self.rdeps@[i])@.no_duplicates() by {
                    if i != ti as int {
                        assert(self.rdeps@[i] == g1.rdeps@[i]);
                    } else {
                        assert(g1.rdeps@[i]@.no_duplicates());
                    }
                }
                assert forall|i: usize, j: usize|
                    (i as int) < n implies ((#[trigger] self.deps@[i as int]@.contains(j))
                    <==> self.edge_list@.contains((i, j))) by {
                    assert(self.edge_list@.contains((i, j)) <==> (g1.edge_list@.contains((i, j))
                        || (i, j) == (fi, ti)));
                    if i != fi {
                        assert(self.deps@[i as int] == g1.deps@[i as int]);
                        assert(g1.deps@[i as int]@.contains(j) <==> g1.edge_list@.contains((i, j)));
                    } else {
                        assert(g1.deps@[i as int]@.contains(j) <==> g1.edge_list@.contains((i, j)));
                    }
                }
                assert forall|i: usize, j: usize|
                    (j as int) < n implies ((#[trigger] self.rdeps@[j as int]@.contains(i))
                    <==> self.edge_list@.contains((i, j))) by {
                    assert(self.edge_list@.contains((i, j)) <==> (g1.edge_list@.contains((i, j))
                        || (i, j) == (fi, ti)));
                    if j != ti {
                        assert(self.rdeps@[j as int] == g1.rdeps@[j as int]);
                        assert(g1.rdeps@[j as int]@.contains(i) <==> g1.edge_list@.contains((i, j)));
                    } else {
                        assert(g1.rdeps@[j as int]@.contains(i) <==> g1.edge_list@.contains((i, j)));
                    }
                }
                assert(self.edge_set() =~= g1.edge_set().insert((fi, ti)));
            }
        } else {
            proof {
                assert(self.edge_set() =~= g1.edge_set().insert((fi, ti)));
            }
        }
        proof {
            assert(self.node_ids() == g1.node_ids());
            assert(self.edges() == if g1.has_edge(fi, ti) {
                g1.edges()
            } else {
                g1.edges().push((fi, ti))
            });
            self.lemma_graph_facts();
            g0.lemma_graph_facts();
            assert forall|x: ModuleIdView, y: ModuleIdView|
                #[trigger] self.depends(x, y) <==> (g0.depends(x, y) || (x == from@ && y == to@)) by {
                if g0.has_node(x) {
                    g0.lemma_pos_stable(*self, x);
                }
                if g0.has_node(y) {
                    g0.lemma_pos_stable(*self, y);
                }
                if self.depends(x, y) {
                    assert(self.edge_list@.contains((self.pos(x) as usize, self.pos(y) as usize)));
                    if !(x == from@ && y == to@) {
                        assert(self.pos(x) as usize != fi || self.pos(y) as usize != ti) by {
                            if self.pos(x) as usize == fi && self.pos(y) as usize == ti {
                                self.lemma_pos_inj(x, from@);
                                self.lemma_pos_inj(y, to@);
                            }
                        }
                        assert(g1.edge_list@.contains((self.pos(x) as usize, self.pos(y) as usize)));
                        assert(g0.has_edge(self.pos(x) as usize, self.pos(y) as usize));
                        g0.lemma_edge_nodes(self.pos(x) as usize, self.pos(y) as usize);
                        assert(g0.has_node(x) && g0.has_node(y)) by {
                            g0.lemma_new_positions(*self, x);
                            g0.lemma_new_positions(*self, y);
                        }
                    }
                }
            }
        }
    }

    proof fn lemma_edge_nodes(&self, i: usize, j: usize)
        requires
            self.wf(),
            self.edge_list@.contains((i, j)),
        ensures
            (i as int) < self.n(),
            (j as int) < self.n(),
    {
        let k = choose|k: int| 0 <= k < self.edge_list@.len() && self.edge_list@[k] == (i, j);
        assert(self.edge_list@[k].0 < self.n());
    }

    /// Two nodes at the same position are the same module.
    proof fn lemma_pos_inj(&self, x: ModuleIdView, y: ModuleIdView)
        requires
            self.wf(),
            self.has_node(x),
            self.has_node(y),
            self.pos(x) == self.pos(y),
        ensures
            x == y,
    {
    }

    /// A node keeps its position when the node list is extended.
    proof fn lemma_pos_stable(&self, other: Self, x: ModuleIdView)
        requires
            self.wf(),
            other.wf(),
            self.has_node(x),
            self.node_ids().is_prefix_of(other.node_ids()),
        ensures
            other.has_node(x),
            other.pos(x) == self.pos(x),
    {
        let k = self.pos(x);
        assert(0 <= k < self.n() && self.node_ids()[k] == x);
        assert(other.node_ids()[k] == x);
        other.lemma_pos(k);
    }

    /// A position inside the old node list belongs to an old node.
    proof fn lemma_new_positions(&self, other: Self, x: ModuleIdView)
        requires
            self.wf(),
            other.wf(),
            other.has_node(x),
            self.node_ids().is_prefix_of(other.node_ids()),
            other.pos(x) < self.n(),
        ensures
            self.has_node(x),
    {
        let k = other.pos(x);
        assert(0 <= k < other.n() && other.node_ids()[k] == x);
        assert(self.node_ids()[k] == x);
    }

    /// The modules that `id` depends on directly.
    pub fn get_dependencies(&self, id: &ModuleId) -> (r: Vec<ModuleId>)
        requires
            self.wf(),
        ensures
            ids_of(r@).no_duplicates(),
            forall|y: ModuleIdView| #[trigger] ids_of(r@).contains(y) <==> self.depends(id@, y),
    {
        match self.find(id) {
            None => {
                let r: Vec<ModuleId> = Vec::new();
                assert(ids_of(r@) =~= Seq::<ModuleIdView>::empty());
                r
            },
            Some(i) => {
                proof {
                    self.lemma_adjacency_bounds();
                }
                let r = self.ids_for(&self.deps[i]);
                proof {
                    self.lemma_ids_at(self.deps@[i as int]@);
                }
                r
            },
        }
    }

    /// The modules that depend directly on `id`.
    pub fn get_dependents(&self, id: &ModuleId) -> (r: Vec<ModuleId>)
        requires
            self.wf(),
        ensures
            ids_of(r@).no_duplicates(),
            forall|y: ModuleIdView| #[trigger] ids_of(r@).contains(y) <==> self.depends(y, id@),
    {
        match self.find(id) {
            None => {
                let r: Vec<ModuleId> = Vec::new();
                assert(ids_of(r@) =~= Seq::<ModuleIdView>::empty());
                r
            },
            Some(i) => {
                proof {
                    self.lemma_adjacency_bounds();
                }
                let r = self.ids_for(&self.rdeps[i]);
                proof {
                    self.lemma_ids_at(self.rdeps@[i as int]@);
                }
                r
            },
        }
    }

    /// Every position in an adjacency list is a node.
    proof fn lemma_adjacency_bounds(&self)
        requires
            self.wf(),
        ensures
            forall|i: int, k: int|
                0 <= i < self.n() && 0 <= k < self.deps@[i]@.len() ==> (
                #[trigger] self.deps@[i]@[k] as int) < self.n(),
            forall|i: int, k: int|
                0 <= i < self.n() && 0 <= k < self.rdeps@[i]@.len() ==> (
                #[trigger] self.rdeps@[i]@[k] as int) < self.n(),
    {
        assert forall|i: int, k: int|
            0 <= i < self.n() && 0 <= k < self.deps@[i]@.len() implies (
            #[trigger] self.deps@[i]@[k] as int) < self.n() by {
            let j = self.deps@[i]@[k];
            assert(self.deps@[(i as usize) as int]@.contains(j));
            self.lemma_edge_nodes(i as usize, j);
        }
        assert forall|i: int, k: int|
            0 <= i < self.n() && 0 <= k < self.rdeps@[i]@.len() implies (
            #[trigger] self.rdeps@[i]@[k] as int) < self.n() by {
            let j = self.rdeps@[i]@[k];
            assert(self.rdeps@[(i as usize) as int]@.contains(j));
            self.lemma_edge_nodes(j, i as usize);
        }
    }

    /// The number of nodes.
    pub fn node_count(&self) -> (r: usize)
        requires
            self.wf(),
        ensures
            r == self.n(),
    {
        self.nodes.len()
    }

    /// The number of distinct dependency edges.
    pub fn edge_count(&self) -> (r: usize)
        requires
            self.wf(),
        ensures
            r == self.edge_set().len(),
            r == self.edges().len(),
    {
        proof {
            self.edge_list@.unique_seq_to_set();
        }
        self.edge_list.len()
    }

    /// Whether the last cycle check found `id` on a cycle.
    pub fn is_in_cycle(&self, id: &ModuleId) -> (r: bool)
        requires
            self.wf(),
        ensures
            r == (self.has_node(id@) && self.cycle_members().contains(self.pos(id@) as usize)),
    {
        match self.find(id) {
            Some(i) => self.in_cycle[i],
            None => false,
        }
    }


    /// The depth-first search state: nodes being visited are exactly those on
    /// the current path, visited nodes are exactly those in the finishing
    /// order, the path follows edges, visited nodes only depend on visited
    /// nodes, and no node in the finishing order depends on itself or on a
    /// node finished after it.
    spec fn dfs_inv(&self, s: Seq<VisitState>, p: Seq<usize>, o: Seq<usize>) -> bool {
        let n = self.n();
        &&& s.len() == n
        &&& p.no_duplicates()
        &&& o.no_duplicates()
        &&& forall|k: int| 0 <= k < p.len() ==> (#[trigger] p[k] as int) < n
        &&& forall|k: int| 0 <= k < o.len() ==> (#[trigger] o[k] as int) < n
        &&& forall|x: usize|
            (x as int) < n ==> ((#[trigger] s[x as int] == VisitState::Visiting) <==> p.contains(x))
        &&& forall|x: usize|
            (x as int) < n ==> ((#[trigger] s[x as int] == VisitState::Visited) <==> o.contains(x))
        &&& forall|k: int| 0 <= k < p.len() - 1 ==> #[trigger] self.has_edge(p[k], p[k + 1])
        &&& forall|x: usize, y: usize|
            (x as int) < n && s[x as int] == VisitState::Visited && #[trigger] self.has_edge(x, y)
                ==> s[y as int] == VisitState::Visited
        &&& forall|a: int, b: int|
            0 <= a <= b < o.len() ==> !self.has_edge(#[trigger] o[a], #[trigger] o[b])
    }

    /// What a finished visit of `u` leaves: the invariant, the same path, `u`
    /// visited, the finishing order extended, and every node that was already
    /// reached keeping its state.
    spec fn dfs_done(
        &self,
        s0: Seq<VisitState>,
        p0: Seq<usize>,
        o0: Seq<usize>,
        s1: Seq<VisitState>,
        p1: Seq<usize>,
        o1: Seq<usize>,
        u: usize,
    ) -> bool {
        &&& self.dfs_inv(s1, p1, o1)
        &&& p1 == p0
        &&& s1[u as int] == VisitState::Visited
        &&& o0.is_prefix_of(o1)
        &&& forall|x: int|
            0 <= x < self.n() && s0[x] != VisitState::NotVisited ==> #[trigger] s1[x] == s0[x]
    }

    /// A path along edges, without repeated nodes, whose last node depends on
    /// a node `t` on the path.
    spec fn cycle_witness(&self, p: Seq<usize>, t: usize) -> bool {
        &&& p.len() > 0
        &&& p.no_duplicates()
        &&& forall|k: int| 0 <= k < p.len() ==> (#[trigger] p[k] as int) < self.n()
        &&& forall|k: int| 0 <= k < p.len() - 1 ==> #[trigger] self.has_edge(p[k], p[k + 1])
        &&& p.contains(t)
        &&& self.has_edge(p.last(), t)
    }

    /// An order of all nodes in which no node depends on itself or on a node
    /// that comes after it.
    pub open spec fn is_dependency_order(&self, o: Seq<usize>) -> bool {
        &&& o.no_duplicates()
        &&& forall|k: int| 0 <= k < o.len() ==> (#[trigger] o[k] as int) < self.n()
        &&& forall|x: usize| (x as int) < self.n() ==> o.contains(x)
        &&& forall|a: int, b: int|
            0 <= a <= b < o.len() ==> !self.has_edge(#[trigger] o[a], #[trigger] o[b])
    }

    /// A list of distinct positions below `n` has at most `n` entries.
    proof fn lemma_len_bound(p: Seq<usize>, n: nat)
        requires
            p.no_duplicates(),
            n <= usize::MAX,
            forall|k: int| 0 <= k < p.len() ==> (#[trigger] p[k] as int) < n,
        ensures
            p.len() <= n,
            (forall|x: usize| (x as int) < n ==> p.contains(x)) ==> p.len() == n,
    {
        let q = p.map_values(|x: usize| x as int);
        assert forall|a: int, b: int| 0 <= a < q.len() && 0 <= b < q.len() && a != b implies q[a]
            != q[b] by {
            assert(p[a] != p[b]);
        }
        q.unique_seq_to_set();
        vstd::set_lib::lemma_int_range(0, n as int);
        assert(q.to_set().subset_of(vstd::set_lib::set_int_range(0, n as int)));
        vstd::set_lib::lemma_len_subset(q.to_set(), vstd::set_lib::set_int_range(0, n as int));
        if forall|x: usize| (x as int) < n ==> p.contains(x) {
            assert forall|i: int| vstd::set_lib::set_int_range(0, n as int).contains(i) implies q.to_set().contains(i) by {
                let x = i as usize;
                assert(p.contains(x));
                let k = choose|k: int| 0 <= k < p.len() && p[k] == x;
                assert(q[k] == i);
            }
            assert(q.to_set() =~= vstd::set_lib::set_int_range(0, n as int));
        }
    }

    /// Visits `u` and everything reachable from it that is not yet visited,
    /// appending each node to `order` once all its dependencies are there.
    fn dfs_visit(
        &self,
        u: usize,
        state: &mut Vec<VisitState>,
        path: &mut Vec<usize>,
        order: &mut Vec<usize>,
    ) -> (r: Result<(), usize>)
        requires
            self.wf(),
            (u as int) < self.n(),
            old(state)@[u as int] == VisitState::NotVisited,
            self.dfs_inv(old(state)@, old(path)@, old(order)@),
            old(path)@.len() > 0 ==> self.has_edge(old(path)@.last(), u),
        ensures
            r is Ok ==> self.dfs_done(
                old(state)@,
                old(path)@,
                old(order)@,
                final(state)@,
                final(path)@,
                final(order)@,
                u,
            ),
            r matches Err(t) ==> self.cycle_witness(final(path)@, t),
        decreases self.n() - old(path)@.len(),
    {
        let ghost s0 = state@;
        let ghost p0 = path@;
        let ghost o0 = order@;
        let n = self.nodes.len();
        proof {
            self.lemma_adjacency_bounds();
            assert(!p0.contains(u));
            Self::lemma_len_bound(p0.push(u), self.n());
        }
        state.set(u, VisitState::Visiting);
        path.push(u);
        proof {
            assert(path@ == p0.push(u));
            assert forall|x: usize|
                (x as int) < self.n() implies ((#[trigger] state@[x as int] == VisitState::Visiting)
                <==> path@.contains(x)) by {
                if x != u {
                    assert(state@[x as int] == s0[x as int]);
                }
            }
            assert forall|x: usize|
                (x as int) < self.n() implies ((#[trigger] state@[x as int] == VisitState::Visited)
                <==> order@.contains(x)) by {
                if x == u {
                    assert(!o0.contains(u));
                }
            }
            assert forall|k: int| 0 <= k < path@.len() - 1 implies #[trigger] self.has_edge(
                path@[k],
                path@[k + 1],
            ) by {
                if k < p0.len() - 1 {
                    assert(path@[k] == p0[k] && path@[k + 1] == p0[k + 1]);
                }
            }
            assert forall|x: usize, y: usize|
                (x as int) < self.n() && state@[x as int] == VisitState::Visited
                    && #[trigger] self.has_edge(x, y) implies state@[y as int]
                == VisitState::Visited by {
                assert(x != u);
                assert(s0[x as int] == VisitState::Visited);
                assert(s0[y as int] == VisitState::Visited);
                self.lemma_edge_nodes(x, y);
                if y == u {
                    assert(false);
                }
            }
            assert(o0.is_prefix_of(order@));
        }
        let mut k: usize = 0;
        while k < self.deps[u].len()
            invariant
                self.wf(),
                n == self.n(),
                (u as int) < self.n(),
                0 <= k <= self.deps@[u as int]@.len(),
                forall|i: int, m: int|
                    0 <= i < self.n() && 0 <= m < self.deps@[i]@.len() ==> (
                    #[trigger] self.deps@[i]@[m] as int) < self.n(),
                self.dfs_inv(state@, path@, order@),
                path@ == p0.push(u),
                p0 == old(path)@,
                path@.len() <= self.n(),
                s0[u as int] == VisitState::NotVisited,
                state@[u as int] == VisitState::Visiting,
                forall|m: int|
                    0 <= m < k ==> #[trigger] state@[self.deps@[u as int]@[m] as int]
                        == VisitState::Visited,
                o0.is_prefix_of(order@),
                forall|x: int|
                    0 <= x < self.n() && s0[x] != VisitState::NotVisited ==> #[trigger] state@[x]
                        == s0[x],
            decreases self.deps@[u as int]@.len() - k,
        {
            let v = self.deps[u][k];
            proof {
                assert(self.deps@[u as int]@.contains(v));
                assert(self.has_edge(u, v));
            }
            let sv = state[v];
            match sv {
                VisitState::NotVisited => {
                    let ghost s_before = state@;
                    let ghost o_before = order@;
                    let res = self.dfs_visit(v, state, path, order);
                    match res {
                        Err(t) => {
                            return Err(t);
                        },
                        Ok(()) => {
                            proof {
                                assert(o0.is_prefix_of(order@)) by {
                                    assert(o_before.is_prefix_of(order@));
                                    assert forall|i: int| 0 <= i < o0.len() implies o0[i]
                                        == order@[i] by {
                                        assert(o0[i] == o_before[i]);
                                        assert(o_before[i] == order@[i]);
                                    }
                                    assert(o0 =~= order@.subrange(0, o0.len() as int));
                                }
                                assert forall|m: int|
                                    0 <= m < k + 1 implies #[trigger] state@[self.deps@[
                                    u as int]@[m] as int] == VisitState::Visited by {
                                    if m < k {
                                        let w = self.deps@[u as int]@[m] as int;
                                        assert(s_before[w] == VisitState::Visited);
                                    }
                                }
                                assert forall|x: int|
                                    0 <= x < self.n() && s0[x]
                                        != VisitState::NotVisited implies #[trigger] state@[x]
                                    == s0[x] by {
                                    assert(s_before[x] == s0[x]);
                                }
                            }
                        },
                    }
                },
                VisitState::Visiting => {
                    proof {
                        assert(path@.contains(v));
                    }
                    return Err(v);
                },
                VisitState::Visited => {},
            }
            k = k + 1;
        }
        let ghost s1 = state@;
        let ghost o1 = order@;
        path.pop();
        state.set(u, VisitState::Visited);
        order.push(u);
        proof {
            assert(path@ =~= p0);
            assert forall|y: usize| #[trigger] self.has_edge(u, y) implies s1[y as int]
                == VisitState::Visited by {
                assert(self.deps@[u as int]@.contains(y));
                let m = choose|m: int|
                    0 <= m < self.deps@[u as int]@.len() && self.deps@[u as int]@[m] == y;
                assert(state@[self.deps@[u as int]@[m] as int] == VisitState::Visited
                    || self.deps@[u as int]@[m] == u);
            }
            assert(!self.has_edge(u, u));
            assert(!o1.contains(u));
            assert forall|x: usize|
                (x as int) < self.n() implies ((#[trigger] state@[x as int]
                == VisitState::Visiting) <==> path@.contains(x)) by {
                if x != u {
                    assert(state@[x as int] == s1[x as int]);
                    assert(p0.push(u).contains(x) <==> p0.contains(x));
                } else {
                    assert(!p0.contains(u));
                }
            }
            assert forall|x: usize|
                (x as int) < self.n() implies ((#[trigger] state@[x as int]
                == VisitState::Visited) <==> order@.contains(x)) by {
                if x != u {
                    assert(state@[x as int] == s1[x as int]);
                }
            }
            assert forall|x: usize, y: usize|
                (x as int) < self.n() && state@[x as int] == VisitState::Visited
                    && #[trigger] self.has_edge(x, y) implies state@[y as int]
                == VisitState::Visited by {
                self.lemma_edge_nodes(x, y);
                if x == u {
                    assert(s1[y as int] == VisitState::Visited);
                    assert(y != u);
                } else {
                    assert(s1[x as int] == VisitState::Visited);
                    assert(s1[y as int] == VisitState::Visited);
                    assert(y != u);
                }
            }
            assert forall|a: int, b: int|
                0 <= a <= b < order@.len() implies !self.has_edge(
                #[trigger] order@[a],
                #[trigger] order@[b],
            ) by {
                if b < o1.len() {
                    assert(order@[a] == o1[a] && order@[b] == o1[b]);
                } else if a < b {
                    let w = o1[a];
                    assert(order@[a] == w);
                    assert(o1.contains(w));
                    assert(s1[w as int] == VisitState::Visited);
                    if self.has_edge(w, u) {
                        assert(s1[u as int] == VisitState::Visited);
                    }
                }
            }
            assert(o0.is_prefix_of(order@)) by {
                assert forall|i: int| 0 <= i < o0.len() implies o0[i] == order@[i] by {
                    assert(o0[i] == o1[i]);
                }
                assert(o0 =~= order@.subrange(0, o0.len() as int));
            }
            assert forall|x: int|
                0 <= x < self.n() && s0[x] != VisitState::NotVisited implies #[trigger] state@[x]
                == s0[x] by {
                assert(x != u);
                assert(s1[x] == s0[x]);
            }
        }
        Ok(())
    }


    /// Runs the depth-first search from every node in turn: either every node
    /// is finished, in an order where nothing depends on what comes after it,
    /// or a path is found whose last node depends on a node on the path.
    fn run_dfs(&self) -> (r: Result<Vec<usize>, (Vec<usize>, usize)>)
        requires
            self.wf(),
        ensures
            r matches Ok(o) ==> self.is_dependency_order(o@),
            r matches Err(e) ==> self.cycle_witness(e.0@, e.1),
    {
        let n = self.nodes.len();
        let mut state: Vec<VisitState> = Vec::new();
        let mut i: usize = 0;
        while i < n
            invariant
                n == self.n(),
                i <= n,
                state@.len() == i,
                forall|k: int| 0 <= k < i ==> state@[k] == VisitState::NotVisited,
            decreases n - i,
        {
            state.push(VisitState::NotVisited);
            i = i + 1;
        }
        let mut path: Vec<usize> = Vec::new();
        let mut order: Vec<usize> = Vec::new();
        let mut i: usize = 0;
        while i < n
            invariant
                self.wf(),
                n == self.n(),
                i <= n,
                self.dfs_inv(state@, path@, order@),
                path@.len() == 0,
                forall|k: int| 0 <= k < i ==> state@[k] == VisitState::Visited,
            decreases n - i,
        {
            if state[i] == VisitState::NotVisited {
                let ghost s_before = state@;
                match self.dfs_visit(i, &mut state, &mut path, &mut order) {
                    Err(t) => {
                        return Err((path, t));
                    },
                    Ok(()) => {
                        assert forall|k: int| 0 <= k < i + 1 implies state@[k]
                            == VisitState::Visited by {
                            if k < i {
                                assert(s_before[k] == VisitState::Visited);
                            }
                        }
                    },
                }
            }
            i = i + 1;
        }
        proof {
            assert forall|x: usize| (x as int) < self.n() implies order@.contains(x) by {
                assert(state@[x as int] == VisitState::Visited);
            }
        }
        Ok(order)
    }

    /// A graph with a dependency order of all its nodes has no cycle.
    proof fn lemma_order_acyclic(&self, o: Seq<usize>)
        requires
            self.wf(),
            self.is_dependency_order(o),
        ensures
            !self.has_cycle(),
    {
        if self.has_cycle() {
            let c = choose|c: Seq<usize>| self.is_cycle(c);
            self.lemma_chain_positions(o, c, c.len() - 1);
            let a = o.index_of(c[0]);
            let b = o.index_of(c.last());
            assert(o.contains(c[0]) && o.contains(c.last()));
            assert(o[a] == c[0] && o[b] == c.last());
            assert(b <= a);
            assert(!self.has_edge(o[b], o[a]));
        }
    }

    /// Along a walk, positions in a dependency order never increase.
    proof fn lemma_chain_positions(&self, o: Seq<usize>, c: Seq<usize>, k: int)
        requires
            self.wf(),
            self.is_dependency_order(o),
            self.is_walk(c),
            0 <= k < c.len(),
        ensures
            o.index_of(c[k]) <= o.index_of(c[0]),
            0 <= o.index_of(c[k]) < o.len(),
            o[o.index_of(c[k])] == c[k],
        decreases k,
    {
        assert(o.contains(c[k]));
        if k > 0 {
            self.lemma_chain_positions(o, c, k - 1);
            let j = k - 1;
            assert(self.has_edge(c[j], c[j + 1]));
            assert(c[j + 1] == c[k]);
            assert(o.contains(c[k - 1]));
            let a = o.index_of(c[k - 1]);
            let b = o.index_of(c[k]);
            if a <= b {
                assert(!self.has_edge(o[a], o[b]));
            }
        } else {
            assert(o.contains(c[0]));
        }
    }

    /// The part of a cycle witness from the repeated node on is a cycle
    /// without repeated nodes.
    proof fn lemma_witness_cycle(&self, p: Seq<usize>, t: usize, i: int)
        requires
            self.wf(),
            self.cycle_witness(p, t),
            0 <= i < p.len(),
            p[i] == t,
        ensures
            self.is_cycle(p.subrange(i, p.len() as int)),
            p.subrange(i, p.len() as int).no_duplicates(),
            self.has_cycle(),
    {
        let c = p.subrange(i, p.len() as int);
        assert forall|k: int| 0 <= k < c.len() - 1 implies #[trigger] self.has_edge(c[k], c[k + 1]) by {
            assert(c[k] == p[i + k] && c[k + 1] == p[i + k + 1]);
        }
        assert forall|k: int| 0 <= k < c.len() implies (#[trigger] c[k] as int) < self.n() by {
            assert(c[k] == p[i + k]);
        }
        assert(c.last() == p.last());
        assert(self.is_cycle(c));
    }

    /// Checks the graph for circular dependencies and records the nodes of the
    /// cycle found. An acyclic graph gives `Ok(false)` and no recorded cycle
    /// nodes; otherwise the error lists a cycle, from the module where it is
    /// entered, and exactly its modules are recorded as cycle nodes.
    pub fn check_cycles(&mut self) -> (r: Result<bool, ModuleSystemError>)
        requires
            old(self).wf(),
        ensures
            final(self).wf(),
            final(self).node_ids() == old(self).node_ids(),
            final(self).edge_set() == old(self).edge_set(),
            forall|i: usize, j: usize| final(self).has_edge(i, j) == old(self).has_edge(i, j),
            r is Ok <==> !old(self).has_cycle(),
            r matches Ok(b) ==> !b && final(self).cycle_members() == Set::<usize>::empty(),
            r matches Err(e) ==> (e matches ModuleSystemError::CircularDependency(c) && exists|
                p: Seq<usize>,
            |
                #![trigger old(self).is_cycle(p)]
                old(self).is_cycle(p) && p.no_duplicates() && ids_of(c@) == old(self).ids_at(p)
                    && final(self).cycle_members() == p.to_set()),
    {
        let n = self.nodes.len();
        let outcome = self.run_dfs();
        match outcome {
            Ok(o) => {
                proof {
                    self.lemma_order_acyclic(o@);
                }
                let mut flags: Vec<bool> = Vec::new();
                let mut i: usize = 0;
                while i < n
                    invariant
                        i <= n,
                        flags@.len() == i,
                        forall|k: int| 0 <= k < i ==> !flags@[k],
                    decreases n - i,
                {
                    flags.push(false);
                    i = i + 1;
                }
                self.in_cycle = flags;
                self.cycles = Vec::new();
                assert(self.cycle_members() =~= Set::<usize>::empty());
                Ok(false)
            },
            Err((p, t)) => {
                let mut idx: usize = 0;
                while idx < p.len() && p[idx] != t
                    invariant
                        idx <= p@.len(),
                        forall|k: int| 0 <= k < idx ==> p@[k] != t,
                    decreases p@.len() - idx,
                {
                    idx = idx + 1;
                }
                proof {
                    if idx == p@.len() {
                        assert(p@.contains(t));
                        let k = choose|k: int| 0 <= k < p@.len() && p@[k] == t;
                        assert(false);
                    }
                    self.lemma_witness_cycle(p@, t, idx as int);
                }
                let mut cyc: Vec<usize> = Vec::new();
                let mut j: usize = idx;
                while j < p.len()
                    invariant
                        idx <= j <= p@.len(),
                        cyc@ == p@.subrange(idx as int, j as int),
                    decreases p@.len() - j,
                {
                    cyc.push(p[j]);
                    assert(p@.subrange(idx as int, j + 1) =~= p@.subrange(idx as int, j as int).push(
                        p@[j as int],
                    ));
                    j = j + 1;
                }
                let ghost c = cyc@;
                assert(c == p@.subrange(idx as int, p@.len() as int));
                let mut flags: Vec<bool> = Vec::new();
                let mut i: usize = 0;
                while i < n
                    invariant
                        i <= n,
                        flags@.len() == i,
                        forall|k: int| 0 <= k < i ==> !flags@[k],
                    decreases n - i,
                {
                    flags.push(false);
                    i = i + 1;
                }
                let mut m: usize = 0;
                while m < cyc.len()
                    invariant
                        n == self.n(),
                        cyc@ == c,
                        self.is_cycle(c),
                        m <= c.len(),
                        flags@.len() == n,
                        forall|x: usize|
                            (x as int) < n ==> (#[trigger] flags@[x as int] <==> c.take(
                                m as int,
                            ).contains(x)),
                    decreases c.len() - m,
                {
                    let x = cyc[m];
                    assert((x as int) < n);
                    flags.set(x, true);
                    proof {
                        assert(c.take(m + 1) =~= c.take(m as int).push(x));
                        assert forall|y: usize|
                            (y as int) < n implies (#[trigger] flags@[y as int] <==> c.take(
                                m + 1,
                            ).contains(y)) by {
                            assert(c.take(m + 1).contains(y) <==> (c.take(m as int).contains(y)
                                || y == x));
                        }
                    }
                    m = m + 1;
                }
                let ids = self.ids_for(&cyc);
                let ids2 = self.ids_for(&cyc);
                let ghost g0 = *self;
                self.in_cycle = flags;
                self.cycles = Vec::new();
                self.cycles.push(ids2);
                proof {
                    assert(c.take(c.len() as int) =~= c);
                    assert forall|x: usize| self.cycle_members().contains(x) <==> c.to_set().contains(x) by {
                        if c.contains(x) {
                            let k = choose|k: int| 0 <= k < c.len() && c[k] == x;
                            assert((x as int) < n);
                        }
                    }
                    assert(self.cycle_members() =~= c.to_set());
                    assert(self.node_ids() == g0.node_ids());
                    assert(self.ids_at(c) == g0.ids_at(c));
                }
                Err(ModuleSystemError::CircularDependency(ids))
            },
        }
    }

    /// Orders all modules so that every module comes after the modules it
    /// depends on; fails exactly when the graph has a circular dependency.
    pub fn topological_sort(&self) -> (r: Result<Vec<ModuleId>, ModuleSystemError>)
        requires
            self.wf(),
        ensures
            r is Ok <==> !self.has_cycle(),
            r matches Err(e) ==> e is CycleBlocksOrdering,
            r matches Ok(v) ==> {
                &&& ids_of(v@).no_duplicates()
                &&& v@.len() == self.n()
                &&& forall|x: ModuleIdView| self.has_node(x) <==> #[trigger] ids_of(v@).contains(x)
                &&& forall|a: int, b: int|
                    0 <= a <= b < v@.len() ==> !self.depends(#[trigger] v@[a]@, #[trigger] v@[b]@)
            },
    {
        match self.run_dfs() {
            Ok(o) => {
                let v = self.ids_for(&o);
                proof {
                    self.lemma_order_acyclic(o@);
                    self.lemma_ids_at(o@);
                    assert(ids_of(v@).len() == v@.len());
                    assert(self.ids_at(o@).len() == o@.len());
                    Self::lemma_len_bound(o@, self.n());
                    assert forall|x: ModuleIdView| self.has_node(x) implies #[trigger] ids_of(
                        v@,
                    ).contains(x) by {
                        let k = self.pos(x);
                        assert(0 <= k < self.n() && self.node_ids()[k] == x);
                        assert(o@.contains(k as usize));
                    }
                    assert forall|a: int, b: int|
                        0 <= a <= b < v@.len() implies !self.depends(
                        #[trigger] v@[a]@,
                        #[trigger] v@[b]@,
                    ) by {
                        assert(ids_of(v@)[a] == v@[a]@);
                        assert(ids_of(v@)[b] == v@[b]@);
                        assert((o@[a] as int) < self.n() && (o@[b] as int) < self.n());
                        self.lemma_pos(o@[a] as int);
                        self.lemma_pos(o@[b] as int);
                        assert(!self.has_edge(o@[a], o@[b]));
                    }
                }
                Ok(v)
            },
            Err(e) => {
                proof {
                    let p = e.0@;
                    let t = e.1;
                    let i = choose|i: int| 0 <= i < p.len() && p[i] == t;
                    self.lemma_witness_cycle(p, t, i);
                }
                Err(ModuleSystemError::CycleBlocksOrdering)
            },
        }
    }


    /// One step along an edge, forwards (`a` depends on `b`) or backwards
    /// (`b` depends on `a`).
    spec fn step(&self, forward: bool, a: usize, b: usize) -> bool {
        if forward {
            self.has_edge(a, b)
        } else {
            self.has_edge(b, a)
        }
    }

    /// Reachability from `s` forwards, or towards `s` backwards.
    spec fn reach_dir(&self, forward: bool, s: usize, x: usize) -> bool {
        if forward {
            self.reaches(s, x)
        } else {
            self.reaches(x, s)
        }
    }

    proof fn lemma_reach_self(&self, s: usize)
        requires
            self.wf(),
            (s as int) < self.n(),
        ensures
            self.reaches(s, s),
    {
        let p = seq![s];
        assert(self.is_walk(p));
    }

    proof fn lemma_reach_step(&self, forward: bool, s: usize, a: usize, b: usize)
        requires
            self.wf(),
            self.reach_dir(forward, s, a),
            self.step(forward, a, b),
        ensures
            self.reach_dir(forward, s, b),
    {
        if forward {
            let p = choose|p: Seq<usize>| #[trigger] self.is_walk(p) && p[0] == s && p.last() == a;
            self.lemma_edge_nodes(a, b);
            let q = p.push(b);
            assert forall|k: int| 0 <= k < q.len() - 1 implies #[trigger] self.has_edge(q[k], q[k + 1]) by {
                if k < p.len() - 1 {
                    assert(q[k] == p[k] && q[k + 1] == p[k + 1]);
                    assert(self.has_edge(p[k], p[k + 1]));
                } else {
                    assert(k == p.len() - 1);
                    assert(q[k] == p[k]);
                    assert(p[k] == a);
                    assert(q[k + 1] == b);
                    assert(self.has_edge(a, b));
                }
            }
            assert(self.is_walk(q));
        } else {
            let p = choose|p: Seq<usize>| #[trigger] self.is_walk(p) && p[0] == a && p.last() == s;
            self.lemma_edge_nodes(b, a);
            let q = seq![b] + p;
            assert forall|k: int| 0 <= k < q.len() - 1 implies #[trigger] self.has_edge(q[k], q[k + 1]) by {
                if k > 0 {
                    let j = k - 1;
                    assert(q[k] == p[j] && q[k + 1] == p[j + 1]);
                    assert(self.has_edge(p[j], p[j + 1]));
                } else {
                    assert(q[0] == b && q[1] == p[0]);
                }
            }
            assert forall|k: int| 0 <= k < q.len() implies (#[trigger] q[k] as int) < self.n() by {
                if k > 0 {
                    assert(q[k] == p[k - 1]);
                }
            }
            assert(self.is_walk(q));
            assert(q.last() == p.last());
        }
    }

    /// A set of nodes that holds the start of a walk (forwards) or its end
    /// (backwards) and is closed under steps holds every node of the walk.
    proof fn lemma_walk_closed(&self, forward: bool, res: Seq<usize>, p: Seq<usize>, k: int)
        requires
            self.wf(),
            self.is_walk(p),
            forall|a: usize, b: usize| res.contains(a) && #[trigger] self.step(forward, a, b) ==> res.contains(b),
            forward ==> res.contains(p[0]),
            !forward ==> res.contains(p.last()),
            0 <= k < p.len(),
        ensures
            res.contains(p[k]),
        decreases if forward {
            k
        } else {
            p.len() - k
        },
    {
        if forward {
            if k > 0 {
                self.lemma_walk_closed(forward, res, p, k - 1);
                let j = k - 1;
                assert(self.has_edge(p[j], p[j + 1]));
                assert(self.step(forward, p[j], p[k]));
            }
        } else {
            if k < p.len() - 1 {
                self.lemma_walk_closed(forward, res, p, k + 1);
                assert(self.has_edge(p[k], p[k + 1]));
                assert(self.step(forward, p[k + 1], p[k]));
            }
        }
    }

    /// Breadth-first search from node `s`, forwards along dependencies or
    /// backwards along dependents.
    fn bfs(&self, s: usize, forward: bool) -> (r: Vec<usize>)
        requires
            self.wf(),
            (s as int) < self.n(),
        ensures
            r@.no_duplicates(),
            forall|k: int| 0 <= k < r@.len() ==> (#[trigger] r@[k] as int) < self.n(),
            forall|x: usize| #[trigger] r@.contains(x) <==> ((x as int) < self.n() && self.reach_dir(forward, s, x)),
    {
        let n = self.nodes.len();
        proof {
            self.lemma_adjacency_bounds();
            self.lemma_reach_self(s);
        }
        let mut flags: Vec<bool> = Vec::new();
        let mut i: usize = 0;
        while i < n
            invariant
                i <= n,
                flags@.len() == i,
                forall|k: int| 0 <= k < i ==> !flags@[k],
            decreases n - i,
        {
            flags.push(false);
            i = i + 1;
        }
        let mut res: Vec<usize> = Vec::new();
        res.push(s);
        flags.set(s, true);
        let mut head: usize = 0;
        proof {
            assert forall|x: usize| (x as int) < n implies (#[trigger] flags@[x as int] <==> res@.contains(x)) by {
                if x == s {
                    assert(res@[0] == s);
                }
            }
        }
        while head < res.len()
            invariant
                self.wf(),
                n == self.n(),
                (s as int) < n,
                forall|i: int, m: int|
                    0 <= i < self.n() && 0 <= m < self.deps@[i]@.len() ==> (
                    #[trigger] self.deps@[i]@[m] as int) < self.n(),
                forall|i: int, m: int|
                    0 <= i < self.n() && 0 <= m < self.rdeps@[i]@.len() ==> (
                    #[trigger] self.rdeps@[i]@[m] as int) < self.n(),
                head <= res@.len(),
                res@.len() <= n,
                res@.no_duplicates(),
                res@.contains(s),
                flags@.len() == n,
                forall|k: int| 0 <= k < res@.len() ==> (#[trigger] res@[k] as int) < n,
                forall|x: usize| (x as int) < n ==> (#[trigger] flags@[x as int] <==> res@.contains(x)),
                forall|x: usize| #[trigger] res@.contains(x) ==> self.reach_dir(forward, s, x),
                forall|a: int, b: usize|
                    0 <= a < head && #[trigger] self.step(forward, res@[a], b) ==> res@.contains(b),
            decreases n - head,
        {
            let a = res[head];
            let adj: &Vec<usize> = if forward {
                &self.deps[a]
            } else {
                &self.rdeps[a]
            };
            proof {
                assert forall|b: usize| #[trigger] self.step(forward, a, b) <==> adj@.contains(b) by {
                }
            }
            let mut k: usize = 0;
            while k < adj.len()
                invariant
                    self.wf(),
                    n == self.n(),
                    (a as int) < n,
                    head < res@.len(),
                    res@[head as int] == a,
                    res@.no_duplicates(),
                    res@.contains(s),
                    flags@.len() == n,
                    forall|m: int| 0 <= m < adj@.len() ==> (#[trigger] adj@[m] as int) < n,
                    forall|b: usize| #[trigger] self.step(forward, a, b) <==> adj@.contains(b),
                    forall|k: int| 0 <= k < res@.len() ==> (#[trigger] res@[k] as int) < n,
                    forall|x: usize| (x as int) < n ==> (#[trigger] flags@[x as int] <==> res@.contains(x)),
                    forall|x: usize| #[trigger] res@.contains(x) ==> self.reach_dir(forward, s, x),
                    forall|a2: int, b: usize|
                        0 <= a2 < head && #[trigger] self.step(forward, res@[a2], b) ==> res@.contains(b),
                    forall|m: int| 0 <= m < k ==> res@.contains(#[trigger] adj@[m]),
                    k <= adj@.len(),
                decreases adj@.len() - k,
            {
                let b = adj[k];
                if !flags[b] {
                    let ghost old_res = res@;
                    proof {
                        assert(adj@.contains(b));
                        assert(res@.contains(a));
                        self.lemma_reach_step(forward, s, a, b);
                    }
                    res.push(b);
                    flags.set(b, true);
                    proof {
                        assert forall|x: usize| #[trigger] res@.contains(x) <==> (old_res.contains(x) || x == b) by {
                            if res@.contains(x) {
                                let j = choose|j: int| 0 <= j < res@.len() && res@[j] == x;
                                if j < old_res.len() {
                                    assert(old_res[j] == x);
                                }
                            }
                            if old_res.contains(x) {
                                let j = choose|j: int| 0 <= j < old_res.len() && old_res[j] == x;
                                assert(res@[j] == x);
                            }
                            if x == b {
                                assert(res@[old_res.len() as int] == b);
                            }
                        }
                        assert forall|x: usize| (x as int) < n implies (#[trigger] flags@[x as int] <==> res@.contains(x)) by {
                        }
                        assert forall|a2: int, c: usize|
                            0 <= a2 < head && #[trigger] self.step(forward, res@[a2], c) implies res@.contains(c) by {
                            assert(res@[a2] == old_res[a2]);
                        }
                        assert forall|m: int| 0 <= m < k + 1 implies res@.contains(#[trigger] adj@[m]) by {
                        }
                        assert(res@[head as int] == a);
                    }
                }
                k = k + 1;
            }
            proof {
                assert forall|a2: int, c: usize|
                    0 <= a2 < head + 1 && #[trigger] self.step(forward, res@[a2], c) implies res@.contains(c) by {
                    if a2 == head {
                        assert(adj@.contains(c));
                        let m = choose|m: int| 0 <= m < adj@.len() && adj@[m] == c;
                    }
                }
                Self::lemma_len_bound(res@, n as nat);
            }
            head = head + 1;
        }
        proof {
            assert forall|a: usize, b: usize| res@.contains(a) && #[trigger] self.step(forward, a, b) implies res@.contains(b) by {
                let j = choose|j: int| 0 <= j < res@.len() && res@[j] == a;
            }
            assert forall|x: usize| ((x as int) < n && self.reach_dir(forward, s, x)) implies #[trigger] res@.contains(x) by {
                if forward {
                    let p = choose|p: Seq<usize>| #[trigger] self.is_walk(p) && p[0] == s && p.last() == x;
                    self.lemma_walk_closed(forward, res@, p, p.len() - 1);
                } else {
                    let p = choose|p: Seq<usize>| #[trigger] self.is_walk(p) && p[0] == x && p.last() == s;
                    self.lemma_walk_closed(forward, res@, p, 0);
                }
            }
            assert forall|x: usize| #[trigger] res@.contains(x) implies (x as int) < n by {
                let j = choose|j: int| 0 <= j < res@.len() && res@[j] == x;
            }
        }
        res
    }

    /// The modules reachable from `start` by following dependencies, `start`
    /// included, each once.
    pub fn reachable_nodes(&self, start: &ModuleId) -> (r: Vec<ModuleId>)
        requires
            self.wf(),
        ensures
            ids_of(r@).no_duplicates(),
            forall|y: ModuleIdView| #[trigger] ids_of(r@).contains(y) <==> self.reachable_ids(start@).contains(y),
    {
        self.reach_from(start, true)
    }

    /// The modules from which `start` is reachable by following dependencies
    /// (the modules that depend on it, directly or not), `start` included,
    /// each once.
    pub fn reverse_reachable_nodes(&self, start: &ModuleId) -> (r: Vec<ModuleId>)
        requires
            self.wf(),
        ensures
            ids_of(r@).no_duplicates(),
            forall|y: ModuleIdView| #[trigger] ids_of(r@).contains(y) <==> self.reverse_reachable_ids(start@).contains(y),
    {
        self.reach_from(start, false)
    }

    fn reach_from(&self, start: &ModuleId, forward: bool) -> (r: Vec<ModuleId>)
        requires
            self.wf(),
        ensures
            ids_of(r@).no_duplicates(),
            forward ==> forall|y: ModuleIdView| #[trigger] ids_of(r@).contains(y) <==> self.reachable_ids(start@).contains(y),
            !forward ==> forall|y: ModuleIdView| #[trigger] ids_of(r@).contains(y) <==> self.reverse_reachable_ids(start@).contains(y),
    {
        match self.find(start) {
            None => {
                let r = vec![start.clone()];
                proof {
                    assert(ids_of(r@) =~= seq![start@]);
                    assert forall|y: ModuleIdView| #[trigger] ids_of(r@).contains(y) <==> y == start@ by {
                        if ids_of(r@).contains(y) {
                            let j = choose|j: int| 0 <= j < ids_of(r@).len() && ids_of(r@)[j] == y;
                        }
                        if y == start@ {
                            assert(ids_of(r@)[0] == y);
                        }
                    }
                }
                r
            },
            Some(i) => {
                let res = self.bfs(i, forward);
                let r = self.ids_for(&res);
                proof {
                    self.lemma_ids_at(res@);
                    assert forall|y: ModuleIdView| #[trigger] ids_of(r@).contains(y) <==> (self.has_node(y) && self.reach_dir(forward, i, self.pos(y) as usize)) by {
                        if self.has_node(y) {
                            let k = self.pos(y);
                            assert(0 <= k < self.n() && self.node_ids()[k] == y);
                        }
                    }
                }
                r
            },
        }
    }

    /// Reachability reverses: `b` is reachable from `a` exactly when `a` is
    /// among the modules from which `b` is reachable.
    pub proof fn lemma_reachability_reverses(&self, a: ModuleIdView, b: ModuleIdView)
        requires
            self.wf(),
        ensures
            self.reachable_ids(a).contains(b) <==> self.reverse_reachable_ids(b).contains(a),
    {
    }


    /// The DOT line of node `i`: red and filled when it was found on a cycle.
    pub open spec fn dot_node_line(&self, i: int) -> Seq<char> {
        "    \""@ + id_text(self.node_ids()[i]) + "\" "@ + if self.cycle_members().contains(i as usize) {
            "[color=red,style=filled,fillcolor=pink]"@
        } else {
            "[color=blue]"@
        } + ";\n"@
    }

    /// The DOT line of the `k`-th edge: red and thick when both ends were
    /// found on a cycle.
    pub open spec fn dot_edge_line(&self, k: int) -> Seq<char> {
        let (i, j) = self.edges()[k];
        "    \""@ + id_text(self.node_ids()[i as int]) + "\" -> \""@ + id_text(
            self.node_ids()[j as int],
        ) + "\" "@ + if self.cycle_members().contains(i) && self.cycle_members().contains(j) {
            "[color=red,penwidth=2.0]"@
        } else {
            "[color=black]"@
        } + ";\n"@
    }

    /// The lines of the first `k` nodes.
    pub open spec fn dot_node_lines(&self, k: int) -> Seq<char>
        decreases k,
    {
        if k <= 0 {
            Seq::empty()
        } else {
            self.dot_node_lines(k - 1) + self.dot_node_line(k - 1)
        }
    }

    /// The lines of the first `k` edges.
    pub open spec fn dot_edge_lines(&self, k: int) -> Seq<char>
        decreases k,
    {
        if k <= 0 {
            Seq::empty()
        } else {
            self.dot_edge_lines(k - 1) + self.dot_edge_line(k - 1)
        }
    }

    /// The graph in Graphviz DOT form: one line per node, in the order the
    /// nodes were added, then one line per edge, in the order the edges were
    /// added.
    pub open spec fn dot_text(&self) -> Seq<char> {
        "digraph dependencies {\n"@ + self.dot_node_lines(self.n() as int)
            + self.dot_edge_lines(self.edges().len() as int) + "}\n"@
    }

    /// The lines of the first `m` edges hold the line of each edge before
    /// the `m`-th.
    proof fn lemma_edge_lines_hold(&self, k: int, m: int)
        requires
            0 <= k < m,
        ensures
            text_holds(self.dot_edge_lines(m), self.dot_edge_line(k)),
        decreases m,
    {
        let prev = self.dot_edge_lines(m - 1);
        let line = self.dot_edge_line(m - 1);
        assert(self.dot_edge_lines(m) == prev + line);
        if k == m - 1 {
            assert((prev + line).subrange(prev.len() as int, (prev.len() + line.len()) as int) =~= line);
        } else {
            self.lemma_edge_lines_hold(k, m - 1);
            lemma_text_holds_within(prev, line, self.dot_edge_line(k));
        }
    }

    /// The lines of the first `m` nodes hold the line of each node before
    /// the `m`-th.
    proof fn lemma_node_lines_hold(&self, k: int, m: int)
        requires
            0 <= k < m,
        ensures
            text_holds(self.dot_node_lines(m), self.dot_node_line(k)),
        decreases m,
    {
        let prev = self.dot_node_lines(m - 1);
        let line = self.dot_node_line(m - 1);
        assert(self.dot_node_lines(m) == prev + line);
        if k == m - 1 {
            assert((prev + line).subrange(prev.len() as int, (prev.len() + line.len()) as int) =~= line);
        } else {
            self.lemma_node_lines_hold(k, m - 1);
            lemma_text_holds_within(prev, line, self.dot_node_line(k));
        }
    }

    /// What the node lines or the edge lines hold, the DOT text holds.
    proof fn lemma_dot_text_holds(&self, piece: Seq<char>)
        requires
            text_holds(self.dot_node_lines(self.n() as int), piece) || text_holds(
                self.dot_edge_lines(self.edges().len() as int),
                piece,
            ),
        ensures
            text_holds(self.dot_text(), piece),
    {
        let head = "digraph dependencies {\n"@;
        let nodes = self.dot_node_lines(self.n() as int);
        let es = self.dot_edge_lines(self.edges().len() as int);
        let tail = "}\n"@;
        lemma_text_holds_within(head, nodes, piece);
        lemma_text_holds_within(head + nodes, es, piece);
        lemma_text_holds_within(head + nodes + es, tail, piece);
    }

    /// The DOT text lists module `x` when it is a node.
    proof fn lemma_dot_shows_node(&self, x: ModuleIdView)
        requires
            self.wf(),
            self.has_node(x),
        ensures
            text_holds(self.dot_text(), "    \""@ + id_text(x) + "\" "@),
            text_holds(self.dot_text(), node_line_text(x, self.cycle_members().contains(self.pos(x) as usize))),
    {
        let i = self.pos(x);
        assert(self.node_ids().contains(x));
        assert(0 <= i < self.n() && self.node_ids()[i] == x);
        self.lemma_node_lines_hold(i, self.n() as int);
        let line = self.dot_node_line(i);
        let piece = "    \""@ + id_text(x) + "\" "@;
        let rest = if self.cycle_members().contains(i as usize) {
            "[color=red,style=filled,fillcolor=pink]"@
        } else {
            "[color=blue]"@
        } + ";\n"@;
        assert(line =~= piece + rest);
        assert(line =~= node_line_text(x, self.cycle_members().contains(i as usize)));
        self.lemma_dot_text_holds(line);
        lemma_text_holds_prefix(self.dot_node_lines(self.n() as int), piece, rest);
        self.lemma_dot_text_holds(piece);
    }

    /// The DOT text draws the dependency of `x` on `y` as an arrow from `x`
    /// to `y`.
    proof fn lemma_dot_shows_edge(&self, x: ModuleIdView, y: ModuleIdView)
        requires
            self.wf(),
            self.depends(x, y),
        ensures
            text_holds(self.dot_text(), edge_text(x, y)),
            text_holds(
                self.dot_text(),
                edge_line_text(
                    x,
                    y,
                    self.cycle_members().contains(self.pos(x) as usize) && self.cycle_members().contains(
                        self.pos(y) as usize,
                    ),
                ),
            ),
    {
        self.lemma_graph_facts();
        let i = self.pos(x) as usize;
        let j = self.pos(y) as usize;
        assert(self.node_ids().contains(x) && self.node_ids().contains(y));
        assert(self.node_ids()[i as int] == x && self.node_ids()[j as int] == y);
        assert(self.edge_set().contains((i, j)));
        assert(self.edges().to_set().contains((i, j)));
        assert(self.edges().contains((i, j)));
        let k = choose|k: int| 0 <= k < self.edges().len() && self.edges()[k] == (i, j);
        self.lemma_edge_lines_hold(k, self.edges().len() as int);
        let line = self.dot_edge_line(k);
        let piece = edge_text(x, y);
        let rest = if self.cycle_members().contains(i) && self.cycle_members().contains(j) {
            "[color=red,penwidth=2.0]"@
        } else {
            "[color=black]"@
        } + ";\n"@;
        assert(line =~= piece + rest);
        assert(line =~= edge_line_text(x, y, self.cycle_members().contains(i) && self.cycle_members().contains(j)));
        self.lemma_dot_text_holds(line);
        lemma_text_holds_prefix(self.dot_edge_lines(self.edges().len() as int), piece, rest);
        self.lemma_dot_text_holds(piece);
    }

    /// The DOT text draws every dependency as an arrow from the module that
    /// depends to the module it depends on, and lists every module.
    pub proof fn lemma_dot_shows_dependencies(&self, x: ModuleIdView, y: ModuleIdView)
        requires
            self.wf(),
        ensures
            self.depends(x, y) ==> text_holds(self.dot_text(), edge_text(x, y)),
            self.depends(x, y) ==> text_holds(
                self.dot_text(),
                edge_line_text(
                    x,
                    y,
                    self.cycle_members().contains(self.pos(x) as usize) && self.cycle_members().contains(
                        self.pos(y) as usize,
                    ),
                ),
            ),
            self.has_node(x) ==> text_holds(self.dot_text(), "    \""@ + id_text(x) + "\" "@),
            self.has_node(x) ==> text_holds(
                self.dot_text(),
                node_line_text(x, self.cycle_members().contains(self.pos(x) as usize)),
            ),
            self.dot_text().subrange(0, 23) == "digraph dependencies {\n"@,
            self.dot_text().subrange(self.dot_text().len() - 2, self.dot_text().len() as int) == "}\n"@,
    {
        let head = "digraph dependencies {\n"@;
        let mid = self.dot_node_lines(self.n() as int) + self.dot_edge_lines(self.edges().len() as int);
        let tail = "}\n"@;
        assert(self.dot_text() =~= head + mid + tail);
        assert(head.len() == 23) by {
            reveal_strlit("digraph dependencies {\n");
        }
        assert(tail.len() == 2) by {
            reveal_strlit("}\n");
        }
        assert((head + mid + tail).subrange(0, 23) =~= head);
        assert((head + mid + tail).subrange((head + mid + tail).len() - 2, (head + mid + tail).len() as int) =~= tail);
        if self.has_node(x) {
            self.lemma_dot_shows_node(x);
        }
        if self.depends(x, y) {
            self.lemma_dot_shows_edge(x, y);
        }
    }

    /// Writes the graph in Graphviz DOT form; modules on a cycle are drawn in
    /// red.
    pub fn to_dot(&self) -> (r: String)
        requires
            self.wf(),
        ensures
            r@ == self.dot_text(),
    {
        let mut result = String::from_str("digraph dependencies {\n");
        let ghost head = result@;
        let mut i: usize = 0;
        while i < self.nodes.len()
            invariant
                self.wf(),
                i <= self.nodes@.len(),
                result@ == head + self.dot_node_lines(i as int),
            decreases self.nodes@.len() - i,
        {
            let t = self.nodes[i].to_string();
            result.append("    \"");
            result.append(t.as_str());
            result.append("\" ");
            if self.in_cycle[i] {
                result.append("[color=red,style=filled,fillcolor=pink]");
            } else {
                result.append("[color=blue]");
            }
            result.append(";\n");
            proof {
                assert(result@ =~= head + self.dot_node_lines(i as int) + self.dot_node_line(
                    i as int,
                ));
            }
            i = i + 1;
        }
        let ghost mid = result@;
        let mut k: usize = 0;
        while k < self.edge_list.len()
            invariant
                self.wf(),
                k <= self.edge_list@.len(),
                result@ == mid + self.dot_edge_lines(k as int),
            decreases self.edge_list@.len() - k,
        {
            let (a, b) = self.edge_list[k];
            proof {
                assert(self.edge_list@[k as int].0 < self.n());
            }
            let ta = self.nodes[a].to_string();
            let tb = self.nodes[b].to_string();
            result.append("    \"");
            result.append(ta.as_str());
            result.append("\" -> \"");
            result.append(tb.as_str());
            result.append("\" ");
            if self.in_cycle[a] && self.in_cycle[b] {
                result.append("[color=red,penwidth=2.0]");
            } else {
                result.append("[color=black]");
            }
            result.append(";\n");
            proof {
                assert(result@ =~= mid + self.dot_edge_lines(k as int) + self.dot_edge_line(
                    k as int,
                ));
            }
            k = k + 1;
        }
        result.append("}\n");
        result
    }

} // impl

impl Default for DependencyGraph {
    fn default() -> (r: Self)
        ensures
            r.wf(),
            r.node_ids() == Seq::<ModuleIdView>::empty(),
            r.edge_set() == Set::<(usize, usize)>::empty(),
    {
        DependencyGraph::new()
    }
}

/// A list of nodes with `x` added unless it is already there.
pub open spec fn with_node(s: Seq<ModuleIdView>, x: ModuleIdView) -> Seq<ModuleIdView> {
    if s.contains(x) {
        s
    } else {
        s.push(x)
    }
}

/// Whether a list of positions holds `x`.
fn vec_contains(v: &Vec<usize>, x: usize) -> (r: bool)
    ensures
        r == v@.contains(x),
{
    let mut i: usize = 0;
    while i < v.len()
        invariant
            i <= v.len(),
            forall|k: int| 0 <= k < i ==> v@[k] != x,
        decreases v.len() - i,
    {
        if v[i] == x {
            return true;
        }
        i = i + 1;
    }
    false
}

/// Copies a list of positions.
fn copy_indices(v: &Vec<usize>) -> (r: Vec<usize>)
    ensures
        r@ == v@,
{
    let mut r: Vec<usize> = Vec::new();
    let mut i: usize = 0;
    while i < v.len()
        invariant
            i <= v.len(),
            r@ == v@.take(i as int),
        decreases v.len() - i,
    {
        r.push(v[i]);
        assert(v@.take(i + 1) =~= v@.take(i as int).push(v@[i as int]));
        i = i + 1;
    }
    assert(v@.take(v.len() as int) =~= v@);
    r
}

} // verus!
