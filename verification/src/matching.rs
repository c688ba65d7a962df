//! Matching engine: the ordered step pipeline and the partial match state.
//!
//! Matching pairs the nodes of a primary and a secondary graph.  Each
//! configured step proposes pairings; a pairing is accepted only while both
//! sides are still unmatched, so no node ever stands in two pairs.  The
//! engine repeats the whole step list until one pass adds nothing: a fixed
//! point.  Every transition is mirrored by a specification function of the
//! state, so the outcome is a pure function of the inputs.

use vstd::prelude::*;

use crate::config::Config;
use crate::config::MatchingStep;
use crate::config::step_list_is_valid;
use crate::config::valid_step_list;
use crate::graphs::Binary;
use crate::graphs::CallGraphEdge;
use crate::graphs::CALL_GRAPH_NODE_NAME;
use crate::graphs::CALL_GRAPH_NODE_DEMANGLED_NAME;
use crate::mdindex::call_graph_wf;
use crate::mdindex::fg_at;
use crate::mdindex::flow_graph_at;
use crate::mdindex::flow_graphs_wf;
use crate::mdindex::node_md;
use crate::mdindex::node_md_spec;

verus! {

/// The similarity scale: this value stands for a perfect `1.0`.
pub const SIMILARITY_ONE: u64 = 1000000;

/// The floor under which the similarity-ranked step proposes nothing.
pub const SIMILARITY_FLOOR: u64 = 500000;

/// One node offered to the matching engine: the attributes the steps may
/// consult, detached from the graph store.
pub struct MatchItem {
    pub address: u64,
    pub name: String,
    pub has_real_name: bool,
    pub demangled_name: String,
    pub has_demangled_name: bool,
    pub md_index: u64,
    pub basic_block_count: u32,
    pub edge_count: u32,
    pub instruction_count: u32,
    pub neighbors: Vec<usize>,
}

/// The closed set of matching strategies the pipeline can run.
#[derive(Clone, Copy, Debug, PartialEq, Eq, Structural)]
pub enum StepKind {
    /// Identical MD-index plus identical instruction and edge counts.
    IdenticalStructure,
    /// Identical symbolic or demangled name.
    NameMatch,
    /// Every neighbor already matched, onto exactly the candidate's neighbors.
    CallGraphContext,
    /// Best-scoring unmatched candidate above the similarity floor.
    SimilarityRank,
}

/// One accepted pairing: a primary node, its secondary counterpart, the
/// similarity and confidence scores, and the step that produced it.
#[derive(Clone, Copy, Debug, PartialEq, Eq, Structural)]
pub struct MatchedPair {
    pub primary_index: usize,
    pub secondary_index: usize,
    pub primary_address: u64,
    pub secondary_address: u64,
    pub similarity: u64,
    pub confidence: u64,
    pub step: StepKind,
}

/// The partial match state: both directions of the pairing map, plus the
/// accepted pairs in acceptance order.
pub struct MatchDb {
    pub primary_to_secondary: Vec<Option<usize>>,
    pub secondary_to_primary: Vec<Option<usize>>,
    pub pairs: Vec<MatchedPair>,
}

/// The mathematical state of a [`MatchDb`].
pub ghost struct MatchView {
    pub p2s: Seq<Option<usize>>,
    pub s2p: Seq<Option<usize>>,
    pub pairs: Seq<MatchedPair>,
}

impl MatchDb {
    /// The state this database holds.
    pub open spec fn view_state(self) -> MatchView {
        MatchView {
            p2s: self.primary_to_secondary@,
            s2p: self.secondary_to_primary@,
            pairs: self.pairs@,
        }
    }
}

/// How many nodes a pairing map has matched.
pub open spec fn count_matched(m: Seq<Option<usize>>) -> int
    decreases m.len(),
{
    if m.len() == 0 {
        0
    } else {
        count_matched(m.drop_last()) + if m.last() is Some {
            1int
        } else {
            0int
        }
    }
}

proof fn lemma_count_matched_bound(m: Seq<Option<usize>>)
    ensures
        0 <= count_matched(m) <= m.len(),
    decreases m.len(),
{
    if m.len() > 0 {
        lemma_count_matched_bound(m.drop_last());
    }
}

proof fn lemma_count_matched_update(m: Seq<Option<usize>>, i: int, v: usize)
    requires
        0 <= i < m.len(),
        m[i] is None,
    ensures
        count_matched(m.update(i, Some(v))) == count_matched(m) + 1,
    decreases m.len(),
{
    let u = m.update(i, Some(v));
    if i == m.len() - 1 {
        assert(u.drop_last() =~= m.drop_last());
    } else {
        assert(u.drop_last() =~= m.drop_last().update(i, Some(v)));
        lemma_count_matched_update(m.drop_last(), i, v);
        assert(u.last() == m.last());
    }
}

/// The well-formedness of a match state over `np` primary and `ns`
/// secondary nodes: the two maps mirror each other, the pair list mirrors
/// the maps, and no node stands in two pairs.
pub open spec fn view_wf(v: MatchView, np: int, ns: int) -> bool {
    &&& v.p2s.len() == np
    &&& v.s2p.len() == ns
    &&& forall|i: int|
        0 <= i < np && (#[trigger] v.p2s[i]) is Some ==> v.p2s[i]->0 < ns && v.s2p[v.p2s[i]->0
            as int] == Some(i as usize)
    &&& forall|j: int|
        0 <= j < ns && (#[trigger] v.s2p[j]) is Some ==> v.s2p[j]->0 < np && v.p2s[v.s2p[j]->0
            as int] == Some(j as usize)
    &&& v.pairs.len() == count_matched(v.p2s)
    &&& v.pairs.len() == count_matched(v.s2p)
    &&& forall|k: int|
        0 <= k < v.pairs.len() ==> (#[trigger] v.pairs[k]).primary_index < np
            && v.pairs[k].secondary_index < ns && v.p2s[v.pairs[k].primary_index as int] == Some(
            v.pairs[k].secondary_index,
        ) && v.s2p[v.pairs[k].secondary_index as int] == Some(v.pairs[k].primary_index)
    &&& forall|k1: int, k2: int|
        0 <= k1 < k2 < v.pairs.len() ==> (#[trigger] v.pairs[k1]).primary_index != (
        #[trigger] v.pairs[k2]).primary_index && v.pairs[k1].secondary_index
            != v.pairs[k2].secondary_index
}

/// The absolute difference of two counts.
pub open spec fn metric_distance(a: int, b: int) -> int {
    if a >= b {
        a - b
    } else {
        b - a
    }
}

/// The structural similarity of two nodes, on the `SIMILARITY_ONE` scale:
/// full score minus a weighted penalty for differing block, edge and
/// instruction counts and for differing MD-indices, never below zero.
pub open spec fn similarity_spec(p: MatchItem, s: MatchItem) -> int {
    let penalty = 1000 * (metric_distance(
        p.basic_block_count as int,
        s.basic_block_count as int,
    ) + metric_distance(p.edge_count as int, s.edge_count as int) + metric_distance(
        p.instruction_count as int,
        s.instruction_count as int,
    )) + if p.md_index == s.md_index {
        0int
    } else {
        200000int
    };
    if penalty >= SIMILARITY_ONE {
        0
    } else {
        SIMILARITY_ONE - penalty
    }
}

/// Computes the structural similarity of two nodes.
pub fn similarity(p: &MatchItem, s: &MatchItem) -> (r: u64)
    ensures
        r == similarity_spec(*p, *s),
        r <= SIMILARITY_ONE,
{
    let bb = if p.basic_block_count >= s.basic_block_count {
        p.basic_block_count - s.basic_block_count
    } else {
        s.basic_block_count - p.basic_block_count
    };
    let ec = if p.edge_count >= s.edge_count {
        p.edge_count - s.edge_count
    } else {
        s.edge_count - p.edge_count
    };
    let ic = if p.instruction_count >= s.instruction_count {
        p.instruction_count - s.instruction_count
    } else {
        s.instruction_count - p.instruction_count
    };
    let penalty: u64 = 1000 * ((bb as u64) + (ec as u64) + (ic as u64)) + if p.md_index
        == s.md_index {
        0
    } else {
        200000
    };
    if penalty >= SIMILARITY_ONE {
        0
    } else {
        SIMILARITY_ONE - penalty
    }
}

/// The step a configured name selects, if the name is known.
pub open spec fn step_of_name_spec(n: Seq<char>) -> Option<StepKind> {
    if n == "identical"@ {
        Some(StepKind::IdenticalStructure)
    } else if n == "name"@ {
        Some(StepKind::NameMatch)
    } else if n == "context"@ {
        Some(StepKind::CallGraphContext)
    } else if n == "similarity"@ {
        Some(StepKind::SimilarityRank)
    } else {
        None
    }
}

/// Resolves a configured step name through the registry of supported
/// strategies; an unknown name is a configuration error.
pub fn step_of_name(name: &String) -> (r: Option<StepKind>)
    ensures
        r == step_of_name_spec(name@),
{
    if *name == String::from_str("identical") {
        Some(StepKind::IdenticalStructure)
    } else if *name == String::from_str("name") {
        Some(StepKind::NameMatch)
    } else if *name == String::from_str("context") {
        Some(StepKind::CallGraphContext)
    } else if *name == String::from_str("similarity") {
        Some(StepKind::SimilarityRank)
    } else {
        None
    }
}

/// The built-in default step order: strongest evidence first.
pub open spec fn default_steps_spec() -> Seq<StepKind> {
    seq![
        StepKind::IdenticalStructure,
        StepKind::NameMatch,
        StepKind::CallGraphContext,
        StepKind::SimilarityRank,
    ]
}

/// The built-in default step list, used whenever a configured list is
/// empty or invalid.
pub fn default_steps() -> (r: Vec<StepKind>)
    ensures
        r@ == default_steps_spec(),
{
    let mut r: Vec<StepKind> = Vec::new();
    r.push(StepKind::IdenticalStructure);
    r.push(StepKind::NameMatch);
    r.push(StepKind::CallGraphContext);
    r.push(StepKind::SimilarityRank);
    proof {
        assert(r@ =~= default_steps_spec());
    }
    r
}

/// The registry name of each step.
pub open spec fn step_name_spec(step: StepKind) -> Seq<char> {
    match step {
        StepKind::IdenticalStructure => "identical"@,
        StepKind::NameMatch => "name"@,
        StepKind::CallGraphContext => "context"@,
        StepKind::SimilarityRank => "similarity"@,
    }
}

impl StepKind {
    /// The registry name of this step.
    pub fn name(&self) -> (r: String)
        ensures
            r@ == step_name_spec(*self),
    {
        match self {
            StepKind::IdenticalStructure => String::from_str("identical"),
            StepKind::NameMatch => String::from_str("name"),
            StepKind::CallGraphContext => String::from_str("context"),
            StepKind::SimilarityRank => String::from_str("similarity"),
        }
    }

    /// The base confidence of a pairing this step produces: exact and
    /// name-based evidence scores highest, weaker evidence lower.
    pub open spec fn base_confidence_spec(self) -> int {
        match self {
            StepKind::IdenticalStructure => 1000000,
            StepKind::NameMatch => 900000,
            StepKind::CallGraphContext => 800000,
            StepKind::SimilarityRank => 700000,
        }
    }
}

/// Whether every neighbor of primary node `i` is already matched.
pub open spec fn all_neighbors_matched(
    p: Seq<MatchItem>,
    p2s: Seq<Option<usize>>,
    i: int,
) -> bool {
    forall|t: int|
        0 <= t < p[i].neighbors@.len() ==> (#[trigger] p[i].neighbors@[t]) < p2s.len()
            && p2s[p[i].neighbors@[t] as int] is Some
}

/// Whether `m` is the match of some neighbor of primary node `i`.
pub open spec fn mapped_neighbor(
    p: Seq<MatchItem>,
    p2s: Seq<Option<usize>>,
    i: int,
    m: usize,
) -> bool {
    exists|t: int|
        0 <= t < p[i].neighbors@.len() && (#[trigger] p[i].neighbors@[t]) < p2s.len()
            && p2s[p[i].neighbors@[t] as int] == Some(m)
}

/// The call-graph context rule: primary node `i` has neighbors, all of them
/// matched, and their matches are exactly the neighbors of secondary node
/// `j`.
pub open spec fn context_eligible_spec(
    p: Seq<MatchItem>,
    s: Seq<MatchItem>,
    p2s: Seq<Option<usize>>,
    i: int,
    j: int,
) -> bool {
    &&& p[i].neighbors@.len() > 0
    &&& all_neighbors_matched(p, p2s, i)
    &&& forall|t: int|
        0 <= t < p[i].neighbors@.len() ==> s[j].neighbors@.contains(
            p2s[(#[trigger] p[i].neighbors@[t]) as int]->0,
        )
    &&& forall|u: int|
        0 <= u < s[j].neighbors@.len() ==> mapped_neighbor(p, p2s, i, #[trigger] s[j].neighbors@[u])
}

/// Whether step `step` may pair primary node `i` with secondary node `j` in
/// the given state: both sides in range and still unmatched, and the step's
/// own rule satisfied.
pub open spec fn eligible_spec(
    step: StepKind,
    p: Seq<MatchItem>,
    s: Seq<MatchItem>,
    p2s: Seq<Option<usize>>,
    s2p: Seq<Option<usize>>,
    i: int,
    j: int,
) -> bool {
    &&& 0 <= i < p.len()
    &&& 0 <= j < s.len()
    &&& i < p2s.len() && p2s[i] is None
    &&& j < s2p.len() && s2p[j] is None
    &&& match step {
        StepKind::IdenticalStructure => p[i].md_index == s[j].md_index && p[i].instruction_count
            == s[j].instruction_count && p[i].edge_count == s[j].edge_count,
        StepKind::NameMatch => (p[i].has_real_name && s[j].has_real_name && p[i].name@
            == s[j].name@) || (p[i].has_demangled_name && s[j].has_demangled_name
            && p[i].demangled_name@ == s[j].demangled_name@),
        StepKind::CallGraphContext => context_eligible_spec(p, s, p2s, i, j),
        StepKind::SimilarityRank => similarity_spec(p[i], s[j]) >= SIMILARITY_FLOOR,
    }
}

fn vec_contains(v: &Vec<usize>, x: usize) -> (r: bool)
    ensures
        r == v@.contains(x),
{
    let mut t: usize = 0;
    while t < v.len()
        invariant
            t <= v@.len(),
            forall|k: int| 0 <= k < t ==> v@[k] != x,
        decreases v@.len() - t,
    {
        if v[t] == x {
            proof {
                assert(v@[t as int] == x);
            }
            return true;
        }
        t = t + 1;
    }
    false
}

fn is_mapped_neighbor(
    p: &Vec<MatchItem>,
    p2s: &Vec<Option<usize>>,
    i: usize,
    m: usize,
) -> (r: bool)
    requires
        i < p@.len(),
    ensures
        r == mapped_neighbor(p@, p2s@, i as int, m),
{
    let nbrs = &p[i].neighbors;
    let mut t: usize = 0;
    while t < nbrs.len()
        invariant
            t <= nbrs@.len(),
            nbrs@ == p@[i as int].neighbors@,
            i < p@.len(),
            forall|k: int|
                0 <= k < t ==> !((#[trigger] nbrs@[k]) < p2s@.len() && p2s@[nbrs@[k] as int]
                    == Some(m)),
        decreases nbrs@.len() - t,
    {
        let nbr = nbrs[t];
        if nbr < p2s.len() {
            match p2s[nbr] {
                Some(mm) => {
                    if mm == m {
                        proof {
                            assert(nbrs@[t as int] < p2s@.len() && p2s@[nbrs@[t as int] as int]
                                == Some(m));
                        }
                        return true;
                    }
                },
                None => {},
            }
        }
        t = t + 1;
    }
    false
}

fn context_eligible(
    p: &Vec<MatchItem>,
    s: &Vec<MatchItem>,
    p2s: &Vec<Option<usize>>,
    i: usize,
    j: usize,
) -> (r: bool)
    requires
        i < p@.len(),
        j < s@.len(),
    ensures
        r == context_eligible_spec(p@, s@, p2s@, i as int, j as int),
{
    let n_nbrs = p[i].neighbors.len();
    if n_nbrs == 0 {
        return false;
    }
    let mut t: usize = 0;
    while t < n_nbrs
        invariant
            t <= n_nbrs,
            i < p@.len(),
            j < s@.len(),
            n_nbrs == p@[i as int].neighbors@.len(),
            forall|k: int|
                0 <= k < t ==> (#[trigger] p@[i as int].neighbors@[k]) < p2s@.len()
                    && p2s@[p@[i as int].neighbors@[k] as int] is Some,
            forall|k: int|
                0 <= k < t ==> s@[j as int].neighbors@.contains(
                    p2s@[(#[trigger] p@[i as int].neighbors@[k]) as int]->0,
                ),
        decreases n_nbrs - t,
    {
        let nbr = p[i].neighbors[t];
        if nbr >= p2s.len() {
            return false;
        }
        match p2s[nbr] {
            None => {
                return false;
            },
            Some(m) => {
                if !vec_contains(&s[j].neighbors, m) {
                    return false;
                }
            },
        }
        t = t + 1;
    }
    let n_snbrs = s[j].neighbors.len();
    let mut u: usize = 0;
    while u < n_snbrs
        invariant
            u <= n_snbrs,
            i < p@.len(),
            j < s@.len(),
            n_snbrs == s@[j as int].neighbors@.len(),
            n_nbrs == p@[i as int].neighbors@.len(),
            n_nbrs > 0,
            all_neighbors_matched(p@, p2s@, i as int),
            forall|k: int|
                0 <= k < n_nbrs ==> s@[j as int].neighbors@.contains(
                    p2s@[(#[trigger] p@[i as int].neighbors@[k]) as int]->0,
                ),
            forall|k: int|
                0 <= k < u ==> mapped_neighbor(p@, p2s@, i as int, #[trigger] s@[j as int].neighbors@[k]),
        decreases n_snbrs - u,
    {
        let m = s[j].neighbors[u];
        if !is_mapped_neighbor(p, p2s, i, m) {
            return false;
        }
        u = u + 1;
    }
    true
}

/// Decides step eligibility in the given state.
pub fn eligible(
    step: StepKind,
    p: &Vec<MatchItem>,
    s: &Vec<MatchItem>,
    p2s: &Vec<Option<usize>>,
    s2p: &Vec<Option<usize>>,
    i: usize,
    j: usize,
) -> (r: bool)
    requires
        i < p@.len(),
        j < s@.len(),
    ensures
        r == eligible_spec(step, p@, s@, p2s@, s2p@, i as int, j as int),
{
    if i >= p2s.len() || j >= s2p.len() {
        return false;
    }
    if p2s[i].is_some() || s2p[j].is_some() {
        return false;
    }
    match step {
        StepKind::IdenticalStructure => {
            p[i].md_index == s[j].md_index && p[i].instruction_count == s[j].instruction_count
                && p[i].edge_count == s[j].edge_count
        },
        StepKind::NameMatch => {
            (p[i].has_real_name && s[j].has_real_name && p[i].name == s[j].name) || (
            p[i].has_demangled_name && s[j].has_demangled_name && p[i].demangled_name
                == s[j].demangled_name)
        },
        StepKind::CallGraphContext => context_eligible(p, s, p2s, i, j),
        StepKind::SimilarityRank => similarity(&p[i], &s[j]) >= SIMILARITY_FLOOR,
    }
}


/// Whether secondary node `j` beats the current best `b` for primary `i`:
/// a strictly higher similarity, or the same similarity at a lower address.
pub open spec fn better_candidate(p: Seq<MatchItem>, s: Seq<MatchItem>, i: int, j: int, b: int) -> bool {
    ||| similarity_spec(p[i], s[j]) > similarity_spec(p[i], s[b])
    ||| (similarity_spec(p[i], s[j]) == similarity_spec(p[i], s[b]) && s[j].address < s[b].address)
}

/// The step's choice for primary `i` among the secondary nodes below `n`:
/// the eligible candidate with the highest similarity, ties broken by the
/// lowest secondary address, then by the earliest index.
pub open spec fn best_candidate_upto(
    step: StepKind,
    p: Seq<MatchItem>,
    s: Seq<MatchItem>,
    p2s: Seq<Option<usize>>,
    s2p: Seq<Option<usize>>,
    i: int,
    n: int,
) -> Option<int>
    decreases n,
{
    if n <= 0 {
        None
    } else {
        let prev = best_candidate_upto(step, p, s, p2s, s2p, i, n - 1);
        if eligible_spec(step, p, s, p2s, s2p, i, n - 1) {
            match prev {
                None => Some(n - 1),
                Some(b) => if better_candidate(p, s, i, n - 1, b) {
                    Some(n - 1)
                } else {
                    Some(b)
                },
            }
        } else {
            prev
        }
    }
}

/// The best similarity any eligible candidate other than `best` reaches
/// below `n`; `-1` when there is no other candidate.
pub open spec fn runner_score_upto(
    step: StepKind,
    p: Seq<MatchItem>,
    s: Seq<MatchItem>,
    p2s: Seq<Option<usize>>,
    s2p: Seq<Option<usize>>,
    i: int,
    n: int,
    best: int,
) -> int
    decreases n,
{
    if n <= 0 {
        -1
    } else {
        let prev = runner_score_upto(step, p, s, p2s, s2p, i, n - 1, best);
        if n - 1 != best && eligible_spec(step, p, s, p2s, s2p, i, n - 1) && similarity_spec(
            p[i],
            s[n - 1],
        ) > prev {
            similarity_spec(p[i], s[n - 1])
        } else {
            prev
        }
    }
}

/// The confidence of a pairing: the producing step's base confidence; for
/// the similarity-ranked step, scaled by the similarity margin over the
/// runner-up candidate.
pub open spec fn confidence_spec(step: StepKind, best_score: int, runner: int) -> int {
    match step {
        StepKind::SimilarityRank => {
            let margin = if runner < 0 {
                1000000int
            } else if best_score >= runner {
                best_score - runner
            } else {
                0int
            };
            margin * 700000 / 1000000
        },
        _ => step.base_confidence_spec(),
    }
}

/// The pair record an acceptance writes for primary `i` and secondary `j`.
pub open spec fn pair_spec(
    step: StepKind,
    p: Seq<MatchItem>,
    s: Seq<MatchItem>,
    p2s: Seq<Option<usize>>,
    s2p: Seq<Option<usize>>,
    i: int,
    j: int,
) -> MatchedPair {
    let score = similarity_spec(p[i], s[j]);
    let runner = runner_score_upto(step, p, s, p2s, s2p, i, s.len() as int, j);
    MatchedPair {
        primary_index: i as usize,
        secondary_index: j as usize,
        primary_address: p[i].address,
        secondary_address: s[j].address,
        similarity: score as u64,
        confidence: confidence_spec(step, score, runner) as u64,
        step,
    }
}

/// Accepting a pair: both map directions claim it and the pair is appended.
pub open spec fn accept_spec(v: MatchView, pair: MatchedPair) -> MatchView {
    MatchView {
        p2s: v.p2s.update(pair.primary_index as int, Some(pair.secondary_index)),
        s2p: v.s2p.update(pair.secondary_index as int, Some(pair.primary_index)),
        pairs: v.pairs.push(pair),
    }
}

/// One step's attempt at primary node `i`: accept the best eligible
/// candidate, or leave the state alone.
pub open spec fn step_try_spec(
    step: StepKind,
    p: Seq<MatchItem>,
    s: Seq<MatchItem>,
    v: MatchView,
    i: int,
) -> MatchView {
    if 0 <= i < p.len() && i < v.p2s.len() && v.p2s[i] is None {
        match best_candidate_upto(step, p, s, v.p2s, v.s2p, i, s.len() as int) {
            Some(j) => accept_spec(v, pair_spec(step, p, s, v.p2s, v.s2p, i, j)),
            None => v,
        }
    } else {
        v
    }
}

/// One step's sweep over the primaries from `i` on, in index order.
pub open spec fn apply_step_spec(
    step: StepKind,
    p: Seq<MatchItem>,
    s: Seq<MatchItem>,
    v: MatchView,
    i: int,
) -> MatchView
    decreases p.len() - i,
{
    if i < 0 || i >= p.len() {
        v
    } else {
        apply_step_spec(step, p, s, step_try_spec(step, p, s, v, i), i + 1)
    }
}

/// One full pass: every step from `k` on, in configured order, each
/// sweeping all primaries.
pub open spec fn run_steps_spec(
    steps: Seq<StepKind>,
    p: Seq<MatchItem>,
    s: Seq<MatchItem>,
    v: MatchView,
    k: int,
) -> MatchView
    decreases steps.len() - k,
{
    if k < 0 || k >= steps.len() {
        v
    } else {
        run_steps_spec(steps, p, s, apply_step_spec(steps[k], p, s, v, 0), k + 1)
    }
}

/// One full pass of the whole configured step list.
pub open spec fn pass_spec(
    steps: Seq<StepKind>,
    p: Seq<MatchItem>,
    s: Seq<MatchItem>,
    v: MatchView,
) -> MatchView {
    run_steps_spec(steps, p, s, v, 0)
}

/// What every recorded pair satisfies: indices in range, the addresses and
/// the similarity taken from the items, and the confidence within the
/// producing step's base confidence.
pub open spec fn pair_recorded(p: Seq<MatchItem>, s: Seq<MatchItem>, pair: MatchedPair) -> bool {
    &&& (pair.primary_index as int) < p.len()
    &&& (pair.secondary_index as int) < s.len()
    &&& pair.primary_address == p[pair.primary_index as int].address
    &&& pair.secondary_address == s[pair.secondary_index as int].address
    &&& pair.similarity == similarity_spec(p[pair.primary_index as int], s[pair.secondary_index as int])
    &&& pair.confidence <= pair.step.base_confidence_spec()
}

/// Whether every pair of the state is recorded faithfully.
pub open spec fn pairs_recorded(v: MatchView, p: Seq<MatchItem>, s: Seq<MatchItem>) -> bool {
    forall|k: int| 0 <= k < v.pairs.len() ==> pair_recorded(p, s, #[trigger] v.pairs[k])
}

/// A chosen best candidate is eligible.
proof fn lemma_best_eligible(
    step: StepKind,
    p: Seq<MatchItem>,
    s: Seq<MatchItem>,
    p2s: Seq<Option<usize>>,
    s2p: Seq<Option<usize>>,
    i: int,
    n: int,
)
    ensures
        best_candidate_upto(step, p, s, p2s, s2p, i, n) matches Some(j) ==> 0 <= j < n
            && eligible_spec(step, p, s, p2s, s2p, i, j),
    decreases n,
{
    if n > 0 {
        lemma_best_eligible(step, p, s, p2s, s2p, i, n - 1);
    }
}

/// The similarity score stays on its scale.
proof fn lemma_similarity_bounds(p: MatchItem, s: MatchItem)
    ensures
        0 <= similarity_spec(p, s) <= SIMILARITY_ONE,
{
}

/// Confidence stays within the producing step's base confidence.
proof fn lemma_confidence_bounds(step: StepKind, best_score: int, runner: int)
    requires
        0 <= best_score <= SIMILARITY_ONE,
    ensures
        0 <= confidence_spec(step, best_score, runner) <= step.base_confidence_spec(),
{
    match step {
        StepKind::SimilarityRank => {
            let margin = if runner < 0 {
                1000000int
            } else if best_score >= runner {
                best_score - runner
            } else {
                0int
            };
            assert(0 <= margin <= 1000000);
            assert(0 <= margin * 700000 / 1000000 <= 700000) by (nonlinear_arith)
                requires
                    0 <= margin <= 1000000,
            ;
        },
        _ => {},
    }
}

/// Accepting a fresh pair on two unmatched nodes keeps the state well
/// formed and faithfully recorded, and grows it by exactly one pair.
proof fn lemma_accept_wf(
    v: MatchView,
    p: Seq<MatchItem>,
    s: Seq<MatchItem>,
    pair: MatchedPair,
)
    requires
        view_wf(v, p.len() as int, s.len() as int),
        pairs_recorded(v, p, s),
        pair_recorded(p, s, pair),
        v.p2s[pair.primary_index as int] is None,
        v.s2p[pair.secondary_index as int] is None,
    ensures
        view_wf(accept_spec(v, pair), p.len() as int, s.len() as int),
        pairs_recorded(accept_spec(v, pair), p, s),
        accept_spec(v, pair).pairs.len() == v.pairs.len() + 1,
{
    let np = p.len() as int;
    let ns = s.len() as int;
    let pi = pair.primary_index as int;
    let si = pair.secondary_index as int;
    let v2 = accept_spec(v, pair);
    lemma_count_matched_update(v.p2s, pi, pair.secondary_index);
    lemma_count_matched_update(v.s2p, si, pair.primary_index);
    assert forall|i: int| 0 <= i < np && (#[trigger] v2.p2s[i]) is Some implies v2.p2s[i]->0 < ns
        && v2.s2p[v2.p2s[i]->0 as int] == Some(i as usize) by {
        if i == pi {
            assert(v2.p2s[i] == Some(pair.secondary_index));
            assert(v2.s2p[si] == Some(pair.primary_index));
        } else {
            assert(v2.p2s[i] == v.p2s[i]);
            assert(v.p2s[i]->0 != si) by {
                if v.p2s[i]->0 == si {
                    assert(v.s2p[si] == Some(i as usize));
                }
            }
        }
    }
    assert forall|j: int| 0 <= j < ns && (#[trigger] v2.s2p[j]) is Some implies v2.s2p[j]->0 < np
        && v2.p2s[v2.s2p[j]->0 as int] == Some(j as usize) by {
        if j == si {
        } else {
            assert(v2.s2p[j] == v.s2p[j]);
            assert(v.s2p[j]->0 != pi) by {
                if v.s2p[j]->0 == pi {
                    assert(v.p2s[pi] == Some(j as usize));
                }
            }
        }
    }
    assert forall|k: int| 0 <= k < v2.pairs.len() implies (#[trigger] v2.pairs[k]).primary_index
        < np && v2.pairs[k].secondary_index < ns && v2.p2s[v2.pairs[k].primary_index as int]
        == Some(v2.pairs[k].secondary_index) && v2.s2p[v2.pairs[k].secondary_index as int] == Some(
        v2.pairs[k].primary_index,
    ) by {
        if k < v.pairs.len() {
            assert(v2.pairs[k] == v.pairs[k]);
            assert(v.pairs[k].primary_index != pair.primary_index) by {
                assert(v.p2s[v.pairs[k].primary_index as int] == Some(
                    v.pairs[k].secondary_index,
                ));
            }
            assert(v.pairs[k].secondary_index != pair.secondary_index) by {
                assert(v.s2p[v.pairs[k].secondary_index as int] == Some(
                    v.pairs[k].primary_index,
                ));
            }
        } else {
            assert(v2.pairs[k] == pair);
        }
    }
    assert forall|k1: int, k2: int| 0 <= k1 < k2 < v2.pairs.len() implies (
    #[trigger] v2.pairs[k1]).primary_index != (#[trigger] v2.pairs[k2]).primary_index
        && v2.pairs[k1].secondary_index != v2.pairs[k2].secondary_index by {
        if k2 < v.pairs.len() {
        } else {
            assert(v2.pairs[k2] == pair);
            assert(v2.pairs[k1] == v.pairs[k1]);
            assert(v.p2s[v.pairs[k1].primary_index as int] == Some(v.pairs[k1].secondary_index));
            assert(v.s2p[v.pairs[k1].secondary_index as int] == Some(v.pairs[k1].primary_index));
        }
    }
    assert forall|k: int| 0 <= k < v2.pairs.len() implies pair_recorded(
        p,
        s,
        #[trigger] v2.pairs[k],
    ) by {
        if k < v.pairs.len() {
            assert(v2.pairs[k] == v.pairs[k]);
        } else {
            assert(v2.pairs[k] == pair);
        }
    }
}

/// One step attempt keeps the state well formed and recorded, never removes
/// a pair, and changes nothing unless it adds a pair.
proof fn lemma_try_props(
    step: StepKind,
    p: Seq<MatchItem>,
    s: Seq<MatchItem>,
    v: MatchView,
    i: int,
)
    requires
        p.len() <= usize::MAX,
        s.len() <= usize::MAX,
        view_wf(v, p.len() as int, s.len() as int),
        pairs_recorded(v, p, s),
    ensures
        view_wf(step_try_spec(step, p, s, v, i), p.len() as int, s.len() as int),
        pairs_recorded(step_try_spec(step, p, s, v, i), p, s),
        step_try_spec(step, p, s, v, i).pairs.len() >= v.pairs.len(),
        step_try_spec(step, p, s, v, i).pairs.len() == v.pairs.len() ==> step_try_spec(
            step,
            p,
            s,
            v,
            i,
        ) == v,
{
    if 0 <= i < p.len() && i < v.p2s.len() && v.p2s[i] is None {
        lemma_best_eligible(step, p, s, v.p2s, v.s2p, i, s.len() as int);
        match best_candidate_upto(step, p, s, v.p2s, v.s2p, i, s.len() as int) {
            Some(j) => {
                let pair = pair_spec(step, p, s, v.p2s, v.s2p, i, j);
                lemma_similarity_bounds(p[i], s[j]);
                lemma_confidence_bounds(
                    step,
                    similarity_spec(p[i], s[j]),
                    runner_score_upto(step, p, s, v.p2s, v.s2p, i, s.len() as int, j),
                );
                assert(pair_recorded(p, s, pair));
                lemma_accept_wf(v, p, s, pair);
            },
            None => {},
        }
    }
}

/// A step sweep keeps the state well formed and recorded, never removes a
/// pair, and changes nothing unless it adds a pair.
proof fn lemma_apply_props(
    step: StepKind,
    p: Seq<MatchItem>,
    s: Seq<MatchItem>,
    v: MatchView,
    i: int,
)
    requires
        p.len() <= usize::MAX,
        s.len() <= usize::MAX,
        view_wf(v, p.len() as int, s.len() as int),
        pairs_recorded(v, p, s),
        0 <= i,
    ensures
        view_wf(apply_step_spec(step, p, s, v, i), p.len() as int, s.len() as int),
        pairs_recorded(apply_step_spec(step, p, s, v, i), p, s),
        apply_step_spec(step, p, s, v, i).pairs.len() >= v.pairs.len(),
        apply_step_spec(step, p, s, v, i).pairs.len() == v.pairs.len() ==> apply_step_spec(
            step,
            p,
            s,
            v,
            i,
        ) == v,
    decreases p.len() - i,
{
    if i < p.len() {
        lemma_try_props(step, p, s, v, i);
        lemma_apply_props(step, p, s, step_try_spec(step, p, s, v, i), i + 1);
    }
}

/// A full pass keeps the state well formed and recorded, never removes a
/// pair, and changes nothing unless it adds a pair.
proof fn lemma_run_props(
    steps: Seq<StepKind>,
    p: Seq<MatchItem>,
    s: Seq<MatchItem>,
    v: MatchView,
    k: int,
)
    requires
        p.len() <= usize::MAX,
        s.len() <= usize::MAX,
        view_wf(v, p.len() as int, s.len() as int),
        pairs_recorded(v, p, s),
        0 <= k,
    ensures
        view_wf(run_steps_spec(steps, p, s, v, k), p.len() as int, s.len() as int),
        pairs_recorded(run_steps_spec(steps, p, s, v, k), p, s),
        run_steps_spec(steps, p, s, v, k).pairs.len() >= v.pairs.len(),
        run_steps_spec(steps, p, s, v, k).pairs.len() == v.pairs.len() ==> run_steps_spec(
            steps,
            p,
            s,
            v,
            k,
        ) == v,
    decreases steps.len() - k,
{
    if k < steps.len() {
        lemma_apply_props(steps[k], p, s, v, 0);
        lemma_run_props(steps, p, s, apply_step_spec(steps[k], p, s, v, 0), k + 1);
    }
}

spec fn opt_int(o: Option<usize>) -> Option<int> {
    match o {
        Some(x) => Some(x as int),
        None => None,
    }
}

fn find_best(
    step: StepKind,
    p: &Vec<MatchItem>,
    s: &Vec<MatchItem>,
    p2s: &Vec<Option<usize>>,
    s2p: &Vec<Option<usize>>,
    i: usize,
) -> (r: Option<usize>)
    requires
        i < p@.len(),
    ensures
        opt_int(r) == best_candidate_upto(step, p@, s@, p2s@, s2p@, i as int, s@.len() as int),
        r matches Some(j) ==> j < s@.len(),
{
    let mut cur: Option<usize> = None;
    let mut j: usize = 0;
    while j < s.len()
        invariant
            j <= s@.len(),
            i < p@.len(),
            opt_int(cur) == best_candidate_upto(step, p@, s@, p2s@, s2p@, i as int, j as int),
            cur matches Some(b) ==> b < j,
        decreases s@.len() - j,
    {
        if eligible(step, p, s, p2s, s2p, i, j) {
            match cur {
                None => {
                    cur = Some(j);
                },
                Some(b) => {
                    let sc_j = similarity(&p[i], &s[j]);
                    let sc_b = similarity(&p[i], &s[b]);
                    if sc_j > sc_b || (sc_j == sc_b && s[j].address < s[b].address) {
                        cur = Some(j);
                    }
                },
            }
        }
        j = j + 1;
    }
    cur
}

fn runner_score(
    step: StepKind,
    p: &Vec<MatchItem>,
    s: &Vec<MatchItem>,
    p2s: &Vec<Option<usize>>,
    s2p: &Vec<Option<usize>>,
    i: usize,
    best: usize,
) -> (r: i64)
    requires
        i < p@.len(),
    ensures
        r == runner_score_upto(step, p@, s@, p2s@, s2p@, i as int, s@.len() as int, best as int),
{
    let mut r: i64 = -1;
    let mut j: usize = 0;
    while j < s.len()
        invariant
            j <= s@.len(),
            i < p@.len(),
            -1 <= r <= 1000000,
            r == runner_score_upto(step, p@, s@, p2s@, s2p@, i as int, j as int, best as int),
        decreases s@.len() - j,
    {
        if j != best && eligible(step, p, s, p2s, s2p, i, j) {
            let sc = similarity(&p[i], &s[j]);
            if (sc as i64) > r {
                r = sc as i64;
            }
        }
        j = j + 1;
    }
    r
}

/// Tries one step at one primary node, accepting the best eligible
/// candidate if there is any.
fn try_match(step: StepKind, p: &Vec<MatchItem>, s: &Vec<MatchItem>, db: &mut MatchDb, i: usize)
    requires
        view_wf(old(db).view_state(), p@.len() as int, s@.len() as int),
        pairs_recorded(old(db).view_state(), p@, s@),
        i < p@.len(),
    ensures
        final(db).view_state() == step_try_spec(step, p@, s@, old(db).view_state(), i as int),
        view_wf(final(db).view_state(), p@.len() as int, s@.len() as int),
        pairs_recorded(final(db).view_state(), p@, s@),
{
    proof {
        vstd::std_specs::vec::axiom_spec_len(p);
        vstd::std_specs::vec::axiom_spec_len(s);
        lemma_try_props(step, p@, s@, old(db).view_state(), i as int);
    }
    if db.primary_to_secondary[i].is_some() {
        return ;
    }
    let best = find_best(step, p, s, &db.primary_to_secondary, &db.secondary_to_primary, i);
    proof {
        lemma_best_eligible(
            step,
            p@,
            s@,
            db.primary_to_secondary@,
            db.secondary_to_primary@,
            i as int,
            s@.len() as int,
        );
    }
    match best {
        None => {},
        Some(j) => {
            let score = similarity(&p[i], &s[j]);
            let runner = runner_score(
                step,
                p,
                s,
                &db.primary_to_secondary,
                &db.secondary_to_primary,
                i,
                j,
            );
            let confidence: u64 = match step {
                StepKind::SimilarityRank => {
                    let margin: u64 = if runner < 0 {
                        1000000
                    } else {
                        let ru = runner as u64;
                        if score >= ru {
                            score - ru
                        } else {
                            0
                        }
                    };
                    margin * 700000 / 1000000
                },
                StepKind::IdenticalStructure => 1000000,
                StepKind::NameMatch => 900000,
                StepKind::CallGraphContext => 800000,
            };
            let pair = MatchedPair {
                primary_index: i,
                secondary_index: j,
                primary_address: p[i].address,
                secondary_address: s[j].address,
                similarity: score,
                confidence,
                step,
            };
            proof {
                assert(pair == pair_spec(
                    step,
                    p@,
                    s@,
                    db.primary_to_secondary@,
                    db.secondary_to_primary@,
                    i as int,
                    j as int,
                ));
            }
            db.primary_to_secondary[i] = Some(j);
            db.secondary_to_primary[j] = Some(i);
            db.pairs.push(pair);
        },
    }
}

/// Runs every configured step once, in order, each sweeping all primaries.
pub fn run_pass(steps: &Vec<StepKind>, p: &Vec<MatchItem>, s: &Vec<MatchItem>, db: &mut MatchDb)
    requires
        view_wf(old(db).view_state(), p@.len() as int, s@.len() as int),
        pairs_recorded(old(db).view_state(), p@, s@),
    ensures
        final(db).view_state() == pass_spec(steps@, p@, s@, old(db).view_state()),
        view_wf(final(db).view_state(), p@.len() as int, s@.len() as int),
        pairs_recorded(final(db).view_state(), p@, s@),
{
    let ghost v0 = db.view_state();
    let mut k: usize = 0;
    while k < steps.len()
        invariant
            k <= steps@.len(),
            view_wf(db.view_state(), p@.len() as int, s@.len() as int),
            pairs_recorded(db.view_state(), p@, s@),
            run_steps_spec(steps@, p@, s@, v0, 0) == run_steps_spec(
                steps@,
                p@,
                s@,
                db.view_state(),
                k as int,
            ),
        decreases steps@.len() - k,
    {
        let step = steps[k];
        let ghost vk = db.view_state();
        let mut i: usize = 0;
        while i < p.len()
            invariant
                i <= p@.len(),
                view_wf(db.view_state(), p@.len() as int, s@.len() as int),
                pairs_recorded(db.view_state(), p@, s@),
                apply_step_spec(step, p@, s@, vk, 0) == apply_step_spec(
                    step,
                    p@,
                    s@,
                    db.view_state(),
                    i as int,
                ),
            decreases p@.len() - i,
        {
            try_match(step, p, s, db, i);
            i = i + 1;
        }
        proof {
            assert(apply_step_spec(step, p@, s@, db.view_state(), p@.len() as int)
                == db.view_state());
            assert(run_steps_spec(steps@, p@, s@, vk, k as int) == run_steps_spec(
                steps@,
                p@,
                s@,
                db.view_state(),
                k + 1,
            ));
        }
        k = k + 1;
    }
}

/// The empty match state over `np` primary and `ns` secondary nodes.
pub open spec fn empty_view(np: int, ns: int) -> MatchView {
    MatchView {
        p2s: Seq::new(np as nat, |i: int| None),
        s2p: Seq::new(ns as nat, |i: int| None),
        pairs: Seq::<MatchedPair>::empty(),
    }
}

/// The fixed-point iteration of the pass, with enough fuel: repeat the
/// whole step list until a pass changes nothing.
pub open spec fn drive_spec(
    steps: Seq<StepKind>,
    p: Seq<MatchItem>,
    s: Seq<MatchItem>,
    v: MatchView,
    fuel: nat,
) -> MatchView
    decreases fuel,
{
    if fuel == 0 {
        v
    } else {
        let v2 = pass_spec(steps, p, s, v);
        if v2 == v {
            v
        } else {
            drive_spec(steps, p, s, v2, (fuel - 1) as nat)
        }
    }
}

/// Pairs the nodes of two graphs by driving the configured step list to a
/// fixed point: passes repeat until one adds no pairing.
///
/// The result is exactly the fixed-point iteration of the pass from the
/// empty state; it is well formed (no node in two pairs), every pair is
/// recorded faithfully, and one more pass would change nothing.
pub fn match_graphs(steps: &Vec<StepKind>, p: &Vec<MatchItem>, s: &Vec<MatchItem>) -> (db: MatchDb)
    ensures
        view_wf(db.view_state(), p@.len() as int, s@.len() as int),
        pairs_recorded(db.view_state(), p@, s@),
        pass_spec(steps@, p@, s@, db.view_state()) == db.view_state(),
        db.view_state() == drive_spec(
            steps@,
            p@,
            s@,
            empty_view(p@.len() as int, s@.len() as int),
            (p@.len() + 1) as nat,
        ),
{
    let mut p2s: Vec<Option<usize>> = Vec::new();
    while p2s.len() < p.len()
        invariant
            p2s@.len() <= p@.len(),
            count_matched(p2s@) == 0,
            forall|i: int| 0 <= i < p2s@.len() ==> (#[trigger] p2s@[i]) is None,
        decreases p@.len() - p2s@.len(),
    {
        let ghost before = p2s@;
        p2s.push(None);
        proof {
            assert(p2s@.drop_last() =~= before);
        }
    }
    let mut s2p: Vec<Option<usize>> = Vec::new();
    while s2p.len() < s.len()
        invariant
            s2p@.len() <= s@.len(),
            count_matched(s2p@) == 0,
            forall|j: int| 0 <= j < s2p@.len() ==> (#[trigger] s2p@[j]) is None,
        decreases s@.len() - s2p@.len(),
    {
        let ghost before = s2p@;
        s2p.push(None);
        proof {
            assert(s2p@.drop_last() =~= before);
        }
    }
    let mut db = MatchDb { primary_to_secondary: p2s, secondary_to_primary: s2p, pairs: Vec::new() };
    proof {
        assert(db.view_state().p2s =~= empty_view(p@.len() as int, s@.len() as int).p2s);
        assert(db.view_state().s2p =~= empty_view(p@.len() as int, s@.len() as int).s2p);
        assert(db.view_state().pairs =~= empty_view(p@.len() as int, s@.len() as int).pairs);
        assert(db.view_state() == empty_view(p@.len() as int, s@.len() as int));
    }
    let ghost target = drive_spec(
        steps@,
        p@,
        s@,
        empty_view(p@.len() as int, s@.len() as int),
        (p@.len() + 1) as nat,
    );
    let ghost mut fuel: nat = (p@.len() + 1) as nat;
    let mut changed = true;
    while changed
        invariant
            view_wf(db.view_state(), p@.len() as int, s@.len() as int),
            pairs_recorded(db.view_state(), p@, s@),
            db.pairs@.len() <= p@.len(),
            fuel >= p@.len() + 1 - db.pairs@.len(),
            changed ==> target == drive_spec(steps@, p@, s@, db.view_state(), fuel),
            !changed ==> pass_spec(steps@, p@, s@, db.view_state()) == db.view_state(),
            !changed ==> target == db.view_state(),
        decreases p@.len() - db.pairs@.len(), (if changed {
            1int
        } else {
            0int
        }),
    {
        let before = db.pairs.len();
        let ghost vb = db.view_state();
        run_pass(steps, p, s, &mut db);
        proof {
            vstd::std_specs::vec::axiom_spec_len(p);
            vstd::std_specs::vec::axiom_spec_len(s);
            lemma_run_props(steps@, p@, s@, vb, 0);
            lemma_count_matched_bound(db.view_state().p2s);
        }
        if db.pairs.len() == before {
            proof {
                assert(db.view_state() == vb);
                assert(drive_spec(steps@, p@, s@, vb, fuel) == vb);
            }
            changed = false;
        } else {
            proof {
                assert(fuel > 0);
                assert(db.view_state() != vb);
                assert(drive_spec(steps@, p@, s@, vb, fuel) == drive_spec(
                    steps@,
                    p@,
                    s@,
                    db.view_state(),
                    (fuel - 1) as nat,
                ));
                fuel = (fuel - 1) as nat;
            }
            changed = true;
        }
    }
    db
}

/// Along the default step order, confidence is monotone non-increasing:
/// every later step carries weaker evidence, and a pairing's confidence
/// never exceeds its producing step's base confidence.
pub proof fn lemma_confidence_monotone(k1: int, k2: int)
    requires
        0 <= k1 <= k2 < default_steps_spec().len(),
    ensures
        default_steps_spec()[k1].base_confidence_spec()
            >= default_steps_spec()[k2].base_confidence_spec(),
{
}

/// No primary node appears in more than one matched pair, and no secondary
/// node either: matching is symmetric at-most-once.
pub proof fn lemma_at_most_one_match(v: MatchView, np: int, ns: int, k1: int, k2: int)
    requires
        view_wf(v, np, ns),
        0 <= k1 < v.pairs.len(),
        0 <= k2 < v.pairs.len(),
        k1 != k2,
    ensures
        v.pairs[k1].primary_index != v.pairs[k2].primary_index,
        v.pairs[k1].secondary_index != v.pairs[k2].secondary_index,
{
}

/// Once the pipeline has stabilized, re-running the full step list once
/// more produces zero additional pairings.
pub proof fn lemma_fixed_point_stable(
    steps: Seq<StepKind>,
    p: Seq<MatchItem>,
    s: Seq<MatchItem>,
    v: MatchView,
)
    requires
        pass_spec(steps, p, s, v) == v,
    ensures
        pass_spec(steps, p, s, pass_spec(steps, p, s, v)).pairs.len() == v.pairs.len(),
        pass_spec(steps, p, s, pass_spec(steps, p, s, v)) == v,
{
}


/// The call-graph neighbors of node `v`: the targets of its outgoing edges
/// and the sources of its incoming ones, in edge order.
pub open spec fn neighbors_spec(es: Seq<CallGraphEdge>, v: int) -> Seq<usize>
    decreases es.len(),
{
    if es.len() == 0 {
        Seq::<usize>::empty()
    } else {
        let rest = neighbors_spec(es.drop_last(), v);
        let e = es.last();
        let with_out = if e.source == v {
            rest.push(e.target)
        } else {
            rest
        };
        if e.target == v {
            with_out.push(e.source)
        } else {
            with_out
        }
    }
}

fn collect_neighbors(es: &Vec<CallGraphEdge>, v: usize) -> (r: Vec<usize>)
    ensures
        r@ == neighbors_spec(es@, v as int),
{
    let mut r: Vec<usize> = Vec::new();
    let mut k: usize = 0;
    while k < es.len()
        invariant
            k <= es@.len(),
            r@ == neighbors_spec(es@.take(k as int), v as int),
        decreases es@.len() - k,
    {
        proof {
            assert(es@.take(k + 1).drop_last() =~= es@.take(k as int));
            assert(es@.take(k + 1).last() == es@[k as int]);
        }
        if es[k].source == v {
            r.push(es[k].target);
        }
        if es[k].target == v {
            r.push(es[k].source);
        }
        k = k + 1;
    }
    proof {
        assert(es@.take(es@.len() as int) =~= es@);
    }
    r
}

/// What the match item built for call-graph node `i` of a binary holds:
/// the node's address, names and name flags, the MD-index and structural
/// metrics of the flow graph at its address (zero when there is none), and
/// its call-graph neighbors.
pub open spec fn function_item_built(b: Binary, i: int, item: MatchItem) -> bool {
    let node = b.call_graph.nodes@[i];
    &&& item.address == node.address
    &&& item.name@ == node.name@
    &&& item.has_real_name == (node.flags & CALL_GRAPH_NODE_NAME != 0)
    &&& item.demangled_name@ == node.demangled_name@
    &&& item.has_demangled_name == (node.flags & CALL_GRAPH_NODE_DEMANGLED_NAME != 0)
    &&& item.md_index == node_md_spec(b.flow_graphs@, node.address)
    &&& match fg_at(b.flow_graphs@, node.address) {
        Some(f) => item.basic_block_count == b.flow_graphs@[f].basic_block_count
            && item.edge_count == b.flow_graphs@[f].edge_count && item.instruction_count
            == b.flow_graphs@[f].instruction_count,
        None => item.basic_block_count == 0 && item.edge_count == 0 && item.instruction_count
            == 0,
    }
    &&& item.neighbors@ == neighbors_spec(b.call_graph.edges@, i)
}

/// Builds the function-level match items of a binary, one per call-graph
/// node, in node order.
pub fn build_function_items(b: &Binary) -> (r: Vec<MatchItem>)
    requires
        call_graph_wf(b.call_graph),
        flow_graphs_wf(b.flow_graphs@),
    ensures
        r@.len() == b.call_graph.nodes@.len(),
        forall|i: int|
            0 <= i < r@.len() ==> function_item_built(*b, i, #[trigger] r@[i]),
{
    let mut r: Vec<MatchItem> = Vec::new();
    let n = b.call_graph.nodes.len();
    let mut i: usize = 0;
    while i < n
        invariant
            n == b.call_graph.nodes@.len(),
            i <= n,
            call_graph_wf(b.call_graph),
            flow_graphs_wf(b.flow_graphs@),
            r@.len() == i,
            forall|k: int| 0 <= k < i ==> function_item_built(*b, k, #[trigger] r@[k]),
        decreases n - i,
    {
        let node = &b.call_graph.nodes[i];
        let md = node_md(&b.flow_graphs, node.address);
        let mut basic_block_count: u32 = 0;
        let mut edge_count: u32 = 0;
        let mut instruction_count: u32 = 0;
        match flow_graph_at(&b.flow_graphs, node.address) {
            Some(f) => {
                basic_block_count = b.flow_graphs[f].basic_block_count;
                edge_count = b.flow_graphs[f].edge_count;
                instruction_count = b.flow_graphs[f].instruction_count;
            },
            None => {},
        }
        let item = MatchItem {
            address: node.address,
            name: node.name.clone(),
            has_real_name: node.flags & CALL_GRAPH_NODE_NAME != 0,
            demangled_name: node.demangled_name.clone(),
            has_demangled_name: node.flags & CALL_GRAPH_NODE_DEMANGLED_NAME != 0,
            md_index: md,
            basic_block_count,
            edge_count,
            instruction_count,
            neighbors: collect_neighbors(&b.call_graph.edges, i),
        };
        r.push(item);
        i = i + 1;
    }
    r
}

/// The basic-block match items of one matched function pair.  The export
/// representation carries only aggregate counts per function, no individual
/// basic-block records, so there is nothing for the block-level pipeline to
/// pair and the item list is empty.
pub fn build_block_items(b: &Binary, entry_point_address: u64) -> (r: Vec<MatchItem>)
    ensures
        r@.len() == 0,
{
    let _ = b;
    let _ = entry_point_address;
    Vec::new()
}

/// The steps a configured list resolves to, in order: its enabled entries,
/// each through the registry; `None` when any enabled name is unknown.
pub open spec fn resolved_steps_spec(list: Seq<MatchingStep>) -> Option<Seq<StepKind>>
    decreases list.len(),
{
    if list.len() == 0 {
        Some(Seq::<StepKind>::empty())
    } else {
        match resolved_steps_spec(list.drop_last()) {
            None => None,
            Some(rest) => {
                let e = list.last();
                if !e.enabled {
                    Some(rest)
                } else {
                    match step_of_name_spec(e.name@) {
                        None => None,
                        Some(st) => Some(rest.push(st)),
                    }
                }
            },
        }
    }
}

/// Resolves a configured step list: enabled entries through the registry.
pub fn resolve_steps(list: &Vec<MatchingStep>) -> (r: Option<Vec<StepKind>>)
    ensures
        match r {
            Some(st) => resolved_steps_spec(list@) == Some(st@),
            None => resolved_steps_spec(list@) is None,
        },
{
    let mut out: Vec<StepKind> = Vec::new();
    let mut i: usize = 0;
    while i < list.len()
        invariant
            i <= list@.len(),
            resolved_steps_spec(list@.take(i as int)) == Some(out@),
        decreases list@.len() - i,
    {
        proof {
            assert(list@.take(i + 1).drop_last() =~= list@.take(i as int));
            assert(list@.take(i + 1).last() == list@[i as int]);
        }
        if list[i].enabled {
            match step_of_name(&list[i].name) {
                None => {
                    proof {
                        assert(resolved_steps_spec(list@.take(i + 1)) is None);
                        lemma_resolved_none_persists(list@, i + 1);
                    }
                    return None;
                },
                Some(st) => {
                    out.push(st);
                },
            }
        }
        i = i + 1;
    }
    proof {
        assert(list@.take(list@.len() as int) =~= list@);
    }
    Some(out)
}

/// Once a prefix of the list fails to resolve, the whole list fails.
proof fn lemma_resolved_none_persists(list: Seq<MatchingStep>, n: int)
    requires
        0 <= n <= list.len(),
        resolved_steps_spec(list.take(n)) is None,
    ensures
        resolved_steps_spec(list) is None,
    decreases list.len() - n,
{
    if n < list.len() {
        assert(list.take(n + 1).drop_last() =~= list.take(n));
        assert(resolved_steps_spec(list.take(n + 1)) is None);
        lemma_resolved_none_persists(list, n + 1);
    } else {
        assert(list.take(n) =~= list);
    }
}

/// The step list a configured list puts into effect: its resolved steps,
/// or the built-in default list when the configured list is empty, repeats
/// a name, names an unknown step, or enables nothing.
pub open spec fn effective_steps_spec(list: Seq<MatchingStep>) -> Seq<StepKind> {
    if valid_step_list(list) && (resolved_steps_spec(list) matches Some(st) && st.len() > 0) {
        resolved_steps_spec(list)->0
    } else {
        default_steps_spec()
    }
}

/// Resolves a configured step list, falling back to the built-in default
/// list when the configured one is empty or invalid.
pub fn effective_steps(list: &Vec<MatchingStep>) -> (r: Vec<StepKind>)
    ensures
        r@ == effective_steps_spec(list@),
{
    if !step_list_is_valid(list) {
        return default_steps();
    }
    match resolve_steps(list) {
        None => default_steps(),
        Some(st) => {
            if st.len() == 0 {
                default_steps()
            } else {
                st
            }
        },
    }
}

/// The built-in default configuration: both levels run the full default
/// step order.
pub fn default_config() -> (r: Config)
    ensures
        r.function_matching@.len() == 4,
        r.basic_block_matching@.len() == 4,
        forall|k: int|
            0 <= k < 4 ==> (#[trigger] r.function_matching@[k]).name@ == step_name_spec(
                default_steps_spec()[k],
            ) && r.function_matching@[k].enabled,
        forall|k: int|
            0 <= k < 4 ==> (#[trigger] r.basic_block_matching@[k]).name@ == step_name_spec(
                default_steps_spec()[k],
            ) && r.basic_block_matching@[k].enabled,
{
    let kinds = default_steps();
    let mut function_matching: Vec<MatchingStep> = Vec::new();
    let mut basic_block_matching: Vec<MatchingStep> = Vec::new();
    let mut k: usize = 0;
    while k < kinds.len()
        invariant
            kinds@ == default_steps_spec(),
            k <= kinds@.len(),
            function_matching@.len() == k,
            basic_block_matching@.len() == k,
            forall|t: int|
                0 <= t < k ==> (#[trigger] function_matching@[t]).name@ == step_name_spec(
                    default_steps_spec()[t],
                ) && function_matching@[t].enabled,
            forall|t: int|
                0 <= t < k ==> (#[trigger] basic_block_matching@[t]).name@ == step_name_spec(
                    default_steps_spec()[t],
                ) && basic_block_matching@[t].enabled,
        decreases kinds@.len() - k,
    {
        function_matching.push(MatchingStep { name: kinds[k].name(), enabled: true });
        basic_block_matching.push(MatchingStep { name: kinds[k].name(), enabled: true });
        k = k + 1;
    }
    Config { function_matching, basic_block_matching }
}

/// One matched function pair with its nested basic-block pairs.
pub struct FunctionMatch {
    pub function: MatchedPair,
    pub basic_blocks: Vec<MatchedPair>,
}

/// The output of one diff: both binaries' identities, the matched function
/// pairs with their nested basic-block pairs, and the unmatched leftovers
/// on either side.
pub struct MatchResult {
    pub primary_exe: String,
    pub secondary_exe: String,
    pub matches: Vec<FunctionMatch>,
    pub unmatched_primary: Vec<u64>,
    pub unmatched_secondary: Vec<u64>,
}

/// The addresses of the unmatched items below `n`, in item order.
pub open spec fn unmatched_upto(items: Seq<MatchItem>, m: Seq<Option<usize>>, n: int) -> Seq<u64>
    decreases n,
{
    if n <= 0 {
        Seq::<u64>::empty()
    } else {
        let rest = unmatched_upto(items, m, n - 1);
        if n - 1 < m.len() && m[n - 1] is None {
            rest.push(items[n - 1].address)
        } else {
            rest
        }
    }
}

fn unmatched_addresses(items: &Vec<MatchItem>, m: &Vec<Option<usize>>) -> (r: Vec<u64>)
    ensures
        r@ == unmatched_upto(items@, m@, items@.len() as int),
{
    let mut r: Vec<u64> = Vec::new();
    let mut i: usize = 0;
    while i < items.len()
        invariant
            i <= items@.len(),
            r@ == unmatched_upto(items@, m@, i as int),
        decreases items@.len() - i,
    {
        if i < m.len() {
            match m[i] {
                None => {
                    r.push(items[i].address);
                },
                Some(_) => {},
            }
        }
        i = i + 1;
    }
    r
}

/// Unmatched and matched items add up: the unmatched list holds one entry
/// for every unmatched map slot.
proof fn lemma_unmatched_count(items: Seq<MatchItem>, m: Seq<Option<usize>>, n: int)
    requires
        m.len() == items.len(),
        0 <= n <= items.len(),
    ensures
        unmatched_upto(items, m, n).len() + count_matched(m.take(n)) == n,
    decreases n,
{
    if n > 0 {
        lemma_unmatched_count(items, m, n - 1);
        assert(m.take(n).drop_last() =~= m.take(n - 1));
        assert(m.take(n).last() == m[n - 1]);
    }
}

/// Every unmatched entry is the address of an item whose map slot is
/// unmatched.
proof fn lemma_unmatched_entries(items: Seq<MatchItem>, m: Seq<Option<usize>>, n: int)
    requires
        m.len() == items.len(),
        0 <= n <= items.len(),
    ensures
        forall|t: int|
            0 <= t < unmatched_upto(items, m, n).len() ==> exists|i: int|
                0 <= i < n && m[i] is None && items[i].address == #[trigger] unmatched_upto(
                    items,
                    m,
                    n,
                )[t],
    decreases n,
{
    if n > 0 {
        lemma_unmatched_entries(items, m, n - 1);
        let cur = unmatched_upto(items, m, n);
        let prev = unmatched_upto(items, m, n - 1);
        assert forall|t: int| 0 <= t < cur.len() implies exists|i: int|
            0 <= i < n && m[i] is None && items[i].address == #[trigger] cur[t] by {
            if t < prev.len() {
                assert(cur[t] == prev[t]);
                let i = choose|i: int| 0 <= i < n - 1 && m[i] is None && items[i].address == prev[t];
                assert(0 <= i < n && m[i] is None && items[i].address == cur[t]);
            } else {
                assert(m[n - 1] is None && items[n - 1].address == cur[t]);
            }
        }
    }
}

/// Runs one whole diff between a primary and a secondary binary.
///
/// Function-level matching drives the configured (or default) step list to
/// a fixed point; every matched pair then gets its own basic-block pass.
/// Unmatched functions on either side stay in the result as explicit
/// entries, and empty graphs yield a result with zero matches, never an
/// error.
pub fn diff(primary: &Binary, secondary: &Binary, config: &Config) -> (r: MatchResult)
    requires
        call_graph_wf(primary.call_graph),
        flow_graphs_wf(primary.flow_graphs@),
        call_graph_wf(secondary.call_graph),
        flow_graphs_wf(secondary.flow_graphs@),
    ensures
        r.primary_exe@ == primary.exe_filename@,
        r.secondary_exe@ == secondary.exe_filename@,
        r.matches@.len() + r.unmatched_primary@.len() == primary.call_graph.nodes@.len(),
        r.matches@.len() + r.unmatched_secondary@.len() == secondary.call_graph.nodes@.len(),
        forall|k1: int, k2: int|
            0 <= k1 < k2 < r.matches@.len() ==> (#[trigger] r.matches@[k1]).function.primary_index
                != (#[trigger] r.matches@[k2]).function.primary_index
                && r.matches@[k1].function.secondary_index
                != r.matches@[k2].function.secondary_index,
        forall|k: int|
            0 <= k < r.matches@.len() ==> {
                let f = (#[trigger] r.matches@[k]).function;
                &&& f.primary_index < primary.call_graph.nodes@.len()
                &&& f.secondary_index < secondary.call_graph.nodes@.len()
                &&& f.primary_address == primary.call_graph.nodes@[f.primary_index as int].address
                &&& f.secondary_address == secondary.call_graph.nodes@[f.secondary_index as int].address
                &&& f.similarity <= SIMILARITY_ONE
                &&& f.confidence <= f.step.base_confidence_spec()
            },
        forall|k: int| 0 <= k < r.matches@.len() ==> (#[trigger] r.matches@[k]).basic_blocks@.len()
            == 0,
        forall|t: int|
            0 <= t < r.unmatched_primary@.len() ==> exists|i: int|
                0 <= i < primary.call_graph.nodes@.len() && primary.call_graph.nodes@[i].address
                    == #[trigger] r.unmatched_primary@[t] && (forall|k: int|
                    0 <= k < r.matches@.len() ==> (#[trigger] r.matches@[k]).function.primary_index
                        != i),
        forall|t: int|
            0 <= t < r.unmatched_secondary@.len() ==> exists|j: int|
                0 <= j < secondary.call_graph.nodes@.len()
                    && secondary.call_graph.nodes@[j].address == #[trigger] r.unmatched_secondary@[t]
                    && (forall|k: int|
                    0 <= k < r.matches@.len() ==> (
                    #[trigger] r.matches@[k]).function.secondary_index != j),
        primary.call_graph.nodes@.len() == 0 ==> r.matches@.len() == 0,
{
    let p_items = build_function_items(primary);
    let s_items = build_function_items(secondary);
    let function_steps = effective_steps(&config.function_matching);
    let block_steps = effective_steps(&config.basic_block_matching);

    let db = match_graphs(&function_steps, &p_items, &s_items);
    proof {
        lemma_count_matched_bound(db.view_state().p2s);
    }

    let mut matches: Vec<FunctionMatch> = Vec::new();
    let mut k: usize = 0;
    while k < db.pairs.len()
        invariant
            k <= db.pairs@.len(),
            view_wf(db.view_state(), p_items@.len() as int, s_items@.len() as int),
            pairs_recorded(db.view_state(), p_items@, s_items@),
            matches@.len() == k,
            forall|t: int| 0 <= t < k ==> (#[trigger] matches@[t]).function == db.pairs@[t],
            forall|t: int| 0 <= t < k ==> (#[trigger] matches@[t]).basic_blocks@.len() == 0,
        decreases db.pairs@.len() - k,
    {
        let pair = db.pairs[k];
        let p_blocks = build_block_items(primary, pair.primary_address);
        let s_blocks = build_block_items(secondary, pair.secondary_address);
        let block_db = match_graphs(&block_steps, &p_blocks, &s_blocks);
        proof {
            lemma_count_matched_bound(block_db.view_state().p2s);
        }
        matches.push(FunctionMatch { function: pair, basic_blocks: block_db.pairs });
        k = k + 1;
    }

    let unmatched_primary = unmatched_addresses(&p_items, &db.primary_to_secondary);
    let unmatched_secondary = unmatched_addresses(&s_items, &db.secondary_to_primary);
    proof {
        lemma_unmatched_count(
            p_items@,
            db.primary_to_secondary@,
            p_items@.len() as int,
        );
        assert(db.primary_to_secondary@.take(p_items@.len() as int)
            =~= db.primary_to_secondary@);
        lemma_unmatched_count(
            s_items@,
            db.secondary_to_primary@,
            s_items@.len() as int,
        );
        assert(db.secondary_to_primary@.take(s_items@.len() as int)
            =~= db.secondary_to_primary@);
        lemma_unmatched_entries(p_items@, db.primary_to_secondary@, p_items@.len() as int);
        lemma_unmatched_entries(s_items@, db.secondary_to_primary@, s_items@.len() as int);
        assert forall|t: int|
            0 <= t < unmatched_primary@.len() implies exists|i: int|
                0 <= i < primary.call_graph.nodes@.len() && primary.call_graph.nodes@[i].address
                    == #[trigger] unmatched_primary@[t] && (forall|k2: int|
                    0 <= k2 < matches@.len() ==> (#[trigger] matches@[k2]).function.primary_index
                        != i) by {
            let i = choose|i: int|
                0 <= i < p_items@.len() && db.primary_to_secondary@[i] is None
                    && p_items@[i].address == unmatched_primary@[t];
            assert(function_item_built(*primary, i, p_items@[i]));
            assert forall|k2: int|
                0 <= k2 < matches@.len() implies (#[trigger] matches@[k2]).function.primary_index
                    != i by {
                assert(db.primary_to_secondary@[matches@[k2].function.primary_index as int]
                    == Some(matches@[k2].function.secondary_index));
            }
            assert(primary.call_graph.nodes@[i].address == unmatched_primary@[t]);
        }
        assert forall|t: int|
            0 <= t < unmatched_secondary@.len() implies exists|j: int|
                0 <= j < secondary.call_graph.nodes@.len()
                    && secondary.call_graph.nodes@[j].address == #[trigger] unmatched_secondary@[t]
                    && (forall|k2: int|
                    0 <= k2 < matches@.len() ==> (
                    #[trigger] matches@[k2]).function.secondary_index != j) by {
            let j = choose|j: int|
                0 <= j < s_items@.len() && db.secondary_to_primary@[j] is None
                    && s_items@[j].address == unmatched_secondary@[t];
            assert(function_item_built(*secondary, j, s_items@[j]));
            assert forall|k2: int|
                0 <= k2 < matches@.len() implies (#[trigger] matches@[k2]).function.secondary_index
                    != j by {
                assert(db.secondary_to_primary@[matches@[k2].function.secondary_index as int]
                    == Some(matches@[k2].function.primary_index));
            }
            assert(secondary.call_graph.nodes@[j].address == unmatched_secondary@[t]);
        }
        assert forall|k2: int| 0 <= k2 < matches@.len() implies {
            let f = (#[trigger] matches@[k2]).function;
            &&& f.primary_index < primary.call_graph.nodes@.len()
            &&& f.secondary_index < secondary.call_graph.nodes@.len()
            &&& f.primary_address == primary.call_graph.nodes@[f.primary_index as int].address
            &&& f.secondary_address == secondary.call_graph.nodes@[f.secondary_index as int].address
            &&& f.similarity <= SIMILARITY_ONE
            &&& f.confidence <= f.step.base_confidence_spec()
        } by {
            assert(pair_recorded(p_items@, s_items@, db.pairs@[k2]));
            lemma_similarity_bounds(
                p_items@[db.pairs@[k2].primary_index as int],
                s_items@[db.pairs@[k2].secondary_index as int],
            );
            assert(function_item_built(
                *primary,
                db.pairs@[k2].primary_index as int,
                p_items@[db.pairs@[k2].primary_index as int],
            ));
            assert(function_item_built(
                *secondary,
                db.pairs@[k2].secondary_index as int,
                s_items@[db.pairs@[k2].secondary_index as int],
            ));
        }
    }
    MatchResult {
        primary_exe: primary.exe_filename.clone(),
        secondary_exe: secondary.exe_filename.clone(),
        matches,
        unmatched_primary,
        unmatched_secondary,
    }
}

} // verus!

