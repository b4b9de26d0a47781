//! The ant-colony clique search.
//!
//! Each invocation searches the available sub-graph for a large clique.
//! Ants grow cliques one vertex at a time, choosing the next vertex with
//! probability proportional to a pheromone trail raised to the exponent
//! `alpha`; trails live on vertices (`VertexAC`) or on edges (`EdgeAC`),
//! are bounded to `[tau_min, tau_max]`, evaporate once per generation and
//! are reinforced along the best clique found so far.  Whatever the random
//! source draws, the returned clique is duplicate-free, fully available
//! and pairwise connected, and nonempty whenever a vertex is available.

use vstd::prelude::*;

use crate::graph::Graph;
use crate::graph::has_vertex;
use crate::graph::spec_is_edge;

verus! {

/// Largest admitted trail value: weights stay small enough to sum.
pub const TAU_LIMIT: u64 = 1000000;

/// Largest admitted trail exponent.
pub const ALPHA_LIMIT: u32 = 4;

/// The trail-granularity of the search.
#[derive(Clone, Copy, Debug, PartialEq, Eq)]
pub enum ACOAlgorithm {
    VertexAC,
    EdgeAC,
}

/// The shared configuration of the search.
#[derive(Clone, Copy, Debug, PartialEq, Eq)]
pub struct ACOParameters {
    pub generations: usize,
    pub ants_per_generation: usize,
    pub alpha: u32,
    pub rho_permille: u32,
    pub tau_max: u64,
    pub tau_min: u64,
}

impl ACOParameters {
    /// The configuration the engine accepts: at least one generation and
    /// one ant, an evaporation rate of at most one (in thousandths), trail
    /// bounds in order, and both small enough that no weight overflows.
    pub open spec fn valid(self) -> bool {
        &&& self.generations >= 1
        &&& self.ants_per_generation >= 1
        &&& self.rho_permille <= 1000
        &&& 1 <= self.tau_min
        &&& self.tau_min < self.tau_max
        &&& self.tau_max <= TAU_LIMIT
        &&& self.alpha <= ALPHA_LIMIT
    }

    /// Builds a configuration, rejecting exactly the invalid ones.
    pub fn new(
        generations: usize,
        ants_per_generation: usize,
        alpha: u32,
        rho_permille: u32,
        tau_max: u64,
        tau_min: u64,
    ) -> (r: Result<ACOParameters, &'static str>)
        ensures
            ({
                let p = ACOParameters {
                    generations,
                    ants_per_generation,
                    alpha,
                    rho_permille,
                    tau_max,
                    tau_min,
                };
                match r {
                    Ok(q) => p.valid() && q == p,
                    Err(e) => !p.valid() && e@ == "Configuration invalid"@,
                }
            }),
    {
        if generations >= 1 && ants_per_generation >= 1 && rho_permille <= 1000 && 1 <= tau_min
            && tau_min < tau_max && tau_max <= TAU_LIMIT && alpha <= ALPHA_LIMIT {
            Ok(
                ACOParameters {
                    generations,
                    ants_per_generation,
                    alpha,
                    rho_permille,
                    tau_max,
                    tau_min,
                },
            )
        } else {
            Err("Configuration invalid")
        }
    }

    /// Whether the configuration is one the engine accepts.
    pub fn is_valid(&self) -> (r: bool)
        ensures
            r == self.valid(),
    {
        self.generations >= 1 && self.ants_per_generation >= 1 && self.rho_permille <= 1000
            && 1 <= self.tau_min && self.tau_min < self.tau_max && self.tau_max <= TAU_LIMIT
            && self.alpha <= ALPHA_LIMIT
    }
}

/// A duplicate-free set of pairwise connected, available vertices.
pub open spec fn valid_clique_in(g: Graph, c: Seq<usize>) -> bool {
    &&& c.no_duplicates()
    &&& forall|i: int| 0 <= i < c.len() ==> (#[trigger] c[i]) < g.n_vertex
    &&& forall|i: int| 0 <= i < c.len() ==> has_vertex(g.available_vertex@, #[trigger] c[i] as int)
    &&& forall|i: int, j: int|
        0 <= i < c.len() && 0 <= j < c.len() && i != j ==> spec_is_edge(
            g,
            #[trigger] c[i] as int,
            #[trigger] c[j] as int,
        )
}

/// Clique validity depends only on the graph's structure, not its random
/// source.
pub proof fn lemma_clique_same_graph(a: Graph, b: Graph, c: Seq<usize>)
    requires
        valid_clique_in(a, c),
        Graph::same_but_rng(a, b),
    ensures
        valid_clique_in(b, c),
{
    assert forall|i: int, j: int|
        0 <= i < c.len() && 0 <= j < c.len() && i != j implies spec_is_edge(
        b,
        #[trigger] c[i] as int,
        #[trigger] c[j] as int,
    ) by {
        assert(spec_is_edge(a, c[i] as int, c[j] as int));
        assert(b.edge_dict@ == a.edge_dict@);
    }
}

/// The trail value raised to a small power.
pub open spec fn spec_pow(b: int, e: nat) -> int
    decreases e,
{
    if e == 0 {
        1
    } else {
        b * spec_pow(b, (e - 1) as nat)
    }
}

/// Raising a larger base to the same power gives a larger value.
proof fn lemma_pow_le(a: int, b: int, e: nat)
    requires
        0 <= a <= b,
    ensures
        0 < spec_pow(a, e) || a == 0,
        spec_pow(a, e) <= spec_pow(b, e),
        a >= 1 ==> spec_pow(a, e) >= 1,
    decreases e,
{
    if e > 0 {
        lemma_pow_le(a, b, (e - 1) as nat);
        assert(a * spec_pow(a, (e - 1) as nat) <= b * spec_pow(b, (e - 1) as nat))
            by (nonlinear_arith)
            requires
                0 <= a <= b,
                0 <= spec_pow(a, (e - 1) as nat) <= spec_pow(b, (e - 1) as nat),
        ;
        assert(a >= 1 ==> a * spec_pow(a, (e - 1) as nat) >= 1) by (nonlinear_arith)
            requires
                spec_pow(a, (e - 1) as nat) >= 1 || a == 0,
                spec_pow(a, (e - 1) as nat) >= 0,
        ;
    }
}

/// The largest weight a bounded trail can produce.
proof fn lemma_pow_limit(e: nat)
    requires
        e <= ALPHA_LIMIT,
    ensures
        spec_pow(TAU_LIMIT as int, e) <= 1000000000000000000000000,
{
    assert(spec_pow(TAU_LIMIT as int, 0) == 1);
    assert(spec_pow(TAU_LIMIT as int, 1) == 1000000 * spec_pow(TAU_LIMIT as int, 0));
    assert(spec_pow(TAU_LIMIT as int, 2) == 1000000 * spec_pow(TAU_LIMIT as int, 1));
    assert(spec_pow(TAU_LIMIT as int, 3) == 1000000 * spec_pow(TAU_LIMIT as int, 2));
    assert(spec_pow(TAU_LIMIT as int, 4) == 1000000 * spec_pow(TAU_LIMIT as int, 3));
}

/// The weight of one trail value: the value raised to `alpha`.
fn pow_weight(base: u64, exp: u32) -> (r: u128)
    requires
        1 <= base <= TAU_LIMIT,
        exp <= ALPHA_LIMIT,
    ensures
        r == spec_pow(base as int, exp as nat),
        1 <= r <= 1000000000000000000000000,
{
    let mut r: u128 = 1;
    let mut i: u32 = 0;
    while i < exp
        invariant
            0 <= i <= exp,
            exp <= ALPHA_LIMIT,
            1 <= base <= TAU_LIMIT,
            r == spec_pow(base as int, i as nat),
            r >= 1,
            r <= spec_pow(TAU_LIMIT as int, i as nat),
        decreases exp - i,
    {
        proof {
            lemma_pow_le(base as int, TAU_LIMIT as int, (i + 1) as nat);
            lemma_pow_le(base as int, TAU_LIMIT as int, i as nat);
            lemma_pow_limit((i + 1) as nat);
            assert(spec_pow(base as int, (i + 1) as nat) == (base as int) * spec_pow(
                base as int,
                i as nat,
            ));
            assert((base as int) * spec_pow(base as int, i as nat) == spec_pow(
                base as int,
                i as nat,
            ) * (base as int)) by (nonlinear_arith);
            assert(r * base <= spec_pow(TAU_LIMIT as int, (i + 1) as nat)) by (nonlinear_arith)
                requires
                    r == spec_pow(base as int, i as nat),
                    spec_pow(base as int, (i + 1) as nat) == spec_pow(base as int, i as nat) * (
                    base as int),
                    spec_pow(base as int, (i + 1) as nat) <= spec_pow(
                        TAU_LIMIT as int,
                        (i + 1) as nat,
                    ),
            ;
        }
        r = r * (base as u128);
        i = i + 1;
    }
    proof {
        lemma_pow_limit(exp as nat);
    }
    r
}

/// The sum of the first `i` weights.
pub open spec fn sum_prefix(ws: Seq<u128>, i: int) -> int
    decreases i,
{
    if i <= 0 {
        0
    } else {
        sum_prefix(ws, i - 1) + ws[i - 1]
    }
}

/// Picks an index of `weights` with probability proportional to its
/// weight: a value below the total weight is drawn and the first index
/// whose prefix sum exceeds it is returned.
fn pick_weighted(graph: &mut Graph, weights: &Vec<u128>) -> (idx: usize)
    requires
        old(graph).wf(),
        weights@.len() >= 1,
        forall|i: int| 0 <= i < weights@.len() ==> 1 <= #[trigger] weights@[i] <= 1000000000000000000000000,
        weights@.len() <= 0x7fff_ffff,
    ensures
        final(graph).wf(),
        Graph::same_but_rng(*old(graph), *final(graph)),
        idx < weights@.len(),
{
    let m: usize = weights.len();
    let mut total: u128 = 0;
    let mut i: usize = 0;
    while i < m
        invariant
            0 <= i <= m,
            m == weights@.len(),
            m <= 0x7fff_ffff,
            forall|j: int|
                0 <= j < weights@.len() ==> 1 <= #[trigger] weights@[j]
                    <= 1000000000000000000000000,
            total == sum_prefix(weights@, i as int),
            total <= (i as int) * 1000000000000000000000000,
            total >= i,
        decreases m - i,
    {
        total = total + weights[i];
        i = i + 1;
    }
    assert(total >= 1);
    let drawn: u128 = graph.draw_below(total);
    let mut acc: u128 = 0;
    let mut k: usize = 0;
    while k < m
        invariant
            graph.wf(),
            Graph::same_but_rng(*old(graph), *graph),
            0 <= k <= m,
            m == weights@.len(),
            forall|j: int|
                0 <= j < weights@.len() ==> 1 <= #[trigger] weights@[j]
                    <= 1000000000000000000000000,
            acc == sum_prefix(weights@, k as int),
            drawn >= acc,
            drawn < total,
            total == sum_prefix(weights@, m as int),
            acc <= total,
        decreases m - k,
    {
        proof {
            lemma_sum_prefix_le(weights@, k as int + 1, m as int);
        }
        if drawn < acc + weights[k] {
            return k;
        }
        acc = acc + weights[k];
        k = k + 1;
    }
    proof {
        assert(acc == total);
        assert(false);
    }
    0
}

/// Prefix sums of nonnegative weights grow with the prefix.
proof fn lemma_sum_prefix_le(ws: Seq<u128>, i: int, j: int)
    requires
        0 <= i <= j <= ws.len(),
    ensures
        sum_prefix(ws, i) <= sum_prefix(ws, j),
    decreases j - i,
{
    if i < j {
        lemma_sum_prefix_le(ws, i + 1, j);
    }
}

/// A duplicate-free list whose members all occur in `b` is no longer than
/// `b`.
proof fn lemma_no_dup_subset_len(a: Seq<usize>, b: Seq<usize>)
    requires
        a.no_duplicates(),
        forall|v: int| has_vertex(a, v) ==> has_vertex(b, v),
    ensures
        a.len() <= b.len(),
{
    broadcast use vstd::seq_lib::seq_to_set_is_finite;

    a.unique_seq_to_set();
    assert(a.to_set().subset_of(b.to_set())) by {
        assert forall|x: usize| a.to_set().contains(x) implies b.to_set().contains(x) by {
            assert(a.contains(x));
            let i = choose|i: int| 0 <= i < a.len() && a[i] == x;
            assert(has_vertex(a, x as int));
            assert(has_vertex(b, x as int));
            let j = choose|j: int| 0 <= j < b.len() && b[j] == x as int;
            assert(b[j] == x);
        }
    }
    vstd::set_lib::lemma_len_subset(a.to_set(), b.to_set());
    b.lemma_cardinality_of_set();
}

/// The vertices of `list` that are still available.
fn filter_available(graph: &Graph, list: &Vec<usize>) -> (r: Vec<usize>)
    requires
        graph.wf(),
        list@.no_duplicates(),
        forall|i: int| 0 <= i < list@.len() ==> (#[trigger] list@[i]) < graph.n_vertex,
    ensures
        r@.no_duplicates(),
        r@.len() <= list@.len(),
        forall|v: int|
            has_vertex(r@, v) == (has_vertex(list@, v) && has_vertex(
                graph.available_vertex@,
                v,
            )),
        forall|i: int| 0 <= i < r@.len() ==> (#[trigger] r@[i]) < graph.n_vertex,
    {
    let mut out: Vec<usize> = Vec::new();
    let mut i: usize = 0;
    while i < list.len()
        invariant
            graph.wf(),
            list@.no_duplicates(),
            forall|q: int| 0 <= q < list@.len() ==> (#[trigger] list@[q]) < graph.n_vertex,
            0 <= i <= list@.len(),
            out@.no_duplicates(),
            out@.len() <= i,
            forall|v: int|
                has_vertex(out@, v) == ((exists|j: int| 0 <= j < i && list@[j] == v) && has_vertex(
                    graph.available_vertex@,
                    v,
                )),
        decreases list@.len() - i,
    {
        let w: usize = list[i];
        assert(list@[i as int] == w);
        let ghost prev = out@;
        let keep: bool = graph.is_available(w);
        if keep {
            proof {
                assert(!has_vertex(out@, w as int)) by {
                    if has_vertex(out@, w as int) {
                        let j = choose|j: int| 0 <= j < i && list@[j] == w as int;
                    }
                }
            }
            out.push(w);
            proof {
                lemma_push_vertex(prev, w);
                assert(out@ == prev.push(w));
                assert(forall|v: int| has_vertex(out@, v) == (has_vertex(prev, v) || v == w as int));
            }
        }
        proof {
            assert forall|v: int|
                has_vertex(out@, v) == ((exists|j: int| 0 <= j < i + 1 && list@[j] == v)
                    && has_vertex(graph.available_vertex@, v)) by {
                assert(has_vertex(prev, v) == ((exists|j: int| 0 <= j < i && list@[j] == v)
                    && has_vertex(graph.available_vertex@, v)));
                if !keep {
                    assert(out@ == prev);
                }
                if (exists|j: int| 0 <= j < i + 1 && list@[j] == v) && !(exists|j: int|
                    0 <= j < i && list@[j] == v) {
                    let j = choose|j: int| 0 <= j < i + 1 && list@[j] == v;
                    assert(j == i);
                    assert(v == w);
                }
                if v == w as int {
                    assert(0 <= i < i + 1 && list@[i as int] == w);
                    assert(exists|j: int| 0 <= j < i + 1 && list@[j] == v);
                    if keep {
                        assert(has_vertex(out@, v));
                        assert(has_vertex(graph.available_vertex@, v));
                    } else {
                        assert(!has_vertex(graph.available_vertex@, v));
                        assert(!has_vertex(prev, v));
                    }
                }
            }
        }
        i = i + 1;
    }
    proof {
        assert forall|i2: int| 0 <= i2 < out@.len() implies (#[trigger] out@[i2])
            < graph.n_vertex by {
            assert(has_vertex(out@, out@[i2] as int));
            let j = choose|j: int| 0 <= j < list@.len() && list@[j] == out@[i2] as int;
        }
    }
    out
}

/// Pushing a fresh vertex keeps the list duplicate-free and extends its
/// membership by exactly that vertex.
proof fn lemma_push_vertex(s: Seq<usize>, w: usize)
    requires
        s.no_duplicates(),
        !has_vertex(s, w as int),
    ensures
        s.push(w).no_duplicates(),
        forall|v: int| has_vertex(s.push(w), v) == (has_vertex(s, v) || v == w),
{
    let t = s.push(w);
    assert forall|x: int, y: int| 0 <= x < y < t.len() implies #[trigger] t[x] != #[trigger] t[y] by {
        if y < s.len() {
        } else {
            assert(t[y] == w);
            if t[x] == w {
                assert(s[x] == w);
                assert(has_vertex(s, w as int));
            }
        }
    }
    assert forall|v: int| has_vertex(t, v) == (has_vertex(s, v) || v == w) by {
        if has_vertex(s, v) {
            let j = choose|j: int| 0 <= j < s.len() && s[j] == v;
            assert(t[j] == v);
        }
        if v == w {
            assert(t[s.len() as int] == v);
        }
        if has_vertex(t, v) {
            let j = choose|j: int| 0 <= j < t.len() && t[j] == v;
            if j < s.len() {
                assert(s[j] == v);
            }
        }
    }
}

/// The candidates that remain after `chosen` joins the clique: the
/// available neighbors of `chosen` among them, `chosen` itself dropped.
fn filter_candidates(graph: &Graph, candidates: &Vec<usize>, chosen: usize) -> (r: Vec<usize>)
    requires
        graph.wf(),
        candidates@.no_duplicates(),
        has_vertex(candidates@, chosen as int),
        forall|i: int| 0 <= i < candidates@.len() ==> (#[trigger] candidates@[i]) < graph.n_vertex,
        chosen < graph.n_vertex,
    ensures
        r@.no_duplicates(),
        r@.len() < candidates@.len(),
        forall|v: int|
            has_vertex(r@, v) == (has_vertex(candidates@, v) && v != chosen && spec_is_edge(
                *graph,
                chosen as int,
                v,
            )),
        forall|i: int| 0 <= i < r@.len() ==> (#[trigger] r@[i]) < graph.n_vertex,
{
    let mut out: Vec<usize> = Vec::new();
    let mut i: usize = 0;
    while i < candidates.len()
        invariant
            graph.wf(),
            candidates@.no_duplicates(),
            chosen < graph.n_vertex,
            forall|q: int|
                0 <= q < candidates@.len() ==> (#[trigger] candidates@[q]) < graph.n_vertex,
            0 <= i <= candidates@.len(),
            out@.no_duplicates(),
            out@.len() <= i,
            (exists|j: int| 0 <= j < i && candidates@[j] == chosen) ==> out@.len() < i,
            forall|v: int|
                has_vertex(out@, v) == ((exists|j: int| 0 <= j < i && candidates@[j] == v) && v
                    != chosen && spec_is_edge(*graph, chosen as int, v)),
        decreases candidates@.len() - i,
    {
        let w: usize = candidates[i];
        assert(candidates@[i as int] == w);
        let ghost prev = out@;
        let keep: bool = w != chosen && graph.is_edge(chosen, w);
        if keep {
            proof {
                assert(!has_vertex(out@, w as int)) by {
                    if has_vertex(out@, w as int) {
                        let j = choose|j: int| 0 <= j < i && candidates@[j] == w as int;
                    }
                }
            }
            out.push(w);
            proof {
                lemma_push_vertex(prev, w);
                assert(out@ == prev.push(w));
                assert(forall|v: int| has_vertex(out@, v) == (has_vertex(prev, v) || v == w as int));
            }
        }
        proof {
            assert forall|v: int|
                has_vertex(out@, v) == ((exists|j: int| 0 <= j < i + 1 && candidates@[j] == v) && v
                    != chosen && spec_is_edge(*graph, chosen as int, v)) by {
                assert(has_vertex(prev, v) == ((exists|j: int| 0 <= j < i && candidates@[j] == v)
                    && v != chosen && spec_is_edge(*graph, chosen as int, v)));
                if !keep {
                    assert(out@ == prev);
                }
                if (exists|j: int| 0 <= j < i + 1 && candidates@[j] == v) && !(exists|j: int|
                    0 <= j < i && candidates@[j] == v) {
                    let j = choose|j: int| 0 <= j < i + 1 && candidates@[j] == v;
                    assert(j == i);
                    assert(v == w);
                }
                if v == w as int {
                    assert(0 <= i < i + 1 && candidates@[i as int] == w);
                    assert(exists|j: int| 0 <= j < i + 1 && candidates@[j] == v);
                    if keep {
                        assert(has_vertex(out@, v));
                    } else {
                        assert(!has_vertex(prev, v));
                        assert(!(v != chosen && spec_is_edge(*graph, chosen as int, v)));
                    }
                }
            }
        }
        i = i + 1;
    }
    proof {
        let j = choose|j: int| 0 <= j < candidates@.len() && candidates@[j] == chosen as int;
        assert forall|i2: int| 0 <= i2 < out@.len() implies (#[trigger] out@[i2])
            < graph.n_vertex by {
            assert(has_vertex(out@, out@[i2] as int));
            let q = choose|q: int| 0 <= q < candidates@.len() && candidates@[q] == out@[i2] as int;
        }
    }
    out
}

/// Every trail lies within the configured bounds.
pub open spec fn trails_bounded(ts: Seq<u64>, p: ACOParameters) -> bool {
    forall|i: int| 0 <= i < ts.len() ==> p.tau_min <= #[trigger] ts[i] <= p.tau_max
}

/// The edge relation depends only on the graph's structure.
proof fn lemma_edge_same(a: Graph, b: Graph, u: int, v: int)
    requires
        Graph::same_but_rng(a, b),
    ensures
        spec_is_edge(a, u, v) == spec_is_edge(b, u, v),
{
    assert(a.edge_dict@ == b.edge_dict@);
}

/// One evaporation round: every trail is scaled by `1 - rho` (in
/// thousandths) and clamped from below to `tau_min`.
fn evaporate_trails(trails: &Vec<u64>, parameters: &ACOParameters) -> (r: Vec<u64>)
    requires
        parameters.valid(),
        trails_bounded(trails@, *parameters),
    ensures
        r@.len() == trails@.len(),
        trails_bounded(r@, *parameters),
{
    let mut out: Vec<u64> = Vec::new();
    let mut i: usize = 0;
    while i < trails.len()
        invariant
            parameters.valid(),
            trails_bounded(trails@, *parameters),
            0 <= i <= trails@.len(),
            out@.len() == i,
            trails_bounded(out@, *parameters),
        decreases trails@.len() - i,
    {
        let t: u64 = trails[i];
        let factor: u64 = (1000 - parameters.rho_permille) as u64;
        proof {
            assert(t * factor <= t * 1000) by (nonlinear_arith)
                requires
                    factor <= 1000,
                    t >= 0,
            ;
            vstd::arithmetic::div_mod::lemma_div_is_ordered(
                (t * factor) as int,
                (t * 1000) as int,
                1000,
            );
            vstd::arithmetic::div_mod::lemma_div_multiples_vanish(t as int, 1000);
            assert(t * factor <= 1000000 * 1000) by (nonlinear_arith)
                requires
                    t <= 1000000,
                    factor <= 1000,
            ;
        }
        let reduced: u64 = t * factor / 1000;
        let nt: u64 = if reduced < parameters.tau_min {
            parameters.tau_min
        } else {
            reduced
        };
        out.push(nt);
        i = i + 1;
    }
    out
}

/// One reinforcement round for vertex trails: every vertex of the best
/// clique gains a fixed increment, clamped to `tau_max`.
fn reinforce_vertex_trails(trails: &Vec<u64>, best: &Vec<usize>, parameters: &ACOParameters) -> (r:
    Vec<u64>)
    requires
        parameters.valid(),
        trails_bounded(trails@, *parameters),
    ensures
        r@.len() == trails@.len(),
        trails_bounded(r@, *parameters),
{
    let mut out: Vec<u64> = Vec::new();
    let mut i: usize = 0;
    while i < trails.len()
        invariant
            parameters.valid(),
            trails_bounded(trails@, *parameters),
            0 <= i <= trails@.len(),
            out@.len() == i,
            trails_bounded(out@, *parameters),
        decreases trails@.len() - i,
    {
        let t: u64 = trails[i];
        let nt: u64 = if crate::graph::contains_vertex(best, i) && t < parameters.tau_max {
            t + 1
        } else {
            t
        };
        out.push(nt);
        i = i + 1;
    }
    out
}

/// The position of the unordered pair `{u, v}` in a flattened trail table.
fn pair_index(u: usize, v: usize, n: usize) -> (r: usize)
    requires
        u < n,
        v < n,
        n * n <= usize::MAX,
    ensures
        r < n * n,
{
    let (a, b) = if u <= v {
        (u, v)
    } else {
        (v, u)
    };
    proof {
        assert(a * n + b < n * n) by (nonlinear_arith)
            requires
                a < n,
                b < n,
        ;
        assert(a * n + b <= usize::MAX) by (nonlinear_arith)
            requires
                a * n + b < n * n,
                n * n <= usize::MAX,
        ;
    }
    a * n + b
}

/// One reinforcement round for edge trails: the trail of every pair of
/// best-clique members gains a fixed increment, clamped to `tau_max`.
fn reinforce_edge_trails(
    out: &mut Vec<u64>,
    best: &Vec<usize>,
    parameters: &ACOParameters,
    n: usize,
)
    requires
        parameters.valid(),
        trails_bounded(old(out)@, *parameters),
        old(out)@.len() == n * n,
        n * n <= usize::MAX,
        forall|i: int| 0 <= i < best@.len() ==> (#[trigger] best@[i]) < n,
    ensures
        final(out)@.len() == old(out)@.len(),
        trails_bounded(final(out)@, *parameters),
{
    let mut a: usize = 0;
    while a < best.len()
        invariant
            parameters.valid(),
            n * n <= usize::MAX,
            forall|i: int| 0 <= i < best@.len() ==> (#[trigger] best@[i]) < n,
            0 <= a <= best@.len(),
            out@.len() == n * n,
            trails_bounded(out@, *parameters),
        decreases best@.len() - a,
    {
        let mut b: usize = a + 1;
        while b < best.len()
            invariant
                parameters.valid(),
                n * n <= usize::MAX,
                forall|i: int| 0 <= i < best@.len() ==> (#[trigger] best@[i]) < n,
                a < best@.len(),
                a + 1 <= b <= best@.len() || b == a + 1,
                out@.len() == n * n,
                trails_bounded(out@, *parameters),
            decreases best@.len() - b,
        {
            let idx: usize = pair_index(best[a], best[b], n);
            let t: u64 = out[idx];
            if t < parameters.tau_max {
                vstd::pervasive::VecAdditionalExecFns::set(out, idx, t + 1);
            }
            b = b + 1;
        }
        a = a + 1;
    }
}

/// One ant's walk with vertex trails: starting from a random available
/// vertex, repeatedly adds a candidate chosen with probability
/// proportional to its trail weight, until no candidate is left.
fn construct_clique_vertex(
    trails: &Vec<u64>,
    parameters: &ACOParameters,
    graph: &mut Graph,
) -> (c: Vec<usize>)
    requires
        parameters.valid(),
        old(graph).wf(),
        old(graph).available_vertex@.len() >= 1,
        trails@.len() == old(graph).n_vertex,
        trails_bounded(trails@, *parameters),
    ensures
        final(graph).wf(),
        Graph::same_but_rng(*old(graph), *final(graph)),
        valid_clique_in(*final(graph), c@),
        c@.len() >= 1,
{
    let start: usize = graph.random_available_vertex();
    let mut clique: Vec<usize> = Vec::new();
    clique.push(start);
    assert(clique@ =~= seq![start]);
    let neighbors: Vec<usize> = graph.get_neighbor_candidates(start);
    assert(neighbors@ == graph.edge_dict@[start as int]@);
    let mut candidates: Vec<usize> = filter_available(graph, &neighbors);
    proof {
        assert forall|v: int| has_vertex(candidates@, v) implies !has_vertex(clique@, v)
            && spec_is_edge(*graph, start as int, v) by {
            assert(has_vertex(neighbors@, v));
            if has_vertex(clique@, v) {
                assert(v == start);
                let j = choose|j: int| 0 <= j < neighbors@.len() && neighbors@[j] == v;
            }
        }
    }
    while candidates.len() > 0
        invariant
            parameters.valid(),
            graph.wf(),
            Graph::same_but_rng(*old(graph), *graph),
            trails@.len() == graph.n_vertex,
            trails_bounded(trails@, *parameters),
            clique@.no_duplicates(),
            clique@.len() >= 1,
            forall|i: int| 0 <= i < clique@.len() ==> (#[trigger] clique@[i]) < graph.n_vertex,
            forall|i: int|
                0 <= i < clique@.len() ==> has_vertex(
                    graph.available_vertex@,
                    #[trigger] clique@[i] as int,
                ),
            forall|i: int, j: int|
                0 <= i < clique@.len() && 0 <= j < clique@.len() && i != j ==> spec_is_edge(
                    *graph,
                    #[trigger] clique@[i] as int,
                    #[trigger] clique@[j] as int,
                ),
            candidates@.no_duplicates(),
            forall|i: int|
                0 <= i < candidates@.len() ==> (#[trigger] candidates@[i]) < graph.n_vertex,
            forall|v: int| has_vertex(candidates@, v) ==> has_vertex(graph.available_vertex@, v),
            forall|v: int| has_vertex(candidates@, v) ==> !has_vertex(clique@, v),
            forall|v: int, m: int|
                #![trigger clique@[m], has_vertex(candidates@, v)]
                has_vertex(candidates@, v) && 0 <= m < clique@.len() ==> spec_is_edge(
                    *graph,
                    clique@[m] as int,
                    v,
                ),
        decreases candidates@.len(),
    {
        let mut weights: Vec<u128> = Vec::new();
        let mut i: usize = 0;
        while i < candidates.len()
            invariant
                parameters.valid(),
                trails@.len() == graph.n_vertex,
                trails_bounded(trails@, *parameters),
                forall|q: int|
                    0 <= q < candidates@.len() ==> (#[trigger] candidates@[q]) < graph.n_vertex,
                0 <= i <= candidates@.len(),
                weights@.len() == i,
                forall|q: int|
                    0 <= q < i ==> 1 <= #[trigger] weights@[q] <= 1000000000000000000000000,
            decreases candidates@.len() - i,
        {
            let cand: usize = candidates[i];
            weights.push(pow_weight(trails[cand], parameters.alpha));
            i = i + 1;
        }
        proof {
            lemma_no_dup_subset_len(candidates@, graph.available_vertex@);
        }
        let ghost gpre = *graph;
        let idx: usize = pick_weighted(graph, &weights);
        let chosen: usize = candidates[idx];
        assert(candidates@[idx as int] == chosen);
        assert(has_vertex(candidates@, chosen as int));
        proof {
            assert forall|x: int, y: int| spec_is_edge(gpre, x, y) == spec_is_edge(
                *graph,
                x,
                y,
            ) by {
                lemma_edge_same(gpre, *graph, x, y);
            }
        }
        let ghost old_clique = clique@;
        proof {
            assert(!has_vertex(old_clique, chosen as int));
        }
        clique.push(chosen);
        proof {
            lemma_push_vertex(old_clique, chosen);
            assert(clique@ == old_clique.push(chosen));
            assert forall|i2: int, j2: int|
                0 <= i2 < clique@.len() && 0 <= j2 < clique@.len() && i2 != j2 implies spec_is_edge(
                *graph,
                #[trigger] clique@[i2] as int,
                #[trigger] clique@[j2] as int,
            ) by {
                if i2 < old_clique.len() && j2 < old_clique.len() {
                } else if j2 == old_clique.len() {
                    assert(clique@[j2] == chosen);
                    assert(spec_is_edge(*graph, clique@[i2] as int, chosen as int));
                } else {
                    assert(clique@[i2] == chosen);
                    assert(spec_is_edge(*graph, clique@[j2] as int, chosen as int));
                    assert(spec_is_edge(*graph, chosen as int, clique@[j2] as int));
                }
            }
        }
        let next_candidates: Vec<usize> = filter_candidates(graph, &candidates, chosen);
        proof {
            assert forall|v: int, m: int|
                #![trigger clique@[m], has_vertex(next_candidates@, v)]
                has_vertex(next_candidates@, v) && 0 <= m < clique@.len() implies spec_is_edge(
                *graph,
                clique@[m] as int,
                v,
            ) by {
                if m < old_clique.len() {
                    assert(has_vertex(candidates@, v));
                } else {
                    assert(clique@[m] == chosen);
                }
            }
            assert forall|v: int| has_vertex(next_candidates@, v) implies !has_vertex(
                clique@,
                v,
            ) by {
                assert(has_vertex(candidates@, v));
            }
        }
        candidates = next_candidates;
    }
    clique
}

/// One ant's walk with edge trails: like the vertex walk, but a
/// candidate's weight is the smallest trail on the edges that join it to
/// the clique built so far.
fn construct_clique_edge(
    trails: &Vec<u64>,
    parameters: &ACOParameters,
    graph: &mut Graph,
) -> (c: Vec<usize>)
    requires
        parameters.valid(),
        old(graph).wf(),
        old(graph).available_vertex@.len() >= 1,
        trails@.len() == old(graph).n_vertex * old(graph).n_vertex,
        old(graph).n_vertex * old(graph).n_vertex <= usize::MAX,
        trails_bounded(trails@, *parameters),
    ensures
        final(graph).wf(),
        Graph::same_but_rng(*old(graph), *final(graph)),
        valid_clique_in(*final(graph), c@),
        c@.len() >= 1,
{
    let n: usize = graph.n_vertex;
    let start: usize = graph.random_available_vertex();
    let mut clique: Vec<usize> = Vec::new();
    clique.push(start);
    assert(clique@ =~= seq![start]);
    let neighbors: Vec<usize> = graph.get_neighbor_candidates(start);
    assert(neighbors@ == graph.edge_dict@[start as int]@);
    let mut candidates: Vec<usize> = filter_available(graph, &neighbors);
    proof {
        assert forall|v: int| has_vertex(candidates@, v) implies !has_vertex(clique@, v)
            && spec_is_edge(*graph, start as int, v) by {
            assert(has_vertex(neighbors@, v));
            if has_vertex(clique@, v) {
                assert(v == start);
                let j = choose|j: int| 0 <= j < neighbors@.len() && neighbors@[j] == v;
            }
        }
    }
    while candidates.len() > 0
        invariant
            parameters.valid(),
            graph.wf(),
            Graph::same_but_rng(*old(graph), *graph),
            n == graph.n_vertex,
            trails@.len() == n * n,
            n * n <= usize::MAX,
            trails_bounded(trails@, *parameters),
            clique@.no_duplicates(),
            clique@.len() >= 1,
            forall|i: int| 0 <= i < clique@.len() ==> (#[trigger] clique@[i]) < graph.n_vertex,
            forall|i: int|
                0 <= i < clique@.len() ==> has_vertex(
                    graph.available_vertex@,
                    #[trigger] clique@[i] as int,
                ),
            forall|i: int, j: int|
                0 <= i < clique@.len() && 0 <= j < clique@.len() && i != j ==> spec_is_edge(
                    *graph,
                    #[trigger] clique@[i] as int,
                    #[trigger] clique@[j] as int,
                ),
            candidates@.no_duplicates(),
            forall|i: int|
                0 <= i < candidates@.len() ==> (#[trigger] candidates@[i]) < graph.n_vertex,
            forall|v: int| has_vertex(candidates@, v) ==> has_vertex(graph.available_vertex@, v),
            forall|v: int| has_vertex(candidates@, v) ==> !has_vertex(clique@, v),
            forall|v: int, m: int|
                #![trigger clique@[m], has_vertex(candidates@, v)]
                has_vertex(candidates@, v) && 0 <= m < clique@.len() ==> spec_is_edge(
                    *graph,
                    clique@[m] as int,
                    v,
                ),
        decreases candidates@.len(),
    {
        let mut weights: Vec<u128> = Vec::new();
        let mut i: usize = 0;
        while i < candidates.len()
            invariant
                parameters.valid(),
                n == graph.n_vertex,
                trails@.len() == n * n,
                n * n <= usize::MAX,
                trails_bounded(trails@, *parameters),
                clique@.len() >= 1,
                forall|q: int| 0 <= q < clique@.len() ==> (#[trigger] clique@[q]) < n,
                forall|q: int| 0 <= q < candidates@.len() ==> (#[trigger] candidates@[q]) < n,
                0 <= i <= candidates@.len(),
                weights@.len() == i,
                forall|q: int|
                    0 <= q < i ==> 1 <= #[trigger] weights@[q] <= 1000000000000000000000000,
            decreases candidates@.len() - i,
        {
            let cand: usize = candidates[i];
            // The combining rule: the smallest trail over the edges from
            // every clique member to the candidate.
            let mut least: u64 = parameters.tau_max;
            let mut m: usize = 0;
            while m < clique.len()
                invariant
                    parameters.valid(),
                    n == graph.n_vertex,
                    trails@.len() == n * n,
                    n * n <= usize::MAX,
                    trails_bounded(trails@, *parameters),
                    cand < n,
                    forall|q: int| 0 <= q < clique@.len() ==> (#[trigger] clique@[q]) < n,
                    0 <= m <= clique@.len(),
                    parameters.tau_min <= least <= parameters.tau_max,
                decreases clique@.len() - m,
            {
                let idx: usize = pair_index(clique[m], cand, n);
                let t: u64 = trails[idx];
                if t < least {
                    least = t;
                }
                m = m + 1;
            }
            weights.push(pow_weight(least, parameters.alpha));
            i = i + 1;
        }
        proof {
            lemma_no_dup_subset_len(candidates@, graph.available_vertex@);
        }
        let ghost gpre = *graph;
        let idx: usize = pick_weighted(graph, &weights);
        let chosen: usize = candidates[idx];
        assert(candidates@[idx as int] == chosen);
        assert(has_vertex(candidates@, chosen as int));
        proof {
            assert forall|x: int, y: int| spec_is_edge(gpre, x, y) == spec_is_edge(
                *graph,
                x,
                y,
            ) by {
                lemma_edge_same(gpre, *graph, x, y);
            }
        }
        let ghost old_clique = clique@;
        proof {
            assert(!has_vertex(old_clique, chosen as int));
        }
        clique.push(chosen);
        proof {
            lemma_push_vertex(old_clique, chosen);
            assert(clique@ == old_clique.push(chosen));
            assert forall|i2: int, j2: int|
                0 <= i2 < clique@.len() && 0 <= j2 < clique@.len() && i2 != j2 implies spec_is_edge(
                *graph,
                #[trigger] clique@[i2] as int,
                #[trigger] clique@[j2] as int,
            ) by {
                if i2 < old_clique.len() && j2 < old_clique.len() {
                } else if j2 == old_clique.len() {
                    assert(clique@[j2] == chosen);
                    assert(spec_is_edge(*graph, clique@[i2] as int, chosen as int));
                } else {
                    assert(clique@[i2] == chosen);
                    assert(spec_is_edge(*graph, clique@[j2] as int, chosen as int));
                    assert(spec_is_edge(*graph, chosen as int, clique@[j2] as int));
                }
            }
        }
        let next_candidates: Vec<usize> = filter_candidates(graph, &candidates, chosen);
        proof {
            assert forall|v: int, m: int|
                #![trigger clique@[m], has_vertex(next_candidates@, v)]
                has_vertex(next_candidates@, v) && 0 <= m < clique@.len() implies spec_is_edge(
                *graph,
                clique@[m] as int,
                v,
            ) by {
                if m < old_clique.len() {
                    assert(has_vertex(candidates@, v));
                } else {
                    assert(clique@[m] == chosen);
                }
            }
            assert forall|v: int| has_vertex(next_candidates@, v) implies !has_vertex(
                clique@,
                v,
            ) by {
                assert(has_vertex(candidates@, v));
            }
        }
        candidates = next_candidates;
    }
    clique
}

/// The clique search with one pheromone trail per vertex.
pub struct VertexAC {
    pub trails: Vec<u64>,
}

impl VertexAC {
    /// A fresh engine; trails are reset at the start of each invocation.
    pub fn new(parameters: &ACOParameters) -> (r: VertexAC)
        ensures
            r.trails@.len() == 0,
    {
        VertexAC { trails: Vec::new() }
    }

    /// One full search over the available sub-graph: `generations` rounds
    /// of `ants_per_generation` ants each, with evaporation and
    /// reinforcement between rounds.  Returns the largest clique any ant
    /// built; it is a valid clique of available vertices, nonempty exactly
    /// when a vertex is available.
    pub fn aco_procedure(&mut self, parameters: &ACOParameters, graph: &mut Graph) -> (best: Vec<
        usize,
    >)
        requires
            parameters.valid(),
            old(graph).wf(),
        ensures
            final(graph).wf(),
            Graph::same_but_rng(*old(graph), *final(graph)),
            valid_clique_in(*final(graph), best@),
            best@.len() >= 1 <==> old(graph).available_vertex@.len() >= 1,
    {
        let n: usize = graph.n_vertex;
        if graph.available_vertex.len() == 0 {
            let empty: Vec<usize> = Vec::new();
            return empty;
        }
        let mut trails: Vec<u64> = Vec::new();
        let mut i: usize = 0;
        while i < n
            invariant
                parameters.valid(),
                0 <= i <= n,
                trails@.len() == i,
                trails_bounded(trails@, *parameters),
            decreases n - i,
        {
            trails.push(parameters.tau_max);
            i = i + 1;
        }
        self.trails = trails;
        let mut best: Vec<usize> = Vec::new();
        let mut generation: usize = 0;
        while generation < parameters.generations
            invariant
                parameters.valid(),
                graph.wf(),
                Graph::same_but_rng(*old(graph), *graph),
                graph.available_vertex@.len() >= 1,
                n == graph.n_vertex,
                self.trails@.len() == n,
                trails_bounded(self.trails@, *parameters),
                0 <= generation <= parameters.generations,
                valid_clique_in(*graph, best@),
                generation >= 1 ==> best@.len() >= 1,
            decreases parameters.generations - generation,
        {
            let mut ant: usize = 0;
            while ant < parameters.ants_per_generation
                invariant
                    parameters.valid(),
                    graph.wf(),
                    Graph::same_but_rng(*old(graph), *graph),
                    graph.available_vertex@.len() >= 1,
                    n == graph.n_vertex,
                    self.trails@.len() == n,
                    trails_bounded(self.trails@, *parameters),
                    0 <= ant <= parameters.ants_per_generation,
                    valid_clique_in(*graph, best@),
                    ant >= 1 ==> best@.len() >= 1,
                decreases parameters.ants_per_generation - ant,
            {
                let ghost gpre = *graph;
                let clique: Vec<usize> = construct_clique_vertex(&self.trails, parameters, graph);
                proof {
                    lemma_clique_same_graph(gpre, *graph, best@);
                }
                if clique.len() > best.len() {
                    best = clique;
                }
                ant = ant + 1;
            }
            self.trails = evaporate_trails(&self.trails, parameters);
            self.trails = reinforce_vertex_trails(&self.trails, &best, parameters);
            generation = generation + 1;
        }
        best
    }
}

/// The clique search with one pheromone trail per edge.
pub struct EdgeAC {
    pub trails: Vec<u64>,
}

impl EdgeAC {
    /// A fresh engine; trails are reset at the start of each invocation.
    pub fn new(parameters: &ACOParameters) -> (r: EdgeAC)
        ensures
            r.trails@.len() == 0,
    {
        EdgeAC { trails: Vec::new() }
    }

    /// One full search over the available sub-graph, as for the vertex
    /// variant but with desirability attached to edges: a candidate's
    /// weight is the smallest trail on the edges that join it to the
    /// clique built so far.
    pub fn aco_procedure(&mut self, parameters: &ACOParameters, graph: &mut Graph) -> (best: Vec<
        usize,
    >)
        requires
            parameters.valid(),
            old(graph).wf(),
            old(graph).n_vertex * old(graph).n_vertex <= usize::MAX,
        ensures
            final(graph).wf(),
            Graph::same_but_rng(*old(graph), *final(graph)),
            valid_clique_in(*final(graph), best@),
            best@.len() >= 1 <==> old(graph).available_vertex@.len() >= 1,
    {
        let n: usize = graph.n_vertex;
        if graph.available_vertex.len() == 0 {
            let empty: Vec<usize> = Vec::new();
            return empty;
        }
        proof {
            assert(n * n <= usize::MAX);
        }
        let total: usize = n * n;
        let mut trails: Vec<u64> = Vec::new();
        let mut i: usize = 0;
        while i < total
            invariant
                parameters.valid(),
                0 <= i <= total,
                trails@.len() == i,
                trails_bounded(trails@, *parameters),
            decreases total - i,
        {
            trails.push(parameters.tau_max);
            i = i + 1;
        }
        self.trails = trails;
        let mut best: Vec<usize> = Vec::new();
        let mut generation: usize = 0;
        while generation < parameters.generations
            invariant
                parameters.valid(),
                graph.wf(),
                Graph::same_but_rng(*old(graph), *graph),
                graph.available_vertex@.len() >= 1,
                n == graph.n_vertex,
                total == n * n,
                n * n <= usize::MAX,
                self.trails@.len() == total,
                trails_bounded(self.trails@, *parameters),
                0 <= generation <= parameters.generations,
                valid_clique_in(*graph, best@),
                generation >= 1 ==> best@.len() >= 1,
            decreases parameters.generations - generation,
        {
            let mut ant: usize = 0;
            while ant < parameters.ants_per_generation
                invariant
                    parameters.valid(),
                    graph.wf(),
                    Graph::same_but_rng(*old(graph), *graph),
                    graph.available_vertex@.len() >= 1,
                    n == graph.n_vertex,
                    total == n * n,
                    n * n <= usize::MAX,
                    self.trails@.len() == total,
                    trails_bounded(self.trails@, *parameters),
                    0 <= ant <= parameters.ants_per_generation,
                    valid_clique_in(*graph, best@),
                    ant >= 1 ==> best@.len() >= 1,
                decreases parameters.ants_per_generation - ant,
            {
                let ghost gpre = *graph;
                let clique: Vec<usize> = construct_clique_edge(&self.trails, parameters, graph);
                proof {
                    lemma_clique_same_graph(gpre, *graph, best@);
                }
                if clique.len() > best.len() {
                    best = clique;
                }
                ant = ant + 1;
            }
            self.trails = evaporate_trails(&self.trails, parameters);
            reinforce_edge_trails(&mut self.trails, &best, parameters, n);
            generation = generation + 1;
        }
        best
    }
}

} // verus!
