//! The extraction loop and the top-level induction entry point.
//!
//! While any vertex of the rejectability graph is available, one ant
//! colony invocation extracts a clique, its vertices leave the available
//! set, and the clique's materialized clause becomes one rule.  The loop
//! terminates because each round covers at least one vertex, and the rules
//! it emits assign every vertex to exactly one clique.

use vstd::prelude::*;

use crate::aco::ACOAlgorithm;
use crate::aco::ACOParameters;
use crate::aco::EdgeAC;
use crate::aco::VertexAC;
use crate::aco::valid_clique_in;
use crate::attr_sets::AttributeValuesSetList;
use crate::graph::Graph;
use crate::graph::has_vertex;
use crate::graph::spec_clique_clause;
use crate::graph::spec_is_edge;

verus! {

/// One extracted rule: the clique of negatives it covers and the clause
/// that rejects all of them.
#[derive(Debug, PartialEq, Eq)]
pub struct ExtractedRule {
    pub clique: Vec<usize>,
    pub clause: AttributeValuesSetList,
}

/// The structural facts of one extracted rule: a nonempty, duplicate-free,
/// pairwise connected vertex set, and the clause the graph materializes
/// for it.
pub open spec fn rule_ok(g: Graph, r: ExtractedRule) -> bool {
    &&& r.clique@.len() >= 1
    &&& r.clique@.no_duplicates()
    &&& forall|i: int| 0 <= i < r.clique@.len() ==> (#[trigger] r.clique@[i]) < g.n_vertex
    &&& forall|i: int, j: int|
        0 <= i < r.clique@.len() && 0 <= j < r.clique@.len() && i != j ==> spec_is_edge(
            g,
            #[trigger] r.clique@[i] as int,
            #[trigger] r.clique@[j] as int,
        )
    &&& r.clause@ == spec_clique_clause(g, r.clique@)
}

/// `fold_pairs` reads only the clause store and the vertex count.
proof fn lemma_fold_pairs_same(
    a: Graph,
    b: Graph,
    c: Seq<usize>,
    x: int,
    y: int,
    acc: Seq<crate::attr_sets::AttrSetView>,
)
    requires
        a.edge_clause@ == b.edge_clause@,
        a.n_vertex == b.n_vertex,
    ensures
        crate::graph::fold_pairs(a, c, x, y, acc) == crate::graph::fold_pairs(b, c, x, y, acc),
    decreases c.len() - x, c.len() - y,
{
    if x < 0 || y < 0 || x >= c.len() - 1 {
    } else if y >= c.len() {
        lemma_fold_pairs_same(a, b, c, x + 1, x + 2, acc);
    } else {
        assert(crate::graph::edge_clause_view(a, c[x] as int, c[y] as int)
            == crate::graph::edge_clause_view(b, c[x] as int, c[y] as int));
        lemma_fold_pairs_same(
            a,
            b,
            c,
            x,
            y + 1,
            crate::attr_sets::inter_lists(
                acc,
                crate::graph::edge_clause_view(a, c[x] as int, c[y] as int),
            ),
        );
    }
}

/// The materialized clause of a clique reads only the clause store, the
/// per-vertex witnesses and the vertex count.
proof fn lemma_clique_clause_same(a: Graph, b: Graph, c: Seq<usize>)
    requires
        a.edge_clause@ == b.edge_clause@,
        a.n_vertex == b.n_vertex,
        a.reject_only_one_negative == b.reject_only_one_negative,
    ensures
        spec_clique_clause(a, c) == spec_clique_clause(b, c),
{
    if c.len() != 1 {
        assert(crate::graph::edge_clause_view(a, c[0] as int, c[1] as int)
            == crate::graph::edge_clause_view(b, c[0] as int, c[1] as int));
        lemma_fold_pairs_same(
            a,
            b,
            c,
            0,
            2,
            crate::graph::edge_clause_view(a, c[0] as int, c[1] as int),
        );
    }
}

/// One round of extraction preserves the loop's bookkeeping: every rule is
/// still well formed, the emitted cliques still cover exactly the
/// vertices that have left the available set, and they stay disjoint.
proof fn lemma_extract_step(
    avail0: Seq<usize>,
    gpre: Graph,
    gnow: Graph,
    rpre: Seq<ExtractedRule>,
    rnow: Seq<ExtractedRule>,
)
    requires
        forall|k: int| 0 <= k < rpre.len() ==> rule_ok(gpre, #[trigger] rpre[k]),
        forall|v: int|
            has_vertex(avail0, v) <==> (has_vertex(gpre.available_vertex@, v) || exists|k: int|
                0 <= k < rpre.len() && has_vertex(#[trigger] rpre[k].clique@, v)),
        forall|k: int, v: int|
            #![trigger has_vertex(rpre[k].clique@, v)]
            0 <= k < rpre.len() && has_vertex(rpre[k].clique@, v) ==> !has_vertex(
                gpre.available_vertex@,
                v,
            ),
        gnow.n_vertex == gpre.n_vertex,
        gnow.edge_dict == gpre.edge_dict,
        gnow.edge_clause@ == gpre.edge_clause@,
        gnow.reject_only_one_negative == gpre.reject_only_one_negative,
        rnow.len() == rpre.len() + 1,
        forall|k: int| 0 <= k < rpre.len() ==> #[trigger] rnow[k] == rpre[k],
        ({
            let nr = rnow[rpre.len() as int];
            &&& nr.clique@.len() >= 1
            &&& nr.clique@.no_duplicates()
            &&& forall|i: int| 0 <= i < nr.clique@.len() ==> (#[trigger] nr.clique@[i]) < gpre.n_vertex
            &&& forall|i: int, j: int|
                0 <= i < nr.clique@.len() && 0 <= j < nr.clique@.len() && i != j ==> spec_is_edge(
                    gpre,
                    #[trigger] nr.clique@[i] as int,
                    #[trigger] nr.clique@[j] as int,
                )
            &&& nr.clause@ == spec_clique_clause(gpre, nr.clique@)
            &&& forall|i: int|
                0 <= i < nr.clique@.len() ==> has_vertex(
                    gpre.available_vertex@,
                    #[trigger] nr.clique@[i] as int,
                )
            &&& forall|v: int|
                #![trigger has_vertex(gnow.available_vertex@, v)]
                #![trigger has_vertex(gpre.available_vertex@, v)]
                has_vertex(gnow.available_vertex@, v) == (has_vertex(gpre.available_vertex@, v)
                    && !has_vertex(nr.clique@, v))
        }),
    ensures
        forall|k: int| 0 <= k < rnow.len() ==> rule_ok(gnow, #[trigger] rnow[k]),
        forall|v: int|
            has_vertex(avail0, v) <==> (has_vertex(gnow.available_vertex@, v) || exists|k: int|
                0 <= k < rnow.len() && has_vertex(#[trigger] rnow[k].clique@, v)),
        forall|k: int, v: int|
            #![trigger has_vertex(rnow[k].clique@, v)]
            0 <= k < rnow.len() && has_vertex(rnow[k].clique@, v) ==> !has_vertex(
                gnow.available_vertex@,
                v,
            ),
        forall|k1: int, k2: int, v: int|
            #![trigger has_vertex(rnow[k1].clique@, v), has_vertex(rnow[k2].clique@, v)]
            (forall|a1: int, a2: int, w: int|
                #![trigger has_vertex(rpre[a1].clique@, w), has_vertex(rpre[a2].clique@, w)]
                0 <= a1 < rpre.len() && 0 <= a2 < rpre.len() && a1 != a2 && has_vertex(
                    rpre[a1].clique@,
                    w,
                ) ==> !has_vertex(rpre[a2].clique@, w)) && 0 <= k1 < rnow.len() && 0 <= k2
                < rnow.len() && k1 != k2 && has_vertex(rnow[k1].clique@, v) ==> !has_vertex(
                rnow[k2].clique@,
                v,
            ),
{
    let nr = rnow[rpre.len() as int];
    assert forall|k: int| 0 <= k < rnow.len() implies rule_ok(gnow, #[trigger] rnow[k]) by {
        let r = if k < rpre.len() {
            rpre[k]
        } else {
            nr
        };
        assert(rnow[k] == r);
        assert(r.clique@.len() >= 1 && r.clique@.no_duplicates());
        if k < rpre.len() {
            assert(rule_ok(gpre, rpre[k]));
        }
        assert forall|i: int, j: int|
            0 <= i < r.clique@.len() && 0 <= j < r.clique@.len() && i != j implies spec_is_edge(
            gnow,
            #[trigger] r.clique@[i] as int,
            #[trigger] r.clique@[j] as int,
        ) by {
            assert(spec_is_edge(gpre, r.clique@[i] as int, r.clique@[j] as int));
            assert(gnow.edge_dict@ == gpre.edge_dict@);
        }
        lemma_clique_clause_same(gpre, gnow, r.clique@);
    }
    assert forall|v: int|
        has_vertex(avail0, v) <==> (has_vertex(gnow.available_vertex@, v) || exists|k: int|
            0 <= k < rnow.len() && has_vertex(#[trigger] rnow[k].clique@, v)) by {
        if has_vertex(avail0, v) {
            if has_vertex(gpre.available_vertex@, v) {
                if has_vertex(nr.clique@, v) {
                    assert(has_vertex(rnow[rpre.len() as int].clique@, v));
                } else {
                    assert(has_vertex(gnow.available_vertex@, v));
                }
            } else {
                let k = choose|k: int|
                    0 <= k < rpre.len() && has_vertex(#[trigger] rpre[k].clique@, v);
                assert(has_vertex(rnow[k].clique@, v));
            }
        }
        if has_vertex(gnow.available_vertex@, v) {
            assert(has_vertex(gpre.available_vertex@, v));
        }
        if exists|k: int| 0 <= k < rnow.len() && has_vertex(#[trigger] rnow[k].clique@, v) {
            let k = choose|k: int| 0 <= k < rnow.len() && has_vertex(#[trigger] rnow[k].clique@, v);
            if k < rpre.len() {
                assert(has_vertex(rpre[k].clique@, v));
            } else {
                assert(has_vertex(nr.clique@, v));
                let i = choose|i: int| 0 <= i < nr.clique@.len() && nr.clique@[i] == v;
                assert(has_vertex(gpre.available_vertex@, v));
            }
        }
    }
    assert forall|k: int, v: int|
        #![trigger has_vertex(rnow[k].clique@, v)]
        0 <= k < rnow.len() && has_vertex(rnow[k].clique@, v) implies !has_vertex(
        gnow.available_vertex@,
        v,
    ) by {
        if k < rpre.len() {
            assert(has_vertex(rpre[k].clique@, v));
            assert(!has_vertex(gpre.available_vertex@, v));
        } else {
            assert(has_vertex(nr.clique@, v));
        }
    }
    assert forall|k1: int, k2: int, v: int|
        #![trigger has_vertex(rnow[k1].clique@, v), has_vertex(rnow[k2].clique@, v)]
        (forall|a1: int, a2: int, w: int|
            #![trigger has_vertex(rpre[a1].clique@, w), has_vertex(rpre[a2].clique@, w)]
            0 <= a1 < rpre.len() && 0 <= a2 < rpre.len() && a1 != a2 && has_vertex(
                rpre[a1].clique@,
                w,
            ) ==> !has_vertex(rpre[a2].clique@, w)) && 0 <= k1 < rnow.len() && 0 <= k2 < rnow.len()
            && k1 != k2 && has_vertex(rnow[k1].clique@, v) implies !has_vertex(
        rnow[k2].clique@,
        v,
    ) by {
        if k1 < rpre.len() && k2 < rpre.len() {
            assert(has_vertex(rpre[k1].clique@, v));
            assert(!has_vertex(rpre[k2].clique@, v));
        } else if k1 < rpre.len() {
            assert(has_vertex(rpre[k1].clique@, v));
            assert(!has_vertex(gpre.available_vertex@, v));
            if has_vertex(nr.clique@, v) {
                let i = choose|i: int| 0 <= i < nr.clique@.len() && nr.clique@[i] == v;
                assert(has_vertex(gpre.available_vertex@, v));
            }
        } else {
            assert(has_vertex(nr.clique@, v));
            let i = choose|i: int| 0 <= i < nr.clique@.len() && nr.clique@[i] == v;
            assert(has_vertex(gpre.available_vertex@, v));
            if has_vertex(rpre[k2].clique@, v) {
                assert(!has_vertex(gpre.available_vertex@, v));
            }
        }
    }
}

/// Drains the graph: extracts one clique per round with the chosen engine,
/// marks its vertices covered, and materializes its clause, until no
/// vertex is available.  The emitted cliques partition the vertices that
/// were available at the start, and every rule carries the clause the
/// graph stores for its clique.
pub fn extract_rule_set(
    graph: &mut Graph,
    algorithm: &ACOAlgorithm,
    parameters: &ACOParameters,
) -> (rules: Vec<ExtractedRule>)
    requires
        parameters.valid(),
        old(graph).wf(),
        old(graph).reject_only_one_negative@.len() == old(graph).n_vertex,
        exists|m: nat| old(graph).uniform_clause_len(m),
        old(graph).n_vertex * old(graph).n_vertex <= usize::MAX,
    ensures
        final(graph).wf(),
        final(graph).n_vertex == old(graph).n_vertex,
        final(graph).edge_dict == old(graph).edge_dict,
        final(graph).edge_clause@ == old(graph).edge_clause@,
        final(graph).reject_only_one_negative == old(graph).reject_only_one_negative,
        final(graph).available_vertex@.len() == 0,
        forall|k: int| 0 <= k < rules@.len() ==> rule_ok(*final(graph), #[trigger] rules@[k]),
        forall|v: int|
            has_vertex(old(graph).available_vertex@, v) <==> exists|k: int|
                0 <= k < rules@.len() && has_vertex(#[trigger] rules@[k].clique@, v),
        forall|k1: int, k2: int, v: int|
            #![trigger has_vertex(rules@[k1].clique@, v), has_vertex(rules@[k2].clique@, v)]
            0 <= k1 < rules@.len() && 0 <= k2 < rules@.len() && k1 != k2 && has_vertex(
                rules@[k1].clique@,
                v,
            ) ==> !has_vertex(rules@[k2].clique@, v),
{
    let ghost m0 = choose|m: nat| old(graph).uniform_clause_len(m);
    let mut rules: Vec<ExtractedRule> = Vec::new();
    match algorithm {
        ACOAlgorithm::VertexAC => {
            let mut engine: VertexAC = VertexAC::new(parameters);
            while graph.available_vertex.len() > 0
                invariant
                    parameters.valid(),
                    graph.wf(),
                    graph.n_vertex == old(graph).n_vertex,
                    graph.edge_dict == old(graph).edge_dict,
                    graph.edge_clause@ == old(graph).edge_clause@,
                    graph.reject_only_one_negative == old(graph).reject_only_one_negative,
                    graph.reject_only_one_negative@.len() == graph.n_vertex,
                    graph.uniform_clause_len(m0),
                    forall|k: int| 0 <= k < rules@.len() ==> rule_ok(*graph, #[trigger] rules@[k]),
                    forall|v: int|
                        has_vertex(old(graph).available_vertex@, v) <==> (has_vertex(
                            graph.available_vertex@,
                            v,
                        ) || exists|k: int|
                            0 <= k < rules@.len() && has_vertex(#[trigger] rules@[k].clique@, v)),
                    forall|k: int, v: int|
                        #![trigger has_vertex(rules@[k].clique@, v)]
                        0 <= k < rules@.len() && has_vertex(rules@[k].clique@, v)
                            ==> !has_vertex(graph.available_vertex@, v),
                    forall|k1: int, k2: int, v: int|
                        #![trigger has_vertex(rules@[k1].clique@, v), has_vertex(rules@[k2].clique@, v)]
                        0 <= k1 < rules@.len() && 0 <= k2 < rules@.len() && k1 != k2 && has_vertex(
                            rules@[k1].clique@,
                            v,
                        ) ==> !has_vertex(rules@[k2].clique@, v),
                decreases graph.available_vertex@.len(),
            {
                let ghost gpre = *graph;
                let ghost rpre = rules@;
                extract_one_vertex_engine(&mut engine, parameters, graph, &mut rules);
                proof {
                    lemma_extract_step(old(graph).available_vertex@, gpre, *graph, rpre, rules@);
                }
            }
        },
        ACOAlgorithm::EdgeAC => {
            let mut engine: EdgeAC = EdgeAC::new(parameters);
            while graph.available_vertex.len() > 0
                invariant
                    parameters.valid(),
                    graph.wf(),
                    graph.n_vertex == old(graph).n_vertex,
                    graph.n_vertex * graph.n_vertex <= usize::MAX,
                    graph.edge_dict == old(graph).edge_dict,
                    graph.edge_clause@ == old(graph).edge_clause@,
                    graph.reject_only_one_negative == old(graph).reject_only_one_negative,
                    graph.reject_only_one_negative@.len() == graph.n_vertex,
                    graph.uniform_clause_len(m0),
                    forall|k: int| 0 <= k < rules@.len() ==> rule_ok(*graph, #[trigger] rules@[k]),
                    forall|v: int|
                        has_vertex(old(graph).available_vertex@, v) <==> (has_vertex(
                            graph.available_vertex@,
                            v,
                        ) || exists|k: int|
                            0 <= k < rules@.len() && has_vertex(#[trigger] rules@[k].clique@, v)),
                    forall|k: int, v: int|
                        #![trigger has_vertex(rules@[k].clique@, v)]
                        0 <= k < rules@.len() && has_vertex(rules@[k].clique@, v)
                            ==> !has_vertex(graph.available_vertex@, v),
                    forall|k1: int, k2: int, v: int|
                        #![trigger has_vertex(rules@[k1].clique@, v), has_vertex(rules@[k2].clique@, v)]
                        0 <= k1 < rules@.len() && 0 <= k2 < rules@.len() && k1 != k2 && has_vertex(
                            rules@[k1].clique@,
                            v,
                        ) ==> !has_vertex(rules@[k2].clique@, v),
                decreases graph.available_vertex@.len(),
            {
                let ghost gpre = *graph;
                let ghost rpre = rules@;
                extract_one_edge_engine(&mut engine, parameters, graph, &mut rules);
                proof {
                    lemma_extract_step(old(graph).available_vertex@, gpre, *graph, rpre, rules@);
                }
            }
        },
    }
    rules
}

/// One round of the extraction loop with the vertex-trail engine.
fn extract_one_vertex_engine(
    engine: &mut VertexAC,
    parameters: &ACOParameters,
    graph: &mut Graph,
    rules: &mut Vec<ExtractedRule>,
)
    requires
        parameters.valid(),
        old(graph).wf(),
        old(graph).available_vertex@.len() >= 1,
        old(graph).reject_only_one_negative@.len() == old(graph).n_vertex,
        exists|m: nat| old(graph).uniform_clause_len(m),
    ensures
        final(graph).wf(),
        final(graph).n_vertex == old(graph).n_vertex,
        final(graph).edge_dict == old(graph).edge_dict,
        final(graph).edge_clause@ == old(graph).edge_clause@,
        final(graph).reject_only_one_negative == old(graph).reject_only_one_negative,
        final(graph).available_vertex@.len() < old(graph).available_vertex@.len(),
        final(rules)@.len() == old(rules)@.len() + 1,
        forall|k: int| 0 <= k < old(rules)@.len() ==> final(rules)@[k] == old(rules)@[k],
        ({
            let nr = final(rules)@[old(rules)@.len() as int];
            &&& nr.clique@.len() >= 1
            &&& nr.clique@.no_duplicates()
            &&& forall|i: int| 0 <= i < nr.clique@.len() ==> (#[trigger] nr.clique@[i]) < old(graph).n_vertex
            &&& forall|i: int, j: int|
                0 <= i < nr.clique@.len() && 0 <= j < nr.clique@.len() && i != j ==> spec_is_edge(
                    *old(graph),
                    #[trigger] nr.clique@[i] as int,
                    #[trigger] nr.clique@[j] as int,
                )
            &&& nr.clause@ == spec_clique_clause(*old(graph), nr.clique@)
            &&& forall|i: int|
                0 <= i < nr.clique@.len() ==> has_vertex(
                    old(graph).available_vertex@,
                    #[trigger] nr.clique@[i] as int,
                )
            &&& forall|v: int|
                #![trigger has_vertex(final(graph).available_vertex@, v)]
                #![trigger has_vertex(old(graph).available_vertex@, v)]
                has_vertex(final(graph).available_vertex@, v) == (has_vertex(
                    old(graph).available_vertex@,
                    v,
                ) && !has_vertex(nr.clique@, v))
        }),
{
    let ghost m0 = choose|m: nat| old(graph).uniform_clause_len(m);
    let best_clique: Vec<usize> = engine.aco_procedure(parameters, graph);
    let ghost g1 = *graph;
    assert(valid_clique_in(g1, best_clique@));
    assert(best_clique@.len() >= 1);
    graph.remove_vertex_set_from_available(&best_clique);
    proof {
        assert(has_vertex(g1.available_vertex@, best_clique@[0] as int));
        assert(0 <= 0 < best_clique@.len() && has_vertex(
            g1.available_vertex@,
            best_clique@[0] as int,
        ));
        assert(graph.uniform_clause_len(m0)) by {
            assert(graph.edge_clause@ == old(graph).edge_clause@);
            assert(graph.reject_only_one_negative == old(graph).reject_only_one_negative);
        }
    }
    let clause: AttributeValuesSetList = graph.get_clique_clause(&best_clique);
    proof {
        lemma_clique_clause_same(*graph, *old(graph), best_clique@);
        assert forall|i2: int, j2: int|
            0 <= i2 < best_clique@.len() && 0 <= j2 < best_clique@.len() && i2 != j2 implies spec_is_edge(
            *old(graph),
            #[trigger] best_clique@[i2] as int,
            #[trigger] best_clique@[j2] as int,
        ) by {
            assert(spec_is_edge(g1, best_clique@[i2] as int, best_clique@[j2] as int));
            assert(g1.edge_dict@ == old(graph).edge_dict@);
        }
        assert(g1.available_vertex@ == old(graph).available_vertex@);
        assert forall|v: int|
            has_vertex(graph.available_vertex@, v) == (has_vertex(
                old(graph).available_vertex@,
                v,
            ) && !has_vertex(best_clique@, v)) by {
            assert(has_vertex(graph.available_vertex@, v) == (has_vertex(g1.available_vertex@, v)
                && !has_vertex(best_clique@, v)));
        }
    }
    rules.push(ExtractedRule { clique: best_clique, clause });
}

/// One round of the extraction loop with the edge-trail engine.
fn extract_one_edge_engine(
    engine: &mut EdgeAC,
    parameters: &ACOParameters,
    graph: &mut Graph,
    rules: &mut Vec<ExtractedRule>,
)
    requires
        parameters.valid(),
        old(graph).wf(),
        old(graph).available_vertex@.len() >= 1,
        old(graph).reject_only_one_negative@.len() == old(graph).n_vertex,
        old(graph).n_vertex * old(graph).n_vertex <= usize::MAX,
        exists|m: nat| old(graph).uniform_clause_len(m),
    ensures
        final(graph).wf(),
        final(graph).n_vertex == old(graph).n_vertex,
        final(graph).edge_dict == old(graph).edge_dict,
        final(graph).edge_clause@ == old(graph).edge_clause@,
        final(graph).reject_only_one_negative == old(graph).reject_only_one_negative,
        final(graph).available_vertex@.len() < old(graph).available_vertex@.len(),
        final(rules)@.len() == old(rules)@.len() + 1,
        forall|k: int| 0 <= k < old(rules)@.len() ==> final(rules)@[k] == old(rules)@[k],
        ({
            let nr = final(rules)@[old(rules)@.len() as int];
            &&& nr.clique@.len() >= 1
            &&& nr.clique@.no_duplicates()
            &&& forall|i: int| 0 <= i < nr.clique@.len() ==> (#[trigger] nr.clique@[i]) < old(graph).n_vertex
            &&& forall|i: int, j: int|
                0 <= i < nr.clique@.len() && 0 <= j < nr.clique@.len() && i != j ==> spec_is_edge(
                    *old(graph),
                    #[trigger] nr.clique@[i] as int,
                    #[trigger] nr.clique@[j] as int,
                )
            &&& nr.clause@ == spec_clique_clause(*old(graph), nr.clique@)
            &&& forall|i: int|
                0 <= i < nr.clique@.len() ==> has_vertex(
                    old(graph).available_vertex@,
                    #[trigger] nr.clique@[i] as int,
                )
            &&& forall|v: int|
                #![trigger has_vertex(final(graph).available_vertex@, v)]
                #![trigger has_vertex(old(graph).available_vertex@, v)]
                has_vertex(final(graph).available_vertex@, v) == (has_vertex(
                    old(graph).available_vertex@,
                    v,
                ) && !has_vertex(nr.clique@, v))
        }),
{
    let ghost m0 = choose|m: nat| old(graph).uniform_clause_len(m);
    let best_clique: Vec<usize> = engine.aco_procedure(parameters, graph);
    let ghost g1 = *graph;
    assert(valid_clique_in(g1, best_clique@));
    assert(best_clique@.len() >= 1);
    graph.remove_vertex_set_from_available(&best_clique);
    proof {
        assert(has_vertex(g1.available_vertex@, best_clique@[0] as int));
        assert(0 <= 0 < best_clique@.len() && has_vertex(
            g1.available_vertex@,
            best_clique@[0] as int,
        ));
        assert(graph.uniform_clause_len(m0)) by {
            assert(graph.edge_clause@ == old(graph).edge_clause@);
            assert(graph.reject_only_one_negative == old(graph).reject_only_one_negative);
        }
    }
    let clause: AttributeValuesSetList = graph.get_clique_clause(&best_clique);
    proof {
        lemma_clique_clause_same(*graph, *old(graph), best_clique@);
        assert forall|i2: int, j2: int|
            0 <= i2 < best_clique@.len() && 0 <= j2 < best_clique@.len() && i2 != j2 implies spec_is_edge(
            *old(graph),
            #[trigger] best_clique@[i2] as int,
            #[trigger] best_clique@[j2] as int,
        ) by {
            assert(spec_is_edge(g1, best_clique@[i2] as int, best_clique@[j2] as int));
            assert(g1.edge_dict@ == old(graph).edge_dict@);
        }
        assert(g1.available_vertex@ == old(graph).available_vertex@);
        assert forall|v: int|
            has_vertex(graph.available_vertex@, v) == (has_vertex(
                old(graph).available_vertex@,
                v,
            ) && !has_vertex(best_clique@, v)) by {
            assert(has_vertex(graph.available_vertex@, v) == (has_vertex(g1.available_vertex@, v)
                && !has_vertex(best_clique@, v)));
        }
    }
    rules.push(ExtractedRule { clique: best_clique, clause });
}

/// Whether some rule's clique holds the vertex `v`.
pub open spec fn covered_by(rules: Seq<ExtractedRule>, v: int) -> bool {
    exists|k: int| 0 <= k < rules.len() && has_vertex(#[trigger] rules[k].clique@, v)
}

/// The result of one full induction run: the rejectability graph, drained,
/// and the extracted rule set.
#[derive(Debug)]
pub struct RunOutcome {
    pub graph: Graph,
    pub rules: Vec<ExtractedRule>,
}

/// Whether every row of `rows` fits the schema: one slot per schema entry,
/// with the schema's tag and name.
fn check_rows_schema(rows: &Vec<crate::dataset::Row>, schema: &crate::dataset::Row) -> (r: bool)
    ensures
        r == crate::rejectability::rows_schema_ok(rows@, schema@.attributes),
{
    let width: usize = schema.attributes.list.len();
    let mut i: usize = 0;
    while i < rows.len()
        invariant
            0 <= i <= rows@.len(),
            width == schema@.attributes.len(),
            forall|q: int|
                0 <= q < i ==> (#[trigger] crate::rejectability::row_attrs(rows@, q)).len()
                    == schema@.attributes.len() && forall|k: int|
                    0 <= k < schema@.attributes.len() ==> crate::attr_sets::slots_tag_eq(
                        #[trigger] crate::rejectability::row_attrs(rows@, q)[k],
                        schema@.attributes[k],
                    ),
        decreases rows@.len() - i,
    {
        if rows[i].attributes.list.len() != width {
            proof {
                assert(crate::rejectability::row_attrs(rows@, i as int).len()
                    != schema@.attributes.len());
                assert(!crate::rejectability::rows_schema_ok(rows@, schema@.attributes));
            }
            return false;
        }
        let mut k: usize = 0;
        while k < width
            invariant
                0 <= k <= width,
                i < rows@.len(),
                width == schema@.attributes.len(),
                crate::rejectability::row_attrs(rows@, i as int).len() == width,
                forall|k2: int|
                    0 <= k2 < k ==> crate::attr_sets::slots_tag_eq(
                        #[trigger] crate::rejectability::row_attrs(rows@, i as int)[k2],
                        schema@.attributes[k2],
                    ),
            decreases width - k,
        {
            if !crate::attr_sets::slots_tag_eq_exec(
                &rows[i].attributes.list[k],
                &schema.attributes.list[k],
            ) {
                proof {
                    assert(!crate::attr_sets::slots_tag_eq(
                        crate::rejectability::row_attrs(rows@, i as int)[k as int],
                        schema@.attributes[k as int],
                    ));
                    assert(!crate::rejectability::rows_schema_ok(rows@, schema@.attributes));
                }
                return false;
            }
            k = k + 1;
        }
        i = i + 1;
    }
    true
}

/// The full induction, as one function from dataset, configuration and
/// random source to a rule set: validates the configuration, checks the
/// rows against the schema of the first learning row, builds the
/// rejectability graph and drains it.  On success the outcome's cliques
/// partition the learning negatives and each rule carries its clique's
/// materialized clause; the distinct errors name, in this order of
/// precedence, an invalid configuration, a schema mismatch, and a dataset
/// too large to index.
pub fn run_core(
    rng: rand::rngs::StdRng,
    dataset: &crate::dataset::Dataset,
    algorithm: &ACOAlgorithm,
    parameters: &ACOParameters,
) -> (r: Result<RunOutcome, &'static str>)
    ensures
        match r {
            Ok(out) => {
                &&& parameters.valid()
                &&& crate::rejectability::rows_schema_ok(
                    dataset.learning_pos@,
                    crate::rejectability::schema_of(dataset),
                )
                &&& crate::rejectability::rows_schema_ok(
                    dataset.learning_neg@,
                    crate::rejectability::schema_of(dataset),
                )
                &&& out.graph.wf()
                &&& out.graph.n_vertex == dataset.learning_neg@.len()
                &&& out.graph.uniform_clause_len(
                    crate::rejectability::schema_of(dataset).len() as nat,
                )
                &&& crate::rejectability::graph_matches_dataset(
                    out.graph,
                    dataset.learning_pos@,
                    dataset.learning_neg@,
                    crate::rejectability::schema_of(dataset),
                )
                &&& out.graph.available_vertex@.len() == 0
                &&& forall|k: int|
                    0 <= k < out.rules@.len() ==> rule_ok(out.graph, #[trigger] out.rules@[k])
                &&& forall|v: int|
                    0 <= v < dataset.learning_neg@.len() ==> #[trigger] covered_by(out.rules@, v)
                &&& forall|k1: int, k2: int, v: int|
                    #![trigger has_vertex(out.rules@[k1].clique@, v), has_vertex(out.rules@[k2].clique@, v)]
                    0 <= k1 < out.rules@.len() && 0 <= k2 < out.rules@.len() && k1 != k2
                        && has_vertex(out.rules@[k1].clique@, v) ==> !has_vertex(
                        out.rules@[k2].clique@,
                        v,
                    )
            },
            Err(e) => {
                ||| (e@ == "Configuration invalid"@ && !parameters.valid())
                ||| (e@ == "Schema mismatch"@ && parameters.valid() && !(
                crate::rejectability::rows_schema_ok(
                    dataset.learning_pos@,
                    crate::rejectability::schema_of(dataset),
                ) && crate::rejectability::rows_schema_ok(
                    dataset.learning_neg@,
                    crate::rejectability::schema_of(dataset),
                )))
                ||| (e@ == "Dataset too large"@ && parameters.valid() && (
                dataset.learning_neg@.len() > 0x7fff_ffff || dataset.learning_neg@.len()
                    * dataset.learning_neg@.len() > usize::MAX))
            },
        },
{
    if !parameters.is_valid() {
        return Err("Configuration invalid");
    }
    let schema_row: &crate::dataset::Row = if dataset.learning_pos.len() > 0 {
        &dataset.learning_pos[0]
    } else if dataset.learning_neg.len() > 0 {
        &dataset.learning_neg[0]
    } else {
        if dataset.learning_neg.len() > 0x7fff_ffff {
            return Err("Dataset too large");
        }
        // No learning rows at all: the graph is empty and the rule set
        // trivial.
        let mut graph: Graph = crate::rejectability::create_rejectability_graph(rng, dataset);
        let rules: Vec<ExtractedRule> = extract_rule_set(&mut graph, algorithm, parameters);
        return Ok(RunOutcome { graph, rules });
    };
    assert(schema_row@.attributes == crate::rejectability::schema_of(dataset));
    if !check_rows_schema(&dataset.learning_pos, schema_row) {
        return Err("Schema mismatch");
    }
    if !check_rows_schema(&dataset.learning_neg, schema_row) {
        return Err("Schema mismatch");
    }
    if dataset.learning_neg.len() > 0x7fff_ffff {
        return Err("Dataset too large");
    }
    let n: usize = dataset.learning_neg.len();
    if n > 0 && usize::MAX / n < n {
        proof {
            if n * n <= usize::MAX {
                vstd::arithmetic::div_mod::lemma_div_is_ordered(
                    (n as int) * (n as int),
                    usize::MAX as int,
                    n as int,
                );
                vstd::arithmetic::div_mod::lemma_div_multiples_vanish(n as int, n as int);
            }
        }
        return Err("Dataset too large");
    }
    proof {
        if n > 0 {
            vstd::arithmetic::div_mod::lemma_fundamental_div_mod(usize::MAX as int, n as int);
            assert(n * n <= usize::MAX) by (nonlinear_arith)
                requires
                    n >= 1,
                    n <= (usize::MAX as int) / (n as int),
                    usize::MAX as int == (n as int) * ((usize::MAX as int) / (n as int)) + (
                    usize::MAX as int) % (n as int),
                    (usize::MAX as int) % (n as int) >= 0,
            ;
        }
    }
    let mut graph: Graph = crate::rejectability::create_rejectability_graph(rng, dataset);
    let ghost g0 = graph;
    let rules: Vec<ExtractedRule> = extract_rule_set(&mut graph, algorithm, parameters);
    proof {
        crate::rejectability::lemma_graph_matches_stable(
            g0,
            graph,
            dataset.learning_pos@,
            dataset.learning_neg@,
            crate::rejectability::schema_of(dataset),
        );
        assert forall|v: int| 0 <= v < dataset.learning_neg@.len() implies #[trigger] covered_by(
            rules@,
            v,
        ) by {
            assert(g0.available_vertex@[v] == v);
            assert(has_vertex(g0.available_vertex@, v));
            let k = choose|k: int| 0 <= k < rules@.len() && has_vertex(#[trigger] rules@[k].clique@, v);
            assert(0 <= k < rules@.len() && has_vertex(rules@[k].clique@, v));
        }
    }
    Ok(RunOutcome { graph, rules })
}

} // verus!
