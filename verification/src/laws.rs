//! The laws of the produced rule sets.
//!
//! Every edge's stored clause accepts all learning positives and rejects
//! both of its endpoints.  Every extracted rule's clause rejects every
//! member of its clique, so a rule set whose cliques cover the negatives
//! rejects them all.  A rule's clause accepts a positive row exactly when
//! the row has, on some attribute, a value that no clique member shares;
//! pairwise separability alone does not force this for cliques of three
//! or more vertices, so acceptance of all positives is stated under that
//! separability hypothesis, and unconditionally for cliques of at most
//! two.

use vstd::prelude::*;

use crate::attr_sets::AttrSetView;
use crate::attr_sets::ValView;
use crate::attr_sets::slot_has;
use crate::attr_sets::slots_tag_eq;
use crate::dataset::Row;
use crate::graph::Graph;
use crate::graph::edge_clause_view;
use crate::graph::fold_pairs;
use crate::graph::spec_clique_clause;
use crate::graph::spec_is_edge;
use crate::graph::spec_pack;
use crate::rejectability::edge_clause_matches;
use crate::rejectability::graph_matches_dataset;
use crate::rejectability::pos_union_has;
use crate::rejectability::row_attrs;
use crate::rejectability::rows_schema_ok;
use crate::rejectability::solo_clause_matches;
use crate::semantics::slot_hits;
use crate::semantics::spec_rejects;
use crate::semantics::spec_satisfies;
use crate::solve::ExtractedRule;
use crate::solve::rule_ok;

verus! {

/// The shape of a clause slot built from the positives: the schema's tag
/// when there are positive rows, unconstrained otherwise.
pub open spec fn slot_pattern(s: AttrSetView, schema_k: AttrSetView, npos: nat) -> bool {
    if npos > 0 {
        slots_tag_eq(s, schema_k)
    } else {
        s is Empty
    }
}

/// The pairs of clique positions the clause walk still visits from state
/// `(a, b)`.
pub open spec fn walked(a: int, b: int, x: int, y: int, len: int) -> bool {
    a <= x < y < len && (x > a || y >= b)
}

/// The clause stored for a pair of clique members, in either member order.
proof fn lemma_pair_clause_facts(
    g: Graph,
    pos: Seq<Row>,
    neg: Seq<Row>,
    schema: Seq<AttrSetView>,
    u: int,
    v: int,
)
    requires
        g.wf(),
        graph_matches_dataset(g, pos, neg, schema),
        0 <= u < neg.len(),
        0 <= v < neg.len(),
        u != v,
        spec_is_edge(g, u, v),
    ensures
        edge_clause_view(g, u, v).len() == schema.len(),
        forall|k: int|
            0 <= k < schema.len() ==> slot_pattern(
                #[trigger] edge_clause_view(g, u, v)[k],
                schema[k],
                pos.len(),
            ),
        forall|k: int, val: ValView|
            0 <= k < schema.len() ==> (#[trigger] slot_has(edge_clause_view(g, u, v)[k], val)
                <==> pos_union_has(pos, k, val) && !slot_has(row_attrs(neg, u)[k], val)
                && !slot_has(row_attrs(neg, v)[k], val)),
{
    let (i, j) = if u < v {
        (u, v)
    } else {
        (v, u)
    };
    assert(spec_is_edge(g, i, j)) by {
        assert(spec_is_edge(g, u, v));
    }
    assert(edge_clause_matches(edge_clause_view(g, i, j), pos, neg, schema, i, j));
    assert(spec_pack(u, v, g.n_vertex as int) == spec_pack(i, j, g.n_vertex as int));
    assert(edge_clause_view(g, u, v) == edge_clause_view(g, i, j));
}

/// What the clause walk accumulates: a value survives exactly when the
/// accumulator holds it and every still-visited pair's stored clause
/// holds it.
proof fn lemma_fold_pairs_has(
    g: Graph,
    pos: Seq<Row>,
    neg: Seq<Row>,
    schema: Seq<AttrSetView>,
    c: Seq<usize>,
    a: int,
    b: int,
    acc: Seq<AttrSetView>,
    k: int,
    val: ValView,
)
    requires
        g.wf(),
        graph_matches_dataset(g, pos, neg, schema),
        c.no_duplicates(),
        forall|i: int| 0 <= i < c.len() ==> (#[trigger] c[i]) < neg.len(),
        forall|i: int, j: int|
            0 <= i < c.len() && 0 <= j < c.len() && i != j ==> spec_is_edge(
                g,
                #[trigger] c[i] as int,
                #[trigger] c[j] as int,
            ),
        0 <= a,
        a + 1 <= b,
        0 <= k < schema.len(),
        acc.len() == schema.len(),
        slot_pattern(acc[k], schema[k], pos.len()),
    ensures
        fold_pairs(g, c, a, b, acc).len() == schema.len(),
        slot_pattern(fold_pairs(g, c, a, b, acc)[k], schema[k], pos.len()),
        slot_has(fold_pairs(g, c, a, b, acc)[k], val) <==> slot_has(acc[k], val) && (forall|
            x: int,
            y: int,
        |
            walked(a, b, x, y, c.len() as int) ==> slot_has(
                #[trigger] edge_clause_view(g, c[x] as int, c[y] as int)[k],
                val,
            )),
    decreases c.len() - a, c.len() - b,
{
    if a >= c.len() - 1 {
        assert(fold_pairs(g, c, a, b, acc) == acc);
        assert(forall|x: int, y: int| !walked(a, b, x, y, c.len() as int));
    } else if b >= c.len() {
        lemma_fold_pairs_has(g, pos, neg, schema, c, a + 1, a + 2, acc, k, val);
        assert(fold_pairs(g, c, a, b, acc) == fold_pairs(g, c, a + 1, a + 2, acc));
        assert forall|x: int, y: int|
            walked(a, b, x, y, c.len() as int) == walked(a + 1, a + 2, x, y, c.len() as int) by {}
    } else {
        let pc = edge_clause_view(g, c[a] as int, c[b] as int);
        assert(c[a] != c[b]) by {
            if c[a] == c[b] {
                assert(!c.no_duplicates());
            }
        }
        lemma_pair_clause_facts(g, pos, neg, schema, c[a] as int, c[b] as int);
        let acc2 = crate::attr_sets::inter_lists(acc, pc);
        assert(acc2[k] == crate::attr_sets::inter_slot(acc[k], pc[k]));
        assert(acc2.len() == schema.len());
        if pos.len() > 0 {
            crate::attr_sets::lemma_inter_slot_tag(acc[k], pc[k], schema[k]);
        } else {
            assert(acc[k] is Empty && pc[k] is Empty);
        }
        crate::attr_sets::lemma_inter_slot_has(acc[k], pc[k], val);
        lemma_fold_pairs_has(g, pos, neg, schema, c, a, b + 1, acc2, k, val);
        assert(fold_pairs(g, c, a, b, acc) == fold_pairs(g, c, a, b + 1, acc2));
        assert forall|x: int, y: int|
            walked(a, b, x, y, c.len() as int) == (walked(a, b + 1, x, y, c.len() as int) || (x
                == a && y == b)) by {}
        if slot_has(fold_pairs(g, c, a, b, acc)[k], val) {
            assert(slot_has(acc2[k], val));
            assert(slot_has(acc[k], val) && slot_has(pc[k], val));
        }
        if slot_has(acc[k], val) && (forall|x: int, y: int|
            walked(a, b, x, y, c.len() as int) ==> slot_has(
                #[trigger] edge_clause_view(g, c[x] as int, c[y] as int)[k],
                val,
            )) {
            assert(walked(a, b, a, b, c.len() as int));
            assert(slot_has(pc[k], val));
            assert(slot_has(acc2[k], val));
        }
    }
}

/// The materialized clause of a clique holds a value on an attribute
/// exactly when some positive row holds it there and no clique member
/// does.
pub proof fn lemma_clique_clause_has(
    g: Graph,
    pos: Seq<Row>,
    neg: Seq<Row>,
    schema: Seq<AttrSetView>,
    c: Seq<usize>,
    k: int,
    val: ValView,
)
    requires
        g.wf(),
        graph_matches_dataset(g, pos, neg, schema),
        c.len() >= 1,
        c.no_duplicates(),
        forall|i: int| 0 <= i < c.len() ==> (#[trigger] c[i]) < neg.len(),
        forall|i: int, j: int|
            0 <= i < c.len() && 0 <= j < c.len() && i != j ==> spec_is_edge(
                g,
                #[trigger] c[i] as int,
                #[trigger] c[j] as int,
            ),
        0 <= k < schema.len(),
    ensures
        spec_clique_clause(g, c).len() == schema.len(),
        slot_has(spec_clique_clause(g, c)[k], val) <==> pos_union_has(pos, k, val) && (forall|
            m: int,
        | 0 <= m < c.len() ==> !slot_has(row_attrs(neg, #[trigger] c[m] as int)[k], val)),
{
    if c.len() == 1 {
        assert(solo_clause_matches(g.reject_only_one_negative@[c[0] as int]@, pos, neg, schema, c[0] as int));
        assert(spec_clique_clause(g, c) == g.reject_only_one_negative@[c[0] as int]@);
        if slot_has(spec_clique_clause(g, c)[k], val) {
            assert forall|m: int| 0 <= m < c.len() implies !slot_has(
                row_attrs(neg, #[trigger] c[m] as int)[k],
                val,
            ) by {
                assert(m == 0);
            }
        }
    } else {
        let first = edge_clause_view(g, c[0] as int, c[1] as int);
        assert(c[0] != c[1]) by {
            if c[0] == c[1] {
                assert(!c.no_duplicates());
            }
        }
        lemma_pair_clause_facts(g, pos, neg, schema, c[0] as int, c[1] as int);
        lemma_fold_pairs_has(g, pos, neg, schema, c, 0, 2, first, k, val);
        assert(spec_clique_clause(g, c) == fold_pairs(g, c, 0, 2, first));
        if slot_has(spec_clique_clause(g, c)[k], val) {
            assert forall|m: int| 0 <= m < c.len() implies !slot_has(
                row_attrs(neg, #[trigger] c[m] as int)[k],
                val,
            ) by {
                if m == 0 || m == 1 {
                    assert(slot_has(first[k], val));
                } else {
                    assert(walked(0, 2, 0, m, c.len() as int));
                    assert(slot_has(edge_clause_view(g, c[0] as int, c[m] as int)[k], val));
                    lemma_pair_clause_facts(g, pos, neg, schema, c[0] as int, c[m] as int);
                }
            }
            assert(slot_has(first[k], val));
        }
        if pos_union_has(pos, k, val) && (forall|m: int|
            0 <= m < c.len() ==> !slot_has(row_attrs(neg, #[trigger] c[m] as int)[k], val)) {
            assert(slot_has(first[k], val));
            assert forall|x: int, y: int|
                walked(0, 2, x, y, c.len() as int) implies slot_has(
                #[trigger] edge_clause_view(g, c[x] as int, c[y] as int)[k],
                val,
            ) by {
                assert(c[x] != c[y]) by {
                    if c[x] == c[y] {
                        assert(!c.no_duplicates());
                    }
                }
                lemma_pair_clause_facts(g, pos, neg, schema, c[x] as int, c[y] as int);
            }
        }
    }
}

/// Law: every edge's stored clause is a valid witness — every
/// learning-positive row satisfies it, and it rejects both of the edge's
/// endpoint rows.
pub proof fn lemma_edge_witness_valid(
    g: Graph,
    pos: Seq<Row>,
    neg: Seq<Row>,
    schema: Seq<AttrSetView>,
    i: int,
    j: int,
)
    requires
        g.wf(),
        graph_matches_dataset(g, pos, neg, schema),
        rows_schema_ok(pos, schema),
        rows_schema_ok(neg, schema),
        0 <= i < neg.len(),
        0 <= j < neg.len(),
        i != j,
        spec_is_edge(g, i, j),
    ensures
        forall|p: int|
            0 <= p < pos.len() ==> spec_satisfies(
                #[trigger] row_attrs(pos, p),
                edge_clause_view(g, i, j),
            ),
        spec_rejects(row_attrs(neg, i), edge_clause_view(g, i, j)),
        spec_rejects(row_attrs(neg, j), edge_clause_view(g, i, j)),
{
    let cl = edge_clause_view(g, i, j);
    lemma_pair_clause_facts(g, pos, neg, schema, i, j);
    let (a, b) = if i < j {
        (i, j)
    } else {
        (j, i)
    };
    assert(crate::rejectability::all_pos_separable(pos, neg, a, b)) by {
        assert(spec_is_edge(g, a, b)) by {
            assert(spec_is_edge(g, i, j));
        }
    }
    assert forall|p: int| 0 <= p < pos.len() implies spec_satisfies(
        #[trigger] row_attrs(pos, p),
        cl,
    ) by {
        assert(crate::rejectability::sep_pair(row_attrs(pos, p), row_attrs(neg, a), row_attrs(neg, b)));
        let (k, val) = choose|k: int, val: ValView|
            0 <= k < row_attrs(pos, p).len() && k < row_attrs(neg, a).len() && k < row_attrs(
                neg,
                b,
            ).len() && slot_has(row_attrs(pos, p)[k], val) && !slot_has(row_attrs(neg, a)[k], val)
                && !slot_has(row_attrs(neg, b)[k], val);
        assert(pos_union_has(pos, k, val));
        assert(slot_has(cl[k], val));
        crate::semantics::lemma_slot_hits_has(row_attrs(pos, p)[k], cl[k]);
        assert(slot_hits(row_attrs(pos, p)[k], cl[k]));
        assert(0 <= k < row_attrs(pos, p).len() && k < cl.len() && slot_hits(
            row_attrs(pos, p)[k],
            cl[k],
        ));
    }
    assert forall|w: int| w == i || w == j implies spec_rejects(row_attrs(neg, w), cl) by {
        if spec_satisfies(row_attrs(neg, w), cl) {
            let k = choose|k: int|
                0 <= k < row_attrs(neg, w).len() && k < cl.len() && slot_hits(
                    row_attrs(neg, w)[k],
                    cl[k],
                );
            crate::semantics::lemma_slot_hits_has(row_attrs(neg, w)[k], cl[k]);
            let val = choose|val: ValView|
                slot_has(row_attrs(neg, w)[k], val) && slot_has(cl[k], val);
            assert(!slot_has(row_attrs(neg, w)[k], val));
        }
    }
}

/// Law: an extracted rule's clause rejects every learning-negative row of
/// its clique.
pub proof fn lemma_rule_rejects_members(
    g: Graph,
    pos: Seq<Row>,
    neg: Seq<Row>,
    schema: Seq<AttrSetView>,
    r: ExtractedRule,
)
    requires
        g.wf(),
        graph_matches_dataset(g, pos, neg, schema),
        rows_schema_ok(neg, schema),
        rule_ok(g, r),
    ensures
        forall|m: int|
            0 <= m < r.clique@.len() ==> spec_rejects(
                row_attrs(neg, #[trigger] r.clique@[m] as int),
                r.clause@,
            ),
{
    assert forall|m: int| 0 <= m < r.clique@.len() implies spec_rejects(
        row_attrs(neg, #[trigger] r.clique@[m] as int),
        r.clause@,
    ) by {
        let w = r.clique@[m] as int;
        if spec_satisfies(row_attrs(neg, w), r.clause@) {
            let k = choose|k: int|
                0 <= k < row_attrs(neg, w).len() && k < r.clause@.len() && slot_hits(
                    row_attrs(neg, w)[k],
                    r.clause@[k],
                );
            lemma_clique_clause_has(g, pos, neg, schema, r.clique@, k, ValView::NumV(0));
            assert(row_attrs(neg, w).len() == schema.len());
            crate::semantics::lemma_slot_hits_has(row_attrs(neg, w)[k], r.clause@[k]);
            let val = choose|val: ValView|
                slot_has(row_attrs(neg, w)[k], val) && slot_has(r.clause@[k], val);
            lemma_clique_clause_has(g, pos, neg, schema, r.clique@, k, val);
            assert(!slot_has(row_attrs(neg, w)[k], val));
        }
    }
}

/// Whether some rule's clause rejects the negative row `v`.
pub open spec fn rejected_by_some(rules: Seq<ExtractedRule>, neg: Seq<Row>, v: int) -> bool {
    exists|k: int|
        0 <= k < rules.len() && spec_rejects(row_attrs(neg, v), #[trigger] rules[k].clause@)
}

/// Law: the rules of a full run cover the learning negatives — every
/// negative row is rejected by the clause of the rule whose clique holds
/// its vertex.
pub proof fn lemma_rule_set_coverage(
    g: Graph,
    pos: Seq<Row>,
    neg: Seq<Row>,
    schema: Seq<AttrSetView>,
    rules: Seq<ExtractedRule>,
)
    requires
        g.wf(),
        graph_matches_dataset(g, pos, neg, schema),
        rows_schema_ok(neg, schema),
        forall|k: int| 0 <= k < rules.len() ==> rule_ok(g, #[trigger] rules[k]),
        forall|v: int| 0 <= v < neg.len() ==> #[trigger] crate::solve::covered_by(rules, v),
    ensures
        forall|v: int|
            0 <= v < neg.len() ==> #[trigger] rejected_by_some(rules, neg, v),
{
    assert forall|v: int| 0 <= v < neg.len() implies #[trigger] rejected_by_some(
        rules,
        neg,
        v,
    ) by {
        assert(crate::solve::covered_by(rules, v));
        let k = choose|k: int|
            0 <= k < rules.len() && crate::graph::has_vertex(#[trigger] rules[k].clique@, v);
        let m = choose|m: int| 0 <= m < rules[k].clique@.len() && rules[k].clique@[m] == v;
        lemma_rule_rejects_members(g, pos, neg, schema, rules[k]);
        assert(spec_rejects(row_attrs(neg, rules[k].clique@[m] as int), rules[k].clause@));
        assert(0 <= k < rules.len() && spec_rejects(row_attrs(neg, v), rules[k].clause@));
    }
}

/// Whether positive row `p` has, on some attribute, a value that no
/// member of the clique `c` holds there.
pub open spec fn sep_from_clique(pos: Seq<Row>, neg: Seq<Row>, c: Seq<usize>, p: int) -> bool {
    exists|k: int, val: ValView|
        0 <= k < row_attrs(pos, p).len() && #[trigger] slot_has(row_attrs(pos, p)[k], val) && (
        forall|m: int| 0 <= m < c.len() ==> !slot_has(row_attrs(neg, #[trigger] c[m] as int)[k], val))
}

/// Law: an extracted rule's clause accepts every learning-positive row
/// that is separable from its clique's joint footprint.  Graph
/// construction guarantees separability pairwise, which covers cliques of
/// at most two vertices; for larger cliques it is a hypothesis.
pub proof fn lemma_rule_sound_for_separable(
    g: Graph,
    pos: Seq<Row>,
    neg: Seq<Row>,
    schema: Seq<AttrSetView>,
    r: ExtractedRule,
    p: int,
)
    requires
        g.wf(),
        graph_matches_dataset(g, pos, neg, schema),
        rows_schema_ok(pos, schema),
        rows_schema_ok(neg, schema),
        rule_ok(g, r),
        0 <= p < pos.len(),
        sep_from_clique(pos, neg, r.clique@, p),
    ensures
        spec_satisfies(row_attrs(pos, p), r.clause@),
{
    let (k, val) = choose|k: int, val: ValView|
        0 <= k < row_attrs(pos, p).len() && #[trigger] slot_has(row_attrs(pos, p)[k], val) && (
        forall|m: int|
            0 <= m < r.clique@.len() ==> !slot_has(
                row_attrs(neg, #[trigger] r.clique@[m] as int)[k],
                val,
            ));
    assert(row_attrs(pos, p).len() == schema.len());
    assert(pos_union_has(pos, k, val));
    lemma_clique_clause_has(g, pos, neg, schema, r.clique@, k, val);
    assert(slot_has(r.clause@[k], val));
    crate::semantics::lemma_slot_hits_has(row_attrs(pos, p)[k], r.clause@[k]);
    assert(0 <= k < row_attrs(pos, p).len() && k < r.clause@.len() && slot_hits(
        row_attrs(pos, p)[k],
        r.clause@[k],
    ));
}

/// Law: an extracted rule's clause accepts a learning-positive row
/// exactly when the row has, on some attribute, a value that no clique
/// member holds there.
pub proof fn lemma_rule_satisfies_iff_separable(
    g: Graph,
    pos: Seq<Row>,
    neg: Seq<Row>,
    schema: Seq<AttrSetView>,
    r: ExtractedRule,
    p: int,
)
    requires
        g.wf(),
        graph_matches_dataset(g, pos, neg, schema),
        rows_schema_ok(pos, schema),
        rows_schema_ok(neg, schema),
        rule_ok(g, r),
        0 <= p < pos.len(),
    ensures
        spec_satisfies(row_attrs(pos, p), r.clause@) <==> sep_from_clique(pos, neg, r.clique@, p),
{
    if spec_satisfies(row_attrs(pos, p), r.clause@) {
        let k = choose|k: int|
            0 <= k < row_attrs(pos, p).len() && k < r.clause@.len() && slot_hits(
                row_attrs(pos, p)[k],
                r.clause@[k],
            );
        crate::semantics::lemma_slot_hits_has(row_attrs(pos, p)[k], r.clause@[k]);
        let val = choose|val: ValView|
            slot_has(row_attrs(pos, p)[k], val) && slot_has(r.clause@[k], val);
        assert(row_attrs(pos, p).len() == schema.len());
        lemma_clique_clause_has(g, pos, neg, schema, r.clique@, k, val);
        assert(forall|m: int|
            0 <= m < r.clique@.len() ==> !slot_has(
                row_attrs(neg, #[trigger] r.clique@[m] as int)[k],
                val,
            ));
        assert(0 <= k < row_attrs(pos, p).len() && slot_has(row_attrs(pos, p)[k], val) && (forall|
            m: int,
        |
            0 <= m < r.clique@.len() ==> !slot_has(
                row_attrs(neg, #[trigger] r.clique@[m] as int)[k],
                val,
            )));
    }
    if sep_from_clique(pos, neg, r.clique@, p) {
        lemma_rule_sound_for_separable(g, pos, neg, schema, r, p);
    }
}

/// Law: for a rule whose clique has at most two vertices, every
/// learning-positive row satisfies the rule's clause, with no further
/// hypothesis: separability from the pair is exactly what the edge
/// certifies.
pub proof fn lemma_small_rule_sound(
    g: Graph,
    pos: Seq<Row>,
    neg: Seq<Row>,
    schema: Seq<AttrSetView>,
    r: ExtractedRule,
    p: int,
)
    requires
        g.wf(),
        graph_matches_dataset(g, pos, neg, schema),
        rows_schema_ok(pos, schema),
        rows_schema_ok(neg, schema),
        rule_ok(g, r),
        r.clique@.len() == 2,
        0 <= p < pos.len(),
    ensures
        spec_satisfies(row_attrs(pos, p), r.clause@),
{
    let c = r.clique@;
    assert(c[0] != c[1]) by {
        if c[0] == c[1] {
            assert(!c.no_duplicates());
        }
    }
    let (a, b) = if c[0] < c[1] {
        (c[0] as int, c[1] as int)
    } else {
        (c[1] as int, c[0] as int)
    };
    assert(spec_is_edge(g, a, b)) by {
        assert(spec_is_edge(g, c[0] as int, c[1] as int));
    }
    assert(crate::rejectability::all_pos_separable(pos, neg, a, b));
    assert(crate::rejectability::sep_pair(row_attrs(pos, p), row_attrs(neg, a), row_attrs(neg, b)));
    let (k, val) = choose|k: int, val: ValView|
        0 <= k < row_attrs(pos, p).len() && k < row_attrs(neg, a).len() && k < row_attrs(
            neg,
            b,
        ).len() && slot_has(row_attrs(pos, p)[k], val) && !slot_has(row_attrs(neg, a)[k], val)
            && !slot_has(row_attrs(neg, b)[k], val);
    assert(sep_from_clique(pos, neg, c, p)) by {
        assert forall|m: int| 0 <= m < c.len() implies !slot_has(
            row_attrs(neg, #[trigger] c[m] as int)[k],
            val,
        ) by {
            assert(c[m] as int == a || c[m] as int == b);
        }
        assert(0 <= k < row_attrs(pos, p).len() && slot_has(row_attrs(pos, p)[k], val) && (forall|
            m: int,
        |
            0 <= m < c.len() ==> !slot_has(row_attrs(neg, #[trigger] c[m] as int)[k], val)));
    }
    lemma_rule_sound_for_separable(g, pos, neg, schema, r, p);
}

} // verus!
