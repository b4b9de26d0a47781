//! Construction of the rejectability graph.
//!
//! For every unordered pair of learning-negative rows the builder decides
//! whether some clause accepts every learning-positive row while rejecting
//! both negatives.  A pair passes exactly when every positive has, on some
//! attribute, a value that neither negative shares; the edge then stores
//! the most general such clause: per attribute, all positive values that
//! lie outside the pair's joint footprint.  A per-vertex witness clause,
//! the accepting footprint of all positives minus the vertex's own values,
//! covers cliques of a single vertex.

use vstd::prelude::*;

use crate::attr_sets::AttrSetView;
use crate::attr_sets::AttributeValuesSet;
use crate::attr_sets::AttributeValuesSetList;
use crate::attr_sets::ValView;
use crate::attr_sets::lemma_union_slot_has;
use crate::attr_sets::lemma_union_slot_tag;
use crate::attr_sets::slot_has;
use crate::attr_sets::slots_tag_eq;
use crate::attr_sets::union_lists;
use crate::dataset::Dataset;
use crate::dataset::Row;
use crate::semantics::sep_slot;
use crate::semantics::spec_separable;

verus! {

/// The attribute slots of row `i` of `rows`, at the model level.
pub open spec fn row_attrs(rows: Seq<Row>, i: int) -> Seq<AttrSetView> {
    rows[i]@.attributes
}

/// Every row of `rows` has one slot per schema entry, with the schema's
/// tag and name.
pub open spec fn rows_schema_ok(rows: Seq<Row>, schema: Seq<AttrSetView>) -> bool {
    forall|i: int|
        0 <= i < rows.len() ==> (#[trigger] row_attrs(rows, i)).len() == schema.len() && forall|
            k: int,
        | 0 <= k < schema.len() ==> slots_tag_eq(#[trigger] row_attrs(rows, i)[k], schema[k])
}

/// The union, per attribute, of the values of the chosen rows.
/// The result has the tag of each slot of the first chosen row, and holds
/// a value exactly when one of the chosen rows holds it there.
pub fn construct_attribute_sets(dataset: &Vec<Row>, subset: &Vec<usize>) -> (r:
    AttributeValuesSetList)
    requires
        subset@.len() >= 1,
        forall|i: int| 0 <= i < subset@.len() ==> (#[trigger] subset@[i]) < dataset@.len(),
        forall|i: int, k: int|
            0 <= i < subset@.len() && 0 <= k < row_attrs(dataset@, subset@[0] as int).len()
                ==> row_attrs(dataset@, #[trigger] subset@[i] as int).len() == row_attrs(
                dataset@,
                subset@[0] as int,
            ).len() && slots_tag_eq(
                #[trigger] row_attrs(dataset@, subset@[i] as int)[k],
                row_attrs(dataset@, subset@[0] as int)[k],
            ),
        forall|i: int|
            0 <= i < subset@.len() ==> row_attrs(dataset@, #[trigger] subset@[i] as int).len()
                == row_attrs(dataset@, subset@[0] as int).len(),
    ensures
        r@.len() == row_attrs(dataset@, subset@[0] as int).len(),
        forall|k: int|
            0 <= k < r@.len() ==> slots_tag_eq(
                #[trigger] r@[k],
                row_attrs(dataset@, subset@[0] as int)[k],
            ),
        forall|k: int, v: ValView|
            0 <= k < r@.len() ==> (#[trigger] slot_has(r@[k], v) <==> exists|i: int|
                0 <= i < subset@.len() && slot_has(
                    row_attrs(dataset@, #[trigger] subset@[i] as int)[k],
                    v,
                )),
{
    let ghost schema = row_attrs(dataset@, subset@[0] as int);
    let first: usize = subset[0];
    let mut values: AttributeValuesSetList = dataset[first].attributes.duplicate();
    let mut j: usize = 0;
    while j < subset.len()
        invariant
            subset@.len() >= 1,
            forall|i: int| 0 <= i < subset@.len() ==> (#[trigger] subset@[i]) < dataset@.len(),
            forall|i: int, k: int|
                0 <= i < subset@.len() && 0 <= k < schema.len() ==> slots_tag_eq(
                    #[trigger] row_attrs(dataset@, subset@[i] as int)[k],
                    schema[k],
                ),
            forall|i: int|
                0 <= i < subset@.len() ==> row_attrs(dataset@, #[trigger] subset@[i] as int).len()
                    == schema.len(),
            schema == row_attrs(dataset@, subset@[0] as int),
            0 <= j <= subset@.len(),
            values@.len() == schema.len(),
            forall|k: int| 0 <= k < schema.len() ==> slots_tag_eq(#[trigger] values@[k], schema[k]),
            forall|k: int, v: ValView|
                0 <= k < schema.len() ==> (#[trigger] slot_has(values@[k], v) <==> slot_has(
                    schema[k],
                    v,
                ) || exists|i: int|
                    0 <= i < j && slot_has(row_attrs(dataset@, #[trigger] subset@[i] as int)[k], v)),
        decreases subset@.len() - j,
    {
        let idx: usize = subset[j];
        let ghost prev = values@;
        let ghost other = row_attrs(dataset@, subset@[j as int] as int);
        let next: AttributeValuesSetList = values.union(&dataset[idx].attributes);
        proof {
            assert(next@ == union_lists(prev, other));
            assert forall|k: int| 0 <= k < schema.len() implies slots_tag_eq(
                #[trigger] next@[k],
                schema[k],
            ) by {
                lemma_union_slot_tag(prev[k], other[k], schema[k]);
            }
            assert forall|k: int, v: ValView| 0 <= k < schema.len() implies (#[trigger] slot_has(
                next@[k],
                v,
            ) <==> slot_has(schema[k], v) || exists|i: int|
                0 <= i < j + 1 && slot_has(
                    row_attrs(dataset@, #[trigger] subset@[i] as int)[k],
                    v,
                )) by {
                lemma_union_slot_tag(prev[k], other[k], schema[k]);
                lemma_union_slot_has(prev[k], other[k], v);
                if slot_has(next@[k], v) {
                    if slot_has(prev[k], v) {
                        if !slot_has(schema[k], v) {
                            let i = choose|i: int|
                                0 <= i < j && slot_has(
                                    row_attrs(dataset@, #[trigger] subset@[i] as int)[k],
                                    v,
                                );
                            assert(0 <= i < j + 1 && slot_has(
                                row_attrs(dataset@, subset@[i] as int)[k],
                                v,
                            ));
                        }
                    } else {
                        assert(slot_has(other[k], v));
                        assert(0 <= j < j + 1 && slot_has(
                            row_attrs(dataset@, subset@[j as int] as int)[k],
                            v,
                        ));
                    }
                }
                if slot_has(schema[k], v) || exists|i: int|
                    0 <= i < j + 1 && slot_has(
                        row_attrs(dataset@, #[trigger] subset@[i] as int)[k],
                        v,
                    ) {
                    if !slot_has(schema[k], v) {
                        let i = choose|i: int|
                            0 <= i < j + 1 && slot_has(
                                row_attrs(dataset@, #[trigger] subset@[i] as int)[k],
                                v,
                            );
                        if i < j {
                            assert(slot_has(prev[k], v));
                        } else {
                            assert(slot_has(other[k], v));
                        }
                    }
                }
            }
        }
        values = next;
        j = j + 1;
    }
    proof {
        assert forall|k: int, v: ValView| 0 <= k < schema.len() implies (#[trigger] slot_has(
            values@[k],
            v,
        ) <==> exists|i: int|
            0 <= i < subset@.len() && slot_has(
                row_attrs(dataset@, #[trigger] subset@[i] as int)[k],
                v,
            )) by {
            if slot_has(schema[k], v) {
                assert(0 <= 0 < subset@.len() && slot_has(
                    row_attrs(dataset@, subset@[0] as int)[k],
                    v,
                ));
            }
        }
    }
    values
}

/// Whether some clause consistent with this positive row rejects the pair
/// of negatives whose joint footprint is given: the positive must have, on
/// some attribute, a value outside the footprint.
pub fn exists_clause_one_positive(positive: &Row, negative_pair_attrs: &AttributeValuesSetList) -> (r:
    bool)
    requires
        positive@.attributes.len() <= negative_pair_attrs@.len(),
    ensures
        r == spec_separable(positive@.attributes, negative_pair_attrs@),
{
    crate::semantics::separable(&positive.attributes, negative_pair_attrs)
}

/// The slot that `find_clause_one_positive` computes for one attribute:
/// the positive row's values there that lie outside the footprint, under
/// the footprint's tag; slots of mismatched tags stay unconstrained.
pub open spec fn find_slot(p: AttrSetView, f: AttrSetView) -> AttrSetView {
    match (p, f) {
        (AttrSetView::Num(_, pv), AttrSetView::Num(name, fv)) => AttrSetView::Num(
            name,
            pv.difference(fv),
        ),
        (AttrSetView::Cat(_, pv), AttrSetView::Cat(name, fv)) => AttrSetView::Cat(
            name,
            pv.difference(fv),
        ),
        (_, _) => AttrSetView::Empty,
    }
}

/// The most general clause that this one positive row satisfies while both
/// negatives of the pair are rejected: per attribute, the positive's
/// values outside the pair's joint footprint.
pub fn find_clause_one_positive(
    positive_dataset: &Vec<Row>,
    positive_idx: usize,
    negative_pair_attrs: &AttributeValuesSetList,
) -> (r: AttributeValuesSetList)
    requires
        positive_idx < positive_dataset@.len(),
        row_attrs(positive_dataset@, positive_idx as int).len() <= negative_pair_attrs@.len(),
    ensures
        r@.len() == row_attrs(positive_dataset@, positive_idx as int).len(),
        forall|k: int|
            0 <= k < r@.len() ==> #[trigger] r@[k] == find_slot(
                row_attrs(positive_dataset@, positive_idx as int)[k],
                negative_pair_attrs@[k],
            ),
{
    let row: &Row = &positive_dataset[positive_idx];
    let ghost pa = row_attrs(positive_dataset@, positive_idx as int);
    let mut out: Vec<AttributeValuesSet> = Vec::new();
    let mut k: usize = 0;
    while k < row.attributes.list.len()
        invariant
            pa == positive_dataset@[positive_idx as int]@.attributes,
            pa.len() == row.attributes@.len(),
            row == positive_dataset@[positive_idx as int],
            pa.len() <= negative_pair_attrs@.len(),
            0 <= k <= pa.len(),
            out@.len() == k,
            forall|i: int|
                0 <= i < k ==> #[trigger] out@[i]@ == find_slot(pa[i], negative_pair_attrs@[i]),
        decreases pa.len() - k,
    {
        let slot: AttributeValuesSet = find_slot_exec(
            &row.attributes.list[k],
            &negative_pair_attrs.list[k],
        );
        out.push(slot);
        k = k + 1;
    }
    let r = AttributeValuesSetList { list: out };
    assert forall|k2: int| 0 <= k2 < r@.len() implies #[trigger] r@[k2] == find_slot(
        pa[k2],
        negative_pair_attrs@[k2],
    ) by {
        assert(r@[k2] == out@[k2]@);
    }
    r
}

/// One slot of the per-positive witness clause, mirroring `find_slot`.
fn find_slot_exec(p: &AttributeValuesSet, f: &AttributeValuesSet) -> (r: AttributeValuesSet)
    ensures
        r@ == find_slot(p@, f@),
{
    match p {
        AttributeValuesSet::Num(_, pv) => match f {
            AttributeValuesSet::Num(fname, fv) => AttributeValuesSet::Num(
                fname.clone(),
                crate::attr_sets::diff_u64_vals(pv, fv),
            ),
            _ => AttributeValuesSet::Empty,
        },
        AttributeValuesSet::Cat(_, pv) => match f {
            AttributeValuesSet::Cat(fname, fv) => AttributeValuesSet::Cat(
                fname.clone(),
                crate::attr_sets::diff_string_vals(pv, fv),
            ),
            _ => AttributeValuesSet::Empty,
        },
        AttributeValuesSet::Empty => AttributeValuesSet::Empty,
    }
}

/// The dataset's attribute schema: the slots of the first learning row.
pub open spec fn schema_of(d: &Dataset) -> Seq<AttrSetView> {
    if d.learning_pos@.len() > 0 {
        row_attrs(d.learning_pos@, 0)
    } else if d.learning_neg@.len() > 0 {
        row_attrs(d.learning_neg@, 0)
    } else {
        Seq::<AttrSetView>::empty()
    }
}

/// Whether a positive row has, on some attribute, a value held by neither
/// of the two negative rows' slots.
pub open spec fn sep_pair(
    pos_attrs: Seq<AttrSetView>,
    na: Seq<AttrSetView>,
    nb: Seq<AttrSetView>,
) -> bool {
    exists|k: int, v: ValView|
        0 <= k < pos_attrs.len() && k < na.len() && k < nb.len() && slot_has(pos_attrs[k], v)
            && !slot_has(na[k], v) && !slot_has(nb[k], v)
}

/// Whether every positive row is separable from the joint footprint of
/// negatives `i` and `j`.
pub open spec fn all_pos_separable(pos: Seq<Row>, neg: Seq<Row>, i: int, j: int) -> bool {
    forall|p: int|
        0 <= p < pos.len() ==> sep_pair(
            #[trigger] row_attrs(pos, p),
            row_attrs(neg, i),
            row_attrs(neg, j),
        )
}

/// Whether some positive row holds the value on attribute `k`.
pub open spec fn pos_union_has(pos: Seq<Row>, k: int, v: ValView) -> bool {
    exists|p: int| 0 <= p < pos.len() && slot_has(#[trigger] row_attrs(pos, p)[k], v)
}

/// Whether the clause `c` is, per attribute, exactly the positive values
/// outside the joint footprint of negatives `i` and `j`.
pub open spec fn edge_clause_matches(
    c: Seq<AttrSetView>,
    pos: Seq<Row>,
    neg: Seq<Row>,
    schema: Seq<AttrSetView>,
    i: int,
    j: int,
) -> bool {
    &&& c.len() == schema.len()
    &&& forall|k: int|
        0 <= k < schema.len() ==> (if pos.len() > 0 {
            slots_tag_eq(#[trigger] c[k], schema[k])
        } else {
            c[k] is Empty
        })
    &&& forall|k: int, v: ValView|
        0 <= k < schema.len() ==> (#[trigger] slot_has(c[k], v) <==> pos_union_has(pos, k, v)
            && !slot_has(row_attrs(neg, i)[k], v) && !slot_has(row_attrs(neg, j)[k], v))
}

/// Whether the clause `c` is, per attribute, exactly the positive values
/// that negative `i` does not hold.
pub open spec fn solo_clause_matches(
    c: Seq<AttrSetView>,
    pos: Seq<Row>,
    neg: Seq<Row>,
    schema: Seq<AttrSetView>,
    i: int,
) -> bool {
    &&& c.len() == schema.len()
    &&& forall|k: int, v: ValView|
        0 <= k < schema.len() ==> (#[trigger] slot_has(c[k], v) <==> pos_union_has(pos, k, v)
            && !slot_has(row_attrs(neg, i)[k], v))
}

/// Whether the graph is the rejectability graph of the dataset: one vertex
/// per learning-negative row; an edge exactly where every positive is
/// separable from the pair; each edge's stored clause and each per-vertex
/// witness exactly as the construction defines them.
pub open spec fn graph_matches_dataset(
    g: crate::graph::Graph,
    pos: Seq<Row>,
    neg: Seq<Row>,
    schema: Seq<AttrSetView>,
) -> bool {
    &&& g.n_vertex == neg.len()
    &&& g.reject_only_one_negative@.len() == neg.len()
    &&& forall|i: int, j: int|
        0 <= i < j < neg.len() ==> (crate::graph::spec_is_edge(g, i, j) <==> all_pos_separable(
            pos,
            neg,
            i,
            j,
        ))
    &&& forall|i: int, j: int|
        0 <= i < j < neg.len() && crate::graph::spec_is_edge(g, i, j) ==> edge_clause_matches(
            crate::graph::edge_clause_view(g, i, j),
            pos,
            neg,
            schema,
            i,
            j,
        )
    &&& forall|i: int|
        0 <= i < neg.len() ==> solo_clause_matches(
            (#[trigger] g.reject_only_one_negative@[i])@,
            pos,
            neg,
            schema,
            i,
        )
}

/// Matching the dataset depends only on the graph's structure: the edge
/// lists, the clause store, the witnesses and the vertex count.
pub proof fn lemma_graph_matches_stable(
    a: crate::graph::Graph,
    b: crate::graph::Graph,
    pos: Seq<Row>,
    neg: Seq<Row>,
    schema: Seq<AttrSetView>,
)
    requires
        graph_matches_dataset(a, pos, neg, schema),
        b.n_vertex == a.n_vertex,
        b.edge_dict == a.edge_dict,
        b.edge_clause@ == a.edge_clause@,
        b.reject_only_one_negative == a.reject_only_one_negative,
    ensures
        graph_matches_dataset(b, pos, neg, schema),
{
    assert forall|i: int, j: int|
        crate::graph::spec_is_edge(b, i, j) == crate::graph::spec_is_edge(a, i, j) by {
        assert(b.edge_dict@ == a.edge_dict@);
    }
    assert forall|i: int, j: int|
        0 <= i < j < neg.len() && crate::graph::spec_is_edge(b, i, j) implies edge_clause_matches(
        crate::graph::edge_clause_view(b, i, j),
        pos,
        neg,
        schema,
        i,
        j,
    ) by {
        assert(crate::graph::edge_clause_view(b, i, j) == crate::graph::edge_clause_view(a, i, j));
    }
}

/// A clause with `width` unconstrained slots.
fn empty_clause(width: usize) -> (r: AttributeValuesSetList)
    ensures
        r@.len() == width,
        forall|k: int| 0 <= k < width ==> (#[trigger] r@[k]) is Empty,
{
    let mut out: Vec<AttributeValuesSet> = Vec::new();
    let mut k: usize = 0;
    while k < width
        invariant
            0 <= k <= width,
            out@.len() == k,
            forall|i: int| 0 <= i < k ==> (#[trigger] out@[i]@) is Empty,
        decreases width - k,
    {
        out.push(AttributeValuesSet::Empty);
        k = k + 1;
    }
    let r = AttributeValuesSetList { list: out };
    assert forall|k2: int| 0 <= k2 < width implies (#[trigger] r@[k2]) is Empty by {
        assert(r@[k2] == out@[k2]@);
    }
    r
}

/// `find_slot` holds a value exactly when the positive slot holds it and
/// the footprint slot does not, for slots of one tag; its tag follows the
/// footprint's.
proof fn lemma_find_slot_has(p: AttrSetView, f: AttrSetView)
    requires
        slots_tag_eq(p, f),
    ensures
        forall|v: ValView|
            #[trigger] slot_has(find_slot(p, f), v) == (slot_has(p, v) && !slot_has(f, v)),
        slots_tag_eq(find_slot(p, f), f),
{
}

/// Under one schema, separability from the pair's joint footprint is the
/// existence of a positive value on some attribute that neither negative
/// holds.
proof fn lemma_separable_pair(
    pa: Seq<AttrSetView>,
    pair: Seq<AttrSetView>,
    na: Seq<AttrSetView>,
    nb: Seq<AttrSetView>,
    schema: Seq<AttrSetView>,
)
    requires
        pa.len() == schema.len(),
        pair.len() == schema.len(),
        na.len() == schema.len(),
        nb.len() == schema.len(),
        forall|k: int| 0 <= k < schema.len() ==> slots_tag_eq(#[trigger] pa[k], schema[k]),
        forall|k: int| 0 <= k < schema.len() ==> slots_tag_eq(#[trigger] pair[k], schema[k]),
        forall|k: int, v: ValView|
            0 <= k < schema.len() ==> (#[trigger] slot_has(pair[k], v) <==> slot_has(na[k], v)
                || slot_has(nb[k], v)),
    ensures
        spec_separable(pa, pair) <==> sep_pair(pa, na, nb),
{
    if spec_separable(pa, pair) {
        let k = choose|k: int| 0 <= k < pa.len() && k < pair.len() && sep_slot(pa[k], pair[k]);
        crate::attr_sets::lemma_tag_eq_trans(pa[k], pair[k], schema[k]);
        crate::semantics::lemma_sep_slot_has(pa[k], pair[k]);
        let v = choose|v: ValView| slot_has(pa[k], v) && !slot_has(pair[k], v);
        assert(0 <= k < pa.len() && k < na.len() && k < nb.len() && slot_has(pa[k], v) && !slot_has(
            na[k],
            v,
        ) && !slot_has(nb[k], v));
    }
    if sep_pair(pa, na, nb) {
        let (k, v) = choose|k: int, v: ValView|
            0 <= k < pa.len() && k < na.len() && k < nb.len() && slot_has(pa[k], v) && !slot_has(
                na[k],
                v,
            ) && !slot_has(nb[k], v);
        crate::attr_sets::lemma_tag_eq_trans(pa[k], pair[k], schema[k]);
        crate::semantics::lemma_sep_slot_has(pa[k], pair[k]);
        assert(slot_has(pa[k], v) && !slot_has(pair[k], v));
        assert(sep_slot(pa[k], pair[k]));
    }
}

/// The union, per attribute, of the values of all positive rows: the most
/// permissive clause that every positive row satisfies.  With no positive
/// rows it is fully unconstrained, with `width` slots.
fn accept_all_of(pos_rows: &Vec<Row>, width: usize) -> (r: AttributeValuesSetList)
    requires
        pos_rows@.len() > 0 ==> rows_schema_ok(pos_rows@, row_attrs(pos_rows@, 0)),
        pos_rows@.len() > 0 ==> width == row_attrs(pos_rows@, 0).len(),
    ensures
        r@.len() == width,
        forall|k: int|
            0 <= k < width && pos_rows@.len() > 0 ==> slots_tag_eq(
                #[trigger] r@[k],
                row_attrs(pos_rows@, 0)[k],
            ),
        forall|k: int| 0 <= k < width && pos_rows@.len() == 0 ==> (#[trigger] r@[k]) is Empty,
        forall|k: int, v: ValView|
            0 <= k < width ==> (#[trigger] slot_has(r@[k], v) <==> pos_union_has(pos_rows@, k, v)),
{
    let npos: usize = pos_rows.len();
    if npos == 0 {
        let r = empty_clause(width);
        assert forall|k: int, v: ValView| 0 <= k < width implies (#[trigger] slot_has(r@[k], v)
            <==> pos_union_has(pos_rows@, k, v)) by {}
        return r;
    }
    let mut subset: Vec<usize> = Vec::new();
    let mut i: usize = 0;
    while i < npos
        invariant
            0 <= i <= npos,
            subset@.len() == i,
            forall|p: int| 0 <= p < i ==> (#[trigger] subset@[p]) == p,
        decreases npos - i,
    {
        subset.push(i);
        i = i + 1;
    }
    let r: AttributeValuesSetList = construct_attribute_sets(pos_rows, &subset);
    proof {
        assert(subset@[0] == 0);
        assert forall|k: int, v: ValView| 0 <= k < width implies (#[trigger] slot_has(r@[k], v)
            <==> pos_union_has(pos_rows@, k, v)) by {
            if slot_has(r@[k], v) {
                let q = choose|q: int|
                    0 <= q < subset@.len() && slot_has(
                        row_attrs(pos_rows@, #[trigger] subset@[q] as int)[k],
                        v,
                    );
                assert(subset@[q] == q);
                assert(slot_has(row_attrs(pos_rows@, q)[k], v));
            }
            if pos_union_has(pos_rows@, k, v) {
                let p = choose|p: int|
                    0 <= p < pos_rows@.len() && slot_has(#[trigger] row_attrs(pos_rows@, p)[k], v);
                assert(subset@[p] == p);
                assert(slot_has(row_attrs(pos_rows@, subset@[p] as int)[k], v));
            }
        }
    }
    r
}

/// Builds the rejectability graph of the dataset's learning half: one
/// vertex per learning-negative row, every vertex available, an edge with
/// its witness clause for exactly the pairs from which every positive row
/// is separable, and a per-vertex witness clause for singleton cliques.
pub fn create_rejectability_graph(rng: rand::rngs::StdRng, dataset: &Dataset) -> (g:
    crate::graph::Graph)
    requires
        dataset.learning_neg@.len() <= 0x7fff_ffff,
        rows_schema_ok(dataset.learning_pos@, schema_of(dataset)),
        rows_schema_ok(dataset.learning_neg@, schema_of(dataset)),
    ensures
        g.wf(),
        g.uniform_clause_len(schema_of(dataset).len() as nat),
        graph_matches_dataset(g, dataset.learning_pos@, dataset.learning_neg@, schema_of(dataset)),
        g.available_vertex@.len() == g.n_vertex,
        forall|i: int| 0 <= i < g.n_vertex ==> (#[trigger] g.available_vertex@[i]) == i,
{
    let ghost pos = dataset.learning_pos@;
    let ghost neg = dataset.learning_neg@;
    let ghost schema = schema_of(dataset);
    let npos: usize = dataset.learning_pos.len();
    let nneg: usize = dataset.learning_neg.len();
    let width: usize = if npos > 0 {
        dataset.learning_pos[0].attributes.list.len()
    } else if nneg > 0 {
        dataset.learning_neg[0].attributes.list.len()
    } else {
        0
    };
    assert(width == schema.len());

    // The most permissive clause that still accepts every positive row.
    let accept_all_positive: AttributeValuesSetList = accept_all_of(
        &dataset.learning_pos,
        width,
    );
    proof {
        assert(accept_all_positive@.len() == schema.len());
    }

    // Per-vertex witnesses: the permissive clause minus the vertex's own
    // values.
    let mut reject_only_one_negative: Vec<AttributeValuesSetList> = Vec::new();
    let mut i: usize = 0;
    while i < nneg
        invariant
            0 <= i <= nneg,
            nneg == neg.len(),
            rows_schema_ok(neg, schema),
            rows_schema_ok(pos, schema),
            pos == dataset.learning_pos@,
            neg == dataset.learning_neg@,
            npos == pos.len(),
            accept_all_positive@.len() == schema.len(),
            forall|k: int|
                0 <= k < schema.len() && npos > 0 ==> slots_tag_eq(
                    #[trigger] accept_all_positive@[k],
                    schema[k],
                ),
            forall|k: int| 0 <= k < schema.len() && npos == 0 ==> accept_all_positive@[k] is Empty,
            forall|k: int, v: ValView|
                0 <= k < schema.len() ==> (#[trigger] slot_has(accept_all_positive@[k], v)
                    <==> pos_union_has(pos, k, v)),
            reject_only_one_negative@.len() == i,
            forall|q: int|
                0 <= q < i ==> solo_clause_matches(
                    (#[trigger] reject_only_one_negative@[q])@,
                    pos,
                    neg,
                    schema,
                    q,
                ),
            forall|q: int|
                0 <= q < i ==> (#[trigger] reject_only_one_negative@[q])@.len() == schema.len(),
        decreases nneg - i,
    {
        let ghost na = row_attrs(neg, i as int);
        assert(na.len() == schema.len());
        let one: AttributeValuesSetList = accept_all_positive.difference(
            &dataset.learning_neg[i].attributes,
        );
        proof {
            assert(one@ == crate::attr_sets::diff_lists(accept_all_positive@, na));
            assert forall|k: int, v: ValView| 0 <= k < schema.len() implies (#[trigger] slot_has(
                one@[k],
                v,
            ) <==> pos_union_has(pos, k, v) && !slot_has(na[k], v)) by {
                if npos > 0 {
                    crate::attr_sets::lemma_tag_eq_trans(
                        accept_all_positive@[k],
                        na[k],
                        schema[k],
                    );
                } else {
                    assert(accept_all_positive@[k] is Empty);
                }
                crate::attr_sets::lemma_diff_slot_has(accept_all_positive@[k], na[k], v);
            }
            assert(solo_clause_matches(one@, pos, neg, schema, i as int));
        }
        reject_only_one_negative.push(one);
        i = i + 1;
    }

    let mut graph = crate::graph::Graph::new(rng, nneg);
    graph.set_reject_witnesses(reject_only_one_negative);
    proof {
        assert(graph.uniform_clause_len(schema.len() as nat)) by {
            assert(graph.edge_clause@.dom() =~= Set::<u64>::empty());
        }
    }

    // One edge for every pair of negatives from which every positive is
    // separable.
    let mut a: usize = 0;
    while a < nneg
        invariant
            0 <= a <= nneg,
            nneg == neg.len(),
            nneg <= 0x7fff_ffff,
            rows_schema_ok(neg, schema),
            rows_schema_ok(pos, schema),
            pos == dataset.learning_pos@,
            neg == dataset.learning_neg@,
            npos == pos.len(),
            width == schema.len(),
            graph.wf(),
            graph.n_vertex == nneg,
            graph.uniform_clause_len(schema.len() as nat),
            graph.reject_only_one_negative@.len() == nneg,
            forall|q: int|
                0 <= q < nneg ==> solo_clause_matches(
                    (#[trigger] graph.reject_only_one_negative@[q])@,
                    pos,
                    neg,
                    schema,
                    q,
                ),
            graph.available_vertex@.len() == nneg,
            forall|q: int| 0 <= q < nneg ==> (#[trigger] graph.available_vertex@[q]) == q,
            forall|x: int, y: int|
                0 <= x < y < nneg && (x < a) ==> (crate::graph::spec_is_edge(graph, x, y)
                    <==> all_pos_separable(pos, neg, x, y)),
            forall|x: int, y: int|
                0 <= x < y < nneg && x >= a ==> !crate::graph::spec_is_edge(graph, x, y),
            forall|x: int, y: int|
                0 <= x < y < nneg && crate::graph::spec_is_edge(graph, x, y)
                    ==> edge_clause_matches(
                    crate::graph::edge_clause_view(graph, x, y),
                    pos,
                    neg,
                    schema,
                    x,
                    y,
                ),
        decreases nneg - a,
    {
        let mut b: usize = a + 1;
        while b < nneg
            invariant
                0 <= a < nneg,
                a + 1 <= b <= nneg,
                nneg == neg.len(),
                nneg <= 0x7fff_ffff,
                rows_schema_ok(neg, schema),
                rows_schema_ok(pos, schema),
                pos == dataset.learning_pos@,
                neg == dataset.learning_neg@,
                npos == pos.len(),
                width == schema.len(),
                graph.wf(),
                graph.n_vertex == nneg,
                graph.uniform_clause_len(schema.len() as nat),
                graph.reject_only_one_negative@.len() == nneg,
                forall|q: int|
                    0 <= q < nneg ==> solo_clause_matches(
                        (#[trigger] graph.reject_only_one_negative@[q])@,
                        pos,
                        neg,
                        schema,
                        q,
                    ),
                graph.available_vertex@.len() == nneg,
                forall|q: int| 0 <= q < nneg ==> (#[trigger] graph.available_vertex@[q]) == q,
                forall|x: int, y: int|
                    0 <= x < y < nneg && (x < a || (x == a && y < b)) ==> (
                    crate::graph::spec_is_edge(graph, x, y) <==> all_pos_separable(pos, neg, x, y)),
                forall|x: int, y: int|
                    0 <= x < y < nneg && (x > a || (x == a && y >= b))
                        ==> !crate::graph::spec_is_edge(graph, x, y),
                forall|x: int, y: int|
                    0 <= x < y < nneg && crate::graph::spec_is_edge(graph, x, y)
                        ==> edge_clause_matches(
                        crate::graph::edge_clause_view(graph, x, y),
                        pos,
                        neg,
                        schema,
                        x,
                        y,
                    ),
            decreases nneg - b,
        {
            let ghost na = row_attrs(neg, a as int);
            let ghost nb = row_attrs(neg, b as int);
            let mut subset: Vec<usize> = Vec::new();
            subset.push(a);
            subset.push(b);
            proof {
                assert(subset@[0] == a && subset@[1] == b);
                assert forall|q: int, k: int|
                    0 <= q < subset@.len() && 0 <= k < row_attrs(neg, subset@[0] as int).len() implies row_attrs(
                    neg,
                    #[trigger] subset@[q] as int,
                ).len() == row_attrs(neg, subset@[0] as int).len() && slots_tag_eq(
                    #[trigger] row_attrs(neg, subset@[q] as int)[k],
                    row_attrs(neg, subset@[0] as int)[k],
                ) by {
                    crate::attr_sets::lemma_tag_eq_trans(
                        row_attrs(neg, subset@[q] as int)[k],
                        row_attrs(neg, subset@[0] as int)[k],
                        schema[k],
                    );
                }
            }
            let negative_pair_attrs: AttributeValuesSetList = construct_attribute_sets(
                &dataset.learning_neg,
                &subset,
            );
            proof {
                assert(negative_pair_attrs@.len() == schema.len());
                assert forall|k: int| 0 <= k < schema.len() implies slots_tag_eq(
                    #[trigger] negative_pair_attrs@[k],
                    schema[k],
                ) by {
                    assert(slots_tag_eq(negative_pair_attrs@[k], row_attrs(neg, a as int)[k]));
                    assert(slots_tag_eq(row_attrs(neg, a as int)[k], schema[k]));
                }
                assert forall|k: int, v: ValView| 0 <= k < schema.len() implies (
                #[trigger] slot_has(negative_pair_attrs@[k], v) <==> slot_has(na[k], v)
                    || slot_has(nb[k], v)) by {
                    if slot_has(negative_pair_attrs@[k], v) {
                        let q = choose|q: int|
                            0 <= q < subset@.len() && slot_has(
                                row_attrs(neg, #[trigger] subset@[q] as int)[k],
                                v,
                            );
                        if q == 0 {
                            assert(slot_has(na[k], v));
                        } else {
                            assert(slot_has(nb[k], v));
                        }
                    }
                    if slot_has(na[k], v) {
                        assert(slot_has(row_attrs(neg, subset@[0] as int)[k], v));
                    }
                    if slot_has(nb[k], v) {
                        assert(slot_has(row_attrs(neg, subset@[1] as int)[k], v));
                    }
                }
            }

            let mut clause: AttributeValuesSetList = empty_clause(width);
            let mut exists_clause_for_all_positive: bool = true;
            let mut p: usize = 0;
            while p < npos && exists_clause_for_all_positive
                invariant
                    0 <= p <= npos,
                    npos == pos.len(),
                    pos == dataset.learning_pos@,
                    neg == dataset.learning_neg@,
                    rows_schema_ok(pos, schema),
                    width == schema.len(),
                    na == row_attrs(neg, a as int),
                    nb == row_attrs(neg, b as int),
                    na.len() == schema.len(),
                    nb.len() == schema.len(),
                    negative_pair_attrs@.len() == schema.len(),
                    forall|k: int|
                        0 <= k < schema.len() ==> slots_tag_eq(
                            #[trigger] negative_pair_attrs@[k],
                            schema[k],
                        ),
                    forall|k: int, v: ValView|
                        0 <= k < schema.len() ==> (#[trigger] slot_has(negative_pair_attrs@[k], v)
                            <==> slot_has(na[k], v) || slot_has(nb[k], v)),
                    exists_clause_for_all_positive ==> forall|q: int|
                        0 <= q < p ==> sep_pair(#[trigger] row_attrs(pos, q), na, nb),
                    !exists_clause_for_all_positive ==> !all_pos_separable(pos, neg, a as int, b as int),
                    clause@.len() == schema.len(),
                    forall|k: int|
                        0 <= k < schema.len() ==> (if p > 0 && exists_clause_for_all_positive {
                            slots_tag_eq(#[trigger] clause@[k], schema[k])
                        } else {
                            true
                        }),
                    forall|k: int|
                        0 <= k < schema.len() && p == 0 ==> (#[trigger] clause@[k]) is Empty,
                    exists_clause_for_all_positive ==> forall|k: int, v: ValView|
                        0 <= k < schema.len() ==> (#[trigger] slot_has(clause@[k], v) <==> (
                        exists|q: int|
                            0 <= q < p && slot_has(#[trigger] row_attrs(pos, q)[k], v))
                            && !slot_has(na[k], v) && !slot_has(nb[k], v)),
                decreases npos - p,
            {
                let sep: bool = exists_clause_one_positive(
                    &dataset.learning_pos[p],
                    &negative_pair_attrs,
                );
                proof {
                    lemma_separable_pair(
                        row_attrs(pos, p as int),
                        negative_pair_attrs@,
                        na,
                        nb,
                        schema,
                    );
                }
                if !sep {
                    exists_clause_for_all_positive = false;
                    proof {
                        assert(!sep_pair(row_attrs(pos, p as int), na, nb));
                        assert(!all_pos_separable(pos, neg, a as int, b as int));
                    }
                } else {
                    let singular: AttributeValuesSetList = find_clause_one_positive(
                        &dataset.learning_pos,
                        p,
                        &negative_pair_attrs,
                    );
                    let ghost prevc = clause@;
                    let next: AttributeValuesSetList = clause.union(&singular);
                    proof {
                        assert(next@ == union_lists(prevc, singular@));
                        assert forall|k: int| 0 <= k < schema.len() implies slots_tag_eq(
                            #[trigger] next@[k],
                            schema[k],
                        ) && crate::attr_sets::slots_joinable(prevc[k], singular@[k]) by {
                            lemma_find_slot_has(
                                row_attrs(pos, p as int)[k],
                                negative_pair_attrs@[k],
                            );
                            crate::attr_sets::lemma_tag_eq_trans(
                                singular@[k],
                                negative_pair_attrs@[k],
                                schema[k],
                            );
                            assert(slots_tag_eq(singular@[k], schema[k]));
                            if prevc[k] is Empty {
                                assert(union_lists(prevc, singular@)[k] == singular@[k]);
                            } else {
                                crate::attr_sets::lemma_tag_eq_trans(
                                    prevc[k],
                                    singular@[k],
                                    schema[k],
                                );
                                crate::attr_sets::lemma_union_slot_tag(
                                    prevc[k],
                                    singular@[k],
                                    schema[k],
                                );
                            }
                        }
                        assert forall|k: int, v: ValView| 0 <= k < schema.len() implies (
                        #[trigger] slot_has(next@[k], v) <==> (exists|q: int|
                            0 <= q < p + 1 && slot_has(#[trigger] row_attrs(pos, q)[k], v))
                            && !slot_has(na[k], v) && !slot_has(nb[k], v)) by {
                            lemma_find_slot_has(
                                row_attrs(pos, p as int)[k],
                                negative_pair_attrs@[k],
                            );
                            if prevc[k] is Empty {
                                assert(slot_has(prevc[k], v) == false);
                            }
                            crate::attr_sets::lemma_union_slot_has(prevc[k], singular@[k], v);
                            if slot_has(next@[k], v) {
                                if slot_has(prevc[k], v) {
                                    let q = choose|q: int|
                                        0 <= q < p && slot_has(
                                            #[trigger] row_attrs(pos, q)[k],
                                            v,
                                        );
                                    assert(0 <= q < p + 1 && slot_has(row_attrs(pos, q)[k], v));
                                } else {
                                    assert(slot_has(singular@[k], v));
                                    assert(0 <= p < p + 1 && slot_has(
                                        row_attrs(pos, p as int)[k],
                                        v,
                                    ));
                                }
                            }
                            if (exists|q: int|
                                0 <= q < p + 1 && slot_has(#[trigger] row_attrs(pos, q)[k], v))
                                && !slot_has(na[k], v) && !slot_has(nb[k], v) {
                                let q = choose|q: int|
                                    0 <= q < p + 1 && slot_has(#[trigger] row_attrs(pos, q)[k], v);
                                if q < p {
                                    assert(slot_has(prevc[k], v));
                                } else {
                                    assert(slot_has(singular@[k], v));
                                }
                            }
                        }
                    }
                    clause = next;
                }
                p = p + 1;
            }

            if exists_clause_for_all_positive {
                proof {
                    assert(p == npos);
                    assert(all_pos_separable(pos, neg, a as int, b as int));
                    assert forall|k: int, v: ValView| 0 <= k < schema.len() implies (
                    #[trigger] slot_has(clause@[k], v) <==> pos_union_has(pos, k, v) && !slot_has(
                        na[k],
                        v,
                    ) && !slot_has(nb[k], v)) by {}
                    assert(edge_clause_matches(clause@, pos, neg, schema, a as int, b as int));
                }
                let ghost gprev = graph;
                graph.add_edge(a, b, &clause);
                proof {
                    let n = nneg as int;
                    assert forall|x: int, y: int|
                        0 <= x < y < nneg && crate::graph::spec_is_edge(graph, x, y)
                            && !(x == a && y == b) implies edge_clause_matches(
                        crate::graph::edge_clause_view(graph, x, y),
                        pos,
                        neg,
                        schema,
                        x,
                        y,
                    ) by {
                        assert(crate::graph::spec_is_edge(gprev, x, y));
                        if crate::graph::spec_pack(x, y, n) as u64 == crate::graph::spec_pack(
                            a as int,
                            b as int,
                            n,
                        ) as u64 {
                            assert(crate::graph::spec_pack(x, y, n) <= 0x7fff_ffff
                                * 0x8000_0000) by (nonlinear_arith)
                                requires
                                    0 <= x < n,
                                    0 <= y < n,
                                    n <= 0x7fff_ffff,
                            ;
                            assert(crate::graph::spec_pack(a as int, b as int, n) <= 0x7fff_ffff
                                * 0x8000_0000) by (nonlinear_arith)
                                requires
                                    0 <= a < n,
                                    0 <= b < n,
                                    n <= 0x7fff_ffff,
                            ;
                            crate::graph::lemma_pack_injective(x, y, a as int, b as int, n);
                            assert(false);
                        }
                        assert(crate::graph::edge_clause_view(graph, x, y)
                            == crate::graph::edge_clause_view(gprev, x, y));
                    }
                    assert(edge_clause_matches(
                        crate::graph::edge_clause_view(graph, a as int, b as int),
                        pos,
                        neg,
                        schema,
                        a as int,
                        b as int,
                    )) by {
                        assert(crate::graph::edge_clause_view(graph, a as int, b as int)
                            =~= clause@);
                    }
                }
            }
            b = b + 1;
        }
        a = a + 1;
    }
    graph
}

} // verus!
