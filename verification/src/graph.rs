//! The rejectability graph.
//!
//! Vertices are the indices of the learning-negative rows.  An edge between
//! two vertices certifies that one clause accepts every learning-positive
//! row while rejecting both endpoints; the certifying clause is stored
//! under the packed pair key.  A per-vertex witness clause covers cliques
//! of a single vertex, and the mutable `available_vertex` set drives the
//! extraction loop: it starts as all vertices and only shrinks.

use std::collections::HashMap;

use vstd::prelude::*;

use crate::attr_sets::AttributeValuesSetList;
use crate::rng::rand_below;

verus! {

broadcast use vstd::std_specs::hash::group_hash_axioms;

/// The graph over the learning-negative rows.
#[derive(Debug)]
pub struct Graph {
    pub n_vertex: usize,
    pub edge_dict: Vec<Vec<usize>>,
    pub edge_clause: HashMap<u64, AttributeValuesSetList>,
    pub available_vertex: Vec<usize>,
    pub reject_only_one_negative: Vec<AttributeValuesSetList>,
    pub rng: rand::rngs::StdRng,
}

/// Whether the sequence holds the vertex `v`.
pub open spec fn has_vertex(s: Seq<usize>, v: int) -> bool {
    exists|j: int| 0 <= j < s.len() && s[j] == v
}

/// The key under which the clause of the unordered pair `{u, v}` is stored.
pub open spec fn spec_pack(u: int, v: int, n: int) -> int {
    if u <= v {
        u * n + v
    } else {
        v * n + u
    }
}

/// Distinct unordered pairs of vertices below `n` pack to distinct keys.
pub proof fn lemma_pack_injective(u1: int, v1: int, u2: int, v2: int, n: int)
    requires
        0 <= u1 < v1 < n,
        0 <= u2 < v2 < n,
        spec_pack(u1, v1, n) == spec_pack(u2, v2, n),
    ensures
        u1 == u2 && v1 == v2,
{
    if u1 < u2 {
        assert((u1 + 1) * n <= u2 * n) by (nonlinear_arith)
            requires
                u1 + 1 <= u2,
                n >= 0,
        ;
        assert(u1 * n + v1 < (u1 + 1) * n) by (nonlinear_arith)
            requires
                v1 < n,
        ;
    }
    if u2 < u1 {
        assert((u2 + 1) * n <= u1 * n) by (nonlinear_arith)
            requires
                u2 + 1 <= u1,
                n >= 0,
        ;
        assert(u2 * n + v2 < (u2 + 1) * n) by (nonlinear_arith)
            requires
                v2 < n,
        ;
    }
}

/// Whether there is an edge between `u` and `v`.
pub open spec fn spec_is_edge(g: Graph, u: int, v: int) -> bool {
    0 <= u < g.edge_dict@.len() && has_vertex(g.edge_dict@[u]@, v)
}

impl Graph {
    /// Structural well-formedness: neighbor lists are duplicate-free, stay
    /// in range, never name their own vertex and are symmetric; the clause
    /// store holds exactly the unordered pairs that are edges; the
    /// available set is a duplicate-free set of vertices; the per-vertex
    /// witness list is either absent or complete.
    pub open spec fn wf(self) -> bool {
        &&& self.edge_dict@.len() == self.n_vertex
        &&& self.n_vertex <= 0x7fff_ffff
        &&& forall|u: int, j: int|
            0 <= u < self.n_vertex && 0 <= j < self.edge_dict@[u]@.len()
                ==> (#[trigger] self.edge_dict@[u]@[j]) < self.n_vertex && self.edge_dict@[u]@[j]
                != u
        &&& forall|u: int|
            0 <= u < self.n_vertex ==> (#[trigger] self.edge_dict@[u]@).no_duplicates()
        &&& forall|u: int, v: int|
            #[trigger] spec_is_edge(self, u, v) ==> spec_is_edge(self, v, u)
        &&& forall|u: int, v: int|
            0 <= u < v < self.n_vertex ==> (self.edge_clause@.dom().contains(
                spec_pack(u, v, self.n_vertex as int) as u64,
            ) <==> spec_is_edge(self, u, v))
        &&& self.available_vertex@.no_duplicates()
        &&& self.available_vertex@.len() <= self.n_vertex
        &&& forall|i: int|
            0 <= i < self.available_vertex@.len() ==> (#[trigger] self.available_vertex@[i])
                < self.n_vertex
        &&& (self.reject_only_one_negative@.len() == 0 || self.reject_only_one_negative@.len()
            == self.n_vertex)
    }

    /// Every stored clause, for an edge or a single vertex, has `m`
    /// attribute slots.
    pub open spec fn uniform_clause_len(self, m: nat) -> bool {
        &&& forall|k: u64|
            self.edge_clause@.dom().contains(k) ==> (#[trigger] self.edge_clause@[k])@.len() == m
        &&& forall|i: int|
            0 <= i < self.reject_only_one_negative@.len() ==> (
            #[trigger] self.reject_only_one_negative@[i])@.len() == m
    }

    /// Everything except the random source is unchanged between `a` and `b`.
    pub open spec fn same_but_rng(a: Graph, b: Graph) -> bool {
        &&& a.n_vertex == b.n_vertex
        &&& a.edge_dict == b.edge_dict
        &&& a.edge_clause@ == b.edge_clause@
        &&& a.available_vertex == b.available_vertex
        &&& a.reject_only_one_negative == b.reject_only_one_negative
    }

    /// A graph with `num_vertex` vertices, no edges, every vertex
    /// available, and no per-vertex witnesses yet.
    pub fn new(rng: rand::rngs::StdRng, num_vertex: usize) -> (g: Graph)
        requires
            num_vertex <= 0x7fff_ffff,
        ensures
            g.wf(),
            g.n_vertex == num_vertex,
            forall|u: int, v: int| !spec_is_edge(g, u, v),
            g.edge_clause@ =~= Map::<u64, AttributeValuesSetList>::empty(),
            g.available_vertex@.len() == num_vertex,
            forall|i: int| 0 <= i < num_vertex ==> g.available_vertex@[i] == i,
            g.reject_only_one_negative@.len() == 0,
    {
        let mut edge_dict: Vec<Vec<usize>> = Vec::new();
        let mut available_vertex: Vec<usize> = Vec::new();
        let mut i: usize = 0;
        while i < num_vertex
            invariant
                0 <= i <= num_vertex,
                edge_dict@.len() == i,
                available_vertex@.len() == i,
                forall|u: int| 0 <= u < i ==> (#[trigger] edge_dict@[u]@).len() == 0,
                forall|j: int| 0 <= j < i ==> (#[trigger] available_vertex@[j]) == j,
            decreases num_vertex - i,
        {
            edge_dict.push(Vec::new());
            available_vertex.push(i);
            i = i + 1;
        }
        let g = Graph {
            n_vertex: num_vertex,
            edge_dict,
            edge_clause: HashMap::new(),
            available_vertex,
            reject_only_one_negative: Vec::new(),
            rng,
        };
        assert(g.available_vertex@.no_duplicates());
        assert(forall|u: int, v: int| !spec_is_edge(g, u, v));
        g
    }

    /// The packed key of the unordered pair `{u, v}`.
    fn pack_key(&self, u: usize, v: usize) -> (r: u64)
        requires
            self.n_vertex <= 0x7fff_ffff,
            u < self.n_vertex,
            v < self.n_vertex,
        ensures
            r == spec_pack(u as int, v as int, self.n_vertex as int) as u64,
            spec_pack(u as int, v as int, self.n_vertex as int) <= 0x7fff_ffff * 0x8000_0000,
    {
        let n: u64 = self.n_vertex as u64;
        let (a, b) = if u <= v {
            (u as u64, v as u64)
        } else {
            (v as u64, u as u64)
        };
        proof {
            assert(a * n + b <= 0x7fff_ffff * 0x8000_0000) by (nonlinear_arith)
                requires
                    a < n,
                    b < n,
                    n <= 0x7fff_ffff,
            ;
        }
        a * n + b
    }

    /// Records the edge `{u, v}` with its witness clause.  Re-adding an
    /// edge replaces the stored clause and leaves the neighbor sets as
    /// they are.
    pub fn add_edge(&mut self, u: usize, v: usize, clause_values: &AttributeValuesSetList)
        requires
            old(self).wf(),
            u < old(self).n_vertex,
            v < old(self).n_vertex,
            u != v,
        ensures
            final(self).wf(),
            final(self).n_vertex == old(self).n_vertex,
            final(self).available_vertex == old(self).available_vertex,
            final(self).reject_only_one_negative == old(self).reject_only_one_negative,
            final(self).rng == old(self).rng,
            forall|a: int, b: int|
                spec_is_edge(*final(self), a, b) == (spec_is_edge(*old(self), a, b) || (a == u && b
                    == v) || (a == v && b == u)),
            final(self).edge_clause@.dom() =~= old(self).edge_clause@.dom().insert(
                spec_pack(u as int, v as int, old(self).n_vertex as int) as u64,
            ),
            final(self).edge_clause@[spec_pack(u as int, v as int, old(self).n_vertex as int) as u64]@
                =~= clause_values@,
            forall|k: u64|
                old(self).edge_clause@.dom().contains(k) && k != spec_pack(
                    u as int,
                    v as int,
                    old(self).n_vertex as int,
                ) as u64 ==> #[trigger] final(self).edge_clause@[k] == old(self).edge_clause@[k],
            forall|m: nat|
                old(self).uniform_clause_len(m) && clause_values@.len() == m ==> final(self).uniform_clause_len(m),
    {
        let ghost old_g = *self;
        let key: u64 = self.pack_key(u, v);
        if !contains_vertex(&self.edge_dict[u], v) {
            let nu = &mut self.edge_dict[u];
            nu.push(v);
        }
        if !contains_vertex(&self.edge_dict[v], u) {
            let nv = &mut self.edge_dict[v];
            nv.push(u);
        }
        self.edge_clause.insert(key, clause_values.duplicate());
        proof {
            let n = old_g.n_vertex as int;
            let gnew = *self;
            assert forall|a: int, b: int|
                spec_is_edge(gnew, a, b) == (spec_is_edge(old_g, a, b) || (a == u && b == v) || (a
                    == v && b == u)) by {
                lemma_edge_after_add(old_g, gnew, u as int, v as int, a, b);
            }
            assert forall|a: int, b: int| #[trigger]
                spec_is_edge(gnew, a, b) implies spec_is_edge(gnew, b, a) by {
                lemma_edge_after_add(old_g, gnew, u as int, v as int, a, b);
                lemma_edge_after_add(old_g, gnew, u as int, v as int, b, a);
            }
            assert forall|a: int, b: int| 0 <= a < b < n implies (gnew.edge_clause@.dom().contains(
                spec_pack(a, b, n) as u64,
            ) <==> spec_is_edge(gnew, a, b)) by {
                lemma_edge_after_add(old_g, gnew, u as int, v as int, a, b);
                if spec_pack(a, b, n) as u64 == key {
                    let (su, sv) = if u <= v {
                        (u as int, v as int)
                    } else {
                        (v as int, u as int)
                    };
                    assert(spec_pack(a, b, n) <= 0x7fff_ffff * 0x8000_0000) by (nonlinear_arith)
                        requires
                            0 <= a < n,
                            0 <= b < n,
                            n <= 0x7fff_ffff,
                    ;
                    assert(spec_pack(a, b, n) == spec_pack(su, sv, n));
                    lemma_pack_injective(a, b, su, sv, n);
                    assert(spec_is_edge(gnew, a, b));
                }
            }
            assert(gnew.wf());
        }
    }

    /// Whether the two vertices are joined by an edge.
    pub fn is_edge(&self, vertex_1: usize, vertex_2: usize) -> (r: bool)
        requires
            self.wf(),
            vertex_1 < self.n_vertex,
            vertex_2 < self.n_vertex,
        ensures
            r == spec_is_edge(*self, vertex_1 as int, vertex_2 as int),
    {
        contains_vertex(&self.edge_dict[vertex_1], vertex_2)
    }

    /// A vertex index drawn uniformly at random from all vertices.
    pub fn select_random_vertex(&mut self) -> (r: usize)
        requires
            old(self).wf(),
            old(self).n_vertex >= 1,
        ensures
            r < final(self).n_vertex,
            Graph::same_but_rng(*old(self), *final(self)),
            final(self).wf(),
    {
        let n: usize = self.n_vertex;
        let drawn: u128 = rand_below(&mut self.rng, n as u128);
        proof {
            lemma_wf_unchanged_by_rng(*old(self), *self);
        }
        drawn as usize
    }

    /// The neighbor set of `vertex`: a copy of its neighbor list, or an
    /// empty list for an index outside the graph.
    pub fn get_neighbor_candidates(&self, vertex: usize) -> (r: Vec<usize>)
        ensures
            vertex < self.edge_dict@.len() ==> r@ == self.edge_dict@[vertex as int]@,
            vertex >= self.edge_dict@.len() ==> r@.len() == 0,
    {
        if vertex < self.edge_dict.len() {
            let src: &Vec<usize> = &self.edge_dict[vertex];
            let mut out: Vec<usize> = Vec::new();
            let mut i: usize = 0;
            while i < src.len()
                invariant
                    0 <= i <= src@.len(),
                    out@ =~= src@.subrange(0, i as int),
                decreases src@.len() - i,
            {
                out.push(src[i]);
                assert(out@ =~= src@.subrange(0, i + 1));
                i = i + 1;
            }
            assert(out@ =~= src@);
            out
        } else {
            Vec::new()
        }
    }
}

/// The clause stored for the unordered pair `{u, v}`, for vertices in
/// order of the pair list walked by `spec_clique_clause`.
pub open spec fn edge_clause_view(g: Graph, u: int, v: int) -> Seq<crate::attr_sets::AttrSetView> {
    g.edge_clause@[spec_pack(u, v, g.n_vertex as int) as u64]@
}

/// The clause of a clique, as the walk over its vertex pairs computes it:
/// the stored clause of the first pair, intersected with the stored clause
/// of every further pair in order.
pub open spec fn fold_pairs(
    g: Graph,
    c: Seq<usize>,
    a: int,
    b: int,
    acc: Seq<crate::attr_sets::AttrSetView>,
) -> Seq<crate::attr_sets::AttrSetView>
    decreases c.len() - a, c.len() - b,
{
    if a < 0 || b < 0 || a >= c.len() - 1 {
        acc
    } else if b >= c.len() {
        fold_pairs(g, c, a + 1, a + 2, acc)
    } else {
        fold_pairs(
            g,
            c,
            a,
            b + 1,
            crate::attr_sets::inter_lists(acc, edge_clause_view(g, c[a] as int, c[b] as int)),
        )
    }
}

/// The clause materialized for a clique: the per-vertex witness for a
/// single vertex, else the intersection of the stored clauses of all
/// pairs of clique members.
pub open spec fn spec_clique_clause(g: Graph, c: Seq<usize>) -> Seq<crate::attr_sets::AttrSetView> {
    if c.len() == 1 {
        g.reject_only_one_negative@[c[0] as int]@
    } else {
        fold_pairs(g, c, 0, 2, edge_clause_view(g, c[0] as int, c[1] as int))
    }
}

impl Graph {
    /// A vertex drawn uniformly at random from the available set.
    pub fn random_available_vertex(&mut self) -> (r: usize)
        requires
            old(self).wf(),
            old(self).available_vertex@.len() >= 1,
        ensures
            final(self).wf(),
            Graph::same_but_rng(*old(self), *final(self)),
            has_vertex(final(self).available_vertex@, r as int),
            r < final(self).n_vertex,
    {
        let len: usize = self.available_vertex.len();
        let idx: usize = rand_below(&mut self.rng, len as u128) as usize;
        proof {
            lemma_wf_unchanged_by_rng(*old(self), *self);
        }
        let r: usize = self.available_vertex[idx];
        assert(self.available_vertex@[idx as int] == r);
        r
    }

    /// A value drawn uniformly at random below `n`.
    pub(crate) fn draw_below(&mut self, n: u128) -> (r: u128)
        requires
            old(self).wf(),
            n >= 1,
        ensures
            final(self).wf(),
            Graph::same_but_rng(*old(self), *final(self)),
            r < n,
    {
        let r: u128 = rand_below(&mut self.rng, n);
        proof {
            lemma_wf_unchanged_by_rng(*old(self), *self);
        }
        r
    }

    /// Installs the per-vertex witness clauses, one for each vertex.
    pub fn set_reject_witnesses(&mut self, witnesses: Vec<AttributeValuesSetList>)
        requires
            old(self).wf(),
            witnesses@.len() == old(self).n_vertex,
        ensures
            final(self).wf(),
            final(self).reject_only_one_negative == witnesses,
            final(self).n_vertex == old(self).n_vertex,
            final(self).edge_dict == old(self).edge_dict,
            final(self).edge_clause@ == old(self).edge_clause@,
            final(self).available_vertex == old(self).available_vertex,
            final(self).rng == old(self).rng,
    {
        self.reject_only_one_negative = witnesses;
        proof {
            let g1 = *old(self);
            let g2 = *self;
            assert forall|u: int, v: int| spec_is_edge(g2, u, v) == spec_is_edge(g1, u, v) by {
                assert(g2.edge_dict@ == g1.edge_dict@);
            }
            assert forall|u: int, v: int| #[trigger]
                spec_is_edge(g2, u, v) implies spec_is_edge(g2, v, u) by {
                assert(spec_is_edge(g1, u, v));
            }
            assert(g2.wf());
        }
    }

    /// Whether the vertex is still available.
    pub fn is_available(&self, v: usize) -> (r: bool)
        ensures
            r == has_vertex(self.available_vertex@, v as int),
    {
        contains_vertex(&self.available_vertex, v)
    }

    /// Removes every vertex of `vertex_set` from the available set.  The
    /// set never grows, and it strictly shrinks whenever `vertex_set`
    /// holds a vertex that was still available.
    pub fn remove_vertex_set_from_available(&mut self, vertex_set: &Vec<usize>)
        requires
            old(self).wf(),
        ensures
            final(self).wf(),
            final(self).n_vertex == old(self).n_vertex,
            final(self).edge_dict == old(self).edge_dict,
            final(self).edge_clause@ == old(self).edge_clause@,
            final(self).reject_only_one_negative == old(self).reject_only_one_negative,
            final(self).rng == old(self).rng,
            forall|v: int|
                #![trigger has_vertex(final(self).available_vertex@, v)]
                #![trigger has_vertex(old(self).available_vertex@, v)]
                has_vertex(final(self).available_vertex@, v) == (has_vertex(
                    old(self).available_vertex@,
                    v,
                ) && !has_vertex(vertex_set@, v)),
            final(self).available_vertex@.len() <= old(self).available_vertex@.len(),
            (exists|i: int|
                0 <= i < vertex_set@.len() && has_vertex(
                    old(self).available_vertex@,
                    vertex_set@[i] as int,
                )) ==> final(self).available_vertex@.len() < old(self).available_vertex@.len(),
    {
        let ghost avail = self.available_vertex@;
        let mut out: Vec<usize> = Vec::new();
        let mut i: usize = 0;
        while i < self.available_vertex.len()
            invariant
                old(self).wf(),
                self == old(self),
                avail == self.available_vertex@,
                0 <= i <= avail.len(),
                out@.no_duplicates(),
                out@.len() <= i,
                (exists|j: int| 0 <= j < i && has_vertex(vertex_set@, avail[j] as int))
                    ==> out@.len() < i,
                forall|v: int|
                    has_vertex(out@, v) == ((exists|j: int| 0 <= j < i && avail[j] == v)
                        && !has_vertex(vertex_set@, v)),
            decreases avail.len() - i,
        {
            let w: usize = self.available_vertex[i];
            assert(avail[i as int] == w);
            let ghost prev = out@;
            if !contains_vertex(vertex_set, w) {
                proof {
                    assert(!has_vertex(out@, w as int));
                }
                out.push(w);
                proof {
                    assert forall|v: int|
                        has_vertex(out@, v) == (has_vertex(prev, v) || v == w) by {
                        if has_vertex(prev, v) {
                            let j = choose|j: int| 0 <= j < prev.len() && prev[j] == v;
                            assert(out@[j] == v);
                        }
                        if v == w {
                            assert(out@[prev.len() as int] == v);
                        }
                        if has_vertex(out@, v) {
                            let j = choose|j: int| 0 <= j < out@.len() && out@[j] == v;
                            if j < prev.len() {
                                assert(prev[j] == v);
                            }
                        }
                    }
                    assert(out@.no_duplicates()) by {
                        assert forall|x: int, y: int| 0 <= x < y < out@.len() implies #[trigger] out@[x]
                            != #[trigger] out@[y] by {
                            if y < prev.len() {
                            } else {
                                assert(out@[y] == w);
                                if out@[x] == w {
                                    assert(prev[x] == w);
                                    assert(has_vertex(prev, w as int));
                                }
                            }
                        }
                    }
                }
            }
            proof {
                assert forall|v: int|
                    has_vertex(out@, v) == ((exists|j: int| 0 <= j < i + 1 && avail[j] == v)
                        && !has_vertex(vertex_set@, v)) by {
                    if (exists|j: int| 0 <= j < i + 1 && avail[j] == v) && !(exists|j: int|
                        0 <= j < i && avail[j] == v) {
                        let j = choose|j: int| 0 <= j < i + 1 && avail[j] == v;
                        assert(j == i);
                        assert(v == w);
                    }
                    if v == w {
                        assert(0 <= i < i + 1 && avail[i as int] == v);
                    }
                }
            }
            i = i + 1;
        }
        proof {
            assert forall|v: int|
                has_vertex(out@, v) == (has_vertex(avail, v) && !has_vertex(vertex_set@, v)) by {
            }
            if exists|k: int|
                0 <= k < vertex_set@.len() && has_vertex(avail, vertex_set@[k] as int) {
                let k = choose|k: int|
                    0 <= k < vertex_set@.len() && has_vertex(avail, vertex_set@[k] as int);
                let j = choose|j: int| 0 <= j < avail.len() && avail[j] == vertex_set@[k] as int;
                assert(has_vertex(vertex_set@, avail[j] as int));
            }
        }
        self.available_vertex = out;
        proof {
            let g2 = *self;
            let g1 = *old(self);
            assert forall|u: int, v: int| spec_is_edge(g2, u, v) == spec_is_edge(g1, u, v) by {
                assert(g2.edge_dict@ == g1.edge_dict@);
            }
            assert forall|u: int, v: int| #[trigger]
                spec_is_edge(g2, u, v) implies spec_is_edge(g2, v, u) by {
                assert(spec_is_edge(g1, u, v));
            }
            assert forall|i: int| 0 <= i < g2.available_vertex@.len() implies (
            #[trigger] g2.available_vertex@[i]) < g2.n_vertex by {
                let v = g2.available_vertex@[i];
                assert(has_vertex(g2.available_vertex@, v as int));
                assert(has_vertex(avail, v as int));
                let j = choose|j: int| 0 <= j < avail.len() && avail[j] == v as int;
            }
            assert(g2.wf());
        }
    }
}

impl Graph {
    /// The stored clause of the edge `{u, v}`.
    fn lookup_edge_clause<'a>(&'a self, u: usize, v: usize) -> (r: &'a AttributeValuesSetList)
        requires
            self.wf(),
            u < self.n_vertex,
            v < self.n_vertex,
            u != v,
            spec_is_edge(*self, u as int, v as int),
        ensures
            *r == self.edge_clause@[spec_pack(u as int, v as int, self.n_vertex as int) as u64],
            self.edge_clause@.dom().contains(
                spec_pack(u as int, v as int, self.n_vertex as int) as u64,
            ),
    {
        proof {
            let n = self.n_vertex as int;
            let (a, b) = if u <= v {
                (u as int, v as int)
            } else {
                (v as int, u as int)
            };
            assert(spec_is_edge(*self, a, b));
            assert(self.edge_clause@.dom().contains(spec_pack(a, b, n) as u64));
            assert(spec_pack(a, b, n) == spec_pack(u as int, v as int, n));
        }
        let key: u64 = self.pack_key(u, v);
        match self.edge_clause.get(&key) {
            Some(c) => c,
            None => vstd::pervasive::unreached(),
        }
    }

    /// The clause materialized for a clique of available vertices: the
    /// per-vertex witness for a single vertex, else the intersection of
    /// the stored clauses of all pairs of its members.
    pub fn get_clique_clause(&self, clique: &Vec<usize>) -> (r: AttributeValuesSetList)
        requires
            self.wf(),
            clique@.len() >= 1,
            forall|i: int| 0 <= i < clique@.len() ==> (#[trigger] clique@[i]) < self.n_vertex,
            clique@.no_duplicates(),
            forall|i: int, j: int|
                0 <= i < clique@.len() && 0 <= j < clique@.len() && i != j ==> spec_is_edge(
                    *self,
                    #[trigger] clique@[i] as int,
                    #[trigger] clique@[j] as int,
                ),
            clique@.len() == 1 ==> self.reject_only_one_negative@.len() == self.n_vertex,
            exists|m: nat| self.uniform_clause_len(m),
        ensures
            r@ == spec_clique_clause(*self, clique@),
    {
        let ghost m = choose|m: nat| self.uniform_clause_len(m);
        if clique.len() == 1 {
            let v: usize = clique[0];
            return self.reject_only_one_negative[v].duplicate();
        }
        let c0: usize = clique[0];
        let c1: usize = clique[1];
        let first: &AttributeValuesSetList = self.lookup_edge_clause(c0, c1);
        let mut acc: AttributeValuesSetList = first.duplicate();
        assert(acc@ == edge_clause_view(*self, clique@[0] as int, clique@[1] as int));
        assert(acc@.len() == m);
        let mut a: usize = 0;
        let mut b: usize = 2;
        while a < clique.len() - 1
            invariant
                self.wf(),
                self.uniform_clause_len(m),
                clique@.len() >= 2,
                forall|i: int| 0 <= i < clique@.len() ==> (#[trigger] clique@[i]) < self.n_vertex,
                clique@.no_duplicates(),
                forall|i: int, j: int|
                    0 <= i < clique@.len() && 0 <= j < clique@.len() && i != j ==> spec_is_edge(
                        *self,
                        #[trigger] clique@[i] as int,
                        #[trigger] clique@[j] as int,
                    ),
                0 <= a <= clique@.len() - 1,
                a + 1 <= b,
                acc@.len() == m,
                fold_pairs(*self, clique@, a as int, b as int, acc@) == spec_clique_clause(
                    *self,
                    clique@,
                ),
            decreases clique@.len() - a, clique@.len() + 1 - b,
        {
            if b >= clique.len() {
                a = a + 1;
                b = a + 1;
            } else {
                let ca: usize = clique[a];
                let cb: usize = clique[b];
                proof {
                    assert(clique@[a as int] != clique@[b as int]) by {
                        if clique@[a as int] == clique@[b as int] {
                            assert(!clique@.no_duplicates());
                        }
                    }
                }
                let pc: &AttributeValuesSetList = self.lookup_edge_clause(ca, cb);
                proof {
                    assert(self.edge_clause@[spec_pack(
                        ca as int,
                        cb as int,
                        self.n_vertex as int,
                    ) as u64]@.len() == m);
                }
                let next: AttributeValuesSetList = acc.intersection(pc);
                proof {
                    assert(next@ == crate::attr_sets::inter_lists(
                        acc@,
                        edge_clause_view(*self, ca as int, cb as int),
                    ));
                    assert(next@.len() == m) by {
                        assert(next@.len() == acc@.len());
                    }
                }
                acc = next;
                b = b + 1;
            }
        }
        assert(fold_pairs(*self, clique@, a as int, b as int, acc@) == acc@);
        acc
    }
}

/// Whether the list holds the vertex `x`.
pub fn contains_vertex(vals: &Vec<usize>, x: usize) -> (r: bool)
    ensures
        r == has_vertex(vals@, x as int),
{
    let mut i: usize = 0;
    while i < vals.len()
        invariant
            0 <= i <= vals@.len(),
            forall|j: int| 0 <= j < i ==> vals@[j] != x,
        decreases vals@.len() - i,
    {
        if vals[i] == x {
            assert(vals@[i as int] == x);
            return true;
        }
        i = i + 1;
    }
    false
}

/// Well-formedness does not depend on the random source.
pub proof fn lemma_wf_unchanged_by_rng(a: Graph, b: Graph)
    requires
        a.wf(),
        Graph::same_but_rng(a, b),
    ensures
        b.wf(),
{
    assert forall|u: int, v: int| spec_is_edge(b, u, v) == spec_is_edge(a, u, v) by {
        assert(b.edge_dict@ == a.edge_dict@);
    }
    assert forall|u: int, v: int| #[trigger]
        spec_is_edge(b, u, v) implies spec_is_edge(b, v, u) by {
        assert(spec_is_edge(a, u, v));
    }
}

/// How one added edge changes the edge relation.
proof fn lemma_edge_after_add(old_g: Graph, new_g: Graph, u: int, v: int, a: int, b: int)
    requires
        old_g.wf(),
        0 <= u < old_g.n_vertex,
        0 <= v < old_g.n_vertex,
        u != v,
        new_g.n_vertex == old_g.n_vertex,
        new_g.edge_dict@.len() == old_g.edge_dict@.len(),
        forall|w: int|
            0 <= w < old_g.n_vertex && w != u && w != v ==> new_g.edge_dict@[w]
                == old_g.edge_dict@[w],
        new_g.edge_dict@[u]@ == (if has_vertex(old_g.edge_dict@[u]@, v) {
            old_g.edge_dict@[u]@
        } else {
            old_g.edge_dict@[u]@.push(v as usize)
        }),
        new_g.edge_dict@[v]@ == (if has_vertex(old_g.edge_dict@[v]@, u) {
            old_g.edge_dict@[v]@
        } else {
            old_g.edge_dict@[v]@.push(u as usize)
        }),
    ensures
        spec_is_edge(new_g, a, b) == (spec_is_edge(old_g, a, b) || (a == u && b == v) || (a == v
            && b == u)),
        0 <= a < new_g.n_vertex ==> new_g.edge_dict@[a]@.no_duplicates(),
        0 <= a < new_g.n_vertex ==> forall|j: int|
            0 <= j < new_g.edge_dict@[a]@.len() ==> (#[trigger] new_g.edge_dict@[a]@[j])
                < new_g.n_vertex && new_g.edge_dict@[a]@[j] != a,
{
    if a == u || a == v {
        let o = if a == u {
            v
        } else {
            u
        };
        if !has_vertex(old_g.edge_dict@[a]@, o) {
            assert(new_g.edge_dict@[a]@ == old_g.edge_dict@[a]@.push(o as usize));
            assert forall|x: int|
                has_vertex(new_g.edge_dict@[a]@, x) == (has_vertex(old_g.edge_dict@[a]@, x) || x
                    == o) by {
                let s = old_g.edge_dict@[a]@;
                if has_vertex(s, x) {
                    let j = choose|j: int| 0 <= j < s.len() && s[j] == x;
                    assert(s.push(o as usize)[j] == x);
                }
                if x == o {
                    assert(s.push(o as usize)[s.len() as int] == x);
                }
                if has_vertex(s.push(o as usize), x) {
                    let t = s.push(o as usize);
                    let j = choose|j: int| 0 <= j < t.len() && t[j] == x;
                    if j < s.len() {
                        assert(s[j] == x);
                    }
                }
            }
            assert(new_g.edge_dict@[a]@.no_duplicates()) by {
                let s = old_g.edge_dict@[a]@;
                let t = s.push(o as usize);
                assert forall|i: int, j: int| 0 <= i < j < t.len() implies #[trigger] t[i]
                    != #[trigger] t[j] by {
                    if j < s.len() {
                    } else {
                        assert(t[j] == o);
                        if t[i] == o {
                            assert(s[i] == o);
                            assert(has_vertex(s, o));
                        }
                    }
                }
            }
        }
    }
}

} // verus!
