//! Typed per-attribute value sets and their algebra.
//!
//! A clause is a list of `AttributeValuesSet`, one per attribute in a fixed,
//! dataset-wide order.  Each entry holds the values for which that attribute
//! contributes a selector; `Empty` marks an unconstrained slot.  Numeric
//! values are carried as 64-bit codes chosen by the caller (one code per
//! distinct numeric value), categorical values as strings.
//!
//! A row satisfies a clause when at least one attribute slot of the clause
//! contains one of the row's values for that attribute; it is rejected
//! otherwise.

use vstd::prelude::*;

verus! {

/// Mathematical model of one attribute slot: the attribute's name and the
/// set of acceptable values, or `Empty` for an unconstrained slot.
pub enum AttrSetView {
    Num(Seq<char>, Set<u64>),
    Cat(Seq<char>, Set<Seq<char>>),
    Empty,
}

/// One attribute slot: the attribute's name and a finite collection of
/// values.  The vectors are interpreted as sets: order and multiplicity
/// are irrelevant to the view.
#[derive(Clone, Debug, PartialEq, Eq)]
pub enum AttributeValuesSet {
    Num(String, Vec<u64>),
    Cat(String, Vec<String>),
    Empty,
}

/// The views of a list of strings, as a sequence of character sequences.
pub open spec fn str_views(v: Seq<String>) -> Seq<Seq<char>> {
    v.map_values(|s: String| s@)
}

impl View for AttributeValuesSet {
    type V = AttrSetView;

    open spec fn view(&self) -> AttrSetView {
        match self {
            AttributeValuesSet::Num(name, vals) => AttrSetView::Num(name@, vals@.to_set()),
            AttributeValuesSet::Cat(name, vals) => AttrSetView::Cat(name@, str_views(vals@).to_set()),
            AttributeValuesSet::Empty => AttrSetView::Empty,
        }
    }
}

/// An ordered list of attribute slots: a clause, or one row's attribute
/// footprint, in the dataset-wide attribute order.
#[derive(Clone, Debug, PartialEq, Eq)]
pub struct AttributeValuesSetList {
    pub list: Vec<AttributeValuesSet>,
}

impl View for AttributeValuesSetList {
    type V = Seq<AttrSetView>;

    open spec fn view(&self) -> Seq<AttrSetView> {
        self.list@.map_values(|a: AttributeValuesSet| a@)
    }
}

/// Union of two slots.  `Empty` is the identity; two slots of the same tag
/// take the elementwise set union and keep the left name; slots of
/// different tags never arise from a well-formed dataset and leave the
/// left operand unchanged.
pub open spec fn union_slot(a: AttrSetView, b: AttrSetView) -> AttrSetView {
    match (a, b) {
        (AttrSetView::Num(name, s), AttrSetView::Num(_, t)) => AttrSetView::Num(name, s.union(t)),
        (AttrSetView::Cat(name, s), AttrSetView::Cat(_, t)) => AttrSetView::Cat(name, s.union(t)),
        (AttrSetView::Empty, _) => b,
        (_, _) => a,
    }
}

/// Intersection of two slots.  `Empty` means "no restriction", so it yields
/// the other operand unchanged.
pub open spec fn inter_slot(a: AttrSetView, b: AttrSetView) -> AttrSetView {
    match (a, b) {
        (AttrSetView::Num(name, s), AttrSetView::Num(_, t)) => AttrSetView::Num(
            name,
            s.intersect(t),
        ),
        (AttrSetView::Cat(name, s), AttrSetView::Cat(_, t)) => AttrSetView::Cat(
            name,
            s.intersect(t),
        ),
        (AttrSetView::Empty, _) => b,
        (_, _) => a,
    }
}

/// Difference of two slots (`a` minus `b`).  Subtracting from an
/// unconstrained slot is a no-op and leaves it unconstrained.
pub open spec fn diff_slot(a: AttrSetView, b: AttrSetView) -> AttrSetView {
    match (a, b) {
        (AttrSetView::Num(name, s), AttrSetView::Num(_, t)) => AttrSetView::Num(
            name,
            s.difference(t),
        ),
        (AttrSetView::Cat(name, s), AttrSetView::Cat(_, t)) => AttrSetView::Cat(
            name,
            s.difference(t),
        ),
        (AttrSetView::Empty, _) => AttrSetView::Empty,
        (_, _) => a,
    }
}

/// Elementwise union of two slot lists, over the length of the left one.
pub open spec fn union_lists(a: Seq<AttrSetView>, b: Seq<AttrSetView>) -> Seq<AttrSetView> {
    Seq::new(a.len(), |k: int| union_slot(a[k], b[k]))
}

/// Elementwise intersection of two slot lists, over the length of the left one.
pub open spec fn inter_lists(a: Seq<AttrSetView>, b: Seq<AttrSetView>) -> Seq<AttrSetView> {
    Seq::new(a.len(), |k: int| inter_slot(a[k], b[k]))
}

/// Elementwise difference of two slot lists, over the length of the left one.
pub open spec fn diff_lists(a: Seq<AttrSetView>, b: Seq<AttrSetView>) -> Seq<AttrSetView> {
    Seq::new(a.len(), |k: int| diff_slot(a[k], b[k]))
}

/// Whether some element of `v` views to the character sequence `x`.
pub open spec fn seq_has_str(v: Seq<String>, x: Seq<char>) -> bool {
    exists|k: int| 0 <= k < v.len() && v[k]@ == x
}

/// Membership in the set of string views coincides with `seq_has_str`.
pub proof fn lemma_str_views_contains(v: Seq<String>, x: Seq<char>)
    ensures
        str_views(v).to_set().contains(x) <==> seq_has_str(v, x),
{
    if str_views(v).contains(x) {
        let i = choose|i: int| 0 <= i < str_views(v).len() && str_views(v)[i] == x;
        assert(v[i]@ == x);
    }
    if seq_has_str(v, x) {
        let k = choose|k: int| 0 <= k < v.len() && v[k]@ == x;
        assert(str_views(v)[k] == x);
    }
}

/// Pushing an element extends sequence membership by exactly that element.
pub(crate) proof fn lemma_push_contains<T>(s: Seq<T>, v: T, x: T)
    ensures
        s.push(v).contains(x) <==> s.contains(x) || x == v,
{
    if s.contains(x) {
        let i = choose|i: int| 0 <= i < s.len() && s[i] == x;
        assert(s.push(v)[i] == x);
    }
    if x == v {
        assert(s.push(v)[s.len() as int] == x);
    }
    if s.push(v).contains(x) {
        let i = choose|i: int| 0 <= i < s.push(v).len() && s.push(v)[i] == x;
        if i < s.len() {
            assert(s[i] == x);
        }
    }
}

/// Pushing a string extends view membership by exactly that string's view.
pub(crate) proof fn lemma_push_has_str(s: Seq<String>, v: String, x: Seq<char>)
    ensures
        seq_has_str(s.push(v), x) <==> seq_has_str(s, x) || v@ == x,
{
    if seq_has_str(s, x) {
        let i = choose|i: int| 0 <= i < s.len() && s[i]@ == x;
        assert(s.push(v)[i]@ == x);
    }
    if v@ == x {
        assert(s.push(v)[s.len() as int]@ == x);
    }
    if seq_has_str(s.push(v), x) {
        let i = choose|i: int| 0 <= i < s.push(v).len() && s.push(v)[i]@ == x;
        if i < s.len() {
            assert(s[i]@ == x);
        }
    }
}

/// Whether `x` appears among the values of `vals`.
fn contains_u64(vals: &Vec<u64>, x: u64) -> (r: bool)
    ensures
        r == vals@.contains(x),
{
    let mut i: usize = 0;
    while i < vals.len()
        invariant
            0 <= i <= vals@.len(),
            forall|j: int| 0 <= j < i ==> vals@[j] != x,
        decreases vals@.len() - i,
    {
        if vals[i] == x {
            assert(vals@[i as int] == x);
            return true;
        }
        i = i + 1;
    }
    false
}

/// Whether the character sequence of `x` appears among the views of `vals`.
fn contains_string(vals: &Vec<String>, x: &String) -> (r: bool)
    ensures
        r == seq_has_str(vals@, x@),
{
    let mut i: usize = 0;
    while i < vals.len()
        invariant
            0 <= i <= vals@.len(),
            forall|j: int| 0 <= j < i ==> vals@[j]@ != x@,
        decreases vals@.len() - i,
    {
        if vals[i].eq(x) {
            assert(vals@[i as int]@ == x@);
            return true;
        }
        i = i + 1;
    }
    false
}

/// A fresh copy of a slot, equal to the original at the view level.
pub fn clone_attr_set(a: &AttributeValuesSet) -> (r: AttributeValuesSet)
    ensures
        r@ == a@,
{
    match a {
        AttributeValuesSet::Num(name, vals) => {
            let c: Vec<u64> = vals.clone();
            assert(c@ =~= vals@);
            AttributeValuesSet::Num(name.clone(), c)
        },
        AttributeValuesSet::Cat(name, vals) => {
            let c: Vec<String> = vals.clone();
            assert(c@ =~= vals@);
            AttributeValuesSet::Cat(name.clone(), c)
        },
        AttributeValuesSet::Empty => AttributeValuesSet::Empty,
    }
}

/// Union of the values of `s` and `t` as a single vector, at the view level
/// the union of the two sets.
fn union_u64_vals(s: &Vec<u64>, t: &Vec<u64>) -> (r: Vec<u64>)
    ensures
        r@.to_set() == s@.to_set().union(t@.to_set()),
{
    let mut out: Vec<u64> = s.clone();
    assert(out@ =~= s@);
    let mut j: usize = 0;
    while j < t.len()
        invariant
            0 <= j <= t@.len(),
            forall|x: u64|
                #[trigger] out@.contains(x) <==> s@.contains(x) || (exists|i: int|
                    0 <= i < j && t@[i] == x),
        decreases t@.len() - j,
    {
        let ghost prev = out@;
        let v: u64 = t[j];
        let already: bool = contains_u64(&out, v);
        if !already {
            out.push(v);
        }
        assert forall|x: u64| #[trigger]
            out@.contains(x) <==> s@.contains(x) || (exists|i: int|
                0 <= i < j + 1 && t@[i] == x) by {
            if !already {
                lemma_push_contains::<u64>(prev, v, x);
            }
            if x == v {
                assert(0 <= j < j + 1 && t@[j as int] == x);
                if already {
                    assert(prev.contains(v));
                }
            }
            if (exists|i: int| 0 <= i < j + 1 && t@[i] == x) && x != v {
                let i = choose|i: int| 0 <= i < j + 1 && t@[i] == x;
                assert(0 <= i < j && t@[i] == x);
            }
        }
        j = j + 1;
    }
    assert(out@.to_set() =~= s@.to_set().union(t@.to_set())) by {
        assert(forall|x: u64| (exists|i: int| 0 <= i < t@.len() && t@[i] == x) == t@.contains(x));
    }
    out
}

/// Union of the values of `s` and `t` as a single vector of strings, at the
/// view level the union of the two sets of character sequences.
fn union_string_vals(s: &Vec<String>, t: &Vec<String>) -> (r: Vec<String>)
    ensures
        str_views(r@).to_set() == str_views(s@).to_set().union(str_views(t@).to_set()),
{
    let mut out: Vec<String> = Vec::new();
    let mut i: usize = 0;
    while i < s.len()
        invariant
            0 <= i <= s@.len(),
            out@.len() == i,
            forall|k: int| 0 <= k < i ==> out@[k]@ == s@[k]@,
        decreases s@.len() - i,
    {
        out.push(s[i].clone());
        i = i + 1;
    }
    assert forall|x: Seq<char>| seq_has_str(out@, x) <==> seq_has_str(s@, x) by {
        if seq_has_str(out@, x) {
            let k = choose|k: int| 0 <= k < out@.len() && out@[k]@ == x;
            assert(s@[k]@ == x);
        }
        if seq_has_str(s@, x) {
            let k = choose|k: int| 0 <= k < s@.len() && s@[k]@ == x;
            assert(out@[k]@ == x);
        }
    }
    let mut j: usize = 0;
    while j < t.len()
        invariant
            0 <= j <= t@.len(),
            forall|x: Seq<char>|
                #[trigger] seq_has_str(out@, x) <==> seq_has_str(s@, x) || (exists|i: int|
                    0 <= i < j && t@[i]@ == x),
        decreases t@.len() - j,
    {
        let ghost prev = out@;
        let v: String = t[j].clone();
        let already: bool = contains_string(&out, &v);
        if !already {
            out.push(v);
        }
        assert forall|x: Seq<char>| #[trigger]
            seq_has_str(out@, x) <==> seq_has_str(s@, x) || (exists|i: int|
                0 <= i < j + 1 && t@[i]@ == x) by {
            if !already {
                lemma_push_has_str(prev, t@[j as int], x);
            }
            if x == t@[j as int]@ {
                assert(0 <= j < j + 1 && t@[j as int]@ == x);
                if already {
                    assert(seq_has_str(prev, x));
                }
            }
            if (exists|i: int| 0 <= i < j + 1 && t@[i]@ == x) && x != t@[j as int]@ {
                let i = choose|i: int| 0 <= i < j + 1 && t@[i]@ == x;
                assert(0 <= i < j && t@[i]@ == x);
            }
        }
        j = j + 1;
    }
    assert forall|x: Seq<char>|
        str_views(out@).to_set().contains(x) <==> str_views(s@).to_set().union(
            str_views(t@).to_set(),
        ).contains(x) by {
        lemma_str_views_contains(out@, x);
        lemma_str_views_contains(s@, x);
        lemma_str_views_contains(t@, x);
        assert((exists|i: int| 0 <= i < t@.len() && t@[i]@ == x) == seq_has_str(t@, x));
    }
    assert(str_views(out@).to_set() =~= str_views(s@).to_set().union(str_views(t@).to_set()));
    out
}

/// The elements of `s` that are also in `t`, at the view level the
/// intersection of the two sets.
fn inter_u64_vals(s: &Vec<u64>, t: &Vec<u64>) -> (r: Vec<u64>)
    ensures
        r@.to_set() == s@.to_set().intersect(t@.to_set()),
{
    let mut out: Vec<u64> = Vec::new();
    let mut k: usize = 0;
    while k < s.len()
        invariant
            0 <= k <= s@.len(),
            forall|x: u64|
                #[trigger] out@.contains(x) <==> (exists|i: int| 0 <= i < k && s@[i] == x)
                    && t@.contains(x),
        decreases s@.len() - k,
    {
        let ghost prev = out@;
        let v: u64 = s[k];
        let keep: bool = contains_u64(t, v);
        if keep {
            out.push(v);
        }
        assert forall|x: u64| #[trigger]
            out@.contains(x) <==> (exists|i: int| 0 <= i < k + 1 && s@[i] == x)
                && t@.contains(x) by {
            if keep {
                lemma_push_contains::<u64>(prev, v, x);
            }
            if x == v {
                assert(0 <= k < k + 1 && s@[k as int] == x);
            }
            if (exists|i: int| 0 <= i < k + 1 && s@[i] == x) && x != v {
                let i = choose|i: int| 0 <= i < k + 1 && s@[i] == x;
                assert(0 <= i < k && s@[i] == x);
            }
        }
        k = k + 1;
    }
    assert(out@.to_set() =~= s@.to_set().intersect(t@.to_set())) by {
        assert(forall|x: u64| (exists|i: int| 0 <= i < s@.len() && s@[i] == x) == s@.contains(x));
    }
    out
}

/// The elements of `s` that are not in `t`, at the view level the
/// difference of the two sets.
pub(crate) fn diff_u64_vals(s: &Vec<u64>, t: &Vec<u64>) -> (r: Vec<u64>)
    ensures
        r@.to_set() == s@.to_set().difference(t@.to_set()),
{
    let mut out: Vec<u64> = Vec::new();
    let mut k: usize = 0;
    while k < s.len()
        invariant
            0 <= k <= s@.len(),
            forall|x: u64|
                #[trigger] out@.contains(x) <==> (exists|i: int| 0 <= i < k && s@[i] == x)
                    && !t@.contains(x),
        decreases s@.len() - k,
    {
        let ghost prev = out@;
        let v: u64 = s[k];
        let keep: bool = !contains_u64(t, v);
        if keep {
            out.push(v);
        }
        assert forall|x: u64| #[trigger]
            out@.contains(x) <==> (exists|i: int| 0 <= i < k + 1 && s@[i] == x)
                && !t@.contains(x) by {
            if keep {
                lemma_push_contains::<u64>(prev, v, x);
            }
            if x == v {
                assert(0 <= k < k + 1 && s@[k as int] == x);
            }
            if (exists|i: int| 0 <= i < k + 1 && s@[i] == x) && x != v {
                let i = choose|i: int| 0 <= i < k + 1 && s@[i] == x;
                assert(0 <= i < k && s@[i] == x);
            }
        }
        k = k + 1;
    }
    assert(out@.to_set() =~= s@.to_set().difference(t@.to_set())) by {
        assert(forall|x: u64| (exists|i: int| 0 <= i < s@.len() && s@[i] == x) == s@.contains(x));
    }
    out
}

/// The strings of `s` whose views are also views of `t`, at the view level
/// the intersection of the two sets of character sequences.
fn inter_string_vals(s: &Vec<String>, t: &Vec<String>) -> (r: Vec<String>)
    ensures
        str_views(r@).to_set() == str_views(s@).to_set().intersect(str_views(t@).to_set()),
{
    let mut out: Vec<String> = Vec::new();
    let mut k: usize = 0;
    while k < s.len()
        invariant
            0 <= k <= s@.len(),
            forall|x: Seq<char>|
                #[trigger] seq_has_str(out@, x) <==> (exists|i: int| 0 <= i < k && s@[i]@ == x)
                    && seq_has_str(t@, x),
        decreases s@.len() - k,
    {
        let ghost prev = out@;
        let v: String = s[k].clone();
        let keep: bool = contains_string(t, &v);
        if keep {
            out.push(v);
        }
        assert forall|x: Seq<char>| #[trigger]
            seq_has_str(out@, x) <==> (exists|i: int| 0 <= i < k + 1 && s@[i]@ == x)
                && seq_has_str(t@, x) by {
            if keep {
                lemma_push_has_str(prev, s@[k as int], x);
            }
            if x == s@[k as int]@ {
                assert(0 <= k < k + 1 && s@[k as int]@ == x);
            }
            if (exists|i: int| 0 <= i < k + 1 && s@[i]@ == x) && x != s@[k as int]@ {
                let i = choose|i: int| 0 <= i < k + 1 && s@[i]@ == x;
                assert(0 <= i < k && s@[i]@ == x);
            }
        }
        k = k + 1;
    }
    assert forall|x: Seq<char>|
        str_views(out@).to_set().contains(x) <==> str_views(s@).to_set().intersect(
            str_views(t@).to_set(),
        ).contains(x) by {
        lemma_str_views_contains(out@, x);
        lemma_str_views_contains(s@, x);
        lemma_str_views_contains(t@, x);
        assert((exists|i: int| 0 <= i < s@.len() && s@[i]@ == x) == seq_has_str(s@, x));
    }
    assert(str_views(out@).to_set() =~= str_views(s@).to_set().intersect(str_views(t@).to_set()));
    out
}

/// The strings of `s` whose views are not views of `t`, at the view level
/// the difference of the two sets of character sequences.
pub(crate) fn diff_string_vals(s: &Vec<String>, t: &Vec<String>) -> (r: Vec<String>)
    ensures
        str_views(r@).to_set() == str_views(s@).to_set().difference(str_views(t@).to_set()),
{
    let mut out: Vec<String> = Vec::new();
    let mut k: usize = 0;
    while k < s.len()
        invariant
            0 <= k <= s@.len(),
            forall|x: Seq<char>|
                #[trigger] seq_has_str(out@, x) <==> (exists|i: int| 0 <= i < k && s@[i]@ == x)
                    && !seq_has_str(t@, x),
        decreases s@.len() - k,
    {
        let ghost prev = out@;
        let v: String = s[k].clone();
        let keep: bool = !contains_string(t, &v);
        if keep {
            out.push(v);
        }
        assert forall|x: Seq<char>| #[trigger]
            seq_has_str(out@, x) <==> (exists|i: int| 0 <= i < k + 1 && s@[i]@ == x)
                && !seq_has_str(t@, x) by {
            if keep {
                lemma_push_has_str(prev, s@[k as int], x);
            }
            if x == s@[k as int]@ {
                assert(0 <= k < k + 1 && s@[k as int]@ == x);
            }
            if (exists|i: int| 0 <= i < k + 1 && s@[i]@ == x) && x != s@[k as int]@ {
                let i = choose|i: int| 0 <= i < k + 1 && s@[i]@ == x;
                assert(0 <= i < k && s@[i]@ == x);
            }
        }
        k = k + 1;
    }
    assert forall|x: Seq<char>|
        str_views(out@).to_set().contains(x) <==> str_views(s@).to_set().difference(
            str_views(t@).to_set(),
        ).contains(x) by {
        lemma_str_views_contains(out@, x);
        lemma_str_views_contains(s@, x);
        lemma_str_views_contains(t@, x);
        assert((exists|i: int| 0 <= i < s@.len() && s@[i]@ == x) == seq_has_str(s@, x));
    }
    assert(str_views(out@).to_set() =~= str_views(s@).to_set().difference(str_views(t@).to_set()));
    out
}

/// Union of two slots, mirroring `union_slot` on views.
fn union_slot_exec(a: &AttributeValuesSet, b: &AttributeValuesSet) -> (r: AttributeValuesSet)
    ensures
        r@ == union_slot(a@, b@),
{
    match (a, b) {
        (AttributeValuesSet::Num(name, s), AttributeValuesSet::Num(_, t)) => {
            AttributeValuesSet::Num(name.clone(), union_u64_vals(s, t))
        },
        (AttributeValuesSet::Cat(name, s), AttributeValuesSet::Cat(_, t)) => {
            AttributeValuesSet::Cat(name.clone(), union_string_vals(s, t))
        },
        (AttributeValuesSet::Empty, _) => clone_attr_set(b),
        (_, _) => clone_attr_set(a),
    }
}

/// Intersection of two slots, mirroring `inter_slot` on views.
fn inter_slot_exec(a: &AttributeValuesSet, b: &AttributeValuesSet) -> (r: AttributeValuesSet)
    ensures
        r@ == inter_slot(a@, b@),
{
    match (a, b) {
        (AttributeValuesSet::Num(name, s), AttributeValuesSet::Num(_, t)) => {
            AttributeValuesSet::Num(name.clone(), inter_u64_vals(s, t))
        },
        (AttributeValuesSet::Cat(name, s), AttributeValuesSet::Cat(_, t)) => {
            AttributeValuesSet::Cat(name.clone(), inter_string_vals(s, t))
        },
        (AttributeValuesSet::Empty, _) => clone_attr_set(b),
        (_, _) => clone_attr_set(a),
    }
}

/// Difference of two slots, mirroring `diff_slot` on views.
fn diff_slot_exec(a: &AttributeValuesSet, b: &AttributeValuesSet) -> (r: AttributeValuesSet)
    ensures
        r@ == diff_slot(a@, b@),
{
    match (a, b) {
        (AttributeValuesSet::Num(name, s), AttributeValuesSet::Num(_, t)) => {
            AttributeValuesSet::Num(name.clone(), diff_u64_vals(s, t))
        },
        (AttributeValuesSet::Cat(name, s), AttributeValuesSet::Cat(_, t)) => {
            AttributeValuesSet::Cat(name.clone(), diff_string_vals(s, t))
        },
        (AttributeValuesSet::Empty, _) => AttributeValuesSet::Empty,
        (_, _) => clone_attr_set(a),
    }
}

impl AttributeValuesSetList {
    /// The empty list of slots.
    pub fn new() -> (r: AttributeValuesSetList)
        ensures
            r@ =~= Seq::<AttrSetView>::empty(),
    {
        AttributeValuesSetList { list: Vec::new() }
    }

    /// Wraps an existing vector of slots.
    pub fn from_vec(list: Vec<AttributeValuesSet>) -> (r: AttributeValuesSetList)
        ensures
            r.list@ == list@,
    {
        AttributeValuesSetList { list }
    }

    /// The number of attribute slots.
    pub fn len(&self) -> (r: usize)
        ensures
            r == self@.len(),
    {
        self.list.len()
    }

    /// Whether the list has no slots.
    pub fn is_empty(&self) -> (r: bool)
        ensures
            r == (self@.len() == 0),
    {
        self.list.is_empty()
    }

    /// Elementwise union with `other`, which must cover every slot of `self`.
    pub fn union(&self, other: &AttributeValuesSetList) -> (r: AttributeValuesSetList)
        requires
            self@.len() <= other@.len(),
        ensures
            r@ == union_lists(self@, other@),
    {
        let mut out: Vec<AttributeValuesSet> = Vec::new();
        let mut k: usize = 0;
        while k < self.list.len()
            invariant
                0 <= k <= self@.len(),
                self@.len() <= other@.len(),
                out@.len() == k,
                forall|i: int| 0 <= i < k ==> out@[i]@ == union_slot(self@[i], other@[i]),
            decreases self@.len() - k,
        {
            out.push(union_slot_exec(&self.list[k], &other.list[k]));
            k = k + 1;
        }
        let r = AttributeValuesSetList { list: out };
        assert(r@ =~= union_lists(self@, other@));
        r
    }

    /// Elementwise intersection with `other`, which must cover every slot of
    /// `self`.
    pub fn intersection(&self, other: &AttributeValuesSetList) -> (r: AttributeValuesSetList)
        requires
            self@.len() <= other@.len(),
        ensures
            r@ == inter_lists(self@, other@),
    {
        let mut out: Vec<AttributeValuesSet> = Vec::new();
        let mut k: usize = 0;
        while k < self.list.len()
            invariant
                0 <= k <= self@.len(),
                self@.len() <= other@.len(),
                out@.len() == k,
                forall|i: int| 0 <= i < k ==> out@[i]@ == inter_slot(self@[i], other@[i]),
            decreases self@.len() - k,
        {
            out.push(inter_slot_exec(&self.list[k], &other.list[k]));
            k = k + 1;
        }
        let r = AttributeValuesSetList { list: out };
        assert(r@ =~= inter_lists(self@, other@));
        r
    }

    /// Elementwise difference with `other` (`self` minus `other`), which must
    /// cover every slot of `self`.
    pub fn difference(&self, other: &AttributeValuesSetList) -> (r: AttributeValuesSetList)
        requires
            self@.len() <= other@.len(),
        ensures
            r@ == diff_lists(self@, other@),
    {
        let mut out: Vec<AttributeValuesSet> = Vec::new();
        let mut k: usize = 0;
        while k < self.list.len()
            invariant
                0 <= k <= self@.len(),
                self@.len() <= other@.len(),
                out@.len() == k,
                forall|i: int| 0 <= i < k ==> out@[i]@ == diff_slot(self@[i], other@[i]),
            decreases self@.len() - k,
        {
            out.push(diff_slot_exec(&self.list[k], &other.list[k]));
            k = k + 1;
        }
        let r = AttributeValuesSetList { list: out };
        assert(r@ =~= diff_lists(self@, other@));
        r
    }

    /// A fresh copy, equal to the original at the view level.
    pub fn duplicate(&self) -> (r: AttributeValuesSetList)
        ensures
            r@ == self@,
    {
        let mut out: Vec<AttributeValuesSet> = Vec::new();
        let mut k: usize = 0;
        while k < self.list.len()
            invariant
                0 <= k <= self@.len(),
                out@.len() == k,
                forall|i: int| 0 <= i < k ==> out@[i]@ == self@[i],
            decreases self@.len() - k,
        {
            out.push(clone_attr_set(&self.list[k]));
            k = k + 1;
        }
        let r = AttributeValuesSetList { list: out };
        assert(r@ =~= self@);
        r
    }
}

/// A single attribute value, numeric or categorical, at the model level.
pub enum ValView {
    NumV(u64),
    CatV(Seq<char>),
}

/// Whether the slot holds the value: the tags must agree.
pub open spec fn slot_has(s: AttrSetView, v: ValView) -> bool {
    match (s, v) {
        (AttrSetView::Num(_, vals), ValView::NumV(x)) => vals.contains(x),
        (AttrSetView::Cat(_, vals), ValView::CatV(x)) => vals.contains(x),
        (_, _) => false,
    }
}

/// Same tag and same attribute name; unconstrained matches only
/// unconstrained.
pub open spec fn slots_tag_eq(a: AttrSetView, b: AttrSetView) -> bool {
    match (a, b) {
        (AttrSetView::Num(n1, _), AttrSetView::Num(n2, _)) => n1 == n2,
        (AttrSetView::Cat(n1, _), AttrSetView::Cat(n2, _)) => n1 == n2,
        (AttrSetView::Empty, AttrSetView::Empty) => true,
        (_, _) => false,
    }
}

/// Whether two slots carry the same tag and attribute name.
pub fn slots_tag_eq_exec(a: &AttributeValuesSet, b: &AttributeValuesSet) -> (r: bool)
    ensures
        r == slots_tag_eq(a@, b@),
{
    match a {
        AttributeValuesSet::Num(n1, _) => match b {
            AttributeValuesSet::Num(n2, _) => n1.eq(n2),
            _ => false,
        },
        AttributeValuesSet::Cat(n1, _) => match b {
            AttributeValuesSet::Cat(n2, _) => n1.eq(n2),
            _ => false,
        },
        AttributeValuesSet::Empty => match b {
            AttributeValuesSet::Empty => true,
            _ => false,
        },
    }
}

/// Slots sharing a tag with a common slot share it with each other.
pub proof fn lemma_tag_eq_trans(a: AttrSetView, b: AttrSetView, s: AttrSetView)
    requires
        slots_tag_eq(a, s),
        slots_tag_eq(b, s),
    ensures
        slots_tag_eq(a, b),
        slots_tag_eq(b, a),
        slots_joinable(a, b),
{
}

/// Union holds a value exactly when one operand does, for slots the
/// algebra may combine.
pub proof fn lemma_union_slot_has(a: AttrSetView, b: AttrSetView, v: ValView)
    requires
        slots_joinable(a, b),
    ensures
        slot_has(union_slot(a, b), v) == (slot_has(a, v) || slot_has(b, v)),
{
}

/// Intersection holds a value exactly when both operands do, for slots of
/// one tag.
pub proof fn lemma_inter_slot_has(a: AttrSetView, b: AttrSetView, v: ValView)
    requires
        slots_joinable(a, b),
        (a is Empty) <==> (b is Empty),
    ensures
        slot_has(inter_slot(a, b), v) == (slot_has(a, v) && slot_has(b, v)),
{
}

/// Difference holds a value exactly when the left operand does and the
/// right one does not, for slots the algebra may combine.
pub proof fn lemma_diff_slot_has(a: AttrSetView, b: AttrSetView, v: ValView)
    requires
        slots_joinable(a, b),
    ensures
        slot_has(diff_slot(a, b), v) == (slot_has(a, v) && !slot_has(b, v)),
{
}

/// The intersection of two slots that share a tag with `s` shares it too.
pub proof fn lemma_inter_slot_tag(a: AttrSetView, b: AttrSetView, s: AttrSetView)
    requires
        slots_tag_eq(a, s),
        slots_tag_eq(b, s),
    ensures
        slots_tag_eq(inter_slot(a, b), s),
        slots_joinable(a, b),
{
}

/// The union of two slots that share a tag with `s` shares it too.
pub proof fn lemma_union_slot_tag(a: AttrSetView, b: AttrSetView, s: AttrSetView)
    requires
        slots_tag_eq(a, s),
        slots_tag_eq(b, s),
    ensures
        slots_tag_eq(union_slot(a, b), s),
        slots_joinable(a, b),
{
}

/// Two slots that the algebra may combine: same tag and same attribute
/// name, or at least one of them unconstrained.
pub open spec fn slots_joinable(a: AttrSetView, b: AttrSetView) -> bool {
    match (a, b) {
        (AttrSetView::Num(n1, _), AttrSetView::Num(n2, _)) => n1 == n2,
        (AttrSetView::Cat(n1, _), AttrSetView::Cat(n2, _)) => n1 == n2,
        (AttrSetView::Empty, _) => true,
        (_, AttrSetView::Empty) => true,
        (_, _) => false,
    }
}

/// Elementwise joinability of two slot lists of equal length.
pub open spec fn lists_joinable(a: Seq<AttrSetView>, b: Seq<AttrSetView>) -> bool {
    a.len() == b.len() && forall|k: int| 0 <= k < a.len() ==> slots_joinable(a[k], b[k])
}

/// Union of joinable slots is commutative.
proof fn lemma_union_slot_comm(a: AttrSetView, b: AttrSetView)
    requires
        slots_joinable(a, b),
    ensures
        union_slot(a, b) == union_slot(b, a),
{
    match (a, b) {
        (AttrSetView::Num(_, s), AttrSetView::Num(_, t)) => {
            assert(s.union(t) =~= t.union(s));
        },
        (AttrSetView::Cat(_, s), AttrSetView::Cat(_, t)) => {
            assert(s.union(t) =~= t.union(s));
        },
        (_, _) => {},
    }
}

/// Union of pairwise joinable slots is associative.
proof fn lemma_union_slot_assoc(a: AttrSetView, b: AttrSetView, c: AttrSetView)
    requires
        slots_joinable(a, b),
        slots_joinable(b, c),
        slots_joinable(a, c),
    ensures
        union_slot(union_slot(a, b), c) == union_slot(a, union_slot(b, c)),
{
    match (a, b, c) {
        (AttrSetView::Num(_, s), AttrSetView::Num(_, t), AttrSetView::Num(_, u)) => {
            assert(s.union(t).union(u) =~= s.union(t.union(u)));
        },
        (AttrSetView::Cat(_, s), AttrSetView::Cat(_, t), AttrSetView::Cat(_, u)) => {
            assert(s.union(t).union(u) =~= s.union(t.union(u)));
        },
        (_, _, _) => {},
    }
}

/// Intersection of joinable slots is commutative.
proof fn lemma_inter_slot_comm(a: AttrSetView, b: AttrSetView)
    requires
        slots_joinable(a, b),
    ensures
        inter_slot(a, b) == inter_slot(b, a),
{
    match (a, b) {
        (AttrSetView::Num(_, s), AttrSetView::Num(_, t)) => {
            assert(s.intersect(t) =~= t.intersect(s));
        },
        (AttrSetView::Cat(_, s), AttrSetView::Cat(_, t)) => {
            assert(s.intersect(t) =~= t.intersect(s));
        },
        (_, _) => {},
    }
}

/// Intersection of pairwise joinable slots is associative.
proof fn lemma_inter_slot_assoc(a: AttrSetView, b: AttrSetView, c: AttrSetView)
    requires
        slots_joinable(a, b),
        slots_joinable(b, c),
        slots_joinable(a, c),
    ensures
        inter_slot(inter_slot(a, b), c) == inter_slot(a, inter_slot(b, c)),
{
    match (a, b, c) {
        (AttrSetView::Num(_, s), AttrSetView::Num(_, t), AttrSetView::Num(_, u)) => {
            assert(s.intersect(t).intersect(u) =~= s.intersect(t.intersect(u)));
        },
        (AttrSetView::Cat(_, s), AttrSetView::Cat(_, t), AttrSetView::Cat(_, u)) => {
            assert(s.intersect(t).intersect(u) =~= s.intersect(t.intersect(u)));
        },
        (_, _, _) => {},
    }
}

/// Law: elementwise union of joinable clause lists is commutative.
pub proof fn lemma_union_commutative(a: Seq<AttrSetView>, b: Seq<AttrSetView>)
    requires
        lists_joinable(a, b),
    ensures
        union_lists(a, b) == union_lists(b, a),
{
    assert forall|k: int| 0 <= k < a.len() implies union_lists(a, b)[k] == union_lists(
        b,
        a,
    )[k] by {
        lemma_union_slot_comm(a[k], b[k]);
    }
    assert(union_lists(a, b) =~= union_lists(b, a));
}

/// Law: elementwise union of pairwise joinable clause lists is associative.
pub proof fn lemma_union_associative(a: Seq<AttrSetView>, b: Seq<AttrSetView>, c: Seq<AttrSetView>)
    requires
        lists_joinable(a, b),
        lists_joinable(b, c),
        lists_joinable(a, c),
    ensures
        union_lists(union_lists(a, b), c) == union_lists(a, union_lists(b, c)),
{
    assert forall|k: int| 0 <= k < a.len() implies union_lists(union_lists(a, b), c)[k]
        == union_lists(a, union_lists(b, c))[k] by {
        lemma_union_slot_assoc(a[k], b[k], c[k]);
    }
    assert(union_lists(union_lists(a, b), c) =~= union_lists(a, union_lists(b, c)));
}

/// Law: elementwise intersection of joinable clause lists is commutative.
pub proof fn lemma_intersection_commutative(a: Seq<AttrSetView>, b: Seq<AttrSetView>)
    requires
        lists_joinable(a, b),
    ensures
        inter_lists(a, b) == inter_lists(b, a),
{
    assert forall|k: int| 0 <= k < a.len() implies inter_lists(a, b)[k] == inter_lists(
        b,
        a,
    )[k] by {
        lemma_inter_slot_comm(a[k], b[k]);
    }
    assert(inter_lists(a, b) =~= inter_lists(b, a));
}

/// Law: elementwise intersection of pairwise joinable clause lists is
/// associative.
pub proof fn lemma_intersection_associative(
    a: Seq<AttrSetView>,
    b: Seq<AttrSetView>,
    c: Seq<AttrSetView>,
)
    requires
        lists_joinable(a, b),
        lists_joinable(b, c),
        lists_joinable(a, c),
    ensures
        inter_lists(inter_lists(a, b), c) == inter_lists(a, inter_lists(b, c)),
{
    assert forall|k: int| 0 <= k < a.len() implies inter_lists(inter_lists(a, b), c)[k]
        == inter_lists(a, inter_lists(b, c))[k] by {
        lemma_inter_slot_assoc(a[k], b[k], c[k]);
    }
    assert(inter_lists(inter_lists(a, b), c) =~= inter_lists(a, inter_lists(b, c)));
}

/// Law: the fully unconstrained clause is the identity of elementwise
/// union, on either side.
pub proof fn lemma_union_identity(a: Seq<AttrSetView>)
    ensures
        union_lists(a, Seq::new(a.len(), |k: int| AttrSetView::Empty)) == a,
        union_lists(Seq::new(a.len(), |k: int| AttrSetView::Empty), a) == a,
{
    assert(union_lists(a, Seq::new(a.len(), |k: int| AttrSetView::Empty)) =~= a);
    assert(union_lists(Seq::new(a.len(), |k: int| AttrSetView::Empty), a) =~= a);
}

/// Law: subtracting a clause list from itself empties every constrained
/// slot and leaves unconstrained slots unconstrained.
pub proof fn lemma_difference_self(a: Seq<AttrSetView>)
    ensures
        diff_lists(a, a).len() == a.len(),
        forall|k: int|
            0 <= k < a.len() ==> #[trigger] diff_lists(a, a)[k] == (match a[k] {
                AttrSetView::Num(name, _) => AttrSetView::Num(name, Set::<u64>::empty()),
                AttrSetView::Cat(name, _) => AttrSetView::Cat(name, Set::<Seq<char>>::empty()),
                AttrSetView::Empty => AttrSetView::Empty,
            }),
{
    assert forall|k: int| 0 <= k < a.len() implies #[trigger] diff_lists(a, a)[k] == (match a[k] {
        AttrSetView::Num(name, _) => AttrSetView::Num(name, Set::<u64>::empty()),
        AttrSetView::Cat(name, _) => AttrSetView::Cat(name, Set::<Seq<char>>::empty()),
        AttrSetView::Empty => AttrSetView::Empty,
    }) by {
        match a[k] {
            AttrSetView::Num(name, s) => {
                assert(s.difference(s) =~= Set::<u64>::empty());
            },
            AttrSetView::Cat(name, s) => {
                assert(s.difference(s) =~= Set::<Seq<char>>::empty());
            },
            AttrSetView::Empty => {},
        }
    }
}

} // verus!
