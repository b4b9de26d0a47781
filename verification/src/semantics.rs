//! Satisfaction semantics of clauses.
//!
//! A clause is a list of attribute slots; every constrained slot contributes
//! one selector per value it holds.  A row satisfies a clause when at least
//! one selector matches one of the row's values for the same attribute, and
//! the clause rejects the row otherwise.

use vstd::prelude::*;

use crate::attr_sets::AttrSetView;
use crate::attr_sets::AttributeValuesSet;
use crate::attr_sets::AttributeValuesSetList;
use crate::attr_sets::lemma_str_views_contains;
use crate::attr_sets::seq_has_str;
use crate::attr_sets::str_views;

verus! {

/// Whether a row's values for one attribute meet the clause's slot for the
/// same attribute: the two sets share a value and a tag.
pub open spec fn slot_hits(row: AttrSetView, clause: AttrSetView) -> bool {
    match (row, clause) {
        (AttrSetView::Num(_, rs), AttrSetView::Num(_, cs)) => exists|v: u64|
            rs.contains(v) && cs.contains(v),
        (AttrSetView::Cat(_, rs), AttrSetView::Cat(_, cs)) => exists|v: Seq<char>|
            rs.contains(v) && cs.contains(v),
        (_, _) => false,
    }
}

/// Whether a row, given as its per-attribute value sets, satisfies a
/// clause: some attribute slot of the clause holds one of the row's values.
pub open spec fn spec_satisfies(row: Seq<AttrSetView>, clause: Seq<AttrSetView>) -> bool {
    exists|k: int| 0 <= k < row.len() && k < clause.len() && slot_hits(row[k], clause[k])
}

/// Whether a clause rejects a row: no attribute slot holds any of the
/// row's values.
pub open spec fn spec_rejects(row: Seq<AttrSetView>, clause: Seq<AttrSetView>) -> bool {
    !spec_satisfies(row, clause)
}

/// Whether a row is separable from a footprint on one attribute: the row
/// has a value there that the footprint does not hold.
pub open spec fn sep_slot(row: AttrSetView, footprint: AttrSetView) -> bool {
    match (row, footprint) {
        (AttrSetView::Num(_, rs), AttrSetView::Num(_, fs)) => exists|v: u64|
            rs.contains(v) && !fs.contains(v),
        (AttrSetView::Cat(_, rs), AttrSetView::Cat(_, fs)) => exists|v: Seq<char>|
            rs.contains(v) && !fs.contains(v),
        (_, _) => false,
    }
}

/// Whether a row is separable from a footprint: on some attribute the row
/// has a value that the footprint does not hold.
pub open spec fn spec_separable(row: Seq<AttrSetView>, footprint: Seq<AttrSetView>) -> bool {
    exists|k: int| 0 <= k < row.len() && k < footprint.len() && sep_slot(row[k], footprint[k])
}

/// A slot hit is the sharing of one value.
pub proof fn lemma_slot_hits_has(r: AttrSetView, c: AttrSetView)
    ensures
        slot_hits(r, c) <==> exists|v: crate::attr_sets::ValView|
            crate::attr_sets::slot_has(r, v) && crate::attr_sets::slot_has(c, v),
{
    if slot_hits(r, c) {
        match (r, c) {
            (AttrSetView::Num(_, rs), AttrSetView::Num(_, cs)) => {
                let x = choose|x: u64| rs.contains(x) && cs.contains(x);
                let v = crate::attr_sets::ValView::NumV(x);
                assert(crate::attr_sets::slot_has(r, v) && crate::attr_sets::slot_has(c, v));
            },
            (AttrSetView::Cat(_, rs), AttrSetView::Cat(_, cs)) => {
                let x = choose|x: Seq<char>| rs.contains(x) && cs.contains(x);
                let v = crate::attr_sets::ValView::CatV(x);
                assert(crate::attr_sets::slot_has(r, v) && crate::attr_sets::slot_has(c, v));
            },
            (_, _) => {},
        }
    }
    if exists|v: crate::attr_sets::ValView|
        crate::attr_sets::slot_has(r, v) && crate::attr_sets::slot_has(c, v) {
        let v = choose|v: crate::attr_sets::ValView|
            crate::attr_sets::slot_has(r, v) && crate::attr_sets::slot_has(c, v);
        match v {
            crate::attr_sets::ValView::NumV(x) => {
                assert(r matches AttrSetView::Num(_, rs) && rs.contains(x));
                assert(c matches AttrSetView::Num(_, cs) && cs.contains(x));
            },
            crate::attr_sets::ValView::CatV(x) => {
                assert(r matches AttrSetView::Cat(_, rs) && rs.contains(x));
                assert(c matches AttrSetView::Cat(_, cs) && cs.contains(x));
            },
        }
    }
}

/// For slots of one tag, separability on the slot is the existence of a
/// value held by the row and not by the footprint.
pub proof fn lemma_sep_slot_has(r: AttrSetView, f: AttrSetView)
    requires
        crate::attr_sets::slots_tag_eq(r, f),
    ensures
        sep_slot(r, f) <==> exists|v: crate::attr_sets::ValView|
            crate::attr_sets::slot_has(r, v) && !crate::attr_sets::slot_has(f, v),
{
    if sep_slot(r, f) {
        match (r, f) {
            (AttrSetView::Num(_, rs), AttrSetView::Num(_, fs)) => {
                let x = choose|x: u64| rs.contains(x) && !fs.contains(x);
                let v = crate::attr_sets::ValView::NumV(x);
                assert(crate::attr_sets::slot_has(r, v) && !crate::attr_sets::slot_has(f, v));
            },
            (AttrSetView::Cat(_, rs), AttrSetView::Cat(_, fs)) => {
                let x = choose|x: Seq<char>| rs.contains(x) && !fs.contains(x);
                let v = crate::attr_sets::ValView::CatV(x);
                assert(crate::attr_sets::slot_has(r, v) && !crate::attr_sets::slot_has(f, v));
            },
            (_, _) => {},
        }
    }
    if exists|v: crate::attr_sets::ValView|
        crate::attr_sets::slot_has(r, v) && !crate::attr_sets::slot_has(f, v) {
        let v = choose|v: crate::attr_sets::ValView|
            crate::attr_sets::slot_has(r, v) && !crate::attr_sets::slot_has(f, v);
        match v {
            crate::attr_sets::ValView::NumV(x) => {
                assert(r matches AttrSetView::Num(_, rs) && rs.contains(x));
            },
            crate::attr_sets::ValView::CatV(x) => {
                assert(r matches AttrSetView::Cat(_, rs) && rs.contains(x));
            },
        }
    }
}

/// Whether the two vectors share a value, as sets.
fn u64_share(rv: &Vec<u64>, cv: &Vec<u64>) -> (r: bool)
    ensures
        r == exists|v: u64| rv@.to_set().contains(v) && cv@.to_set().contains(v),
{
    let mut i: usize = 0;
    while i < rv.len()
        invariant
            0 <= i <= rv@.len(),
            forall|j: int| 0 <= j < i ==> !cv@.contains(rv@[j]),
        decreases rv@.len() - i,
    {
        let v: u64 = rv[i];
        let mut j: usize = 0;
        while j < cv.len()
            invariant
                0 <= j <= cv@.len(),
                i < rv@.len(),
                v == rv@[i as int],
                forall|l: int| 0 <= l < j ==> cv@[l] != v,
            decreases cv@.len() - j,
        {
            if cv[j] == v {
                assert(cv@[j as int] == v);
                assert(rv@.to_set().contains(v) && cv@.to_set().contains(v));
                return true;
            }
            j = j + 1;
        }
        i = i + 1;
    }
    assert forall|v: u64| !(rv@.to_set().contains(v) && cv@.to_set().contains(v)) by {
        if rv@.contains(v) {
            let j = choose|j: int| 0 <= j < rv@.len() && rv@[j] == v;
            assert(!cv@.contains(rv@[j]));
        }
    }
    false
}

/// Whether the two string vectors share a value, as sets of views.
fn str_share(rv: &Vec<String>, cv: &Vec<String>) -> (r: bool)
    ensures
        r == exists|v: Seq<char>|
            str_views(rv@).to_set().contains(v) && str_views(cv@).to_set().contains(v),
{
    let mut i: usize = 0;
    while i < rv.len()
        invariant
            0 <= i <= rv@.len(),
            forall|j: int| 0 <= j < i ==> !seq_has_str(cv@, rv@[j]@),
        decreases rv@.len() - i,
    {
        let mut j: usize = 0;
        while j < cv.len()
            invariant
                0 <= j <= cv@.len(),
                i < rv@.len(),
                forall|l: int| 0 <= l < j ==> cv@[l]@ != rv@[i as int]@,
            decreases cv@.len() - j,
        {
            if cv[j].eq(&rv[i]) {
                proof {
                    let w = rv@[i as int]@;
                    assert(cv@[j as int]@ == w);
                    assert(seq_has_str(rv@, w));
                    assert(seq_has_str(cv@, w));
                    lemma_str_views_contains(rv@, w);
                    lemma_str_views_contains(cv@, w);
                }
                return true;
            }
            j = j + 1;
        }
        i = i + 1;
    }
    assert forall|v: Seq<char>|
        !(str_views(rv@).to_set().contains(v) && str_views(cv@).to_set().contains(v)) by {
        lemma_str_views_contains(rv@, v);
        lemma_str_views_contains(cv@, v);
        if seq_has_str(rv@, v) {
            let j = choose|j: int| 0 <= j < rv@.len() && rv@[j]@ == v;
            assert(!seq_has_str(cv@, rv@[j]@));
        }
    }
    false
}

/// Whether some value of `rv` lies outside `fv`, as sets.
fn u64_escapes(rv: &Vec<u64>, fv: &Vec<u64>) -> (r: bool)
    ensures
        r == exists|v: u64| rv@.to_set().contains(v) && !fv@.to_set().contains(v),
{
    let mut i: usize = 0;
    while i < rv.len()
        invariant
            0 <= i <= rv@.len(),
            forall|j: int| 0 <= j < i ==> fv@.contains(rv@[j]),
        decreases rv@.len() - i,
    {
        let v: u64 = rv[i];
        let mut j: usize = 0;
        let mut found: bool = false;
        while j < fv.len()
            invariant
                0 <= j <= fv@.len(),
                i < rv@.len(),
                v == rv@[i as int],
                found ==> fv@.contains(v),
                !found ==> forall|l: int| 0 <= l < j ==> fv@[l] != v,
            decreases fv@.len() - j,
        {
            if fv[j] == v {
                assert(fv@[j as int] == v);
                found = true;
            }
            j = j + 1;
        }
        if !found {
            assert(rv@.to_set().contains(v));
            assert(!fv@.contains(v)) by {
                if fv@.contains(v) {
                    let l = choose|l: int| 0 <= l < fv@.len() && fv@[l] == v;
                }
            }
            return true;
        }
        i = i + 1;
    }
    assert forall|v: u64| !(rv@.to_set().contains(v) && !fv@.to_set().contains(v)) by {
        if rv@.contains(v) {
            let j = choose|j: int| 0 <= j < rv@.len() && rv@[j] == v;
            assert(fv@.contains(rv@[j]));
        }
    }
    false
}

/// Whether some string of `rv` views to a value outside the views of `fv`.
fn str_escapes(rv: &Vec<String>, fv: &Vec<String>) -> (r: bool)
    ensures
        r == exists|v: Seq<char>|
            str_views(rv@).to_set().contains(v) && !str_views(fv@).to_set().contains(v),
{
    let mut i: usize = 0;
    while i < rv.len()
        invariant
            0 <= i <= rv@.len(),
            forall|j: int| 0 <= j < i ==> seq_has_str(fv@, rv@[j]@),
        decreases rv@.len() - i,
    {
        let mut j: usize = 0;
        let mut found: bool = false;
        while j < fv.len()
            invariant
                0 <= j <= fv@.len(),
                i < rv@.len(),
                found ==> seq_has_str(fv@, rv@[i as int]@),
                !found ==> forall|l: int| 0 <= l < j ==> fv@[l]@ != rv@[i as int]@,
            decreases fv@.len() - j,
        {
            if fv[j].eq(&rv[i]) {
                assert(fv@[j as int]@ == rv@[i as int]@);
                found = true;
            }
            j = j + 1;
        }
        if !found {
            proof {
                let w = rv@[i as int]@;
                assert(seq_has_str(rv@, w));
                assert(!seq_has_str(fv@, w)) by {
                    if seq_has_str(fv@, w) {
                        let l = choose|l: int| 0 <= l < fv@.len() && fv@[l]@ == w;
                    }
                }
                lemma_str_views_contains(rv@, w);
                lemma_str_views_contains(fv@, w);
            }
            return true;
        }
        i = i + 1;
    }
    assert forall|v: Seq<char>|
        !(str_views(rv@).to_set().contains(v) && !str_views(fv@).to_set().contains(v)) by {
        lemma_str_views_contains(rv@, v);
        lemma_str_views_contains(fv@, v);
        if seq_has_str(rv@, v) {
            let j = choose|j: int| 0 <= j < rv@.len() && rv@[j]@ == v;
            assert(seq_has_str(fv@, rv@[j]@));
        }
    }
    false
}

/// Whether the row's values for one attribute meet the clause's slot,
/// mirroring `slot_hits` on views.
fn slot_hits_exec(row: &AttributeValuesSet, clause: &AttributeValuesSet) -> (r: bool)
    ensures
        r == slot_hits(row@, clause@),
{
    match row {
        AttributeValuesSet::Num(name, rv) => match clause {
            AttributeValuesSet::Num(cname, cv) => {
                let r: bool = u64_share(rv, cv);
                proof {
                    assert(row@ == AttrSetView::Num(name@, rv@.to_set()));
                    assert(clause@ == AttrSetView::Num(cname@, cv@.to_set()));
                    if r {
                        let w = choose|v: u64|
                            rv@.to_set().contains(v) && cv@.to_set().contains(v);
                        assert(row@->Num_1.contains(w));
                        assert(clause@->Num_1.contains(w));
                        assert(slot_hits(row@, clause@));
                    }
                }
                r
            },
            _ => false,
        },
        AttributeValuesSet::Cat(name, rv) => match clause {
            AttributeValuesSet::Cat(cname, cv) => {
                let r: bool = str_share(rv, cv);
                proof {
                    assert(row@ == AttrSetView::Cat(name@, str_views(rv@).to_set()));
                    assert(clause@ == AttrSetView::Cat(cname@, str_views(cv@).to_set()));
                    if r {
                        let w = choose|v: Seq<char>|
                            str_views(rv@).to_set().contains(v) && str_views(
                                cv@,
                            ).to_set().contains(v);
                        assert(row@->Cat_1.contains(w));
                        assert(clause@->Cat_1.contains(w));
                        assert(slot_hits(row@, clause@));
                    }
                }
                r
            },
            _ => false,
        },
        AttributeValuesSet::Empty => false,
    }
}

/// Whether the row has, on this attribute, a value outside the footprint,
/// mirroring `sep_slot` on views.
fn sep_slot_exec(row: &AttributeValuesSet, footprint: &AttributeValuesSet) -> (r: bool)
    ensures
        r == sep_slot(row@, footprint@),
{
    match row {
        AttributeValuesSet::Num(name, rv) => match footprint {
            AttributeValuesSet::Num(fname, fv) => {
                let r: bool = u64_escapes(rv, fv);
                proof {
                    assert(row@ == AttrSetView::Num(name@, rv@.to_set()));
                    assert(footprint@ == AttrSetView::Num(fname@, fv@.to_set()));
                    if r {
                        let w = choose|v: u64|
                            rv@.to_set().contains(v) && !fv@.to_set().contains(v);
                        assert(row@->Num_1.contains(w));
                        assert(!footprint@->Num_1.contains(w));
                        assert(sep_slot(row@, footprint@));
                    }
                }
                r
            },
            _ => false,
        },
        AttributeValuesSet::Cat(name, rv) => match footprint {
            AttributeValuesSet::Cat(fname, fv) => {
                let r: bool = str_escapes(rv, fv);
                proof {
                    assert(row@ == AttrSetView::Cat(name@, str_views(rv@).to_set()));
                    assert(footprint@ == AttrSetView::Cat(fname@, str_views(fv@).to_set()));
                    if r {
                        let w = choose|v: Seq<char>|
                            str_views(rv@).to_set().contains(v) && !str_views(
                                fv@,
                            ).to_set().contains(v);
                        assert(row@->Cat_1.contains(w));
                        assert(!footprint@->Cat_1.contains(w));
                        assert(sep_slot(row@, footprint@));
                    }
                }
                r
            },
            _ => false,
        },
        AttributeValuesSet::Empty => false,
    }
}

/// Whether the row, given as its per-attribute value sets, satisfies the
/// clause.
pub fn satisfies(row: &AttributeValuesSetList, clause: &AttributeValuesSetList) -> (r: bool)
    ensures
        r == spec_satisfies(row@, clause@),
{
    let n: usize = if row.list.len() < clause.list.len() {
        row.list.len()
    } else {
        clause.list.len()
    };
    let mut k: usize = 0;
    while k < n
        invariant
            0 <= k <= n,
            n <= row@.len(),
            n <= clause@.len(),
            row@.len() <= clause@.len() ==> n == row@.len(),
            clause@.len() <= row@.len() ==> n <= row@.len() && n == clause@.len(),
            forall|j: int| 0 <= j < k ==> !slot_hits(row@[j], clause@[j]),
        decreases n - k,
    {
        if slot_hits_exec(&row.list[k], &clause.list[k]) {
            assert(0 <= k < row@.len() && (k as int) < clause@.len() && slot_hits(
                row@[k as int],
                clause@[k as int],
            ));
            return true;
        }
        k = k + 1;
    }
    assert forall|j: int| 0 <= j < row@.len() && j < clause@.len() implies !slot_hits(
        row@[j],
        clause@[j],
    ) by {
        assert(j < n);
    }
    false
}

/// Whether the row, given as its per-attribute value sets, has on some
/// attribute a value outside the footprint.
pub fn separable(row: &AttributeValuesSetList, footprint: &AttributeValuesSetList) -> (r: bool)
    requires
        row@.len() <= footprint@.len(),
    ensures
        r == spec_separable(row@, footprint@),
{
    let n: usize = row.list.len();
    let mut k: usize = 0;
    while k < n
        invariant
            0 <= k <= n,
            n == row@.len(),
            n <= footprint@.len(),
            forall|j: int| 0 <= j < k ==> !sep_slot(row@[j], footprint@[j]),
        decreases n - k,
    {
        if sep_slot_exec(&row.list[k], &footprint.list[k]) {
            assert(0 <= k < row@.len() && (k as int) < footprint@.len() && sep_slot(
                row@[k as int],
                footprint@[k as int],
            ));
            return true;
        }
        k = k + 1;
    }
    false
}

/// Whether the clause rejects the row: the negation of `satisfies`.
pub fn rejects(row: &AttributeValuesSetList, clause: &AttributeValuesSetList) -> (r: bool)
    ensures
        r == spec_rejects(row@, clause@),
{
    !satisfies(row, clause)
}

} // verus!
