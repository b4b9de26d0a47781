//! Rows and the dataset split.
//!
//! A row carries its class label and one attribute slot per attribute, in
//! the dataset-wide order; at load time each slot holds that row's single
//! value.  The dataset keeps four collections: a learning and a testing
//! half, each divided into the designated positive class and the rest.
//! The learning half is drawn at random, one uniformly chosen row at a
//! time, until the requested fraction of the records is taken.

use vstd::prelude::*;

use crate::attr_sets::AttrSetView;
use crate::attr_sets::AttributeValuesSetList;
use crate::rng::rand_below;

verus! {

broadcast use vstd::seq_lib::group_to_multiset_ensures;

/// One example: a class label and the attribute slots holding its values.
#[derive(Clone, Debug, PartialEq, Eq)]
pub struct Row {
    pub class: String,
    pub attributes: AttributeValuesSetList,
}

/// Mathematical model of a row.
pub struct RowView {
    pub class: Seq<char>,
    pub attributes: Seq<AttrSetView>,
}

impl View for Row {
    type V = RowView;

    open spec fn view(&self) -> RowView {
        RowView { class: self.class@, attributes: self.attributes@ }
    }
}

impl Row {
    /// A fresh copy, equal to the original at the view level.
    pub fn duplicate(&self) -> (r: Row)
        ensures
            r@ == self@,
    {
        let r = Row { class: self.class.clone(), attributes: self.attributes.duplicate() };
        assert(r@.attributes =~= self@.attributes);
        r
    }
}

/// The four row collections of a split dataset.
#[derive(Debug)]
pub struct Dataset {
    pub learning_pos: Vec<Row>,
    pub learning_neg: Vec<Row>,
    pub testing_pos: Vec<Row>,
    pub testing_neg: Vec<Row>,
}

/// Whether every row of `rows` carries (`positive` true) or does not carry
/// (`positive` false) the class label `class`.
pub open spec fn all_class(rows: Seq<Row>, class: Seq<char>, positive: bool) -> bool {
    forall|i: int| 0 <= i < rows.len() ==> (rows[i]@.class == class) == positive
}

impl Dataset {
    /// Splits `records` into the four collections: `learning_frac` percent
    /// of the rows (rounded down) are drawn uniformly at random into the
    /// learning half, the rest form the testing half, and each half is
    /// partitioned by whether the row's class equals `positive_class`.
    /// Every record lands in exactly one collection.
    pub fn new(
        rng: &mut rand::rngs::StdRng,
        records: Vec<Row>,
        positive_class: &String,
        learning_frac: usize,
    ) -> (r: Dataset)
        requires
            learning_frac <= 100,
            records@.len() * learning_frac <= usize::MAX,
        ensures
            r.learning_pos@.len() + r.learning_neg@.len() == records@.len() * (
            learning_frac as int) / 100,
            r.learning_pos@.len() + r.learning_neg@.len() + r.testing_pos@.len()
                + r.testing_neg@.len() == records@.len(),
            all_class(r.learning_pos@, positive_class@, true),
            all_class(r.learning_neg@, positive_class@, false),
            all_class(r.testing_pos@, positive_class@, true),
            all_class(r.testing_neg@, positive_class@, false),
            r.learning_pos@.to_multiset().add(r.learning_neg@.to_multiset()).add(
                r.testing_pos@.to_multiset(),
            ).add(r.testing_neg@.to_multiset()) == records@.to_multiset(),
    {
        let ghost orig = records@;
        let total: usize = records.len();
        let frac: usize = total * learning_frac / 100;
        proof {
            assert(total * learning_frac <= total * 100) by (nonlinear_arith)
                requires
                    learning_frac <= 100,
                    total >= 0,
            ;
            vstd::arithmetic::div_mod::lemma_div_is_ordered(
                total * learning_frac,
                total * 100,
                100,
            );
            vstd::arithmetic::div_mod::lemma_div_multiples_vanish(total as int, 100);
            assert(frac <= total);
        }
        let mut all = records;
        let mut learning_pos: Vec<Row> = Vec::new();
        let mut learning_neg: Vec<Row> = Vec::new();
        let mut testing_pos: Vec<Row> = Vec::new();
        let mut testing_neg: Vec<Row> = Vec::new();

        let mut k: usize = 0;
        while k < frac
            invariant
                0 <= k <= frac,
                frac <= total,
                all@.len() == total - k,
                learning_pos@.len() + learning_neg@.len() == k,
                all_class(learning_pos@, positive_class@, true),
                all_class(learning_neg@, positive_class@, false),
                all@.to_multiset().add(learning_pos@.to_multiset()).add(
                    learning_neg@.to_multiset(),
                ) =~= orig.to_multiset(),
            decreases frac - k,
        {
            let index: usize = rand_below(rng, all.len() as u128) as usize;
            let ghost before = all@;
            let row = all.remove(index);
            proof {
                assert(before.to_multiset().contains(row)) by {
                    assert(before.contains(before[index as int]));
                }
                assert(all@.to_multiset() =~= before.to_multiset().remove(row));
            }
            if row.class.eq(positive_class) {
                learning_pos.push(row);
            } else {
                learning_neg.push(row);
            }
            proof {
                assert(all@.to_multiset().add(learning_pos@.to_multiset()).add(
                    learning_neg@.to_multiset(),
                ) =~= orig.to_multiset());
            }
            k = k + 1;
        }

        while all.len() > 0
            invariant
                learning_pos@.len() + learning_neg@.len() == frac,
                all@.len() + frac + testing_pos@.len() + testing_neg@.len() == total,
                all_class(learning_pos@, positive_class@, true),
                all_class(learning_neg@, positive_class@, false),
                all_class(testing_pos@, positive_class@, true),
                all_class(testing_neg@, positive_class@, false),
                all@.to_multiset().add(learning_pos@.to_multiset()).add(
                    learning_neg@.to_multiset(),
                ).add(testing_pos@.to_multiset()).add(testing_neg@.to_multiset())
                    =~= orig.to_multiset(),
            decreases all@.len(),
        {
            let ghost before = all@;
            let row = all.remove(0);
            proof {
                assert(before.to_multiset().contains(row)) by {
                    assert(before.contains(before[0]));
                }
                assert(all@.to_multiset() =~= before.to_multiset().remove(row));
            }
            if row.class.eq(positive_class) {
                testing_pos.push(row);
            } else {
                testing_neg.push(row);
            }
            proof {
                assert(all@.to_multiset().add(learning_pos@.to_multiset()).add(
                    learning_neg@.to_multiset(),
                ).add(testing_pos@.to_multiset()).add(testing_neg@.to_multiset())
                    =~= orig.to_multiset());
            }
        }
        proof {
            assert(all@.to_multiset().len() == 0);
            assert(learning_pos@.to_multiset().add(learning_neg@.to_multiset()).add(
                testing_pos@.to_multiset(),
            ).add(testing_neg@.to_multiset()) =~= orig.to_multiset());
        }
        Dataset { learning_pos, learning_neg, testing_pos, testing_neg }
    }
}

} // verus!
