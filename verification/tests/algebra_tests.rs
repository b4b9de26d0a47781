use oqat::attr_sets::AttributeValuesSet;
use oqat::attr_sets::AttributeValuesSetList;

fn num(name: &str, vals: &[u64]) -> AttributeValuesSet {
    AttributeValuesSet::Num(name.to_string(), vals.to_vec())
}

fn cat(name: &str, vals: &[&str]) -> AttributeValuesSet {
    AttributeValuesSet::Cat(name.to_string(), vals.iter().map(|s| s.to_string()).collect())
}

fn sorted_set(s: &AttributeValuesSet) -> AttributeValuesSet {
    match s {
        AttributeValuesSet::Num(n, v) => {
            let mut v = v.clone();
            v.sort();
            v.dedup();
            AttributeValuesSet::Num(n.clone(), v)
        }
        AttributeValuesSet::Cat(n, v) => {
            let mut v = v.clone();
            v.sort();
            v.dedup();
            AttributeValuesSet::Cat(n.clone(), v)
        }
        AttributeValuesSet::Empty => AttributeValuesSet::Empty,
    }
}

fn normalized(l: &AttributeValuesSetList) -> Vec<AttributeValuesSet> {
    l.list.iter().map(sorted_set).collect()
}

#[test]
fn union_joins_values_elementwise() {
    let a = AttributeValuesSetList { list: vec![num("x", &[1, 2]), cat("c", &["red"])] };
    let b = AttributeValuesSetList { list: vec![num("x", &[2, 3]), cat("c", &["green"])] };
    let u = a.union(&b);
    assert_eq!(u.list[0], num("x", &[1, 2, 3]));
    assert_eq!(u.list[1], cat("c", &["red", "green"]));
}

#[test]
fn union_is_commutative_elementwise() {
    let a = AttributeValuesSetList { list: vec![num("x", &[1, 2]), cat("c", &["red", "blue"])] };
    let b = AttributeValuesSetList { list: vec![num("x", &[2, 3]), cat("c", &["green"])] };
    assert_eq!(normalized(&a.union(&b)), normalized(&b.union(&a)));
}

#[test]
fn union_is_associative_elementwise() {
    let a = AttributeValuesSetList { list: vec![num("x", &[1])] };
    let b = AttributeValuesSetList { list: vec![num("x", &[2])] };
    let c = AttributeValuesSetList { list: vec![num("x", &[3])] };
    assert_eq!(normalized(&a.union(&b).union(&c)), normalized(&a.union(&b.union(&c))));
}

#[test]
fn intersection_is_commutative_and_associative_elementwise() {
    let a = AttributeValuesSetList { list: vec![num("x", &[1, 2, 3]), cat("c", &["red", "blue"])] };
    let b = AttributeValuesSetList { list: vec![num("x", &[2, 3, 4]), cat("c", &["blue"])] };
    let c = AttributeValuesSetList { list: vec![num("x", &[3, 4, 5]), cat("c", &["blue", "red"])] };
    assert_eq!(normalized(&a.intersection(&b)), normalized(&b.intersection(&a)));
    assert_eq!(
        normalized(&a.intersection(&b).intersection(&c)),
        normalized(&a.intersection(&b.intersection(&c)))
    );
    assert_eq!(a.intersection(&b).list[0], num("x", &[2, 3]));
    assert_eq!(a.intersection(&b).list[1], cat("c", &["blue"]));
}

#[test]
fn unconstrained_is_identity_for_union() {
    let a = AttributeValuesSetList { list: vec![num("x", &[1, 2]), cat("c", &["red"])] };
    let e = AttributeValuesSetList {
        list: vec![AttributeValuesSet::Empty, AttributeValuesSet::Empty],
    };
    assert_eq!(normalized(&a.union(&e)), normalized(&a));
    assert_eq!(normalized(&e.union(&a)), normalized(&a));
}

#[test]
fn difference_with_self_empties_every_constrained_slot() {
    let a = AttributeValuesSetList {
        list: vec![num("x", &[1, 2]), cat("c", &["red"]), AttributeValuesSet::Empty],
    };
    let d = a.difference(&a);
    assert_eq!(d.list[0], num("x", &[]));
    assert_eq!(d.list[1], cat("c", &[]));
    assert_eq!(d.list[2], AttributeValuesSet::Empty);
}

#[test]
fn difference_removes_shared_values() {
    let a = AttributeValuesSetList { list: vec![num("x", &[1, 2, 3]), cat("c", &["red", "blue"])] };
    let b = AttributeValuesSetList { list: vec![num("x", &[2]), cat("c", &["blue", "green"])] };
    let d = a.difference(&b);
    assert_eq!(d.list[0], num("x", &[1, 3]));
    assert_eq!(d.list[1], cat("c", &["red"]));
}

#[test]
fn satisfaction_needs_one_shared_slot_value() {
    let row = AttributeValuesSetList { list: vec![cat("size", &["small"]), cat("color", &["red"])] };
    let clause_hit = AttributeValuesSetList {
        list: vec![cat("size", &["large"]), cat("color", &["red"])],
    };
    let clause_miss = AttributeValuesSetList {
        list: vec![cat("size", &["large"]), cat("color", &["green"])],
    };
    assert!(oqat::semantics::satisfies(&row, &clause_hit));
    assert!(!oqat::semantics::satisfies(&row, &clause_miss));
    assert!(oqat::semantics::rejects(&row, &clause_miss));
}

#[test]
fn separable_needs_one_escaping_value() {
    let row = AttributeValuesSetList { list: vec![cat("size", &["small"]), cat("color", &["red"])] };
    let footprint_tight = AttributeValuesSetList {
        list: vec![cat("size", &["small", "medium"]), cat("color", &["red", "green"])],
    };
    let footprint_loose = AttributeValuesSetList {
        list: vec![cat("size", &["medium"]), cat("color", &["red"])],
    };
    assert!(!oqat::semantics::separable(&row, &footprint_tight));
    assert!(oqat::semantics::separable(&row, &footprint_loose));
}

#[test]
fn list_basics() {
    let mut l = AttributeValuesSetList::new();
    assert!(l.is_empty());
    assert_eq!(l.len(), 0);
    l = AttributeValuesSetList::from_vec(vec![num("x", &[7])]);
    assert!(!l.is_empty());
    assert_eq!(l.len(), 1);
    let d = l.duplicate();
    assert_eq!(d.list, l.list);
}
