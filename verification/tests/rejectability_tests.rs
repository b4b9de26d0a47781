use oqat::attr_sets::AttributeValuesSet;
use oqat::attr_sets::AttributeValuesSetList;
use oqat::dataset::Dataset;
use oqat::dataset::Row;
use oqat::rejectability::construct_attribute_sets;
use oqat::rejectability::create_rejectability_graph;
use oqat::rejectability::exists_clause_one_positive;
use oqat::rejectability::find_clause_one_positive;
use oqat::semantics::rejects;
use oqat::semantics::satisfies;
use rand::SeedableRng;
use rand::rngs::StdRng;

fn cat(name: &str, vals: &[&str]) -> AttributeValuesSet {
    AttributeValuesSet::Cat(name.to_string(), vals.iter().map(|s| s.to_string()).collect())
}

fn row(class: &str, size: &str, color: &str) -> Row {
    Row {
        class: class.to_string(),
        attributes: AttributeValuesSetList {
            list: vec![cat("size", &[size]), cat("color", &[color])],
        },
    }
}

/// Two attributes (size: small/medium/large, color: red/green), two
/// positives and four negatives.
fn fixture() -> Dataset {
    Dataset {
        learning_pos: vec![row("yes", "small", "red"), row("yes", "large", "red")],
        learning_neg: vec![
            row("no", "small", "green"),
            row("no", "medium", "green"),
            row("no", "medium", "red"),
            row("no", "large", "green"),
        ],
        testing_pos: Vec::new(),
        testing_neg: Vec::new(),
    }
}

#[test]
fn accept_all_positive_is_the_union_of_positive_values() {
    let d = fixture();
    let values = construct_attribute_sets(&d.learning_pos, &vec![0, 1]);
    assert_eq!(values.list.len(), 2);
    assert_eq!(values.list[0], cat("size", &["small", "large"]));
    assert_eq!(values.list[1], cat("color", &["red"]));
}

#[test]
fn negative_subset_footprint() {
    let d = fixture();
    let values = construct_attribute_sets(&d.learning_neg, &vec![0, 1, 2]);
    assert_eq!(values.list.len(), 2);
    assert_eq!(values.list[0], cat("size", &["small", "medium"]));
    assert_eq!(values.list[1], cat("color", &["green", "red"]));
}

#[test]
fn separability_decides_the_pair() {
    let d = fixture();
    // Pair {0, 1}: footprint size {small, medium}, color {green}; the
    // first positive escapes on color.
    let pair01 = construct_attribute_sets(&d.learning_neg, &vec![0, 1]);
    assert_eq!(exists_clause_one_positive(&d.learning_pos[0], &pair01), true);
    // Pair {0, 2}: footprint size {small, medium}, color {green, red}
    // swallows the first positive entirely.
    let pair02 = construct_attribute_sets(&d.learning_neg, &vec![0, 2]);
    assert_eq!(exists_clause_one_positive(&d.learning_pos[0], &pair02), false);
}

#[test]
fn witness_clause_for_one_positive() {
    let d = fixture();
    let pair01 = construct_attribute_sets(&d.learning_neg, &vec![0, 1]);
    let clause = find_clause_one_positive(&d.learning_pos, 0, &pair01);
    assert_eq!(clause.list.len(), 2);
    assert_eq!(clause.list[0], cat("size", &[]));
    assert_eq!(clause.list[1], cat("color", &["red"]));
}

#[test]
fn golden_edge_set_of_the_fixture() {
    let d = fixture();
    let rng = StdRng::seed_from_u64(1000);
    let graph = create_rejectability_graph(rng, &d);
    assert_eq!(graph.n_vertex, 4);

    let expected_edges = [(0, 1), (0, 3), (1, 2), (1, 3)];
    let expected_non_edges = [(0, 2), (2, 3)];
    for &(i, j) in expected_edges.iter() {
        assert!(graph.is_edge(i, j), "expected an edge between {} and {}", i, j);
        assert!(graph.is_edge(j, i));
    }
    for &(i, j) in expected_non_edges.iter() {
        assert!(!graph.is_edge(i, j), "expected no edge between {} and {}", i, j);
        assert!(!graph.is_edge(j, i));
    }
    assert_eq!(graph.available_vertex.len(), 4);
}

#[test]
fn edge_witnesses_accept_positives_and_reject_endpoints() {
    let d = fixture();
    let rng = StdRng::seed_from_u64(1000);
    let graph = create_rejectability_graph(rng, &d);

    for &(i, j) in [(0usize, 1usize), (0, 3), (1, 2), (1, 3)].iter() {
        let clause = graph.get_clique_clause(&vec![i, j]);
        for p in d.learning_pos.iter() {
            assert!(
                satisfies(&p.attributes, &clause),
                "edge ({}, {}): a positive row fails its witness",
                i,
                j
            );
        }
        assert!(rejects(&d.learning_neg[i].attributes, &clause));
        assert!(rejects(&d.learning_neg[j].attributes, &clause));
    }
}

#[test]
fn solo_witnesses_reject_their_own_vertex() {
    let d = fixture();
    let rng = StdRng::seed_from_u64(1000);
    let graph = create_rejectability_graph(rng, &d);
    assert_eq!(graph.reject_only_one_negative.len(), 4);

    for i in 0..4 {
        let clause = graph.get_clique_clause(&vec![i]);
        assert!(rejects(&d.learning_neg[i].attributes, &clause));
    }
    // The witness of vertex 2, (medium, red): the permissive clause minus
    // its values keeps size {small, large} and empties color.
    let w2 = graph.get_clique_clause(&vec![2]);
    assert_eq!(w2.list[0], cat("size", &["small", "large"]));
    assert_eq!(w2.list[1], cat("color", &[]));
    for p in d.learning_pos.iter() {
        assert!(satisfies(&p.attributes, &w2));
    }
}
