use oqat::aco::ACOAlgorithm;
use oqat::aco::ACOParameters;
use oqat::attr_sets::AttributeValuesSet;
use oqat::attr_sets::AttributeValuesSetList;
use oqat::dataset::Dataset;
use oqat::dataset::Row;
use oqat::semantics::rejects;
use oqat::semantics::satisfies;
use oqat::solve::run_core;
use rand::SeedableRng;
use rand::rngs::StdRng;

fn cat(name: &str, vals: &[&str]) -> AttributeValuesSet {
    AttributeValuesSet::Cat(name.to_string(), vals.iter().map(|s| s.to_string()).collect())
}

fn row(class: &str, size: &str, color: &str) -> Row {
    Row {
        class: class.to_string(),
        attributes: AttributeValuesSetList {
            list: vec![cat("size", &[size]), cat("color", &[color])],
        },
    }
}

fn fixture() -> Dataset {
    Dataset {
        learning_pos: vec![row("yes", "small", "red"), row("yes", "large", "red")],
        learning_neg: vec![
            row("no", "small", "green"),
            row("no", "medium", "green"),
            row("no", "medium", "red"),
            row("no", "large", "green"),
        ],
        testing_pos: Vec::new(),
        testing_neg: Vec::new(),
    }
}

fn params() -> ACOParameters {
    ACOParameters::new(5, 3, 2, 300, 1000, 1).unwrap()
}

#[test]
fn parameters_accept_exactly_the_valid_configurations() {
    assert!(ACOParameters::new(1, 1, 0, 0, 2, 1).is_ok());
    assert!(ACOParameters::new(0, 1, 0, 0, 2, 1).is_err());
    assert!(ACOParameters::new(1, 0, 0, 0, 2, 1).is_err());
    assert!(ACOParameters::new(1, 1, 0, 1001, 2, 1).is_err());
    assert!(ACOParameters::new(1, 1, 0, 0, 1, 1).is_err());
    assert!(ACOParameters::new(1, 1, 0, 0, 2, 0).is_err());
    assert!(ACOParameters::new(1, 1, 5, 0, 2, 1).is_err());
    assert_eq!(ACOParameters::new(1, 1, 0, 0, 1, 2).unwrap_err(), "Configuration invalid");
}

#[test]
fn invalid_configuration_is_refused_before_any_work() {
    let d = fixture();
    let rng = StdRng::seed_from_u64(1000);
    let bad = ACOParameters {
        generations: 0,
        ants_per_generation: 1,
        alpha: 1,
        rho_permille: 100,
        tau_max: 100,
        tau_min: 1,
    };
    let r = run_core(rng, &d, &ACOAlgorithm::VertexAC, &bad);
    assert_eq!(r.unwrap_err(), "Configuration invalid");
}

#[test]
fn schema_mismatch_is_refused() {
    let mut d = fixture();
    d.learning_neg.push(Row {
        class: "no".to_string(),
        attributes: AttributeValuesSetList { list: vec![cat("size", &["huge"])] },
    });
    let rng = StdRng::seed_from_u64(1000);
    let r = run_core(rng, &d, &ACOAlgorithm::VertexAC, &params());
    assert_eq!(r.unwrap_err(), "Schema mismatch");
}

#[test]
fn single_negative_yields_one_singleton_clique() {
    let d = Dataset {
        learning_pos: vec![row("yes", "small", "red")],
        learning_neg: vec![row("no", "medium", "green")],
        testing_pos: Vec::new(),
        testing_neg: Vec::new(),
    };
    let rng = StdRng::seed_from_u64(1000);
    let out = run_core(rng, &d, &ACOAlgorithm::VertexAC, &params()).unwrap();
    assert_eq!(out.graph.n_vertex, 1);
    assert!(!out.graph.is_edge(0, 0));
    assert_eq!(out.rules.len(), 1);
    assert_eq!(out.rules[0].clique, vec![0]);
    assert!(rejects(&d.learning_neg[0].attributes, &out.rules[0].clause));
    assert!(satisfies(&d.learning_pos[0].attributes, &out.rules[0].clause));
}

fn check_outcome_is_valid(d: &Dataset, out: &oqat::solve::RunOutcome) {
    let n = d.learning_neg.len();
    let mut seen = vec![false; n];
    for rule in out.rules.iter() {
        assert!(!rule.clique.is_empty());
        for (a, &u) in rule.clique.iter().enumerate() {
            assert!(u < n);
            assert!(!seen[u], "a vertex appears in two cliques");
            seen[u] = true;
            for (b, &v) in rule.clique.iter().enumerate() {
                if a != b {
                    assert!(out.graph.is_edge(u, v), "clique members must be joined");
                }
            }
        }
        // Every clique member is rejected by the rule's clause.
        for &u in rule.clique.iter() {
            assert!(rejects(&d.learning_neg[u].attributes, &rule.clause));
        }
    }
    assert!(seen.iter().all(|&s| s), "every negative must be covered");
}

#[test]
fn vertex_engine_covers_all_negatives() {
    let d = fixture();
    let rng = StdRng::seed_from_u64(1000);
    let out = run_core(rng, &d, &ACOAlgorithm::VertexAC, &params()).unwrap();
    check_outcome_is_valid(&d, &out);
    // In this fixture both positives escape every clique's joint
    // footprint on the color attribute, so every rule accepts them.
    for rule in out.rules.iter() {
        for p in d.learning_pos.iter() {
            assert!(satisfies(&p.attributes, &rule.clause));
        }
    }
}

#[test]
fn edge_engine_covers_all_negatives() {
    let d = fixture();
    let rng = StdRng::seed_from_u64(1000);
    let out = run_core(rng, &d, &ACOAlgorithm::EdgeAC, &params()).unwrap();
    check_outcome_is_valid(&d, &out);
}

#[test]
fn one_generation_one_ant_still_yields_valid_cliques() {
    let d = fixture();
    let tiny = ACOParameters::new(1, 1, 1, 500, 100, 1).unwrap();
    let rng = StdRng::seed_from_u64(42);
    let out = run_core(rng, &d, &ACOAlgorithm::VertexAC, &tiny).unwrap();
    check_outcome_is_valid(&d, &out);
    let rng = StdRng::seed_from_u64(42);
    let out = run_core(rng, &d, &ACOAlgorithm::EdgeAC, &tiny).unwrap();
    check_outcome_is_valid(&d, &out);
}

#[test]
fn same_seed_gives_identical_rule_sets() {
    let d = fixture();
    let out1 = run_core(StdRng::seed_from_u64(1000), &d, &ACOAlgorithm::VertexAC, &params())
        .unwrap();
    let out2 = run_core(StdRng::seed_from_u64(1000), &d, &ACOAlgorithm::VertexAC, &params())
        .unwrap();
    assert_eq!(out1.rules, out2.rules);

    let out3 = run_core(StdRng::seed_from_u64(7), &d, &ACOAlgorithm::EdgeAC, &params()).unwrap();
    let out4 = run_core(StdRng::seed_from_u64(7), &d, &ACOAlgorithm::EdgeAC, &params()).unwrap();
    assert_eq!(out3.rules, out4.rules);
}

#[test]
fn empty_learning_set_gives_empty_rule_set() {
    let d = Dataset {
        learning_pos: Vec::new(),
        learning_neg: Vec::new(),
        testing_pos: Vec::new(),
        testing_neg: Vec::new(),
    };
    let rng = StdRng::seed_from_u64(1000);
    let out = run_core(rng, &d, &ACOAlgorithm::VertexAC, &params()).unwrap();
    assert_eq!(out.graph.n_vertex, 0);
    assert_eq!(out.rules.len(), 0);
}

#[test]
fn dataset_split_partitions_the_records() {
    let mut records = Vec::new();
    for i in 0..10 {
        let class = if i % 2 == 0 { "yes" } else { "no" };
        let size = if i < 5 { "small" } else { "large" };
        records.push(row(class, size, "red"));
    }
    let mut rng = StdRng::seed_from_u64(1000);
    let d = Dataset::new(&mut rng, records, &"yes".to_string(), 80);
    assert_eq!(d.learning_pos.len() + d.learning_neg.len(), 8);
    assert_eq!(
        d.learning_pos.len() + d.learning_neg.len() + d.testing_pos.len() + d.testing_neg.len(),
        10
    );
    for r in d.learning_pos.iter().chain(d.testing_pos.iter()) {
        assert_eq!(r.class, "yes");
    }
    for r in d.learning_neg.iter().chain(d.testing_neg.iter()) {
        assert_eq!(r.class, "no");
    }
    assert_eq!(d.learning_pos.len() + d.testing_pos.len(), 5);
    assert_eq!(d.learning_neg.len() + d.testing_neg.len(), 5);
}
