use oqat::attr_sets::AttributeValuesSet;
use oqat::attr_sets::AttributeValuesSetList;
use oqat::graph::Graph;
use rand::SeedableRng;
use rand::rngs::StdRng;

fn empty_clause_values() -> AttributeValuesSetList {
    AttributeValuesSetList {
        list: vec![
            AttributeValuesSet::Num("color".to_string(), Vec::new()),
            AttributeValuesSet::Cat("size".to_string(), Vec::new()),
        ],
    }
}

fn sorted_neighbors(graph: &Graph, vertex: usize) -> Vec<usize> {
    let mut n = graph.get_neighbor_candidates(vertex);
    n.sort();
    n
}

#[test]
fn graph_test_graph_new() {
    let rng = StdRng::seed_from_u64(1000);
    let mut graph = Graph::new(rng, 5);

    let clause_values = empty_clause_values();

    graph.add_edge(0, 1, &clause_values);
    graph.add_edge(0, 3, &clause_values);
    graph.add_edge(1, 3, &clause_values);
    graph.add_edge(1, 4, &clause_values);
    graph.add_edge(2, 4, &clause_values);

    assert_eq!(graph.is_edge(0, 1), true);
    assert_eq!(graph.is_edge(0, 3), true);
    assert_eq!(graph.is_edge(1, 3), true);
    assert_eq!(graph.is_edge(1, 4), true);
    assert_eq!(graph.is_edge(2, 4), true);

    assert_eq!(graph.is_edge(1, 0), true);
    assert_eq!(graph.is_edge(3, 0), true);
    assert_eq!(graph.is_edge(3, 1), true);
    assert_eq!(graph.is_edge(4, 1), true);
    assert_eq!(graph.is_edge(4, 2), true);

    assert_eq!(graph.is_edge(0, 0), false);
    assert_eq!(graph.is_edge(1, 1), false);

    assert_eq!(graph.get_neighbor_candidates(0).len(), 2);
    assert_eq!(sorted_neighbors(&graph, 0), vec![1, 3]);
}

#[test]
fn unit_tests_test_graph_new() {
    let rng = StdRng::seed_from_u64(1000);
    let mut graph = Graph::new(rng, 5);

    let clause_values = empty_clause_values();

    graph.add_edge(0, 1, &clause_values);
    graph.add_edge(0, 3, &clause_values);
    graph.add_edge(1, 3, &clause_values);
    graph.add_edge(1, 4, &clause_values);
    graph.add_edge(2, 4, &clause_values);

    assert_eq!(graph.is_edge(0, 1), true);
    assert_eq!(graph.is_edge(0, 3), true);
    assert_eq!(graph.is_edge(1, 3), true);
    assert_eq!(graph.is_edge(1, 4), true);
    assert_eq!(graph.is_edge(2, 4), true);

    assert_eq!(graph.is_edge(1, 0), true);
    assert_eq!(graph.is_edge(3, 0), true);
    assert_eq!(graph.is_edge(3, 1), true);
    assert_eq!(graph.is_edge(4, 1), true);
    assert_eq!(graph.is_edge(4, 2), true);

    assert_eq!(graph.is_edge(0, 0), false);
    assert_eq!(graph.is_edge(1, 1), false);

    assert_eq!(graph.get_neighbor_candidates(0).len(), 2);
    assert_eq!(sorted_neighbors(&graph, 0), vec![1, 3]);
}

#[test]
fn graph_test_graph_select_random_vertex() {
    let rng = StdRng::seed_from_u64(1000);
    let mut graph = Graph::new(rng, 5);

    let options = [0usize, 1, 2, 3, 4];
    let mut random_vertex = graph.select_random_vertex();
    assert!(options.contains(&random_vertex));

    random_vertex = graph.select_random_vertex();
    assert!(options.contains(&random_vertex));

    random_vertex = graph.select_random_vertex();
    assert!(options.contains(&random_vertex));
}

#[test]
fn unit_tests_test_graph_select_random_vertex() {
    let rng = StdRng::seed_from_u64(1000);
    let mut graph = Graph::new(rng, 5);

    let options = [0usize, 1, 2, 3, 4];
    let mut random_vertex = graph.select_random_vertex();
    assert!(options.contains(&random_vertex));

    random_vertex = graph.select_random_vertex();
    assert!(options.contains(&random_vertex));

    random_vertex = graph.select_random_vertex();
    assert!(options.contains(&random_vertex));
}

#[test]
fn graph_test_graph_get_neighbor_candidates() {
    let rng = StdRng::seed_from_u64(1000);
    let mut graph = Graph::new(rng, 5);

    let clause_values = empty_clause_values();

    graph.add_edge(0, 1, &clause_values);
    graph.add_edge(0, 2, &clause_values);
    graph.add_edge(0, 3, &clause_values);
    graph.add_edge(1, 3, &clause_values);
    graph.add_edge(1, 4, &clause_values);
    graph.add_edge(2, 3, &clause_values);
    graph.add_edge(2, 4, &clause_values);
    graph.add_edge(3, 4, &clause_values);

    assert_eq!(graph.get_neighbor_candidates(0).len(), 3);
    assert_eq!(sorted_neighbors(&graph, 0), vec![1, 2, 3]);

    assert_eq!(graph.get_neighbor_candidates(1).len(), 3);
    assert_eq!(sorted_neighbors(&graph, 1), vec![0, 3, 4]);

    assert_eq!(graph.get_neighbor_candidates(2).len(), 3);
    assert_eq!(sorted_neighbors(&graph, 2), vec![0, 3, 4]);

    assert_eq!(graph.get_neighbor_candidates(3).len(), 4);
    assert_eq!(sorted_neighbors(&graph, 3), vec![0, 1, 2, 4]);

    assert_eq!(graph.get_neighbor_candidates(4).len(), 3);
    assert_eq!(sorted_neighbors(&graph, 4), vec![1, 2, 3]);
}

#[test]
fn unit_tests_test_graph_get_neighbor_candidates() {
    let rng = StdRng::seed_from_u64(1000);
    let mut graph = Graph::new(rng, 5);

    let clause_values = empty_clause_values();

    graph.add_edge(0, 1, &clause_values);
    graph.add_edge(0, 2, &clause_values);
    graph.add_edge(0, 3, &clause_values);
    graph.add_edge(1, 3, &clause_values);
    graph.add_edge(1, 4, &clause_values);
    graph.add_edge(2, 3, &clause_values);
    graph.add_edge(2, 4, &clause_values);
    graph.add_edge(3, 4, &clause_values);

    assert_eq!(graph.get_neighbor_candidates(0).len(), 3);
    assert_eq!(sorted_neighbors(&graph, 0), vec![1, 2, 3]);

    assert_eq!(graph.get_neighbor_candidates(1).len(), 3);
    assert_eq!(sorted_neighbors(&graph, 1), vec![0, 3, 4]);

    assert_eq!(graph.get_neighbor_candidates(2).len(), 3);
    assert_eq!(sorted_neighbors(&graph, 2), vec![0, 3, 4]);

    assert_eq!(graph.get_neighbor_candidates(3).len(), 4);
    assert_eq!(sorted_neighbors(&graph, 3), vec![0, 1, 2, 4]);

    assert_eq!(graph.get_neighbor_candidates(4).len(), 3);
    assert_eq!(sorted_neighbors(&graph, 4), vec![1, 2, 3]);
}

#[test]
fn availability_shrinks_and_never_grows() {
    let rng = StdRng::seed_from_u64(1000);
    let mut graph = Graph::new(rng, 5);
    assert_eq!(graph.available_vertex.len(), 5);

    graph.remove_vertex_set_from_available(&vec![1, 3]);
    let mut left = graph.available_vertex.clone();
    left.sort();
    assert_eq!(left, vec![0, 2, 4]);

    graph.remove_vertex_set_from_available(&vec![1, 3]);
    assert_eq!(graph.available_vertex.len(), 3);

    graph.remove_vertex_set_from_available(&vec![0, 2, 4]);
    assert_eq!(graph.available_vertex.len(), 0);
}
