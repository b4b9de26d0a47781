use oqat::aco::ACOAlgorithm;
use oqat::config::Algorithm;
use oqat::config::Config;
use oqat::config::parse_u64;

fn words(ws: &[&str]) -> Vec<String> {
    ws.iter().map(|s| s.to_string()).collect()
}

#[test]
fn parse_u64_reads_decimal_words() {
    assert_eq!(parse_u64(&"0".to_string()), Some(0));
    assert_eq!(parse_u64(&"123".to_string()), Some(123));
    assert_eq!(parse_u64(&"18446744073709551615".to_string()), Some(u64::MAX));
    assert_eq!(parse_u64(&"18446744073709551616".to_string()), None);
    assert_eq!(parse_u64(&"".to_string()), None);
    assert_eq!(parse_u64(&"12a".to_string()), None);
    assert_eq!(parse_u64(&"-3".to_string()), None);
}

#[test]
fn too_few_words_are_refused() {
    assert_eq!(Config::new(&words(&["oqat"])).unwrap_err(), "Not enough arguments");
    assert_eq!(
        Config::new(&words(&["oqat", "run", "d.csv"])).unwrap_err(),
        "Not enough arguments"
    );
}

#[test]
fn help_is_recognized() {
    for h in ["help", "-h", "--help"] {
        let c = Config::new(&words(&["oqat", h])).unwrap();
        assert!(matches!(c, Config::Help()));
    }
}

#[test]
fn unknown_command_is_refused() {
    assert_eq!(Config::new(&words(&["oqat", "walk"])).unwrap_err(), "Invalid argument");
}

#[test]
fn unknown_algorithm_is_refused() {
    let args = words(&["oqat", "run", "d.csv", "class", "yes", "80", "greedy"]);
    assert_eq!(Config::new(&args).unwrap_err(), "Algorithm not found");
}

#[test]
fn malformed_number_is_refused() {
    let args = words(&[
        "oqat", "run", "d.csv", "class", "yes", "80", "vertex-ac", "3", "five", "2", "300",
        "1000", "1",
    ]);
    assert_eq!(Config::new(&args).unwrap_err(), "Invalid argument");
}

#[test]
fn invalid_parameters_are_refused() {
    // tau_min is not below tau_max.
    let args = words(&[
        "oqat", "run", "d.csv", "class", "yes", "80", "vertex-ac", "3", "5", "2", "300", "1",
        "1000",
    ]);
    assert_eq!(Config::new(&args).unwrap_err(), "Configuration invalid");
}

#[test]
fn a_full_run_command_parses() {
    let args = words(&[
        "oqat", "run", "d.csv", "class", "yes", "80", "edge-ac", "3", "5", "2", "300", "1000",
        "1",
    ]);
    let c = Config::new(&args).unwrap();
    match c {
        Config::Run(dataset, class_column, positive_class, learning_frac, alg) => {
            assert_eq!(dataset, "d.csv");
            assert_eq!(class_column, "class");
            assert_eq!(positive_class, "yes");
            assert_eq!(learning_frac, 80);
            let Algorithm::Ants(variant, p) = *alg;
            assert_eq!(variant, ACOAlgorithm::EdgeAC);
            assert_eq!(p.ants_per_generation, 3);
            assert_eq!(p.generations, 5);
            assert_eq!(p.alpha, 2);
            assert_eq!(p.rho_permille, 300);
            assert_eq!(p.tau_max, 1000);
            assert_eq!(p.tau_min, 1);
        }
        _ => panic!("expected a run configuration"),
    }
}
