//! The run configuration and its command line shape.
//!
//! The command line is a list of words: a command (`help` or `run`) and,
//! for a run, the dataset path, the class column, the positive class, the
//! learning percentage, the search variant and the six numeric engine
//! parameters, all as decimal integers (the evaporation rate in
//! thousandths).  Parsing is total: every malformed input maps to one of
//! four error messages, and a well-formed input to the parsed
//! configuration.

use vstd::prelude::*;

use crate::aco::ACOAlgorithm;
use crate::aco::ACOParameters;

verus! {

/// What to run: nothing but usage help, or one induction run over a
/// dataset with a class column, a positive class label, a learning
/// percentage and an algorithm.
#[derive(Debug)]
pub enum Config {
    Help(),
    Run(String, String, String, usize, Box<Algorithm>),
}

/// The algorithm of a run: an ant colony search with its configuration.
#[derive(Debug)]
pub enum Algorithm {
    Ants(ACOAlgorithm, ACOParameters),
}

/// Whether every byte is a decimal digit, and there is at least one.
pub open spec fn all_digits(bs: Seq<u8>) -> bool {
    bs.len() >= 1 && forall|i: int| 0 <= i < bs.len() ==> 48 <= #[trigger] bs[i] <= 57
}

/// The number the digit bytes denote.
pub open spec fn digits_val(bs: Seq<u8>) -> int
    decreases bs.len(),
{
    if bs.len() == 0 {
        0
    } else {
        digits_val(bs.drop_last()) * 10 + (bs.last() - 48)
    }
}

/// The number a word denotes: its digits' value, if the word is all
/// digits and the value fits.
pub open spec fn spec_parse_u64(bs: Seq<u8>) -> Option<u64> {
    if all_digits(bs) && digits_val(bs) <= u64::MAX {
        Some(digits_val(bs) as u64)
    } else {
        None
    }
}

/// The value of a digit string is never negative.
proof fn lemma_digits_val_nonneg(bs: Seq<u8>)
    requires
        forall|i: int| 0 <= i < bs.len() ==> 48 <= #[trigger] bs[i] <= 57,
    ensures
        digits_val(bs) >= 0,
    decreases bs.len(),
{
    if bs.len() > 0 {
        lemma_digits_val_nonneg(bs.drop_last());
    }
}

/// The value of a digit string only grows with its prefixes.
proof fn lemma_digits_val_prefix_le(bs: Seq<u8>, i: int)
    requires
        forall|j: int| 0 <= j < bs.len() ==> 48 <= #[trigger] bs[j] <= 57,
        0 <= i <= bs.len(),
    ensures
        digits_val(bs.take(i)) <= digits_val(bs),
    decreases bs.len() - i,
{
    if i < bs.len() {
        lemma_digits_val_prefix_le(bs, i + 1);
        assert(bs.take(i + 1).drop_last() =~= bs.take(i));
        assert(digits_val(bs.take(i + 1)) == digits_val(bs.take(i)) * 10 + (bs[i] - 48));
        lemma_digits_val_nonneg(bs.take(i));
        assert(digits_val(bs.take(i)) <= digits_val(bs.take(i)) * 10) by (nonlinear_arith)
            requires
                digits_val(bs.take(i)) >= 0,
        ;
    } else {
        assert(bs.take(i) =~= bs);
    }
}

/// Reads a decimal number from a word: the digits' value, or nothing when
/// a byte is no digit, the word is empty, or the value does not fit.
pub fn parse_u64(s: &String) -> (r: Option<u64>)
    ensures
        r == spec_parse_u64(vstd::utf8::encode_utf8(s@)),
{
    let bytes: &[u8] = s.as_str().as_bytes();
    let ghost bs = vstd::utf8::encode_utf8(s@);
    assert(bytes@ == bs);
    if bytes.len() == 0 {
        return None;
    }
    let mut acc: u64 = 0;
    let mut i: usize = 0;
    while i < bytes.len()
        invariant
            bytes@ == bs,
            bs == vstd::utf8::encode_utf8(s@),
            0 <= i <= bs.len(),
            forall|j: int| 0 <= j < i ==> 48 <= #[trigger] bs[j] <= 57,
            acc == digits_val(bs.take(i as int)),
        decreases bs.len() - i,
    {
        let b: u8 = bytes[i];
        if b < 48 || b > 57 {
            assert(!(48 <= bs[i as int] <= 57));
            return None;
        }
        let d: u64 = (b - 48) as u64;
        proof {
            assert(bs.take(i + 1).drop_last() =~= bs.take(i as int));
            assert(digits_val(bs.take(i + 1)) == digits_val(bs.take(i as int)) * 10 + (
            bs[i as int] - 48));
        }
        let stepped: Option<u64> = acc.checked_mul(10);
        match stepped {
            Some(x) => {
                let added: Option<u64> = x.checked_add(d);
                match added {
                    Some(y) => {
                        acc = y;
                    },
                    None => {
                        proof {
                            assert(x + d > u64::MAX);
                            lemma_digits_val_nonneg(bs.take(i as int));
                            assert(digits_val(bs.take(i + 1)) > u64::MAX);
                            lemma_big_prefix(bs, i + 1);
                        }
                        return None;
                    },
                }
            },
            None => {
                proof {
                    assert(acc * 10 > u64::MAX);
                    assert(digits_val(bs.take(i + 1)) >= digits_val(bs.take(i as int)) * 10);
                    lemma_big_prefix(bs, i + 1);
                }
                return None;
            },
        }
        i = i + 1;
    }
    assert(bs.take(i as int) =~= bs);
    Some(acc)
}

/// A prefix whose value does not fit dooms the whole word, whatever the
/// remaining bytes hold.
proof fn lemma_big_prefix(bs: Seq<u8>, i: int)
    requires
        0 <= i <= bs.len(),
        digits_val(bs.take(i)) > u64::MAX,
    ensures
        spec_parse_u64(bs) is None,
{
    if all_digits(bs) {
        lemma_digits_val_prefix_le(bs, i);
    }
}

/// Whether the word asks for usage help.
pub open spec fn is_help_word(a: Seq<char>) -> bool {
    a == "help"@ || a == "-h"@ || a == "--help"@
}

/// The search variant a word names.
pub open spec fn algo_of_word(a: Seq<char>) -> Option<ACOAlgorithm> {
    if a == "vertex-ac"@ {
        Some(ACOAlgorithm::VertexAC)
    } else if a == "edge-ac"@ {
        Some(ACOAlgorithm::EdgeAC)
    } else {
        None
    }
}

/// The number the `i`-th word denotes.
pub open spec fn arg_num(args: Seq<String>, i: int) -> Option<u64> {
    spec_parse_u64(vstd::utf8::encode_utf8(args[i]@))
}

/// Whether the six numeric words of a run command all denote numbers that
/// fit their parameters.
pub open spec fn run_nums_ok(args: Seq<String>) -> bool {
    &&& arg_num(args, 5) matches Some(v) && v <= usize::MAX
    &&& arg_num(args, 7) matches Some(v) && v <= usize::MAX
    &&& arg_num(args, 8) matches Some(v) && v <= usize::MAX
    &&& arg_num(args, 9) matches Some(v) && v <= u32::MAX
    &&& arg_num(args, 10) matches Some(v) && v <= u32::MAX
    &&& arg_num(args, 11) is Some
    &&& arg_num(args, 12) is Some
}

/// The engine configuration the numeric words denote.
pub open spec fn run_params(args: Seq<String>) -> ACOParameters {
    ACOParameters {
        generations: arg_num(args, 8)->Some_0 as usize,
        ants_per_generation: arg_num(args, 7)->Some_0 as usize,
        alpha: arg_num(args, 9)->Some_0 as u32,
        rho_permille: arg_num(args, 10)->Some_0 as u32,
        tau_max: arg_num(args, 11)->Some_0,
        tau_min: arg_num(args, 12)->Some_0,
    }
}

impl Config {
    /// Reads a configuration from the command words: `help` (or `-h`,
    /// `--help`), or `run` followed by the dataset path, the class
    /// column, the positive class, the learning percentage, the variant
    /// name and the six engine numbers.  Exactly the malformed inputs are
    /// rejected, each with the message naming what is wrong.
    pub fn new(args: &Vec<String>) -> (r: Result<Config, &'static str>)
        ensures
            args@.len() < 2 ==> (r matches Err(e) && e@ == "Not enough arguments"@),
            args@.len() >= 2 && is_help_word(args@[1]@) ==> (r matches Ok(c) && c is Help),
            args@.len() >= 2 && !is_help_word(args@[1]@) && args@[1]@ != "run"@ ==> (r matches Err(
                e,
            ) && e@ == "Invalid argument"@),
            args@.len() >= 2 && args@[1]@ == "run"@ && args@.len() < 7 ==> (r matches Err(e) && e@
                == "Not enough arguments"@),
            args@.len() >= 7 && args@[1]@ == "run"@ && algo_of_word(args@[6]@) is None ==> (
            r matches Err(e) && e@ == "Algorithm not found"@),
            args@.len() >= 7 && args@[1]@ == "run"@ && algo_of_word(args@[6]@) is Some
                && args@.len() < 13 ==> (r matches Err(e) && e@ == "Not enough arguments"@),
            args@.len() >= 13 && args@[1]@ == "run"@ && algo_of_word(args@[6]@) is Some
                && !run_nums_ok(args@) ==> (r matches Err(e) && e@ == "Invalid argument"@),
            args@.len() >= 13 && args@[1]@ == "run"@ && algo_of_word(args@[6]@) is Some
                && run_nums_ok(args@) && !run_params(args@).valid() ==> (r matches Err(e) && e@
                == "Configuration invalid"@),
            args@.len() >= 13 && args@[1]@ == "run"@ && algo_of_word(args@[6]@) is Some
                && run_nums_ok(args@) && run_params(args@).valid() ==> (r matches Ok(c) && (
            c matches Config::Run(dataset, class_column, positive_class, learning_frac, alg) && ((
            *alg) matches Algorithm::Ants(variant, params) && (dataset@ == args@[2]@
                && class_column@ == args@[3]@ && positive_class@ == args@[4]@ && learning_frac
                == arg_num(args@, 5)->Some_0 as usize && Some(variant) == algo_of_word(args@[6]@)
                && params == run_params(args@))))),
    {
        if args.len() < 2 {
            return Err("Not enough arguments");
        }
        let cmd: &String = &args[1];
        proof {
            reveal_strlit("help");
            reveal_strlit("-h");
            reveal_strlit("--help");
            reveal_strlit("run");
        }
        if cmd.eq(&"help".to_owned()) || cmd.eq(&"-h".to_owned()) || cmd.eq(&"--help".to_owned()) {
            proof {
                assert("help"@.len() == 4 && "-h"@.len() == 2 && "--help"@.len() == 6 && "run"@.len()
                    == 3);
                assert(args@[1]@ != "run"@);
            }
            return Ok(Config::Help());
        }
        if !cmd.eq(&"run".to_owned()) {
            return Err("Invalid argument");
        }
        if args.len() < 7 {
            return Err("Not enough arguments");
        }
        let algo_word: &String = &args[6];
        let variant: ACOAlgorithm = if algo_word.eq(&"vertex-ac".to_owned()) {
            ACOAlgorithm::VertexAC
        } else if algo_word.eq(&"edge-ac".to_owned()) {
            ACOAlgorithm::EdgeAC
        } else {
            return Err("Algorithm not found");
        };
        if args.len() < 13 {
            return Err("Not enough arguments");
        }
        let learning_frac_num: Option<u64> = parse_u64(&args[5]);
        let ants_num: Option<u64> = parse_u64(&args[7]);
        let gens_num: Option<u64> = parse_u64(&args[8]);
        let alpha_num: Option<u64> = parse_u64(&args[9]);
        let rho_num: Option<u64> = parse_u64(&args[10]);
        let tau_max_num: Option<u64> = parse_u64(&args[11]);
        let tau_min_num: Option<u64> = parse_u64(&args[12]);
        let ok: bool = match (learning_frac_num, ants_num, gens_num) {
            (Some(lf), Some(an), Some(ge)) => lf <= usize::MAX as u64 && an <= usize::MAX as u64
                && ge <= usize::MAX as u64,
            _ => false,
        } && match (alpha_num, rho_num) {
            (Some(al), Some(rh)) => al <= u32::MAX as u64 && rh <= u32::MAX as u64,
            _ => false,
        } && tau_max_num.is_some() && tau_min_num.is_some();
        if !ok {
            return Err("Invalid argument");
        }
        let learning_frac: usize = learning_frac_num.unwrap() as usize;
        let parameters: ACOParameters = ACOParameters {
            generations: gens_num.unwrap() as usize,
            ants_per_generation: ants_num.unwrap() as usize,
            alpha: alpha_num.unwrap() as u32,
            rho_permille: rho_num.unwrap() as u32,
            tau_max: tau_max_num.unwrap(),
            tau_min: tau_min_num.unwrap(),
        };
        assert(parameters == run_params(args@));
        if !parameters.is_valid() {
            return Err("Configuration invalid");
        }
        let dataset: String = args[2].clone();
        let class_column: String = args[3].clone();
        let positive_class: String = args[4].clone();
        Ok(
            Config::Run(
                dataset,
                class_column,
                positive_class,
                learning_frac,
                Box::new(Algorithm::Ants(variant, parameters)),
            ),
        )
    }
}

} // verus!
