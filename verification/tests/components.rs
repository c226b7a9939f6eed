//! Tests of the sampler's building blocks: geometry, oracles, and the
//! scripted random source.

use dynamic_poisson_sampling::geometry::{distance_squared, in_bounds_vec, separated};
use dynamic_poisson_sampling::oracle::{ConstantOracle, DensityOracle, TableOracle};
use dynamic_poisson_sampling::source::{RandomSource, ScriptedSource};

#[test]
fn distance_squared_is_exact() {
    assert_eq!(distance_squared(&vec![0, 0], &vec![3, 4]), 25);
    assert_eq!(distance_squared(&vec![5], &vec![5]), 0);
    assert_eq!(distance_squared(&vec![-2, 7, 1], &vec![2, 4, 1]), 25);
    assert_eq!(distance_squared(&vec![], &vec![]), 0);
}

#[test]
fn separated_uses_strict_violation() {
    // Distance exactly equal to the radius sum is acceptable.
    assert!(separated(&vec![0, 0], 3, &vec![10, 0], 7));
    // One closer step violates the exclusion rule.
    assert!(!separated(&vec![0, 0], 3, &vec![9, 0], 7));
}

#[test]
fn bounds_check_matches_the_limit() {
    assert!(in_bounds_vec(&vec![0, 1_000_000_000, -1_000_000_000]));
    assert!(!in_bounds_vec(&vec![0, 1_000_000_001]));
    assert!(!in_bounds_vec(&vec![-1_000_000_001]));
}

#[test]
fn constant_oracle_answers_inside_its_box() {
    let oracle = ConstantOracle { low: vec![0, 0], high: vec![100, 50], radius: 8 };
    assert_eq!(oracle.eval(&vec![0, 0]), Some(8));
    assert_eq!(oracle.eval(&vec![99, 49]), Some(8));
    assert_eq!(oracle.eval(&vec![100, 10]), None);
    assert_eq!(oracle.eval(&vec![10, -1]), None);
    assert_eq!(oracle.eval(&vec![10]), None);
    assert_eq!(oracle.eval(&vec![10, 10, 10]), None);
}

#[test]
fn table_oracle_reads_its_tiles() {
    let oracle = TableOracle { width: 2, height: 2, cell: 10, radii: vec![3, 0, 5, 9] };
    // Tile (row 0, column 0) holds 3; (row 0, column 1) holds 0 = reject.
    assert_eq!(oracle.eval(&vec![0, 0]), Some(3));
    assert_eq!(oracle.eval(&vec![9, 9]), Some(3));
    assert_eq!(oracle.eval(&vec![10, 0]), None);
    // Second row: 5 then 9.
    assert_eq!(oracle.eval(&vec![5, 15]), Some(5));
    assert_eq!(oracle.eval(&vec![15, 15]), Some(9));
    // Outside the domain.
    assert_eq!(oracle.eval(&vec![20, 5]), None);
    assert_eq!(oracle.eval(&vec![-1, 5]), None);
    assert_eq!(oracle.eval(&vec![5, 20]), None);
}

#[test]
fn malformed_table_rejects_everything() {
    let oracle = TableOracle { width: 2, height: 2, cell: 10, radii: vec![3, 3] };
    assert_eq!(oracle.eval(&vec![5, 5]), None);
}

#[test]
fn scripted_picks_follow_the_script() {
    let mut rng = ScriptedSource::new(vec![5, 7, 100]);
    assert_eq!(rng.pick_index(3), 2);  // 5 % 3
    assert_eq!(rng.pick_index(4), 3);  // 7 % 4
    assert_eq!(rng.pick_index(9), 1);  // 100 % 9
    // Exhausted: draws are zero.
    assert_eq!(rng.pick_index(8), 0);
}

#[test]
fn scripted_offsets_follow_the_decoding() {
    let mut rng = ScriptedSource::new(vec![10, 6]);
    // Each coordinate is word % (2 * max + 1) - max.
    let v = rng.offset_vector(2, 1, 3);
    assert_eq!(v, vec![10 % 7 - 3, 6 % 7 - 3]);
    // Exhausted: coordinates are -max.
    let w = rng.offset_vector(2, 1, 5);
    assert_eq!(w, vec![-5, -5]);
}

#[test]
fn scripted_source_counts_its_words() {
    let rng = ScriptedSource::new(vec![1, 2, 3]);
    assert!(rng.has_words(3));
    assert!(!rng.has_words(4));
    let mut rng = rng;
    rng.pick_index(10);
    assert!(rng.has_words(2));
    assert!(!rng.has_words(3));
}
