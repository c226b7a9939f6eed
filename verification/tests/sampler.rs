//! End-to-end tests of the two sampling strategies.

use dynamic_poisson_sampling::engine::sample_points;
use dynamic_poisson_sampling::get_2d_points_with_min_max;
use dynamic_poisson_sampling::get_points;
use dynamic_poisson_sampling::oracle::{ConstantOracle, TableOracle};
use dynamic_poisson_sampling::source::{ScriptedSource, ThreadSource};

/// A fixed pseudo-random script of raw words.
fn words(n: usize) -> Vec<u64> {
    let mut v = Vec::with_capacity(n);
    let mut x: u64 = 0x9e37_79b9_7f4a_7c15;
    for _ in 0..n {
        x = x.wrapping_mul(6364136223846793005).wrapping_add(1442695040888963407);
        v.push(x);
    }
    v
}

fn square_oracle(side: i64, radius: i64) -> ConstantOracle {
    ConstantOracle { low: vec![0, 0], high: vec![side, side], radius }
}

fn dist_sq(a: &[i64], b: &[i64]) -> i128 {
    a.iter()
        .zip(b.iter())
        .map(|(&x, &y)| {
            let d = (x - y) as i128;
            d * d
        })
        .sum()
}

#[test]
fn empty_seed_yields_empty_result() {
    let oracle = square_oracle(100, 10);
    for k in [0u32, 5, 20] {
        let mut rng = ScriptedSource::new(words(200));
        let pts = get_points(k, vec![-5, -5], &mut rng, &oracle);
        assert!(pts.is_empty());
    }
}

#[test]
fn empty_seed_yields_empty_result_grid() {
    let oracle = square_oracle(100, 10);
    let mut rng = ScriptedSource::new(words(200));
    let pts = get_2d_points_with_min_max(20, vec![200, 50], 10, 10, &mut rng, &oracle);
    assert!(pts.is_empty());
}

#[test]
fn zero_budget_returns_only_the_seed() {
    let oracle = square_oracle(100, 10);
    let mut rng = ScriptedSource::new(words(50));
    let pts = get_points(0, vec![50, 50], &mut rng, &oracle);
    assert_eq!(pts, vec![vec![50, 50]]);
}

#[test]
fn zero_budget_returns_only_the_seed_grid() {
    let oracle = square_oracle(100, 10);
    let mut rng = ScriptedSource::new(words(50));
    let pts = get_2d_points_with_min_max(0, vec![50, 50], 10, 10, &mut rng, &oracle);
    assert_eq!(pts, vec![vec![50, 50]]);
}

#[test]
fn zero_budget_with_empty_script_still_returns_the_seed() {
    let oracle = square_oracle(100, 10);
    let mut rng = ScriptedSource::new(Vec::new());
    let pts = get_points(0, vec![50, 50], &mut rng, &oracle);
    assert_eq!(pts, vec![vec![50, 50]]);
}

#[test]
fn separation_and_containment_hold() {
    let oracle = square_oracle(1000, 7);
    let mut rng = ScriptedSource::new(words(20_000));
    let pts = get_points(10, vec![500, 500], &mut rng, &oracle);
    assert!(pts.len() >= 2, "expected the run to accept more than the seed");
    for p in &pts {
        assert!(0 <= p[0] && p[0] < 1000 && 0 <= p[1] && p[1] < 1000);
    }
    for i in 0..pts.len() {
        for j in 0..pts.len() {
            if i != j {
                assert!(dist_sq(&pts[i], &pts[j]) >= 14 * 14);
            }
        }
    }
}

#[test]
fn radii_are_recorded_at_acceptance() {
    let oracle = square_oracle(1000, 7);
    let mut rng = ScriptedSource::new(words(20_000));
    let pts = sample_points(10, vec![500, 500], &mut rng, &oracle);
    assert!(!pts.is_empty());
    for p in &pts {
        assert_eq!(p.radius, 7);
    }
    for i in 0..pts.len() {
        for j in 0..pts.len() {
            if i != j {
                let need = (pts[i].radius + pts[j].radius) as i128;
                assert!(dist_sq(&pts[i].pos, &pts[j].pos) >= need * need);
            }
        }
    }
}

#[test]
fn identical_scripts_give_identical_runs() {
    let oracle = square_oracle(1000, 9);
    let script = words(10_000);
    let mut rng1 = ScriptedSource::new(script.clone());
    let mut rng2 = ScriptedSource::new(script);
    let a = get_points(15, vec![321, 654], &mut rng1, &oracle);
    let b = get_points(15, vec![321, 654], &mut rng2, &oracle);
    assert_eq!(a, b);
}

#[test]
fn grid_and_brute_force_agree() {
    let oracle = square_oracle(1000, 10);
    let script = words(20_000);
    let mut rng1 = ScriptedSource::new(script.clone());
    let mut rng2 = ScriptedSource::new(script);
    let brute = get_points(12, vec![400, 400], &mut rng1, &oracle);
    let grid = get_2d_points_with_min_max(12, vec![400, 400], 10, 10, &mut rng2, &oracle);
    assert_eq!(brute, grid);
    assert!(brute.len() >= 2);
}

#[test]
fn grid_and_brute_force_agree_with_varying_radii() {
    // Two tiles: a fine one on the left, a coarse one on the right; the
    // declared bounds cover both radii, so both strategies must agree.
    let oracle = TableOracle { width: 2, height: 1, cell: 500, radii: vec![20, 60] };
    let script = words(20_000);
    let mut rng1 = ScriptedSource::new(script.clone());
    let mut rng2 = ScriptedSource::new(script);
    let brute = get_points(12, vec![250, 250], &mut rng1, &oracle);
    let grid = get_2d_points_with_min_max(12, vec![250, 250], 20, 60, &mut rng2, &oracle);
    assert_eq!(brute, grid);
}

#[test]
fn small_radius_region_is_denser() {
    // Left tile demands a small exclusion radius, right tile a large one:
    // the left half must end up with clearly more points.
    let oracle = TableOracle { width: 2, height: 1, cell: 500, radii: vec![10, 100] };
    let mut rng = ScriptedSource::new(words(200_000));
    let pts = get_points(20, vec![250, 250], &mut rng, &oracle);
    let left = pts.iter().filter(|p| p[0] < 500).count();
    let right = pts.len() - left;
    assert!(left > right, "left {left} should outnumber right {right}");
}

#[test]
fn thread_source_run_keeps_separation() {
    let oracle = square_oracle(500, 25);
    let mut rng = ThreadSource::new(100_000);
    let pts = sample_points(10, vec![250, 250], &mut rng, &oracle);
    assert!(!pts.is_empty());
    for p in &pts {
        assert!(0 <= p.pos[0] && p.pos[0] < 500 && 0 <= p.pos[1] && p.pos[1] < 500);
        assert_eq!(p.radius, 25);
    }
    for i in 0..pts.len() {
        for j in 0..pts.len() {
            if i != j {
                assert!(dist_sq(&pts[i].pos, &pts[j].pos) >= 50 * 50);
            }
        }
    }
}

#[test]
fn three_dimensional_run_keeps_separation() {
    let oracle = ConstantOracle { low: vec![0, 0, 0], high: vec![300, 300, 300], radius: 40 };
    let mut rng = ScriptedSource::new(words(30_000));
    let pts = get_points(8, vec![150, 150, 150], &mut rng, &oracle);
    assert!(!pts.is_empty());
    for p in &pts {
        assert_eq!(p.len(), 3);
    }
    for i in 0..pts.len() {
        for j in 0..pts.len() {
            if i != j {
                assert!(dist_sq(&pts[i], &pts[j]) >= 80 * 80);
            }
        }
    }
}

#[test]
fn non_positive_radius_counts_as_rejection() {
    let oracle = square_oracle(100, 0);
    let mut rng = ScriptedSource::new(words(100));
    let pts = get_points(10, vec![50, 50], &mut rng, &oracle);
    assert!(pts.is_empty());
}

#[test]
fn oversized_radius_counts_as_rejection() {
    // Beyond the sampler's radius limit: treated as a rejection.
    let oracle = square_oracle(100, 2_000_000_000);
    let mut rng = ScriptedSource::new(words(100));
    let pts = get_points(10, vec![50, 50], &mut rng, &oracle);
    assert!(pts.is_empty());
}

#[test]
fn run_near_the_coordinate_limit_stays_in_bounds() {
    let limit: i64 = 1_000_000_000;
    let oracle = ConstantOracle {
        low: vec![limit - 100, limit - 100],
        high: vec![limit + 100, limit + 100],
        radius: 10,
    };
    let mut rng = ScriptedSource::new(words(10_000));
    let pts = get_points(10, vec![limit - 50, limit - 50], &mut rng, &oracle);
    assert!(!pts.is_empty());
    for p in &pts {
        // Candidates past the sampler's fixed box are discarded even though
        // the oracle's own box reaches further.
        assert!(p[0] <= limit && p[1] <= limit);
        assert!(p[0] >= limit - 100 && p[1] >= limit - 100);
    }
}

#[test]
fn negative_coordinate_domain_is_sampled() {
    let oracle = ConstantOracle { low: vec![-500, -500], high: vec![0, 0], radius: 30 };
    let mut rng = ScriptedSource::new(words(10_000));
    let pts = get_points(10, vec![-250, -250], &mut rng, &oracle);
    assert!(pts.len() >= 2);
    for p in &pts {
        assert!(-500 <= p[0] && p[0] < 0 && -500 <= p[1] && p[1] < 0);
    }
    for i in 0..pts.len() {
        for j in 0..pts.len() {
            if i != j {
                assert!(dist_sq(&pts[i], &pts[j]) >= 60 * 60);
            }
        }
    }
}

#[test]
fn grid_handles_negative_coordinates_like_brute_force() {
    let oracle = ConstantOracle { low: vec![-300, -300], high: vec![300, 300], radius: 25 };
    let script = words(20_000);
    let mut rng1 = ScriptedSource::new(script.clone());
    let mut rng2 = ScriptedSource::new(script);
    let brute = get_points(12, vec![0, 0], &mut rng1, &oracle);
    let grid = get_2d_points_with_min_max(12, vec![0, 0], 25, 25, &mut rng2, &oracle);
    assert_eq!(brute, grid);
}
