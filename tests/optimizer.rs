use panolution::config::default_config;
use panolution::engine::EngineError;
use panolution::optimizer::{carry_forward, create_image_arrangement, identity_solution, optimize, SeedError};
use panolution::raster::Raster;
use panolution::solution::{ImageArrangement, Solution};

fn flat(source_id: u64, w: u32, h: u32, v: u8) -> Raster {
    Raster { source_id, path: format!("f{}.png", source_id), width: w, height: h, data: vec![v; (w * h * 3) as usize] }
}

#[test]
fn identity_seed() {
    let rasters = vec![flat(4, 2, 2, 1), flat(8, 3, 3, 2)];
    let s = identity_solution(&rasters, 33);
    assert_eq!(s.arrangement, vec![create_image_arrangement(0, 33), create_image_arrangement(1, 33)]);
    assert_eq!(s.arrangement[1], ImageArrangement { image: 1, samples: 33, x0: 0, y0: 0, angle: 0 });
}

#[test]
fn carry_by_identity_and_rescale() {
    let prev_rasters = vec![flat(10, 4, 4, 0), flat(20, 4, 4, 0)];
    let prev = Solution {
        arrangement: vec![
            ImageArrangement { image: 0, samples: 5, x0: 3, y0: 4, angle: 100 },
            ImageArrangement { image: 1, samples: 5, x0: 7, y0: 1, angle: 200 },
        ],
    };
    let rasters = vec![flat(20, 8, 8, 0), flat(10, 8, 8, 0)];
    let s = carry_forward(&prev, &prev_rasters, &rasters, 50, 25, 50).unwrap();
    assert_eq!(
        s.arrangement,
        vec![
            ImageArrangement { image: 0, samples: 50, x0: 14, y0: 2, angle: 200 },
            ImageArrangement { image: 1, samples: 50, x0: 6, y0: 8, angle: 100 },
        ]
    );
}

#[test]
fn carry_errors() {
    let prev_rasters = vec![flat(10, 4, 4, 0)];
    let prev = Solution { arrangement: vec![ImageArrangement { image: 0, samples: 5, x0: 3, y0: 4, angle: 0 }] };
    let rasters = vec![flat(10, 8, 8, 0), flat(30, 8, 8, 0)];
    assert_eq!(carry_forward(&prev, &prev_rasters, &rasters, 5, 25, 50).unwrap_err(), SeedError::MissingImage(30));
    assert_eq!(carry_forward(&prev, &prev_rasters, &rasters, 5, 0, 50).unwrap_err(), SeedError::ZeroScale);
}

#[test]
fn optimize_unknown_tier() {
    let c = default_config();
    let rasters = vec![flat(0, 4, 4, 0), flat(1, 4, 4, 0)];
    assert_eq!(optimize(None, &vec![], &rasters, &c, 3).unwrap_err(), SeedError::NoSuchTier(3));
}

#[test]
fn optimize_with_no_islands_returns_seed() {
    let mut c = default_config();
    c.num_of_islands = 0;
    let rasters = vec![flat(0, 4, 4, 0), flat(1, 4, 4, 0)];
    let run = optimize(None, &vec![], &rasters, &c, 0).unwrap();
    assert_eq!(run.warning, Some(EngineError::NoIslands));
    assert_eq!(run.solution.arrangement, identity_solution(&rasters, 500).arrangement);
}

#[test]
fn optimize_two_tiers() {
    let mut c = default_config();
    c.num_of_islands = 2;
    c.population_size = 4;
    c.max_iteration = 5;
    c.num_of_samples = vec![40, 60];
    c.scale_factors = vec![50, 100];
    let small = vec![flat(0, 5, 5, 10), flat(1, 5, 5, 200)];
    let run = optimize(None, &vec![], &small, &c, 0).unwrap();
    assert_eq!(run.warning, None);
    assert!(run.fitness <= run.start_fitness);
    let full = vec![flat(1, 10, 10, 200), flat(0, 10, 10, 10)];
    let next = optimize(Some(&run.solution), &small, &full, &c, 1).unwrap();
    assert_eq!(next.warning, None);
    assert_eq!(next.solution.arrangement.len(), 2);
    assert_eq!(next.solution.arrangement[0].samples, 60);
}
