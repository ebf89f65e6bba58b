use panolution::engine::{make_all_populations, run_darwin, run_island, EngineConfig, EngineError, Island, Scored};
use panolution::fitness::FitnessError;
use panolution::raster::Raster;
use panolution::solution::{ImageArrangement, Solution};

fn striped(source_id: u64, w: u32, h: u32, offset: u32) -> Raster {
    let mut data = Vec::new();
    for _y in 0..h {
        for x in 0..w {
            let v = (((x + offset) * 37) % 256) as u8;
            data.push(v);
            data.push(v / 2);
            data.push(255 - v);
        }
    }
    Raster { source_id, path: format!("s{}.png", source_id), width: w, height: h, data }
}

fn pair() -> (Vec<Raster>, Solution) {
    let rasters = vec![striped(0, 16, 12, 0), striped(1, 16, 12, 6)];
    let sol = Solution {
        arrangement: vec![
            ImageArrangement { image: 0, samples: 60, x0: 0, y0: 0, angle: 0 },
            ImageArrangement { image: 1, samples: 60, x0: 0, y0: 0, angle: 0 },
        ],
    };
    (rasters, sol)
}

fn cfg(islands: u32, population: u32, iterations: u32) -> EngineConfig {
    EngineConfig { num_of_islands: islands, population_size: population, max_iteration: iterations, stagnation_limit: 3, max_rate: 4 }
}

fn scored(sol: &Solution, fitness: u64) -> Scored {
    Scored { solution: sol.clone(), fitness }
}

fn island_of(sol: &Solution, fitness: u64, members: usize, limit: u32) -> Island {
    Island {
        id: 1,
        generations: 0,
        members: (0..members).map(|_| scored(sol, fitness)).collect(),
        best: sol.clone(),
        best_fitness: fitness,
        stagnation: 0,
        rate: 1,
        stagnation_limit: limit,
        max_rate: 2,
    }
}

#[test]
fn engine_rejects_zero_islands() {
    let (rasters, sol) = pair();
    let run = run_darwin(&sol, &rasters, &cfg(0, 5, 3));
    assert_eq!(run.warning, Some(EngineError::NoIslands));
    assert_eq!(run.solution.arrangement, sol.arrangement);
    assert!(run.islands.is_empty());
}

#[test]
fn engine_rejects_zero_population() {
    let (rasters, sol) = pair();
    let run = run_darwin(&sol, &rasters, &cfg(2, 0, 3));
    assert_eq!(run.warning, Some(EngineError::NoPopulation));
    assert_eq!(run.solution.arrangement, sol.arrangement);
}

#[test]
fn engine_rejects_zero_schedule() {
    let (rasters, sol) = pair();
    let mut c = cfg(2, 2, 3);
    c.stagnation_limit = 0;
    let run = run_darwin(&sol, &rasters, &c);
    assert_eq!(run.warning, Some(EngineError::NoSchedule));
}

#[test]
fn engine_rejects_unscorable_seed() {
    let (rasters, _) = pair();
    let empty = Solution { arrangement: vec![] };
    let run = run_darwin(&empty, &rasters, &cfg(2, 2, 3));
    assert_eq!(run.warning, Some(EngineError::Unscorable(FitnessError::EmptySolution)));
    assert!(run.solution.arrangement.is_empty());
}

#[test]
fn engine_never_worsens() {
    let (rasters, sol) = pair();
    let run = run_darwin(&sol, &rasters, &cfg(3, 6, 15));
    assert_eq!(run.warning, None);
    assert!(run.fitness <= run.start_fitness);
    assert_eq!(run.solution.arrangement.len(), 2);
    assert_eq!(run.solution.arrangement[0].image, 0);
    assert_eq!(run.solution.arrangement[1].image, 1);
}

#[test]
fn populations_are_copies_of_seed() {
    let (_, sol) = pair();
    let islands = make_all_populations(5, 3, &scored(&sol, 42), 7, 3);
    assert_eq!(islands.len(), 3);
    for (i, isl) in islands.iter().enumerate() {
        assert_eq!(isl.id as usize, i + 1);
        assert_eq!(isl.members.len(), 5);
        assert_eq!(isl.best_fitness, 42);
        assert_eq!(isl.rate, 1);
        assert_eq!(isl.stagnation, 0);
        assert_eq!(isl.generations, 0);
        for m in &isl.members {
            assert_eq!(m.fitness, 42);
            assert_eq!(m.solution.arrangement, sol.arrangement);
        }
    }
}

#[test]
fn advance_keeps_fitter_and_improves_best() {
    let (_, sol) = pair();
    let mut better = sol.clone();
    better.arrangement[1].x0 = 3;
    let mut isl = island_of(&sol, 100, 3, 5);
    isl.advance(vec![scored(&sol, 150), scored(&better, 40), scored(&sol, 100)]);
    assert_eq!(isl.best_fitness, 40);
    assert_eq!(isl.best.arrangement, better.arrangement);
    assert_eq!(isl.members[0].fitness, 100);
    assert_eq!(isl.members[1].fitness, 40);
    assert_eq!(isl.members[2].fitness, 100);
    assert_eq!(isl.stagnation, 0);
}

#[test]
fn stagnation_resets_population_and_raises_rate() {
    let (_, sol) = pair();
    let mut moved = sol.clone();
    moved.arrangement[0].y0 = 9;
    let mut isl = island_of(&sol, 100, 2, 2);
    isl.members[1] = scored(&moved, 120);
    isl.advance(vec![scored(&moved, 130), scored(&moved, 110)]);
    assert_eq!(isl.stagnation, 1);
    assert_eq!(isl.best_fitness, 100);
    assert_eq!(isl.members[1].fitness, 110);
    isl.advance(vec![scored(&moved, 130), scored(&moved, 110)]);
    assert_eq!(isl.stagnation, 0);
    assert_eq!(isl.rate, 2);
    for m in &isl.members {
        assert_eq!(m.fitness, 100);
        assert_eq!(m.solution.arrangement, sol.arrangement);
    }
    for _ in 0..3 {
        isl.advance(vec![scored(&moved, 130), scored(&moved, 130)]);
    }
    assert_eq!(isl.rate, 2);
}

#[test]
fn island_best_never_increases() {
    let (rasters, sol) = pair();
    let start = sol.calculate_fitness(&rasters).unwrap();
    let mut isl = island_of(&sol, start, 4, 3);
    let mut last = isl.best_fitness;
    for g in 0..10 {
        isl.generation(&rasters);
        assert!(isl.best_fitness <= last);
        assert_eq!(isl.generations, g + 1);
        assert_eq!(isl.members.len(), 4);
        last = isl.best_fitness;
    }
    run_island(&mut isl, &rasters, 5);
    assert!(isl.best_fitness <= last);
    assert_eq!(isl.generations, 15);
}

#[test]
fn engine_returns_least_of_islands() {
    let (rasters, sol) = pair();
    let run = run_darwin(&sol, &rasters, &cfg(4, 5, 7));
    assert_eq!(run.warning, None);
    assert_eq!(run.islands.len(), 4);
    let mut least = run.start_fitness;
    for (i, isl) in run.islands.iter().enumerate() {
        assert_eq!(isl.id as usize, i + 1);
        assert_eq!(isl.generations, 7);
        assert!(run.fitness <= isl.best_fitness);
        least = least.min(isl.best_fitness);
    }
    assert_eq!(run.fitness, least);
    let from_island = run
        .islands
        .iter()
        .any(|isl| isl.best_fitness == run.fitness && isl.best.arrangement == run.solution.arrangement);
    let is_seed = run.fitness == run.start_fitness && run.solution.arrangement == sol.arrangement;
    assert!(from_island || is_seed);
}
