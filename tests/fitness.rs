use panolution::angle::{cosine, rotate_angle, sine, TRIG_ONE};
use panolution::fitness::{
    calc_canvas_size, extent, fitness_at_points, get_pixel, penalty_at, penalty_of_colors, FitnessError,
    FITNESS_SCALE, MAX_DISTANCE, SINGLE_PENALTY,
};
use panolution::raster::{Raster, Rgb};
use panolution::solution::{ImageArrangement, Solution};

fn solid(source_id: u64, w: u32, h: u32, c: Rgb) -> Raster {
    let mut data = Vec::new();
    for _ in 0..(w * h) {
        data.push(c.r);
        data.push(c.g);
        data.push(c.b);
    }
    Raster { source_id, path: format!("img{}.png", source_id), width: w, height: h, data }
}

fn gradient(w: u32, h: u32) -> Raster {
    let mut data = Vec::new();
    for y in 0..h {
        for x in 0..w {
            data.push(x as u8);
            data.push(y as u8);
            data.push(0);
        }
    }
    Raster { source_id: 0, path: "g.png".to_string(), width: w, height: h, data }
}

fn place(image: usize, samples: u32, x0: u32, y0: u32, angle: u32) -> ImageArrangement {
    ImageArrangement { image, samples, x0, y0, angle }
}

const RED: Rgb = Rgb { r: 255, g: 0, b: 0 };
const BLUE: Rgb = Rgb { r: 0, g: 0, b: 255 };

#[test]
fn identical_red_images_score_zero() {
    let rasters = vec![solid(0, 10, 10, RED), solid(1, 10, 10, RED)];
    let sol = Solution { arrangement: vec![place(0, 200, 0, 0, 0), place(1, 200, 0, 0, 0)] };
    assert_eq!(sol.calculate_fitness(&rasters), Ok(0));
    let pts = vec![(0, 0), (9, 9), (5, 3)];
    assert_eq!(fitness_at_points(&sol, &rasters, &pts), Ok(0));
}

#[test]
fn half_overlap_penalties() {
    let rasters = vec![solid(0, 10, 10, RED), solid(1, 10, 10, BLUE)];
    let sol = Solution { arrangement: vec![place(0, 100, 0, 0, 0), place(1, 100, 5, 0, 0)] };
    for y in 0..10 {
        for x in 5..10 {
            assert_eq!(penalty_at(&sol, &rasters, x, y), 510);
        }
        for x in 0..5 {
            assert_eq!(penalty_at(&sol, &rasters, x, y), SINGLE_PENALTY);
        }
        for x in 10..15 {
            assert_eq!(penalty_at(&sol, &rasters, x, y), SINGLE_PENALTY);
        }
    }
    assert_eq!(penalty_at(&sol, &rasters, 20, 20), 0);
    assert_eq!(penalty_at(&sol, &rasters, 3, 15), 0);
}

#[test]
fn fitness_is_mean_penalty_scaled() {
    let rasters = vec![solid(0, 10, 10, RED), solid(1, 10, 10, BLUE)];
    let sol = Solution { arrangement: vec![place(0, 100, 0, 0, 0), place(1, 100, 5, 0, 0)] };
    let pts = vec![(2, 2), (7, 2), (30, 30)];
    assert_eq!(fitness_at_points(&sol, &rasters, &pts), Ok(255000));
    let f = sol.calculate_fitness(&rasters).unwrap();
    assert!(f >= 255 * FITNESS_SCALE && f <= 510 * FITNESS_SCALE);
}

#[test]
fn zero_overlap_scores_single_share() {
    let rasters = vec![solid(0, 10, 10, RED), solid(1, 10, 10, BLUE)];
    let sol = Solution { arrangement: vec![place(0, 100, 0, 0, 0), place(1, 100, 50, 0, 0)] };
    let pts = vec![(1, 1), (55, 5), (30, 5)];
    assert_eq!(fitness_at_points(&sol, &rasters, &pts), Ok(255 * 2 * 1000 / 3));
}

#[test]
fn fitness_never_negative_and_bounded() {
    let rasters = vec![gradient(20, 20), solid(1, 20, 20, BLUE)];
    let sol = Solution { arrangement: vec![place(0, 500, 0, 0, 450), place(1, 500, 7, 3, 100)] };
    for _ in 0..20 {
        let f = sol.calculate_fitness(&rasters).unwrap();
        assert!(f <= MAX_DISTANCE * FITNESS_SCALE);
    }
}

#[test]
fn fitness_errors() {
    let rasters = vec![solid(0, 10, 10, RED), solid(1, 10, 10, BLUE)];
    let empty = Solution { arrangement: vec![] };
    assert_eq!(empty.calculate_fitness(&rasters), Err(FitnessError::EmptySolution));
    let no_samples = Solution { arrangement: vec![place(0, 0, 0, 0, 0), place(1, 0, 0, 0, 0)] };
    assert_eq!(no_samples.calculate_fitness(&rasters), Err(FitnessError::NoSamples));
    let missing = Solution { arrangement: vec![place(0, 10, 0, 0, 0), place(7, 10, 0, 0, 0)] };
    assert_eq!(missing.calculate_fitness(&rasters), Err(FitnessError::CorruptRaster(1)));
    let mut corrupt = rasters.clone();
    corrupt[0].data.pop();
    let sol = Solution { arrangement: vec![place(0, 10, 0, 0, 0), place(1, 10, 0, 0, 0)] };
    assert_eq!(sol.calculate_fitness(&corrupt), Err(FitnessError::CorruptRaster(0)));
    let bad_angle = Solution { arrangement: vec![place(0, 10, 0, 0, 0), place(1, 10, 0, 0, 3600)] };
    assert_eq!(bad_angle.calculate_fitness(&rasters), Err(FitnessError::GeometryOutOfRange(1)));
    assert_eq!(fitness_at_points(&sol, &rasters, &vec![]), Err(FitnessError::NoSamples));
}

#[test]
fn canvas_covers_all_images() {
    let rasters = vec![solid(0, 10, 20, RED), solid(1, 30, 5, BLUE)];
    let arr = vec![place(0, 1, 4, 2, 0), place(1, 1, 1, 10, 0)];
    assert_eq!(calc_canvas_size(&arr, &rasters), (1, 2, 31, 22));
}

#[test]
fn pixel_lookup_turned_half_way() {
    let r = gradient(10, 10);
    let straight = place(0, 1, 0, 0, 0);
    assert_eq!(get_pixel(3, 4, &straight, &r), Some(Rgb { r: 3, g: 4, b: 0 }));
    assert_eq!(get_pixel(10, 4, &straight, &r), None);
    let turned = place(0, 1, 0, 0, 1800);
    assert_eq!(get_pixel(1, 1, &turned, &r), Some(Rgb { r: 9, g: 9, b: 0 }));
    assert_eq!(get_pixel(0, 0, &turned, &r), None);
    let moved = place(0, 1, 100, 50, 0);
    assert_eq!(get_pixel(102, 57, &moved, &r), Some(Rgb { r: 2, g: 7, b: 0 }));
}

#[test]
fn penalty_of_colors_takes_worst_pair() {
    assert_eq!(penalty_of_colors(&vec![]), 0);
    assert_eq!(penalty_of_colors(&vec![RED]), SINGLE_PENALTY);
    let grey = Rgb { r: 100, g: 100, b: 100 };
    let near = Rgb { r: 101, g: 100, b: 100 };
    assert_eq!(penalty_of_colors(&vec![grey, near, RED]), 355);
    assert_eq!(penalty_of_colors(&vec![RED, grey, BLUE]), 510);
    assert_eq!(penalty_of_colors(&vec![grey, grey]), 0);
}

#[test]
fn fixed_point_trigonometry() {
    assert_eq!(sine(0), 0);
    assert_eq!(sine(900), TRIG_ONE);
    assert_eq!(sine(2700), -TRIG_ONE);
    assert_eq!(sine(300), TRIG_ONE / 2);
    assert_eq!(cosine(0), TRIG_ONE);
    assert_eq!(cosine(1800), -TRIG_ONE);
    assert_eq!(cosine(900), 0);
    assert_eq!(rotate_angle(3590, 20), 10);
    assert_eq!(rotate_angle(5, -10), 3595);
    assert_eq!(rotate_angle(100, 0), 100);
}

#[test]
fn turned_image_extent_covers_corners() {
    let r = solid(0, 10, 2, RED);
    let upright = place(0, 1, 20, 20, 0);
    assert_eq!(extent(&upright, &r), (20, 20, 30, 22));
    let turned = place(0, 1, 20, 20, 900);
    assert_eq!(extent(&turned, &r), (25, 16, 27, 26));
    let rasters = vec![r.clone(), solid(1, 4, 4, BLUE)];
    let arr = vec![turned, place(1, 1, 30, 30, 0)];
    assert_eq!(calc_canvas_size(&arr, &rasters), (25, 16, 34, 34));
    for y in 0..60 {
        for x in 0..60 {
            if get_pixel(x, y, &turned, &r).is_some() {
                assert!(x >= 25 && x < 27 && y >= 16 && y < 26, "({}, {})", x, y);
            }
        }
    }
    let at_origin = place(0, 1, 0, 0, 900);
    let e = extent(&at_origin, &r);
    assert_eq!(e.1, 0);
    assert!(e.0 < e.2 && e.1 < e.3);
}

#[test]
fn turned_image_is_sampled_where_it_lies() {
    let rasters = vec![solid(0, 10, 2, RED), solid(1, 10, 2, RED)];
    let sol = Solution { arrangement: vec![place(0, 300, 20, 20, 900), place(1, 300, 20, 20, 900)] };
    assert_eq!(sol.calculate_fitness(&rasters), Ok(0));
}
