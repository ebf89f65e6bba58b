use panolution::angle::FULL_TURN;
use panolution::mutation::{draw_mutation, Mutation, LARGE_STEP, LARGE_TURN};
use panolution::solution::{ImageArrangement, Solution, MAX_POS};

fn three() -> Solution {
    Solution {
        arrangement: vec![
            ImageArrangement { image: 0, samples: 10, x0: 5, y0: 6, angle: 7 },
            ImageArrangement { image: 1, samples: 10, x0: 100, y0: 200, angle: 300 },
            ImageArrangement { image: 2, samples: 10, x0: MAX_POS, y0: 0, angle: 3599 },
        ],
    }
}

#[test]
fn swap_twice_restores() {
    let mut s = three();
    s.apply_mutation(Mutation::Swap(0, 1));
    assert_eq!(s.arrangement[0], ImageArrangement { image: 0, samples: 10, x0: 100, y0: 200, angle: 300 });
    assert_eq!(s.arrangement[1], ImageArrangement { image: 1, samples: 10, x0: 5, y0: 6, angle: 7 });
    s.apply_mutation(Mutation::Swap(0, 1));
    assert_eq!(s.arrangement, three().arrangement);
}

#[test]
fn translation_clamps() {
    let mut s = three();
    s.apply_mutation(Mutation::TranslateX(0, -250));
    assert_eq!(s.arrangement[0].x0, 0);
    s.apply_mutation(Mutation::TranslateY(1, 25));
    assert_eq!(s.arrangement[1].y0, 225);
    s.apply_mutation(Mutation::TranslateX(2, 100));
    assert_eq!(s.arrangement[2].x0, MAX_POS);
    assert_eq!(s.arrangement[2].angle, 3599);
}

#[test]
fn rotation_wraps_into_range() {
    let mut s = three();
    s.apply_mutation(Mutation::Rotate(2, 10));
    assert_eq!(s.arrangement[2].angle, 9);
    s.apply_mutation(Mutation::Rotate(0, -10));
    assert_eq!(s.arrangement[0].angle, 3597);
}

#[test]
fn mutate_keeps_length_and_angles() {
    let mut s = three();
    for _ in 0..2000 {
        s.mutate();
        assert_eq!(s.arrangement.len(), 3);
        for (k, a) in s.arrangement.iter().enumerate() {
            assert!(a.angle < FULL_TURN);
            assert!(a.x0 <= MAX_POS && a.y0 <= MAX_POS);
            assert_eq!(a.image, k);
        }
    }
    let mut one = Solution { arrangement: vec![ImageArrangement { image: 0, samples: 1, x0: 0, y0: 0, angle: 0 }] };
    for _ in 0..200 {
        one.mutate();
        assert_eq!(one.arrangement.len(), 1);
    }
}

#[test]
fn drawn_mutations_are_valid() {
    for _ in 0..2000 {
        match draw_mutation(4) {
            Mutation::Swap(i, j) => assert!(i < 4 && j < 4 && i != j),
            Mutation::TranslateX(i, d) | Mutation::TranslateY(i, d) => {
                assert!(i < 4 && d.unsigned_abs() <= LARGE_STEP)
            },
            Mutation::Rotate(i, d) => assert!(i < 4 && d.unsigned_abs() <= LARGE_TURN),
        }
    }
    for _ in 0..200 {
        assert!(!matches!(draw_mutation(1), Mutation::Swap(_, _)));
    }
}

#[test]
fn reset_restores_identity_geometry() {
    let mut s = three();
    s.reset();
    for (k, a) in s.arrangement.iter().enumerate() {
        assert_eq!(*a, ImageArrangement { image: k, samples: 10, x0: 0, y0: 0, angle: 0 });
    }
}
