//! The mutation operators: one random perturbation of a candidate.
use vstd::prelude::*;
use crate::angle::{normalized, rotate_angle, FULL_TURN};
use crate::random::random_below;
use crate::solution::{geometry_valid, same_images, ImageArrangement, Solution, MAX_POS};

verus! {

/// The largest offset of a small translation, in pixels.
pub const SMALL_STEP: u32 = 25;

/// The largest offset of a large translation, in pixels.
pub const LARGE_STEP: u32 = 250;

/// The largest offset of a small rotation, in tenths of a degree.
pub const SMALL_TURN: u32 = 10;

/// The largest offset of a large rotation, in tenths of a degree.
pub const LARGE_TURN: u32 = 450;

/// How many kinds of perturbation a random mutation chooses among: a swap,
/// small and large translations along each axis, and small and large rotations.
pub const NUM_KINDS: u64 = 7;

/// One perturbation of a candidate.
#[derive(Clone, Copy, PartialEq, Eq, Structural, Debug)]
pub enum Mutation {
    /// Exchange the position and angle of two arrangements; each photograph
    /// stays at its own place in the sequence.
    Swap(usize, usize),
    /// Move one arrangement along x by an offset, clamped into the canvas extent `[0, CANVAS_EXTENT)`.
    TranslateX(usize, i32),
    /// Move one arrangement along y by an offset, clamped into the canvas extent `[0, CANVAS_EXTENT)`.
    TranslateY(usize, i32),
    /// Turn one arrangement by an offset, brought back into `[0, FULL_TURN)`.
    Rotate(usize, i32),
}

impl Mutation {
    /// The mutation applies to a candidate of `n` arrangements.
    pub open spec fn valid_for(&self, n: int) -> bool {
        match *self {
            Mutation::Swap(i, j) => i < n && j < n && i != j,
            Mutation::TranslateX(i, d) => i < n && -(LARGE_STEP as int) <= d <= LARGE_STEP,
            Mutation::TranslateY(i, d) => i < n && -(LARGE_STEP as int) <= d <= LARGE_STEP,
            Mutation::Rotate(i, d) => i < n && -(LARGE_TURN as int) <= d <= LARGE_TURN,
        }
    }
}

/// `v` clamped into the canvas extent `[0, CANVAS_EXTENT)`.
pub open spec fn clamp_pos(v: int) -> int {
    if v < 0 {
        0
    } else if v > MAX_POS {
        MAX_POS as int
    } else {
        v
    }
}

/// `a` with the position and angle of `g`.
pub open spec fn with_geometry_of(a: ImageArrangement, g: ImageArrangement) -> ImageArrangement {
    ImageArrangement { image: a.image, samples: a.samples, x0: g.x0, y0: g.y0, angle: g.angle }
}

/// The candidate `s` after the mutation `m`.
pub open spec fn apply_spec(s: Seq<ImageArrangement>, m: Mutation) -> Seq<ImageArrangement> {
    match m {
        Mutation::Swap(i, j) => s.update(i as int, with_geometry_of(s[i as int], s[j as int])).update(
            j as int,
            with_geometry_of(s[j as int], s[i as int]),
        ),
        Mutation::TranslateX(i, d) => s.update(
            i as int,
            ImageArrangement { x0: clamp_pos(s[i as int].x0 + d) as u32, ..s[i as int] },
        ),
        Mutation::TranslateY(i, d) => s.update(
            i as int,
            ImageArrangement { y0: clamp_pos(s[i as int].y0 + d) as u32, ..s[i as int] },
        ),
        Mutation::Rotate(i, d) => s.update(
            i as int,
            ImageArrangement { angle: normalized(s[i as int].angle as int, d as int) as u32, ..s[i as int] },
        ),
    }
}

/// The candidate `s` after the mutations `ms`, first to last.
pub open spec fn apply_all(s: Seq<ImageArrangement>, ms: Seq<Mutation>) -> Seq<ImageArrangement>
    decreases ms.len(),
{
    if ms.len() == 0 {
        s
    } else {
        apply_spec(apply_all(s, ms.drop_last()), ms.last())
    }
}

fn clamp_offset(v: u32, d: i32) -> (r: u32)
    requires
        v <= MAX_POS,
        -(LARGE_STEP as int) <= d <= LARGE_STEP,
    ensures
        r == clamp_pos(v + d),
{
    let t: i64 = (v as i64) + (d as i64);
    if t < 0 {
        0
    } else if t > MAX_POS as i64 {
        MAX_POS
    } else {
        t as u32
    }
}

proof fn lemma_apply_keeps_geometry(s: Seq<ImageArrangement>, m: Mutation)
    requires
        geometry_valid(s),
        m.valid_for(s.len() as int),
    ensures
        apply_spec(s, m).len() == s.len(),
        geometry_valid(apply_spec(s, m)),
{
    let t = apply_spec(s, m);
    assert forall|k: int| 0 <= k < t.len() implies (#[trigger] t[k]).geometry_in_range() by {
        assert(s[k].geometry_in_range());
        match m {
            Mutation::Swap(i, j) => {
                assert(s[i as int].geometry_in_range());
                assert(s[j as int].geometry_in_range());
            },
            Mutation::Rotate(i, d) => {
                vstd::arithmetic::div_mod::lemma_mod_bound(s[i as int].angle + d, FULL_TURN as int);
            },
            _ => {},
        }
    }
}

impl Solution {
    /// Applies the perturbation `m`.
    pub fn apply_mutation(&mut self, m: Mutation)
        requires
            geometry_valid(old(self)@),
            m.valid_for(old(self)@.len() as int),
        ensures
            final(self)@ == apply_spec(old(self)@, m),
            final(self)@.len() == old(self)@.len(),
            geometry_valid(final(self)@),
            same_images(final(self)@, old(self)@),
    {
        proof {
            lemma_apply_keeps_geometry(self@, m);
        }
        let ghost s = self@;
        match m {
            Mutation::Swap(i, j) => {
                let a = self.arrangement[i];
                let b = self.arrangement[j];
                self.arrangement.set(
                    i,
                    ImageArrangement { image: a.image, samples: a.samples, x0: b.x0, y0: b.y0, angle: b.angle },
                );
                self.arrangement.set(
                    j,
                    ImageArrangement { image: b.image, samples: b.samples, x0: a.x0, y0: a.y0, angle: a.angle },
                );
            },
            Mutation::TranslateX(i, d) => {
                let a = self.arrangement[i];
                assert(s[i as int].geometry_in_range());
                let x0 = clamp_offset(a.x0, d);
                self.arrangement.set(i, ImageArrangement { x0, ..a });
            },
            Mutation::TranslateY(i, d) => {
                let a = self.arrangement[i];
                assert(s[i as int].geometry_in_range());
                let y0 = clamp_offset(a.y0, d);
                self.arrangement.set(i, ImageArrangement { y0, ..a });
            },
            Mutation::Rotate(i, d) => {
                let a = self.arrangement[i];
                assert(s[i as int].geometry_in_range());
                let angle = rotate_angle(a.angle, d);
                self.arrangement.set(i, ImageArrangement { angle, ..a });
            },
        }
        assert(self@ =~= apply_spec(s, m));
    }

    /// Applies one perturbation drawn at random by `draw_mutation`.
    pub fn mutate(&mut self)
        requires
            old(self)@.len() >= 1,
            geometry_valid(old(self)@),
        ensures
            exists|m: Mutation| m.valid_for(old(self)@.len() as int) && final(self)@ == apply_spec(old(self)@, m),
            final(self)@.len() == old(self)@.len(),
            geometry_valid(final(self)@),
            same_images(final(self)@, old(self)@),
    {
        let m = draw_mutation(self.arrangement.len());
        self.apply_mutation(m);
    }
}

/// A signed offset drawn uniformly from `[-bound, bound]`.
fn signed_offset(bound: u32) -> (d: i32)
    requires
        bound <= LARGE_TURN,
    ensures
        -(bound as int) <= d <= bound,
{
    let r = random_below(2 * (bound as u64) + 1);
    (r as i32) - (bound as i32)
}

/// Draws a perturbation for a candidate of `n` arrangements: the arrangement
/// and the kind of perturbation uniformly, then its other index or its offset.
/// A candidate of one arrangement has no swap to draw.
pub fn draw_mutation(n: usize) -> (m: Mutation)
    requires
        n >= 1,
    ensures
        m.valid_for(n as int),
{
    let i = random_below(n as u64) as usize;
    let kind = if n >= 2 { random_below(NUM_KINDS) } else { 1 + random_below(NUM_KINDS - 1) };
    if kind == 0 {
        let j0 = random_below((n - 1) as u64) as usize;
        let j = if j0 >= i { j0 + 1 } else { j0 };
        Mutation::Swap(i, j)
    } else if kind == 1 {
        Mutation::TranslateX(i, signed_offset(SMALL_STEP))
    } else if kind == 2 {
        Mutation::TranslateX(i, signed_offset(LARGE_STEP))
    } else if kind == 3 {
        Mutation::TranslateY(i, signed_offset(SMALL_STEP))
    } else if kind == 4 {
        Mutation::TranslateY(i, signed_offset(LARGE_STEP))
    } else if kind == 5 {
        Mutation::Rotate(i, signed_offset(SMALL_TURN))
    } else {
        Mutation::Rotate(i, signed_offset(LARGE_TURN))
    }
}

/// A mutation never changes how many arrangements a candidate has, nor
/// which photograph each of them places.
pub proof fn lemma_mutation_keeps_length(s: Seq<ImageArrangement>, m: Mutation)
    requires
        m.valid_for(s.len() as int),
    ensures
        apply_spec(s, m).len() == s.len(),
        same_images(apply_spec(s, m), s),
{
}

/// After any sequence of mutations, every angle is still in `[0, FULL_TURN)`
/// and every position in `[0, CANVAS_EXTENT)`, and the length is unchanged.
pub proof fn lemma_mutations_keep_angles(s: Seq<ImageArrangement>, ms: Seq<Mutation>)
    requires
        geometry_valid(s),
        forall|k: int| 0 <= k < ms.len() ==> (#[trigger] ms[k]).valid_for(s.len() as int),
    ensures
        apply_all(s, ms).len() == s.len(),
        geometry_valid(apply_all(s, ms)),
        forall|k: int| 0 <= k < s.len() ==> 0 <= (#[trigger] apply_all(s, ms)[k]).angle < FULL_TURN,
    decreases ms.len(),
{
    if ms.len() > 0 {
        let prefix = ms.drop_last();
        assert forall|k: int| 0 <= k < prefix.len() implies (#[trigger] prefix[k]).valid_for(s.len() as int) by {
            assert(prefix[k] == ms[k]);
        }
        lemma_mutations_keep_angles(s, prefix);
        assert(ms[ms.len() - 1].valid_for(s.len() as int));
        lemma_apply_keeps_geometry(apply_all(s, prefix), ms.last());
    }
    let t = apply_all(s, ms);
    assert forall|k: int| 0 <= k < s.len() implies 0 <= (#[trigger] t[k]).angle < FULL_TURN by {
        assert(t[k].geometry_in_range());
    }
}

/// Swapping the same two arrangements twice restores the candidate.
pub proof fn lemma_swap_self_inverse(s: Seq<ImageArrangement>, i: usize, j: usize)
    requires
        i < s.len(),
        j < s.len(),
    ensures
        apply_spec(apply_spec(s, Mutation::Swap(i, j)), Mutation::Swap(i, j)) == s,
{
    let t = apply_spec(apply_spec(s, Mutation::Swap(i, j)), Mutation::Swap(i, j));
    assert(t =~= s);
}

} // verus!
