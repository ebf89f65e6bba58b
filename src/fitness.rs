//! The fitness of a candidate: how badly the photographs disagree where they
//! overlap, measured at sample points of the canvas. Lower is better.
use vstd::prelude::*;
use crate::angle::{FULL_TURN, cosine, cosine_of, lemma_trig_bounds, sine, sine_of, TRIG_ONE};
use crate::raster::{Raster, Rgb, MAX_SIDE};
use crate::random::random_below;
use crate::solution::{solution_valid, ImageArrangement, Solution, MAX_POS};

verus! {

/// The penalty for a sample point that exactly one photograph covers.
pub const SINGLE_PENALTY: u64 = 255;

/// The largest distance between two colors.
pub const MAX_DISTANCE: u64 = 765;

/// Fitness is the mean penalty per sample point, times this factor, rounded down.
pub const FITNESS_SCALE: u64 = 1000;

/// Why a candidate could not be scored.
#[derive(Clone, Copy, PartialEq, Eq, Structural, Debug)]
pub enum FitnessError {
    /// The candidate places no photograph.
    EmptySolution,
    /// No sample point is to be drawn.
    NoSamples,
    /// The arrangement at this position names no raster, or a raster whose
    /// data does not match its size.
    CorruptRaster(usize),
    /// The arrangement at this position lies outside the coordinate range.
    GeometryOutOfRange(usize),
}

pub open spec fn abs_diff(a: u8, b: u8) -> int {
    if a > b {
        a - b
    } else {
        b - a
    }
}

/// Sum of the absolute differences of the three channels.
pub open spec fn color_distance(p: Rgb, q: Rgb) -> int {
    abs_diff(p.r, q.r) + abs_diff(p.g, q.g) + abs_diff(p.b, q.b)
}

pub open spec fn max_int(a: int, b: int) -> int {
    if a >= b {
        a
    } else {
        b
    }
}

/// The largest distance from `c` to one of the first `k` colors of `cs`.
pub open spec fn max_distance_to(cs: Seq<Rgb>, k: int, c: Rgb) -> int
    decreases k,
{
    if k <= 0 {
        0
    } else {
        max_int(max_distance_to(cs, k - 1, c), color_distance(cs[k - 1], c))
    }
}

/// The largest distance between two of the first `k` colors of `cs`.
pub open spec fn max_pair_distance(cs: Seq<Rgb>, k: int) -> int
    decreases k,
{
    if k <= 0 {
        0
    } else {
        max_int(max_pair_distance(cs, k - 1), max_distance_to(cs, k - 1, cs[k - 1]))
    }
}

/// The penalty of one sample point whose covering photographs show `cs`.
pub open spec fn sample_penalty(cs: Seq<Rgb>) -> int {
    if cs.len() == 0 {
        0
    } else if cs.len() == 1 {
        SINGLE_PENALTY as int
    } else {
        max_pair_distance(cs, cs.len() as int)
    }
}

/// The canvas point `(cx, cy)` in the raster coordinates of `a`: moved so that
/// the photograph's center is the origin, turned back by its angle, moved back.
pub open spec fn local_point(a: ImageArrangement, r: Raster, cx: int, cy: int) -> (int, int) {
    let mx = a.x0 + r.width / 2;
    let my = a.y0 + r.height / 2;
    let ox = cx - mx;
    let oy = cy - my;
    let c = cosine_of(a.angle as int);
    let s = sine_of(a.angle as int);
    let rx = (ox * c + oy * s) / TRIG_ONE as int;
    let ry = (oy * c - ox * s) / TRIG_ONE as int;
    (rx + mx - a.x0, ry + my - a.y0)
}

/// The photograph placed by `a` covers the canvas point `(cx, cy)`.
pub open spec fn covers(a: ImageArrangement, r: Raster, cx: int, cy: int) -> bool {
    let p = local_point(a, r, cx, cy);
    0 <= p.0 < r.width && 0 <= p.1 < r.height
}

/// The colors that the photographs of `arr` show at `(cx, cy)`, in order.
pub open spec fn colors_at(arr: Seq<ImageArrangement>, rasters: Seq<Raster>, cx: int, cy: int) -> Seq<Rgb>
    decreases arr.len(),
{
    if arr.len() == 0 {
        Seq::empty()
    } else {
        let prev = colors_at(arr.drop_last(), rasters, cx, cy);
        let a = arr.last();
        let r = rasters[a.image as int];
        if covers(a, r, cx, cy) {
            let p = local_point(a, r, cx, cy);
            prev.push(r.pixel_spec(p.0, p.1))
        } else {
            prev
        }
    }
}

/// The penalty of the canvas point `(cx, cy)`.
pub open spec fn point_penalty(arr: Seq<ImageArrangement>, rasters: Seq<Raster>, cx: int, cy: int) -> int {
    sample_penalty(colors_at(arr, rasters, cx, cy))
}

/// The sum of the penalties of the points `pts`.
pub open spec fn penalty_total(arr: Seq<ImageArrangement>, rasters: Seq<Raster>, pts: Seq<(u32, u32)>) -> int
    decreases pts.len(),
{
    if pts.len() == 0 {
        0
    } else {
        penalty_total(arr, rasters, pts.drop_last())
            + point_penalty(arr, rasters, pts.last().0 as int, pts.last().1 as int)
    }
}

/// The fitness of `arr` at the sample points `pts`.
pub open spec fn fitness_of(arr: Seq<ImageArrangement>, rasters: Seq<Raster>, pts: Seq<(u32, u32)>) -> int {
    (penalty_total(arr, rasters, pts) * FITNESS_SCALE) / pts.len() as int
}

/// The first error that scoring `arr` with `n` sample points meets, if any.
pub open spec fn fitness_error(arr: Seq<ImageArrangement>, rasters: Seq<Raster>, n: int) -> Option<FitnessError> {
    if arr.len() == 0 {
        Some(FitnessError::EmptySolution)
    } else if n == 0 {
        Some(FitnessError::NoSamples)
    } else if exists|i: int| 0 <= i < arr.len() && !(#[trigger] arr[i]).valid_for(rasters) {
        let i = first_invalid(arr, rasters);
        if raster_ok(arr[i], rasters) {
            Some(FitnessError::GeometryOutOfRange(i as usize))
        } else {
            Some(FitnessError::CorruptRaster(i as usize))
        }
    } else {
        None
    }
}

/// The position of the first arrangement of `arr` that is not valid for `rasters`.
pub open spec fn first_invalid(arr: Seq<ImageArrangement>, rasters: Seq<Raster>) -> int {
    choose|i: int|
        0 <= i < arr.len() && !(#[trigger] arr[i]).valid_for(rasters) && forall|j: int|
            0 <= j < i ==> (#[trigger] arr[j]).valid_for(rasters)
}

pub open spec fn raster_ok(a: ImageArrangement, rasters: Seq<Raster>) -> bool {
    a.image < rasters.len() && rasters[a.image as int].wf()
}


proof fn lemma_product_bound(x: int, y: int)
    requires
        -8589934592 <= x <= 8589934592,
        -16384 <= y <= 16384,
    ensures
        -140737488355328 <= x * y <= 140737488355328,
{
    assert(-140737488355328 <= x * y <= 140737488355328) by (nonlinear_arith)
        requires
            -8589934592 <= x <= 8589934592,
            -16384 <= y <= 16384,
    ;
}

/// `v / TRIG_ONE`, rounded toward negative infinity.
fn div_trig_one(v: i64) -> (q: i64)
    requires
        -281474976710656 <= v <= 281474976710656,
    ensures
        q == (v as int) / (TRIG_ONE as int),
{
    assert(-281474976710656 <= v / 16384 <= 281474976710656) by (nonlinear_arith)
        requires
            -281474976710656 <= v <= 281474976710656,
    ;
    match v.checked_div_euclid(TRIG_ONE) {
        Some(q) => q,
        None => 0,
    }
}

/// The canvas point `(cx, cy)` in the raster coordinates of `a`.
fn local_point_exec(a: &ImageArrangement, r: &Raster, cx: u32, cy: u32) -> (p: (i64, i64))
    requires
        a.geometry_in_range(),
        r.wf(),
    ensures
        p.0 == local_point(*a, *r, cx as int, cy as int).0,
        p.1 == local_point(*a, *r, cx as int, cy as int).1,
{
    proof {
        lemma_trig_bounds(a.angle as int);
    }
    let mx: i64 = (a.x0 as i64) + ((r.width / 2) as i64);
    let my: i64 = (a.y0 as i64) + ((r.height / 2) as i64);
    let ox: i64 = (cx as i64) - mx;
    let oy: i64 = (cy as i64) - my;
    let c: i64 = cosine(a.angle);
    let s: i64 = sine(a.angle);
    proof {
        lemma_product_bound(ox as int, c as int);
        lemma_product_bound(oy as int, s as int);
        lemma_product_bound(oy as int, c as int);
        lemma_product_bound(ox as int, s as int);
    }
    let rx: i64 = div_trig_one(ox * c + oy * s);
    let ry: i64 = div_trig_one(oy * c - ox * s);
    (rx + mx - (a.x0 as i64), ry + my - (a.y0 as i64))
}

/// The color that the photograph placed by `a` shows at `(cx, cy)`, or `None`
/// where it does not cover that point.
pub fn get_pixel(cx: u32, cy: u32, a: &ImageArrangement, r: &Raster) -> (res: Option<Rgb>)
    requires
        a.geometry_in_range(),
        r.wf(),
    ensures
        res.is_some() == covers(*a, *r, cx as int, cy as int),
        res.is_some() ==> res.unwrap() == r.pixel_spec(
            local_point(*a, *r, cx as int, cy as int).0,
            local_point(*a, *r, cx as int, cy as int).1,
        ),
{
    let (lx, ly) = local_point_exec(a, r, cx, cy);
    if 0 <= lx && lx < (r.width as i64) && 0 <= ly && ly < (r.height as i64) {
        Some(r.pixel(lx as u32, ly as u32))
    } else {
        None
    }
}

/// The colors that the photographs of `sol` show at the canvas point `(cx, cy)`.
pub fn colors_at_point(sol: &Solution, rasters: &Vec<Raster>, cx: u32, cy: u32) -> (cs: Vec<Rgb>)
    requires
        solution_valid(sol@, rasters@),
    ensures
        cs@ == colors_at(sol@, rasters@, cx as int, cy as int),
        cs@.len() <= sol@.len(),
{
    let mut cs: Vec<Rgb> = Vec::new();
    let mut j: usize = 0;
    while j < sol.arrangement.len()
        invariant
            j <= sol@.len(),
            solution_valid(sol@, rasters@),
            cs@ == colors_at(sol@.subrange(0, j as int), rasters@, cx as int, cy as int),
            cs@.len() <= j,
        decreases sol@.len() - j,
    {
        let a = &sol.arrangement[j];
        assert(sol@[j as int].valid_for(rasters@));
        assert(sol@.subrange(0, j + 1).drop_last() =~= sol@.subrange(0, j as int));
        match get_pixel(cx, cy, a, &rasters[a.image]) {
            Some(p) => {
                cs.push(p);
            },
            None => {},
        }
        j += 1;
    }
    assert(sol@.subrange(0, sol@.len() as int) =~= sol@);
    cs
}

fn color_distance_exec(p: Rgb, q: Rgb) -> (d: u64)
    ensures
        d == color_distance(p, q),
        d <= MAX_DISTANCE,
{
    let dr: u64 = if p.r > q.r { (p.r - q.r) as u64 } else { (q.r - p.r) as u64 };
    let dg: u64 = if p.g > q.g { (p.g - q.g) as u64 } else { (q.g - p.g) as u64 };
    let db: u64 = if p.b > q.b { (p.b - q.b) as u64 } else { (q.b - p.b) as u64 };
    dr + dg + db
}

/// The penalty of one sample point whose covering photographs show `cs`:
/// nothing where none covers it, `SINGLE_PENALTY` where one does, and the
/// largest distance between two of the colors where several do.
pub fn penalty_of_colors(cs: &Vec<Rgb>) -> (p: u64)
    ensures
        p == sample_penalty(cs@),
        p <= MAX_DISTANCE,
{
    if cs.len() == 0 {
        return 0;
    }
    if cs.len() == 1 {
        return SINGLE_PENALTY;
    }
    let mut best: u64 = 0;
    let mut k: usize = 0;
    while k < cs.len()
        invariant
            k <= cs@.len(),
            best == max_pair_distance(cs@, k as int),
            best <= MAX_DISTANCE,
        decreases cs@.len() - k,
    {
        let mut m: u64 = 0;
        let mut i: usize = 0;
        while i < k
            invariant
                i <= k < cs@.len(),
                m == max_distance_to(cs@, i as int, cs@[k as int]),
                m <= MAX_DISTANCE,
            decreases k - i,
        {
            let d = color_distance_exec(cs[i], cs[k]);
            if d > m {
                m = d;
            }
            i += 1;
        }
        if m > best {
            best = m;
        }
        k += 1;
    }
    best
}

/// The penalty of the canvas point `(cx, cy)` under `sol`.
pub fn penalty_at(sol: &Solution, rasters: &Vec<Raster>, cx: u32, cy: u32) -> (p: u64)
    requires
        solution_valid(sol@, rasters@),
    ensures
        p == point_penalty(sol@, rasters@, cx as int, cy as int),
        p <= MAX_DISTANCE,
{
    let cs = colors_at_point(sol, rasters, cx, cy);
    penalty_of_colors(&cs)
}

/// Checks `sol` for what stops scoring it with `n` sample points.
pub fn check_solution(sol: &Solution, rasters: &Vec<Raster>, n: usize) -> (r: Option<FitnessError>)
    ensures
        r == fitness_error(sol@, rasters@, n as int),
        r.is_none() ==> solution_valid(sol@, rasters@),
{
    if sol.arrangement.len() == 0 {
        return Some(FitnessError::EmptySolution);
    }
    if n == 0 {
        return Some(FitnessError::NoSamples);
    }
    let mut i: usize = 0;
    while i < sol.arrangement.len()
        invariant
            i <= sol@.len(),
            n > 0,
            forall|j: int| 0 <= j < i ==> (#[trigger] sol@[j]).valid_for(rasters@),
        decreases sol@.len() - i,
    {
        let a = sol.arrangement[i];
        let raster_good = a.image < rasters.len() && rasters[a.image].is_wf();
        let geometry_good = a.x0 <= MAX_POS && a.y0 <= MAX_POS && a.angle < FULL_TURN;
        if !raster_good || !geometry_good {
            let ghost arr = sol@;
            assert(!arr[i as int].valid_for(rasters@));
            assert(exists|k: int| 0 <= k < arr.len() && !(#[trigger] arr[k]).valid_for(rasters@));
            assert(raster_good == raster_ok(arr[i as int], rasters@));
            let ghost first = first_invalid(arr, rasters@);
            assert(first == i) by {
                assert(0 <= i < arr.len() && !arr[i as int].valid_for(rasters@)
                    && forall|j: int| 0 <= j < i ==> (#[trigger] arr[j]).valid_for(rasters@));
                if first < i {
                    assert(arr[first].valid_for(rasters@));
                } else if first > i {
                    assert(arr[i as int].valid_for(rasters@));
                }
            }
            assert(fitness_error(arr, rasters@, n as int) == if raster_ok(arr[i as int], rasters@) {
                Some(FitnessError::GeometryOutOfRange(i))
            } else {
                Some(FitnessError::CorruptRaster(i))
            });
            if raster_good {
                return Some(FitnessError::GeometryOutOfRange(i));
            } else {
                return Some(FitnessError::CorruptRaster(i));
            }
        }
        i += 1;
    }
    None
}

/// Scores `sol` at the sample points `pts`: the mean penalty, times
/// `FITNESS_SCALE`, rounded down.
pub fn fitness_at_points(sol: &Solution, rasters: &Vec<Raster>, pts: &Vec<(u32, u32)>) -> (r: Result<u64, FitnessError>)
    ensures
        fitness_error(sol@, rasters@, pts@.len() as int) matches Some(e) ==> r == Err::<u64, FitnessError>(e),
        fitness_error(sol@, rasters@, pts@.len() as int) is None ==> r == Ok::<u64, FitnessError>(
            fitness_of(sol@, rasters@, pts@) as u64,
        ),
        r matches Ok(f) ==> f <= MAX_DISTANCE * FITNESS_SCALE,
{
    match check_solution(sol, rasters, pts.len()) {
        Some(e) => {
            return Err(e);
        },
        None => {},
    }
    let mut total: u128 = 0;
    let mut k: usize = 0;
    while k < pts.len()
        invariant
            k <= pts@.len(),
            solution_valid(sol@, rasters@),
            total == penalty_total(sol@, rasters@, pts@.subrange(0, k as int)),
            total <= MAX_DISTANCE * k,
        decreases pts@.len() - k,
    {
        let (cx, cy) = pts[k];
        assert(pts@.subrange(0, k + 1).drop_last() =~= pts@.subrange(0, k as int));
        let p = penalty_at(sol, rasters, cx, cy);
        total = total + (p as u128);
        k += 1;
    }
    assert(pts@.subrange(0, pts@.len() as int) =~= pts@);
    let n: u128 = pts.len() as u128;
    let scaled: u128 = total * (FITNESS_SCALE as u128);
    assert(scaled / n <= MAX_DISTANCE * FITNESS_SCALE) by (nonlinear_arith)
        requires
            scaled == total * 1000,
            total <= 765 * n,
            n > 0,
    {
        assert(scaled <= 765000 * n);
        vstd::arithmetic::div_mod::lemma_div_is_ordered(scaled as int, 765000 * n, n as int);
        vstd::arithmetic::div_mod::lemma_div_by_multiple(765000, n as int);
    }
    Ok((scaled / n) as u64)
}

/// The offset `(dx, dy)` from a photograph's center turned by the angle whose
/// fixed-point cosine and sine are `c` and `s`, rounded down.
pub open spec fn turned(dx: int, dy: int, c: int, s: int) -> (int, int) {
    ((dx * c - dy * s) / TRIG_ONE as int, (dx * s + dy * c) / TRIG_ONE as int)
}

pub open spec fn min_int(a: int, b: int) -> int {
    if a <= b {
        a
    } else {
        b
    }
}

pub open spec fn min4(a: int, b: int, c: int, d: int) -> int {
    min_int(min_int(a, b), min_int(c, d))
}

pub open spec fn max4(a: int, b: int, c: int, d: int) -> int {
    max_int(max_int(a, b), max_int(c, d))
}

/// The extent `(x0, y0, x1, y1)` that the photograph placed by `a` takes on
/// the canvas: the box of its four corner pixels turned about its center by
/// its angle, left and top included and cut at 0, right and bottom excluded.
/// Unturned, it is `[x0, x0 + width) x [y0, y0 + height)`.
pub open spec fn extent_of(a: ImageArrangement, r: Raster) -> (int, int, int, int) {
    let mx = a.x0 + r.width / 2;
    let my = a.y0 + r.height / 2;
    let xl = -(r.width / 2);
    let xh = r.width - 1 - r.width / 2;
    let yl = -(r.height / 2);
    let yh = r.height - 1 - r.height / 2;
    let c = cosine_of(a.angle as int);
    let s = sine_of(a.angle as int);
    let p = turned(xl, yl, c, s);
    let q = turned(xh, yl, c, s);
    let u = turned(xl, yh, c, s);
    let v = turned(xh, yh, c, s);
    let left = mx + min4(p.0, q.0, u.0, v.0);
    let top = my + min4(p.1, q.1, u.1, v.1);
    (
        if left < 0 { 0 } else { left },
        if top < 0 { 0 } else { top },
        mx + max4(p.0, q.0, u.0, v.0) + 1,
        my + max4(p.1, q.1, u.1, v.1) + 1,
    )
}

/// The bounding box `(x0, y0, x1, y1)` of the photographs of `arr`: the union
/// of their extents under their current geometry.
pub open spec fn canvas_of(arr: Seq<ImageArrangement>, rasters: Seq<Raster>) -> (int, int, int, int)
    decreases arr.len(),
{
    if arr.len() == 0 {
        (u32::MAX as int, u32::MAX as int, 0, 0)
    } else {
        let (cx0, cy0, cx1, cy1) = canvas_of(arr.drop_last(), rasters);
        let e = extent_of(arr.last(), rasters[arr.last().image as int]);
        (min_int(cx0, e.0), min_int(cy0, e.1), max_int(cx1, e.2), max_int(cy1, e.3))
    }
}

/// The box `b` holds the extent `e`.
pub open spec fn box_holds(b: (int, int, int, int), e: (int, int, int, int)) -> bool {
    b.0 <= e.0 && b.1 <= e.1 && e.2 <= b.2 && e.3 <= b.3
}

/// The turned offset of `(dx, dy)`, with `c` and `s` a fixed-point cosine and sine.
fn turned_exec(dx: i64, dy: i64, c: i64, s: i64) -> (t: (i64, i64))
    requires
        -8388608 <= dx <= 8388608,
        -8388608 <= dy <= 8388608,
        -TRIG_ONE <= c <= TRIG_ONE,
        -TRIG_ONE <= s <= TRIG_ONE,
    ensures
        t.0 == turned(dx as int, dy as int, c as int, s as int).0,
        t.1 == turned(dx as int, dy as int, c as int, s as int).1,
        -16777216 <= t.0 <= 16777216,
        -16777216 <= t.1 <= 16777216,
{
    proof {
        lemma_product_bound(dx as int, c as int);
        lemma_product_bound(dy as int, s as int);
        lemma_product_bound(dx as int, s as int);
        lemma_product_bound(dy as int, c as int);
        lemma_turned_bound(dx as int, dy as int, c as int, s as int);
    }
    (div_trig_one(dx * c - dy * s), div_trig_one(dx * s + dy * c))
}

proof fn lemma_turned_bound(dx: int, dy: int, c: int, s: int)
    requires
        -8388608 <= dx <= 8388608,
        -8388608 <= dy <= 8388608,
        -16384 <= c <= 16384,
        -16384 <= s <= 16384,
    ensures
        -16777216 <= turned(dx, dy, c, s).0 <= 16777216,
        -16777216 <= turned(dx, dy, c, s).1 <= 16777216,
{
    let a = dx * c - dy * s;
    let b = dx * s + dy * c;
    assert(-274877906944 <= a <= 274877906944 && -274877906944 <= b <= 274877906944) by (nonlinear_arith)
        requires
            -8388608 <= dx <= 8388608,
            -8388608 <= dy <= 8388608,
            -16384 <= c <= 16384,
            -16384 <= s <= 16384,
            a == dx * c - dy * s,
            b == dx * s + dy * c,
    ;
    assert(-16777216 <= a / 16384 <= 16777216) by (nonlinear_arith)
        requires
            -274877906944 <= a <= 274877906944,
    ;
    assert(-16777216 <= b / 16384 <= 16777216) by (nonlinear_arith)
        requires
            -274877906944 <= b <= 274877906944,
    ;
}

/// Of the four corners of a box around the center, one turns to an offset
/// of at least 0 on each axis, so each extent is at least one pixel wide.
proof fn lemma_turned_reaches_center(xl: int, xh: int, yl: int, yh: int, c: int, s: int)
    requires
        xl <= 0 <= xh,
        yl <= 0 <= yh,
    ensures
        max4(turned(xl, yl, c, s).0, turned(xh, yl, c, s).0, turned(xl, yh, c, s).0, turned(xh, yh, c, s).0)
            >= 0,
        max4(turned(xl, yl, c, s).1, turned(xh, yl, c, s).1, turned(xl, yh, c, s).1, turned(xh, yh, c, s).1)
            >= 0,
{
    let dx = if c >= 0 { xh } else { xl };
    let dy = if s >= 0 { yl } else { yh };
    assert(dx * c - dy * s >= 0) by (nonlinear_arith)
        requires
            (c >= 0 && dx >= 0) || (c < 0 && dx <= 0),
            (s >= 0 && dy <= 0) || (s < 0 && dy >= 0),
    ;
    assert((dx * c - dy * s) / 16384 >= 0);
    let ex = if s >= 0 { xh } else { xl };
    let ey = if c >= 0 { yh } else { yl };
    assert(ex * s + ey * c >= 0) by (nonlinear_arith)
        requires
            (s >= 0 && ex >= 0) || (s < 0 && ex <= 0),
            (c >= 0 && ey >= 0) || (c < 0 && ey <= 0),
    ;
    assert((ex * s + ey * c) / 16384 >= 0);
}

/// The extent of the photograph placed by `a`.
pub fn extent(a: &ImageArrangement, r: &Raster) -> (e: (u32, u32, u32, u32))
    requires
        a.geometry_in_range(),
        r.wf(),
    ensures
        e.0 == extent_of(*a, *r).0,
        e.1 == extent_of(*a, *r).1,
        e.2 == extent_of(*a, *r).2,
        e.3 == extent_of(*a, *r).3,
        e.0 < e.2 <= 4 * MAX_SIDE,
        e.1 < e.3 <= 4 * MAX_SIDE,
{
    proof {
        lemma_trig_bounds(a.angle as int);
    }
    let c = cosine(a.angle);
    let s = sine(a.angle);
    let w = r.width as i64;
    let h = r.height as i64;
    let mx: i64 = (a.x0 as i64) + w / 2;
    let my: i64 = (a.y0 as i64) + h / 2;
    let xl: i64 = -(w / 2);
    let xh: i64 = w - 1 - w / 2;
    let yl: i64 = -(h / 2);
    let yh: i64 = h - 1 - h / 2;
    let p = turned_exec(xl, yl, c, s);
    let q = turned_exec(xh, yl, c, s);
    let u = turned_exec(xl, yh, c, s);
    let v = turned_exec(xh, yh, c, s);
    proof {
        lemma_turned_reaches_center(xl as int, xh as int, yl as int, yh as int, c as int, s as int);
    }
    let min_x = min_i64(min_i64(p.0, q.0), min_i64(u.0, v.0));
    let max_x = max_i64(max_i64(p.0, q.0), max_i64(u.0, v.0));
    let min_y = min_i64(min_i64(p.1, q.1), min_i64(u.1, v.1));
    let max_y = max_i64(max_i64(p.1, q.1), max_i64(u.1, v.1));
    let left = mx + min_x;
    let top = my + min_y;
    (
        if left < 0 { 0 } else { left as u32 },
        if top < 0 { 0 } else { top as u32 },
        (mx + max_x + 1) as u32,
        (my + max_y + 1) as u32,
    )
}

fn min_i64(a: i64, b: i64) -> (r: i64)
    ensures
        r == min_int(a as int, b as int),
{
    if a <= b {
        a
    } else {
        b
    }
}

fn max_i64(a: i64, b: i64) -> (r: i64)
    ensures
        r == max_int(a as int, b as int),
{
    if a >= b {
        a
    } else {
        b
    }
}

/// The bounding box of the photographs of `arr`: it holds the extent of
/// each, and each of its sides is a side of one of them.
pub fn calc_canvas_size(arr: &Vec<ImageArrangement>, rasters: &Vec<Raster>) -> (c: (u32, u32, u32, u32))
    requires
        solution_valid(arr@, rasters@),
    ensures
        c.0 == canvas_of(arr@, rasters@).0,
        c.1 == canvas_of(arr@, rasters@).1,
        c.2 == canvas_of(arr@, rasters@).2,
        c.3 == canvas_of(arr@, rasters@).3,
        forall|k: int|
            0 <= k < arr@.len() ==> box_holds(
                (c.0 as int, c.1 as int, c.2 as int, c.3 as int),
                extent_of(#[trigger] arr@[k], rasters@[arr@[k].image as int]),
            ),
        arr@.len() > 0 ==> {
            &&& c.0 < c.2 && c.1 < c.3
            &&& exists|k: int| 0 <= k < arr@.len() && c.0 == extent_of(#[trigger] arr@[k], rasters@[arr@[k].image as int]).0
            &&& exists|k: int| 0 <= k < arr@.len() && c.1 == extent_of(#[trigger] arr@[k], rasters@[arr@[k].image as int]).1
            &&& exists|k: int| 0 <= k < arr@.len() && c.2 == extent_of(#[trigger] arr@[k], rasters@[arr@[k].image as int]).2
            &&& exists|k: int| 0 <= k < arr@.len() && c.3 == extent_of(#[trigger] arr@[k], rasters@[arr@[k].image as int]).3
        },
{
    let mut cx0: u32 = u32::MAX;
    let mut cy0: u32 = u32::MAX;
    let mut cx1: u32 = 0;
    let mut cy1: u32 = 0;
    let ghost ext = |j: int| extent_of(arr@[j], rasters@[arr@[j].image as int]);
    let mut k: usize = 0;
    while k < arr.len()
        invariant
            k <= arr@.len(),
            solution_valid(arr@, rasters@),
            ext == (|j: int| extent_of(arr@[j], rasters@[arr@[j].image as int])),
            (cx0 as int, cy0 as int, cx1 as int, cy1 as int) == canvas_of(arr@.subrange(0, k as int), rasters@),
            cx1 <= 4 * MAX_SIDE,
            cy1 <= 4 * MAX_SIDE,
            k > 0 ==> cx0 < cx1 && cy0 < cy1,
            forall|j: int|
                0 <= j < k ==> box_holds((cx0 as int, cy0 as int, cx1 as int, cy1 as int), #[trigger] ext(j)),
            k > 0 ==> exists|j: int| 0 <= j < k && cx0 == (#[trigger] ext(j)).0,
            k > 0 ==> exists|j: int| 0 <= j < k && cy0 == (#[trigger] ext(j)).1,
            k > 0 ==> exists|j: int| 0 <= j < k && cx1 == (#[trigger] ext(j)).2,
            k > 0 ==> exists|j: int| 0 <= j < k && cy1 == (#[trigger] ext(j)).3,
        decreases arr@.len() - k,
    {
        let a = arr[k];
        assert(arr@[k as int].valid_for(rasters@));
        assert(arr@.subrange(0, k + 1).drop_last() =~= arr@.subrange(0, k as int));
        let e = extent(&a, &rasters[a.image]);
        assert(e.0 == ext(k as int).0 && e.1 == ext(k as int).1 && e.2 == ext(k as int).2 && e.3 == ext(k as int).3);
        if e.0 < cx0 {
            cx0 = e.0;
        }
        if e.1 < cy0 {
            cy0 = e.1;
        }
        if e.2 > cx1 {
            cx1 = e.2;
        }
        if e.3 > cy1 {
            cy1 = e.3;
        }
        k += 1;
    }
    assert(arr@.subrange(0, arr@.len() as int) =~= arr@);
    assert forall|j: int| 0 <= j < arr@.len() implies box_holds(
        (cx0 as int, cy0 as int, cx1 as int, cy1 as int),
        extent_of(#[trigger] arr@[j], rasters@[arr@[j].image as int]),
    ) by {
        assert(box_holds((cx0 as int, cy0 as int, cx1 as int, cy1 as int), ext(j)));
    }
    (cx0, cy0, cx1, cy1)
}

/// How many sample points a fitness evaluation of `arr` draws: the sample
/// weight of its first arrangement.
pub open spec fn sample_count(arr: Seq<ImageArrangement>) -> int {
    if arr.len() == 0 {
        0
    } else {
        arr[0].samples as int
    }
}

/// Every point of `pts` lies in the box `c`.
pub open spec fn points_in_box(pts: Seq<(u32, u32)>, c: (int, int, int, int)) -> bool {
    forall|k: int|
        0 <= k < pts.len() ==> c.0 <= (#[trigger] pts[k]).0 < c.2 && c.1 <= pts[k].1 < c.3
}

/// `f` is the fitness of `s` at `sample_count(s)` points of its bounding box.
pub open spec fn scored_in_box(s: Seq<ImageArrangement>, rasters: Seq<Raster>, f: u64) -> bool {
    exists|pts: Seq<(u32, u32)>|
        pts.len() == sample_count(s) && points_in_box(pts, canvas_of(s, rasters)) && f == #[trigger] fitness_of(
            s,
            rasters,
            pts,
        ) as u64
}

impl Solution {
    /// Scores this candidate at `sample_count` points drawn uniformly at
    /// random inside its bounding box.
    pub fn calculate_fitness(&self, rasters: &Vec<Raster>) -> (r: Result<u64, FitnessError>)
        ensures
            fitness_error(self@, rasters@, sample_count(self@)) matches Some(e) ==> r == Err::<u64, FitnessError>(e),
            fitness_error(self@, rasters@, sample_count(self@)) is None ==> (r matches Ok(f) && scored_in_box(
                self@,
                rasters@,
                f,
            )),
            r matches Ok(f) ==> f <= MAX_DISTANCE * FITNESS_SCALE,
    {
        let n: u32 = if self.arrangement.len() == 0 { 0 } else { self.arrangement[0].samples };
        match check_solution(self, rasters, n as usize) {
            Some(e) => {
                return Err(e);
            },
            None => {},
        }
        let (cx0, cy0, cx1, cy1) = calc_canvas_size(&self.arrangement, rasters);
        let ghost c = canvas_of(self@, rasters@);
        let mut pts: Vec<(u32, u32)> = Vec::new();
        let mut k: u32 = 0;
        while k < n
            invariant
                k <= n,
                pts@.len() == k,
                cx0 < cx1,
                cy0 < cy1,
                c == (cx0 as int, cy0 as int, cx1 as int, cy1 as int),
                points_in_box(pts@, c),
            decreases n - k,
        {
            let x: u32 = cx0 + (random_below((cx1 - cx0) as u64) as u32);
            let y: u32 = cy0 + (random_below((cy1 - cy0) as u64) as u32);
            pts.push((x, y));
            k += 1;
        }
        let r = fitness_at_points(self, rasters, &pts);
        assert(r == Ok::<u64, FitnessError>(fitness_of(self@, rasters@, pts@) as u64));
        r
    }
}

/// Every sample penalty is at least zero and at most `MAX_DISTANCE`.
pub proof fn lemma_sample_penalty_bounds(cs: Seq<Rgb>)
    ensures
        0 <= sample_penalty(cs) <= MAX_DISTANCE,
{
    lemma_max_pair_distance_bounds(cs, cs.len() as int);
}

proof fn lemma_max_distance_to_bounds(cs: Seq<Rgb>, k: int, c: Rgb)
    ensures
        0 <= max_distance_to(cs, k, c) <= MAX_DISTANCE,
    decreases k,
{
    if k > 0 {
        lemma_max_distance_to_bounds(cs, k - 1, c);
    }
}

proof fn lemma_max_pair_distance_bounds(cs: Seq<Rgb>, k: int)
    ensures
        0 <= max_pair_distance(cs, k) <= MAX_DISTANCE,
    decreases k,
{
    if k > 0 {
        lemma_max_pair_distance_bounds(cs, k - 1);
        lemma_max_distance_to_bounds(cs, k - 1, cs[k - 1]);
    }
}

proof fn lemma_penalty_total_bounds(arr: Seq<ImageArrangement>, rasters: Seq<Raster>, pts: Seq<(u32, u32)>)
    ensures
        0 <= penalty_total(arr, rasters, pts) <= MAX_DISTANCE * pts.len(),
    decreases pts.len(),
{
    if pts.len() > 0 {
        lemma_penalty_total_bounds(arr, rasters, pts.drop_last());
        lemma_sample_penalty_bounds(colors_at(arr, rasters, pts.last().0 as int, pts.last().1 as int));
    }
}

/// Fitness is never negative, and never above `MAX_DISTANCE * FITNESS_SCALE`,
/// whatever the candidate and the sample points.
pub proof fn lemma_fitness_non_negative(arr: Seq<ImageArrangement>, rasters: Seq<Raster>, pts: Seq<(u32, u32)>)
    requires
        pts.len() > 0,
    ensures
        0 <= fitness_of(arr, rasters, pts) <= MAX_DISTANCE * FITNESS_SCALE,
{
    lemma_penalty_total_bounds(arr, rasters, pts);
    let t = penalty_total(arr, rasters, pts);
    let n = pts.len() as int;
    assert(0 <= (t * 1000) / n <= 765000) by (nonlinear_arith)
        requires
            0 <= t <= 765 * n,
            n > 0,
    {
        vstd::arithmetic::div_mod::lemma_div_is_ordered(t * 1000, 765000 * n, n);
        vstd::arithmetic::div_mod::lemma_div_by_multiple(765000, n);
        vstd::arithmetic::div_mod::lemma_div_pos_is_pos(t * 1000, n);
    }
}

/// How many points of `pts` exactly one photograph of `arr` covers.
pub open spec fn single_cover_count(arr: Seq<ImageArrangement>, rasters: Seq<Raster>, pts: Seq<(u32, u32)>) -> int
    decreases pts.len(),
{
    if pts.len() == 0 {
        0
    } else {
        single_cover_count(arr, rasters, pts.drop_last()) + if colors_at(
            arr,
            rasters,
            pts.last().0 as int,
            pts.last().1 as int,
        ).len() == 1 {
            1int
        } else {
            0int
        }
    }
}

/// No canvas point is covered by two photographs of `arr`.
pub open spec fn no_overlap(arr: Seq<ImageArrangement>, rasters: Seq<Raster>) -> bool {
    forall|i: int, j: int, cx: int, cy: int|
        0 <= i < j < arr.len() && #[trigger] covers(arr[i], rasters[arr[i].image as int], cx, cy)
            ==> !#[trigger] covers(arr[j], rasters[arr[j].image as int], cx, cy)
}

proof fn lemma_no_overlap_colors(arr: Seq<ImageArrangement>, rasters: Seq<Raster>, cx: int, cy: int)
    requires
        no_overlap(arr, rasters),
    ensures
        colors_at(arr, rasters, cx, cy).len() <= 1,
        colors_at(arr, rasters, cx, cy).len() == 1 ==> exists|i: int|
            0 <= i < arr.len() && #[trigger] covers(arr[i], rasters[arr[i].image as int], cx, cy),
    decreases arr.len(),
{
    if arr.len() > 0 {
        let prev = arr.drop_last();
        assert(no_overlap(prev, rasters)) by {
            assert forall|i: int, j: int, x: int, y: int|
                0 <= i < j < prev.len() && #[trigger] covers(prev[i], rasters[prev[i].image as int], x, y)
                implies !#[trigger] covers(prev[j], rasters[prev[j].image as int], x, y) by {
                assert(prev[i] == arr[i] && prev[j] == arr[j]);
            }
        }
        lemma_no_overlap_colors(prev, rasters, cx, cy);
        let last = arr.len() - 1;
        if colors_at(prev, rasters, cx, cy).len() == 1 {
            let i = choose|i: int|
                0 <= i < prev.len() && #[trigger] covers(prev[i], rasters[prev[i].image as int], cx, cy);
            assert(prev[i] == arr[i]);
            assert(covers(arr[i], rasters[arr[i].image as int], cx, cy));
            assert(!covers(arr[last], rasters[arr[last].image as int], cx, cy));
        } else {
            if covers(arr[last], rasters[arr[last].image as int], cx, cy) {
                assert(covers(arr[last], rasters[arr[last].image as int], cx, cy));
            }
        }
    }
}

proof fn lemma_no_overlap_total(arr: Seq<ImageArrangement>, rasters: Seq<Raster>, pts: Seq<(u32, u32)>)
    requires
        no_overlap(arr, rasters),
    ensures
        penalty_total(arr, rasters, pts) == SINGLE_PENALTY * single_cover_count(arr, rasters, pts),
    decreases pts.len(),
{
    if pts.len() > 0 {
        lemma_no_overlap_total(arr, rasters, pts.drop_last());
        lemma_no_overlap_colors(arr, rasters, pts.last().0 as int, pts.last().1 as int);
    }
}

/// Where no two photographs overlap, each sample point costs `SINGLE_PENALTY`
/// when one photograph covers it and nothing when none does: the fitness is
/// `SINGLE_PENALTY` times the share of points that one photograph covers.
pub proof fn lemma_zero_overlap_fitness(arr: Seq<ImageArrangement>, rasters: Seq<Raster>, pts: Seq<(u32, u32)>)
    requires
        no_overlap(arr, rasters),
        pts.len() > 0,
    ensures
        fitness_of(arr, rasters, pts) == (SINGLE_PENALTY * single_cover_count(arr, rasters, pts)
            * FITNESS_SCALE) / pts.len() as int,
{
    lemma_no_overlap_total(arr, rasters, pts);
}

} // verus!
