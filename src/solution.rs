//! Candidate arrangements: where each photograph is placed and how it is turned.
use vstd::prelude::*;
use crate::angle::{angle_in_range, FULL_TURN};
use crate::raster::Raster;

verus! {

/// The extent of the canvas in pixels, along x and along y: the top-left
/// corner of a placed photograph lies in `[0, CANVAS_EXTENT)` on each axis.
pub const CANVAS_EXTENT: u32 = 16777216;

/// The largest x or y coordinate of a placed photograph's top-left corner.
pub const MAX_POS: u32 = CANVAS_EXTENT - 1;

/// One placed photograph.
///
/// `image` indexes the tier's rasters, which every candidate shares; `x0`
/// and `y0` are the top-left corner on the canvas in pixels; `angle` is in
/// tenths of a degree; `samples` is how many sample points a fitness
/// evaluation draws.
#[derive(Clone, Copy, PartialEq, Eq, Structural, Debug)]
pub struct ImageArrangement {
    pub image: usize,
    pub samples: u32,
    pub x0: u32,
    pub y0: u32,
    pub angle: u32,
}

/// A full candidate: one arrangement per source photograph.
#[derive(Clone, Debug)]
pub struct Solution {
    pub arrangement: Vec<ImageArrangement>,
}

impl View for Solution {
    type V = Seq<ImageArrangement>;

    open spec fn view(&self) -> Seq<ImageArrangement> {
        self.arrangement@
    }
}

impl ImageArrangement {
    /// The geometry is in range and `image` names a well-formed raster.
    pub open spec fn valid_for(&self, rasters: Seq<Raster>) -> bool {
        &&& self.image < rasters.len()
        &&& rasters[self.image as int].wf()
        &&& self.x0 <= MAX_POS
        &&& self.y0 <= MAX_POS
        &&& angle_in_range(self.angle as int)
    }

    /// The geometry alone is in range.
    pub open spec fn geometry_in_range(&self) -> bool {
        &&& self.x0 <= MAX_POS
        &&& self.y0 <= MAX_POS
        &&& angle_in_range(self.angle as int)
    }
}

/// Every arrangement of `s` is valid for `rasters`.
pub open spec fn solution_valid(s: Seq<ImageArrangement>, rasters: Seq<Raster>) -> bool {
    forall|i: int| 0 <= i < s.len() ==> (#[trigger] s[i]).valid_for(rasters)
}

/// Every arrangement of `s` has its geometry in range.
pub open spec fn geometry_valid(s: Seq<ImageArrangement>) -> bool {
    forall|i: int| 0 <= i < s.len() ==> (#[trigger] s[i]).geometry_in_range()
}

/// `s` and `t` place the same photographs, in the same order, with the same
/// sample weights.
pub open spec fn same_images(s: Seq<ImageArrangement>, t: Seq<ImageArrangement>) -> bool {
    &&& s.len() == t.len()
    &&& forall|k: int|
        0 <= k < s.len() ==> (#[trigger] s[k]).image == t[k].image && s[k].samples == t[k].samples
}

impl Solution {
    /// A copy of this solution.
    pub fn duplicate(&self) -> (r: Solution)
        ensures
            r@ == self@,
    {
        let mut v: Vec<ImageArrangement> = Vec::new();
        let mut i: usize = 0;
        while i < self.arrangement.len()
            invariant
                i <= self@.len(),
                v@ == self@.subrange(0, i as int),
            decreases self@.len() - i,
        {
            v.push(self.arrangement[i]);
            i += 1;
        }
        assert(v@ =~= self@);
        Solution { arrangement: v }
    }

    /// Puts every photograph back untouched: top left at the origin, not
    /// turned.
    pub fn reset(&mut self)
        ensures
            final(self)@.len() == old(self)@.len(),
            forall|k: int|
                0 <= k < final(self)@.len() ==> #[trigger] final(self)@[k] == (ImageArrangement {
                    x0: 0,
                    y0: 0,
                    angle: 0,
                    ..old(self)@[k]
                }),
    {
        let ghost s = self@;
        let mut i: usize = 0;
        while i < self.arrangement.len()
            invariant
                i <= self@.len() == s.len(),
                forall|k: int|
                    0 <= k < s.len() ==> #[trigger] self@[k] == if k < i {
                        ImageArrangement { x0: 0, y0: 0, angle: 0, ..s[k] }
                    } else {
                        s[k]
                    },
            decreases s.len() - i,
        {
            let a = self.arrangement[i];
            self.arrangement.set(i, ImageArrangement { x0: 0, y0: 0, angle: 0, ..a });
            i += 1;
        }
    }

    /// Checks that every arrangement is valid for `rasters`.
    pub fn is_valid_for(&self, rasters: &Vec<Raster>) -> (r: bool)
        ensures
            r == solution_valid(self@, rasters@),
    {
        let mut i: usize = 0;
        while i < self.arrangement.len()
            invariant
                i <= self@.len(),
                forall|k: int| 0 <= k < i ==> (#[trigger] self@[k]).valid_for(rasters@),
            decreases self@.len() - i,
        {
            let a = self.arrangement[i];
            if a.image >= rasters.len() || !rasters[a.image].is_wf() || a.x0 > MAX_POS
                || a.y0 > MAX_POS || a.angle >= FULL_TURN {
                return false;
            }
            i += 1;
        }
        true
    }
}

} // verus!
