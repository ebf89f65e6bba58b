//! Lower-resolution copies of the photographs, one set per tier, kept on disk
//! and reused once made.
use vstd::prelude::*;
use crate::raster::{Raster, MAX_SIDE};
use crate::util::{supported_path, valid_image_file};

verus! {

/// What `image::imageops::resize` with the nearest-neighbour filter makes of
/// the RGB buffer `data` of `width * height` pixels, at `nwidth * nheight`.
pub uninterp spec fn nearest_resized(data: Seq<u8>, width: u32, height: u32, nwidth: u32, nheight: u32) -> Seq<u8>;

/// Relies on image's `ImageBuffer::from_raw`, which takes a buffer of exactly
/// three bytes per pixel, and `imageops::resize` with `FilterType::Nearest`,
/// whose result is an RGB buffer of `nwidth * nheight` pixels that depends on
/// its arguments alone.
#[verifier::external_body]
fn resize_nearest(data: &Vec<u8>, width: u32, height: u32, nwidth: u32, nheight: u32) -> (r: Vec<u8>)
    requires
        data@.len() == width * height * 3,
        0 < nwidth <= width,
        0 < nheight <= height,
    ensures
        r@.len() == nwidth * nheight * 3,
        r@ == nearest_resized(data@, width, height, nwidth, nheight),
{
    let src = image::RgbImage::from_raw(width, height, data.clone()).unwrap();
    image::imageops::resize(&src, nwidth, nheight, image::imageops::FilterType::Nearest).into_raw()
}

/// What to do for one photograph at one tier.
#[derive(Clone, Copy, PartialEq, Eq, Structural, Debug)]
pub enum ThumbnailPlan {
    /// The tier is at full size: take the full-size image.
    UseFullSize,
    /// The thumbnail is already on disk: load it.
    Reuse,
    /// Make the thumbnail from the full-size image and store it.
    Generate,
}

/// The plan for a tier at `scale_percent`, where `exists` says whether the
/// thumbnail file is already there.
pub open spec fn plan_spec(scale_percent: u32, exists: bool) -> ThumbnailPlan {
    if scale_percent >= 100 {
        ThumbnailPlan::UseFullSize
    } else if exists {
        ThumbnailPlan::Reuse
    } else {
        ThumbnailPlan::Generate
    }
}

/// Decides what to do for one photograph at a tier at `scale_percent`: an
/// existing thumbnail is authoritative and is never made again.
pub fn plan_thumbnail(scale_percent: u32, exists: bool) -> (r: ThumbnailPlan)
    ensures
        r == plan_spec(scale_percent, exists),
{
    if scale_percent >= 100 {
        ThumbnailPlan::UseFullSize
    } else if exists {
        ThumbnailPlan::Reuse
    } else {
        ThumbnailPlan::Generate
    }
}

/// Seeding a tier twice makes a thumbnail at most once: where the first
/// seeding made it, the second finds the file and reuses it, and a seeding
/// that finds the file never makes it again.
pub proof fn lemma_thumbnail_made_once(scale_percent: u32, exists: bool)
    ensures
        plan_spec(scale_percent, true) != ThumbnailPlan::Generate,
        plan_spec(scale_percent, exists) == ThumbnailPlan::Generate ==> plan_spec(scale_percent, true)
            == ThumbnailPlan::Reuse,
{
}

/// The prefix that marks a thumbnail file.
pub open spec fn thumbnail_prefix() -> Seq<char> {
    seq!['t', 'h', 'u', 'm', 'b', '_']
}

/// `name` starts with the thumbnail prefix.
pub open spec fn is_thumbnail_spec(name: Seq<char>) -> bool {
    name.len() >= 6 && name.subrange(0, 6) == thumbnail_prefix()
}

/// Whether `file_name` is the name of a thumbnail file.
pub fn is_thumbnail_name(file_name: &str) -> (r: bool)
    ensures
        r == is_thumbnail_spec(file_name@),
{
    let n = file_name.unicode_len();
    if n < 6 {
        return false;
    }
    let prefix = vec!['t', 'h', 'u', 'm', 'b', '_'];
    assert(prefix@ =~= thumbnail_prefix());
    let mut i: usize = 0;
    while i < 6
        invariant
            n == file_name@.len() >= 6,
            prefix@ == thumbnail_prefix(),
            i <= 6,
            forall|j: int| 0 <= j < i ==> file_name@[j] == prefix@[j],
        decreases 6 - i,
    {
        if file_name.get_char(i) != prefix[i] {
            assert(file_name@.subrange(0, 6)[i as int] != thumbnail_prefix()[i as int]);
            return false;
        }
        i += 1;
    }
    assert(file_name@.subrange(0, 6) =~= thumbnail_prefix());
    true
}

/// Whether the file `file_name` is a source photograph: a supported image
/// format and not a thumbnail.
pub fn is_source_image(file_name: &str) -> (r: bool)
    ensures
        r == (supported_path(file_name@) && !is_thumbnail_spec(file_name@)),
{
    valid_image_file(file_name) && !is_thumbnail_name(file_name)
}

/// A side of `side` pixels at `scale_percent`, rounded down, and at least 1.
pub open spec fn scaled_side(side: u32, scale_percent: u32) -> u32 {
    let s = (side * scale_percent / 100) as u32;
    if s == 0 {
        1
    } else {
        s
    }
}

/// The size of the thumbnail at `scale_percent` of an image of `width` by `height`.
pub fn thumbnail_size(width: u32, height: u32, scale_percent: u32) -> (r: (u32, u32))
    requires
        scale_percent <= 100,
    ensures
        r.0 == scaled_side(width, scale_percent),
        r.1 == scaled_side(height, scale_percent),
        width > 0 ==> r.0 <= width,
        height > 0 ==> r.1 <= height,
{
    assert(width * scale_percent / 100 <= width) by (nonlinear_arith)
        requires
            scale_percent <= 100,
    {
        assert(width * scale_percent <= width * 100);
    }
    assert(height * scale_percent / 100 <= height) by (nonlinear_arith)
        requires
            scale_percent <= 100,
    {
        assert(height * scale_percent <= height * 100);
    }
    let w: u32 = ((width as u64) * (scale_percent as u64) / 100) as u32;
    let h: u32 = ((height as u64) * (scale_percent as u64) / 100) as u32;
    (if w == 0 { 1 } else { w }, if h == 0 { 1 } else { h })
}

/// The thumbnail of `full` at `scale_percent`, to be stored at `path`.
pub fn make_thumbnail(full: &Raster, scale_percent: u32, path: String) -> (r: Raster)
    requires
        full.wf(),
        scale_percent <= 100,
    ensures
        r.wf(),
        r.source_id == full.source_id,
        r.path@ == path@,
        r.width == scaled_side(full.width, scale_percent),
        r.height == scaled_side(full.height, scale_percent),
        r.data@ == nearest_resized(full.data@, full.width, full.height, r.width, r.height),
{
    let (w, h) = thumbnail_size(full.width, full.height, scale_percent);
    let data = resize_nearest(&full.data, full.width, full.height, w, h);
    assert(w <= MAX_SIDE && h <= MAX_SIDE);
    Raster { source_id: full.source_id, path, width: w, height: h, data }
}

} // verus!
