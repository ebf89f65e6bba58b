//! The coarse-to-fine pipeline: one run of the engine per tier, each seeded
//! with the winner of the tier before.
use vstd::prelude::*;
use crate::config::{engine_config, engine_config_of, PanolutionConfig};
use crate::engine::{run_darwin, run_from, EngineRun};
use crate::raster::Raster;
use crate::solution::{ImageArrangement, Solution, MAX_POS};

verus! {

/// Why a tier could not be seeded.
#[derive(Clone, Copy, PartialEq, Eq, Structural, Debug)]
pub enum SeedError {
    /// The settings give no sample count or no scale factor for this tier.
    NoSuchTier(usize),
    /// The scale factor of the tier before is zero.
    ZeroScale,
    /// No arrangement of the previous winner places the photograph with this identity.
    MissingImage(u64),
}

/// The arrangement of the raster at `image`, untouched: top left at the
/// origin, not turned.
pub open spec fn identity_arrangement(image: usize, samples: u32) -> ImageArrangement {
    ImageArrangement { image, samples, x0: 0, y0: 0, angle: 0 }
}

/// The arrangement of the raster at `image`, untouched.
pub fn create_image_arrangement(image: usize, samples: u32) -> (r: ImageArrangement)
    ensures
        r == identity_arrangement(image, samples),
{
    ImageArrangement { image, samples, x0: 0, y0: 0, angle: 0 }
}

/// A candidate that places each of `n` rasters untouched, in order.
pub open spec fn identity_spec(n: int, samples: u32) -> Seq<ImageArrangement> {
    Seq::new(n as nat, |k: int| identity_arrangement(k as usize, samples))
}

/// The first tier's seed: each raster placed untouched, in order.
pub fn identity_solution(rasters: &Vec<Raster>, samples: u32) -> (r: Solution)
    ensures
        r@ == identity_spec(rasters@.len() as int, samples),
{
    let mut v: Vec<ImageArrangement> = Vec::new();
    let mut k: usize = 0;
    while k < rasters.len()
        invariant
            k <= rasters@.len(),
            v@ == identity_spec(k as int, samples),
        decreases rasters@.len() - k,
    {
        v.push(create_image_arrangement(k, samples));
        k += 1;
        assert(v@ =~= identity_spec(k as int, samples));
    }
    Solution { arrangement: v }
}

/// A coordinate of the tier at `from` percent moved to the tier at `to`
/// percent, rounded down and kept in `[0, MAX_POS]`.
pub open spec fn rescale(v: u32, from: u32, to: u32) -> u32 {
    let s = (v * to) / (from as int);
    if s > MAX_POS {
        MAX_POS
    } else {
        s as u32
    }
}

/// `a` places, among `rasters`, the photograph whose identity is `id`.
pub open spec fn places_source(a: ImageArrangement, rasters: Seq<Raster>, id: u64) -> bool {
    a.image < rasters.len() && rasters[a.image as int].source_id == id
}

/// Some arrangement of `prev` places the photograph whose identity is `id`.
pub open spec fn has_source(prev: Seq<ImageArrangement>, rasters: Seq<Raster>, id: u64) -> bool {
    exists|j: int| 0 <= j < prev.len() && places_source(#[trigger] prev[j], rasters, id)
}

/// `a` is `p` carried to the raster at `image` of the next tier: the same
/// angle, the position rescaled.
pub open spec fn carried(a: ImageArrangement, p: ImageArrangement, image: usize, samples: u32, from: u32, to: u32) -> bool {
    a == ImageArrangement {
        image,
        samples,
        x0: rescale(p.x0, from, to),
        y0: rescale(p.y0, from, to),
        angle: p.angle,
    }
}

/// `s` is the seed carried from `prev` to `rasters`: one arrangement per
/// raster, in order, each carried from an arrangement of `prev` that places
/// the same photograph.
pub open spec fn seeded_from(
    s: Seq<ImageArrangement>,
    prev: Seq<ImageArrangement>,
    prev_rasters: Seq<Raster>,
    rasters: Seq<Raster>,
    samples: u32,
    from: u32,
    to: u32,
) -> bool {
    &&& s.len() == rasters.len()
    &&& forall|k: int|
        0 <= k < rasters.len() ==> carried_from_prev(
            #[trigger] s[k],
            k,
            prev,
            prev_rasters,
            rasters[k].source_id,
            samples,
            from,
            to,
        )
}

/// `a`, the arrangement at `k`, is carried from an arrangement of `prev` that
/// places the photograph whose identity is `id`.
pub open spec fn carried_from_prev(
    a: ImageArrangement,
    k: int,
    prev: Seq<ImageArrangement>,
    prev_rasters: Seq<Raster>,
    id: u64,
    samples: u32,
    from: u32,
    to: u32,
) -> bool {
    exists|j: int|
        0 <= j < prev.len() && places_source(prev[j], prev_rasters, id) && #[trigger] carried(
            a,
            prev[j],
            k as usize,
            samples,
            from,
            to,
        )
}

fn rescale_exec(v: u32, from: u32, to: u32) -> (r: u32)
    requires
        from > 0,
    ensures
        r == rescale(v, from, to),
{
    assert((v as int) * (to as int) <= 18446744073709551615) by (nonlinear_arith)
        requires
            v <= 4294967295,
            to <= 4294967295,
    ;
    let s: u64 = (v as u64) * (to as u64) / (from as u64);
    if s > MAX_POS as u64 {
        MAX_POS
    } else {
        s as u32
    }
}

/// The seed of a later tier: for each of its rasters, the arrangement of the
/// previous winner that places the same photograph, found by identity and
/// not by position, with its position rescaled from `from` to `to` percent.
pub fn carry_forward(
    prev: &Solution,
    prev_rasters: &Vec<Raster>,
    rasters: &Vec<Raster>,
    samples: u32,
    from: u32,
    to: u32,
) -> (r: Result<Solution, SeedError>)
    ensures
        from == 0 ==> r == Err::<Solution, SeedError>(SeedError::ZeroScale),
        r is Ok <==> from > 0 && forall|k: int|
            0 <= k < rasters@.len() ==> has_source(prev@, prev_rasters@, (#[trigger] rasters@[k]).source_id),
        r matches Err(SeedError::MissingImage(id)) ==> exists|k: int|
            0 <= k < rasters@.len() && (#[trigger] rasters@[k]).source_id == id && !has_source(
                prev@,
                prev_rasters@,
                id,
            ),
        r matches Ok(s) ==> seeded_from(s@, prev@, prev_rasters@, rasters@, samples, from, to),
        r matches Err(e) ==> !(e is NoSuchTier),
{
    if from == 0 {
        return Err(SeedError::ZeroScale);
    }
    let mut v: Vec<ImageArrangement> = Vec::new();
    let mut k: usize = 0;
    while k < rasters.len()
        invariant
            from > 0,
            k <= rasters@.len(),
            v@.len() == k,
            forall|i: int| 0 <= i < k ==> has_source(prev@, prev_rasters@, (#[trigger] rasters@[i]).source_id),
            forall|i: int|
                0 <= i < k ==> carried_from_prev(
                    #[trigger] v@[i],
                    i,
                    prev@,
                    prev_rasters@,
                    rasters@[i].source_id,
                    samples,
                    from,
                    to,
                ),
        decreases rasters@.len() - k,
    {
        let id = rasters[k].source_id;
        let mut j: usize = 0;
        let mut found = false;
        while j < prev.arrangement.len() && !found
            invariant
                j <= prev@.len(),
                k < rasters@.len(),
                id == rasters@[k as int].source_id,
                found ==> j < prev@.len() && places_source(prev@[j as int], prev_rasters@, id),
                forall|i: int| 0 <= i < j ==> !places_source(#[trigger] prev@[i], prev_rasters@, id),
            decreases prev@.len() - j + (if found { 0int } else { 1int }),
        {
            let p = prev.arrangement[j];
            if p.image < prev_rasters.len() && prev_rasters[p.image].source_id == id {
                found = true;
            } else {
                j += 1;
            }
        }
        if !found {
            proof {
                assert(!has_source(prev@, prev_rasters@, id));
                assert(!has_source(prev@, prev_rasters@, rasters@[k as int].source_id));
            }
            return Err(SeedError::MissingImage(id));
        }
        let p = prev.arrangement[j];
        assert(places_source(prev@[j as int], prev_rasters@, id));
        let a = ImageArrangement {
            image: k,
            samples,
            x0: rescale_exec(p.x0, from, to),
            y0: rescale_exec(p.y0, from, to),
            angle: p.angle,
        };
        let ghost old_v = v@;
        v.push(a);
        proof {
            assert(carried(v@[k as int], prev@[j as int], k as usize, samples, from, to));
            assert forall|i: int| 0 <= i < k + 1 implies carried_from_prev(
                #[trigger] v@[i],
                i,
                prev@,
                prev_rasters@,
                rasters@[i].source_id,
                samples,
                from,
                to,
            ) by {
                if i == k {
                    assert(places_source(prev@[j as int], prev_rasters@, rasters@[i].source_id));
                    assert(carried(v@[i], prev@[j as int], i as usize, samples, from, to));
                } else {
                    assert(v@[i] == old_v[i]);
                }
            }
        }
        k += 1;
    }
    assert(k == rasters@.len());
    assert(v@.len() == rasters@.len());
    assert(seeded_from(v@, prev@, prev_rasters@, rasters@, samples, from, to));
    let s = Solution { arrangement: v };
    assert(s@ == v@);
    Ok(s)
}

/// The scale factors, in percent, that a later tier's seed is carried from
/// and to: those of the tier before and of this one (the same for tier 0).
pub open spec fn tier_scales(config: PanolutionConfig, tier: int) -> (u32, u32) {
    let to = config.scale_factors@[tier];
    let from = if tier == 0 { to } else { config.scale_factors@[tier - 1] };
    (from, to)
}

/// Runs one tier: seeds it, then runs the engine on the seed. Tier 0, with
/// no previous winner, places each raster untouched; a later tier carries the
/// previous winner's geometry over to its own rasters by photograph identity,
/// its positions rescaled from the tier before. `sample_index` is the tier.
pub fn optimize(
    solution: Option<&Solution>,
    previous_rasters: &Vec<Raster>,
    rasters: &Vec<Raster>,
    config: &PanolutionConfig,
    sample_index: usize,
) -> (r: Result<EngineRun, SeedError>)
    ensures
        (sample_index >= config.num_of_samples@.len() || sample_index >= config.scale_factors@.len()) <==> r
            == Err::<EngineRun, SeedError>(SeedError::NoSuchTier(sample_index)),
        sample_index < config.num_of_samples@.len() && sample_index < config.scale_factors@.len() ==> {
            let samples = config.num_of_samples@[sample_index as int];
            let (from, to) = tier_scales(*config, sample_index as int);
            match solution {
                None => r matches Ok(run) && run_from(
                    run,
                    identity_spec(rasters@.len() as int, samples),
                    engine_config_of(*config),
                    rasters@,
                ),
                Some(prev) => {
                    &&& (r is Ok <==> from > 0 && forall|k: int|
                        0 <= k < rasters@.len() ==> has_source(
                            prev@,
                            previous_rasters@,
                            (#[trigger] rasters@[k]).source_id,
                        ))
                    &&& from == 0 ==> r == Err::<EngineRun, SeedError>(SeedError::ZeroScale)
                    &&& r matches Ok(run) ==> exists|seed: Seq<ImageArrangement>|
                        seeded_from(seed, prev@, previous_rasters@, rasters@, samples, from, to) && run_from(
                            run,
                            seed,
                            engine_config_of(*config),
                            rasters@,
                        )
                },
            }
        },
{
    if sample_index >= config.num_of_samples.len() || sample_index >= config.scale_factors.len() {
        return Err(SeedError::NoSuchTier(sample_index));
    }
    let samples = config.num_of_samples[sample_index];
    let to = config.scale_factors[sample_index];
    let from = if sample_index == 0 { to } else { config.scale_factors[sample_index - 1] };
    let seed = match solution {
        None => identity_solution(rasters, samples),
        Some(prev) => {
            match carry_forward(prev, previous_rasters, rasters, samples, from, to) {
                Ok(s) => s,
                Err(e) => {
                    return Err(e);
                },
            }
        },
    };
    let run = run_darwin(&seed, rasters, &engine_config(config));
    Ok(run)
}

} // verus!
