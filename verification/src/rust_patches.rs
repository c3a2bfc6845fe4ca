//! Rust patches: noise-deformed polygons that grow over the grid.
//!
//! A patch is a closed 20-point loop around its position. Each tick the loop
//! is displaced radially by injected noise samples, its size follows a
//! grow-then-fade life-cycle, and its colour infects the grid cells whose
//! centres it covers.

use vstd::prelude::*;
use crate::colour::Hsla;
use crate::fixed::{clamped, clamp_i64, mul_milli, mul_div_milli, mul_div_milli_wide, tdiv_milli};
use crate::geometry::{Rect, Vec2i, Vec3i};
use crate::polygon::{
    matches_sign,
    point_in_polygon,
    polygon_contains,
    ring_around,
    ring_x_sign,
    ring_y_sign,
};
use crate::rng::{map_rng_range, next_u32};

verus! {

/// Vertices in every patch polygon.
pub const PATCH_POINT_COUNT: usize = 20;

/// How far the noise phase advances each tick, in milli-units.
pub const NOISE_Z_STEP: i64 = 3;

/// How much opacity a fully grown patch loses each tick, in milli-units.
pub const FADE_STEP: i64 = 2;

/// How long a patch takes to grow to its full size, in milliseconds.
pub const GROWTH_DURATION: i64 = 60_000;

/// The noise-phase offset separating a forked patch from its reference.
pub const FORK_PHASE_OFFSET: i64 = 10_000;

/// The fixed third noise coordinate used for the per-patch region sample.
pub const REGION_DEPTH: i64 = 100_000;

/// Polygon coordinates are kept within this magnitude, in milli-units.
pub const POINT_LIMIT: i64 = 1_000_000_000;

/// The size factor is kept within this magnitude, in milli-units.
pub const SIZE_LIMIT: i64 = 1_000_000_000_000;

/// The target size is kept within this magnitude, in milli-units.
pub const MAX_SIZE_LIMIT: i64 = 1_000_000_000;

/// The noise phase saturates at this magnitude, in milli-units.
pub const NOISE_Z_LIMIT: i64 = 1_000_000_000_000;

/// The longest supported span between a patch's creation and a tick, in
/// milliseconds.
pub const ELAPSED_LIMIT: i64 = 60_000_000;

/// The largest accepted deformation amplitude, in milli-units.
pub const AMPLITUDE_LIMIT: i64 = 1_000_000;

/// The largest accepted noise frequency, in milli-units.
pub const FREQUENCY_LIMIT: i64 = 1_000_000;

/// A point's radial displacement factor is clamped to stay above minus one,
/// so a point never crosses the patch centre.
pub const VARIANCE_CLAMP: i64 = 999;

/// Vertex `k` of the undeformed patch loop: a 20-gon of radius one half,
/// anticlockwise from the positive x axis.
pub open spec fn ring_point(k: int) -> Vec2i {
    if k == 0 {
        Vec2i { x: 500i64, y: 0i64 }
    } else if k == 1 {
        Vec2i { x: 476i64, y: 155i64 }
    } else if k == 2 {
        Vec2i { x: 405i64, y: 294i64 }
    } else if k == 3 {
        Vec2i { x: 294i64, y: 405i64 }
    } else if k == 4 {
        Vec2i { x: 155i64, y: 476i64 }
    } else if k == 5 {
        Vec2i { x: 0i64, y: 500i64 }
    } else if k == 6 {
        Vec2i { x: -155i64, y: 476i64 }
    } else if k == 7 {
        Vec2i { x: -294i64, y: 405i64 }
    } else if k == 8 {
        Vec2i { x: -405i64, y: 294i64 }
    } else if k == 9 {
        Vec2i { x: -476i64, y: 155i64 }
    } else if k == 10 {
        Vec2i { x: -500i64, y: 0i64 }
    } else if k == 11 {
        Vec2i { x: -476i64, y: -155i64 }
    } else if k == 12 {
        Vec2i { x: -405i64, y: -294i64 }
    } else if k == 13 {
        Vec2i { x: -294i64, y: -405i64 }
    } else if k == 14 {
        Vec2i { x: -155i64, y: -476i64 }
    } else if k == 15 {
        Vec2i { x: 0i64, y: -500i64 }
    } else if k == 16 {
        Vec2i { x: 155i64, y: -476i64 }
    } else if k == 17 {
        Vec2i { x: 294i64, y: -405i64 }
    } else if k == 18 {
        Vec2i { x: 405i64, y: -294i64 }
    } else {
        Vec2i { x: 476i64, y: -155i64 }
    }
}

/// The whole undeformed loop.
pub open spec fn unit_ring_seq() -> Seq<Vec2i> {
    Seq::new(20, |k: int| ring_point(k))
}

/// A deformed loop keeps each vertex in the angular sector the ring layout
/// gave it, within the coordinate bound.
pub open spec fn ring_shaped(pts: Seq<Vec2i>) -> bool {
    &&& pts.len() == 20
    &&& forall|k: int|
        0 <= k < 20 ==> matches_sign((#[trigger] pts[k]).x as int, ring_x_sign(k)) && matches_sign(
            pts[k].y as int,
            ring_y_sign(k),
        ) && -POINT_LIMIT <= pts[k].x <= POINT_LIMIT && -POINT_LIMIT <= pts[k].y <= POINT_LIMIT
}

/// Build the undeformed loop.
fn unit_ring() -> (v: Vec<Vec2i>)
    ensures
        v@ == unit_ring_seq(),
{
    let mut v: Vec<Vec2i> = Vec::new();
    v.push(Vec2i { x: 500, y: 0 });
    v.push(Vec2i { x: 476, y: 155 });
    v.push(Vec2i { x: 405, y: 294 });
    v.push(Vec2i { x: 294, y: 405 });
    v.push(Vec2i { x: 155, y: 476 });
    v.push(Vec2i { x: 0, y: 500 });
    v.push(Vec2i { x: -155, y: 476 });
    v.push(Vec2i { x: -294, y: 405 });
    v.push(Vec2i { x: -405, y: 294 });
    v.push(Vec2i { x: -476, y: 155 });
    v.push(Vec2i { x: -500, y: 0 });
    v.push(Vec2i { x: -476, y: -155 });
    v.push(Vec2i { x: -405, y: -294 });
    v.push(Vec2i { x: -294, y: -405 });
    v.push(Vec2i { x: -155, y: -476 });
    v.push(Vec2i { x: 0, y: -500 });
    v.push(Vec2i { x: 155, y: -476 });
    v.push(Vec2i { x: 294, y: -405 });
    v.push(Vec2i { x: 405, y: -294 });
    v.push(Vec2i { x: 476, y: -155 });
    proof {
        assert(v@ =~= unit_ring_seq());
    }
    v
}

/// The undeformed loop is ring shaped.
proof fn lemma_unit_ring_shaped()
    ensures
        ring_shaped(unit_ring_seq()),
{
    assert forall|k: int|
        0 <= k < 20 implies matches_sign((#[trigger] unit_ring_seq()[k]).x as int, ring_x_sign(k))
        && matches_sign(unit_ring_seq()[k].y as int, ring_y_sign(k)) && -POINT_LIMIT
        <= unit_ring_seq()[k].x <= POINT_LIMIT && -POINT_LIMIT <= unit_ring_seq()[k].y
        <= POINT_LIMIT by {
        assert(unit_ring_seq()[k] == ring_point(k));
    }
}

/// The amplitude after the per-patch region modulation: the input amplitude
/// scaled by `1.5 + region`, so patches in noisier regions deform more.
pub open spec fn eff_amplitude(amplitude: int, region: int) -> int {
    amplitude * (1500 + region) / 1000
}

/// The radial displacement factor a raw noise sample gives one vertex,
/// clamped so the vertex never crosses the patch centre.
pub open spec fn point_variance(raw: int, amplitude: int, region: int) -> int {
    clamped(
        tdiv_milli(raw * eff_amplitude(amplitude, region)),
        -VARIANCE_CLAMP as int,
        VARIANCE_CLAMP as int,
    )
}

/// One coordinate displaced radially: the point moves along its own
/// direction from the centre by the factor `v / 1000`, saturating at the
/// coordinate bound.
pub open spec fn deformed_coord(x: int, v: int) -> int {
    clamped(x + tdiv_milli(x * v), -POINT_LIMIT as int, POINT_LIMIT as int)
}

/// One vertex after its tick of noise deformation.
pub open spec fn deformed_point(p: Vec2i, raw: int, amplitude: int, region: int) -> Vec2i {
    Vec2i {
        x: deformed_coord(p.x as int, point_variance(raw, amplitude, region)) as i64,
        y: deformed_coord(p.y as int, point_variance(raw, amplitude, region)) as i64,
    }
}

/// One tick of the growth and fade life-cycle: a size below one is floored,
/// a growing patch follows the linear ramp toward `max_size` over the growth
/// duration, and a fully grown patch fades until its opacity runs out and
/// both reset.
pub open spec fn cycle_step(size: int, max_size: int, opacity: int, elapsed: int) -> (int, int) {
    if size < 1000 {
        (1000int, opacity)
    } else if size <= max_size {
        (max_size * elapsed / (GROWTH_DURATION as int), opacity)
    } else if opacity - FADE_STEP <= 0 {
        (1000int, 1000int)
    } else {
        (size, opacity - FADE_STEP)
    }
}

/// Radial displacement with a factor above minus one keeps a coordinate's
/// sign: a positive coordinate shrinks at most to one, never through zero.
proof fn lemma_deform_sign(x: int, v: int)
    requires
        -VARIANCE_CLAMP <= v <= VARIANCE_CLAMP,
        -POINT_LIMIT <= x <= POINT_LIMIT,
    ensures
        x > 0 ==> deformed_coord(x, v) > 0,
        x == 0 ==> deformed_coord(x, v) == 0,
        x < 0 ==> deformed_coord(x, v) < 0,
        -POINT_LIMIT <= deformed_coord(x, v) <= POINT_LIMIT,
{
    if x == 0 {
        assert(x * v == 0) by (nonlinear_arith)
            requires
                x == 0,
        ;
    } else if x > 0 {
        if v >= 0 {
            vstd::arithmetic::mul::lemma_mul_nonnegative(x, v);
            crate::fixed::lemma_tdiv_milli_bounds(x * v);
        } else {
            let w = -v;
            assert(x * v == -(x * w)) by (nonlinear_arith)
                requires
                    w == -v,
            ;
            assert(x * w <= 999 * x) by (nonlinear_arith)
                requires
                    0 < x,
                    0 <= w <= 999,
            ;
            vstd::arithmetic::mul::lemma_mul_nonnegative(x, w);
            vstd::arithmetic::div_mod::lemma_div_is_ordered(x * w, 999 * x, 1000);
            assert(999 * x <= 1000 * (x - 1) + 999);
            vstd::arithmetic::div_mod::lemma_div_is_ordered(999 * x, 1000 * (x - 1) + 999, 1000);
            vstd::arithmetic::div_mod::lemma_div_multiples_vanish_fancy(x - 1, 999, 1000);
            assert((x * w) / 1000 <= x - 1);
        }
    } else {
        let u = -x;
        if v >= 0 {
            assert(x * v == -(u * v)) by (nonlinear_arith)
                requires
                    u == -x,
            ;
            vstd::arithmetic::mul::lemma_mul_nonnegative(u, v);
            crate::fixed::lemma_tdiv_milli_bounds(u * v);
        } else {
            let w = -v;
            assert(x * v == u * w) by (nonlinear_arith)
                requires
                    u == -x,
                    w == -v,
            ;
            assert(u * w <= 999 * u) by (nonlinear_arith)
                requires
                    0 < u,
                    0 <= w <= 999,
            ;
            vstd::arithmetic::mul::lemma_mul_nonnegative(u, w);
            vstd::arithmetic::div_mod::lemma_div_is_ordered(u * w, 999 * u, 1000);
            assert(999 * u <= 1000 * (u - 1) + 999);
            vstd::arithmetic::div_mod::lemma_div_is_ordered(999 * u, 1000 * (u - 1) + 999, 1000);
            vstd::arithmetic::div_mod::lemma_div_multiples_vanish_fancy(u - 1, 999, 1000);
            assert((u * w) / 1000 <= u - 1);
        }
    }
}

/// An organic growth region: a deformed polygon with a colour, a growth and
/// fade life-cycle, and an independent noise phase.
#[derive(Clone, Debug)]
pub struct RustPatch {
    /// The colour the patch paints cells with.
    pub colour: Hsla,
    /// The patch's centre, fixed at creation.
    pub position: Vec2i,
    /// The current size factor, in milli-units: `1000` draws the loop at its
    /// stored coordinates.
    pub size: i64,
    /// The size the patch grows toward, in milli-units.
    pub max_size: i64,
    /// The closed loop around the origin, scaled by `size / 1000` and moved
    /// to `position` when tested or drawn.
    pub points: Vec<Vec2i>,
    /// The patch's own offset into the noise field's third axis.
    pub noise_z: i64,
    /// When the patch was created, in milliseconds.
    pub creation_time: i64,
    /// The current opacity, in milli-units; cycles from 1000 down and back.
    pub opacity: i64,
}

impl RustPatch {
    /// Valid state: colour and position well formed, the loop ring shaped,
    /// and every scalar inside its bound.
    pub open spec fn wf(self) -> bool {
        &&& self.colour.wf()
        &&& self.position.wf()
        &&& 0 <= self.size <= SIZE_LIMIT
        &&& 1000 <= self.max_size <= MAX_SIZE_LIMIT
        &&& ring_shaped(self.points@)
        &&& 0 <= self.noise_z <= NOISE_Z_LIMIT
        &&& 0 <= self.creation_time
        &&& 1 <= self.opacity <= 1000
    }

    /// Build a patch from explicit parts; the loop always starts undeformed.
    fn new(
        colour: Hsla,
        position: Vec2i,
        start_size: i64,
        max_size: i64,
        noise_z: i64,
        creation_time: i64,
    ) -> (r: RustPatch)
        requires
            colour.wf(),
            position.wf(),
            0 <= start_size <= SIZE_LIMIT,
            1000 <= max_size <= MAX_SIZE_LIMIT,
            0 <= noise_z <= NOISE_Z_LIMIT,
            0 <= creation_time,
        ensures
            r.colour == colour,
            r.position == position,
            r.size == start_size,
            r.max_size == max_size,
            r.points@ == unit_ring_seq(),
            r.noise_z == noise_z,
            r.creation_time == creation_time,
            r.opacity == 1000,
            r.wf(),
    {
        proof {
            lemma_unit_ring_shaped();
        }
        RustPatch {
            colour,
            position,
            size: start_size,
            max_size,
            points: unit_ring(),
            noise_z,
            creation_time,
            opacity: 1000,
        }
    }

    /// Place a new patch uniformly at random inside `window_rect`, with a
    /// random noise phase in `[0, 100]` units. Draw order: x, then y, then
    /// phase.
    pub fn new_rand(
        rng: &mut rand_chacha::ChaCha8Rng,
        window_rect: &Rect,
        start_size: i64,
        max_size: i64,
        creation_time: i64,
        colour: Hsla,
    ) -> (r: RustPatch)
        requires
            window_rect.wf(),
            colour.wf(),
            0 <= start_size <= SIZE_LIMIT,
            1000 <= max_size <= MAX_SIZE_LIMIT,
            0 <= creation_time,
        ensures
            window_rect.spec_contains(r.position),
            r.position.wf(),
            r.colour == colour,
            r.size == start_size,
            r.max_size == max_size,
            r.points@ == unit_ring_seq(),
            0 <= r.noise_z <= 100_000,
            r.creation_time == creation_time,
            r.opacity == 1000,
            r.wf(),
    {
        let x: i64 = map_rng_range(next_u32(rng), window_rect.left, window_rect.right());
        let y: i64 = map_rng_range(next_u32(rng), window_rect.bottom, window_rect.top());
        let noise_z: i64 = map_rng_range(next_u32(rng), 0, 100_000);
        Self::new(colour, Vec2i { x, y }, start_size, max_size, noise_z, creation_time)
    }

    /// Fork a patch from `ref_patch`: same position and target size, fresh
    /// colour, restarted size, and a noise phase offset far enough to
    /// decorrelate the two silhouettes.
    pub fn new_from_ref(ref_patch: &RustPatch, colour: Hsla, creation_time: i64) -> (r: RustPatch)
        requires
            ref_patch.wf(),
            colour.wf(),
            0 <= creation_time,
        ensures
            r.colour == colour,
            r.position == ref_patch.position,
            r.size == 1000,
            r.max_size == ref_patch.max_size,
            r.points@ == unit_ring_seq(),
            r.noise_z == if ref_patch.noise_z + FORK_PHASE_OFFSET <= NOISE_Z_LIMIT {
                ref_patch.noise_z + FORK_PHASE_OFFSET
            } else {
                NOISE_Z_LIMIT as int
            },
            r.creation_time == creation_time,
            r.opacity == 1000,
            r.wf(),
    {
        let noise_z: i64 = if ref_patch.noise_z <= NOISE_Z_LIMIT - FORK_PHASE_OFFSET {
            ref_patch.noise_z + FORK_PHASE_OFFSET
        } else {
            NOISE_Z_LIMIT
        };
        Self::new(
            colour,
            ref_patch.position,
            1000,
            ref_patch.max_size,
            noise_z,
            creation_time,
        )
    }

    /// The patch's colour.
    pub fn colour(&self) -> (c: &Hsla)
        ensures
            *c == self.colour,
    {
        &self.colour
    }

    /// One simulation tick: advance the noise phase, displace every vertex
    /// radially by its injected noise sample scaled by the modulated
    /// amplitude, then step the growth and fade life-cycle.
    ///
    /// `region` is the noise field sampled at `region_query`, and
    /// `variances` the samples at `noise_inputs`, both in `[-1000, 1000]`;
    /// the patch behaves as specified for every such value.
    #[verifier::loop_isolation(false)]
    pub fn update(&mut self, region: i64, variances: &Vec<i64>, amplitude: i64, time: i64)
        requires
            old(self).wf(),
            -1000 <= region <= 1000,
            variances@.len() == PATCH_POINT_COUNT,
            forall|k: int| 0 <= k < variances@.len() ==> -1000 <= #[trigger] variances@[k] <= 1000,
            0 <= amplitude <= AMPLITUDE_LIMIT,
            old(self).creation_time <= time,
            time - old(self).creation_time <= ELAPSED_LIMIT,
        ensures
            final(self).colour == old(self).colour,
            final(self).position == old(self).position,
            final(self).max_size == old(self).max_size,
            final(self).creation_time == old(self).creation_time,
            final(self).noise_z == if old(self).noise_z + NOISE_Z_STEP <= NOISE_Z_LIMIT {
                old(self).noise_z + NOISE_Z_STEP
            } else {
                NOISE_Z_LIMIT as int
            },
            final(self).points@.len() == old(self).points@.len(),
            forall|k: int|
                0 <= k < old(self).points@.len() ==> (#[trigger] final(self).points@[k])
                    == deformed_point(
                    old(self).points@[k],
                    variances@[k] as int,
                    amplitude as int,
                    region as int,
                ),
            final(self).size == cycle_step(
                old(self).size as int,
                old(self).max_size as int,
                old(self).opacity as int,
                time - old(self).creation_time,
            ).0,
            final(self).opacity == cycle_step(
                old(self).size as int,
                old(self).max_size as int,
                old(self).opacity as int,
                time - old(self).creation_time,
            ).1,
            final(self).wf(),
    {
        proof {
            assert(0 <= (amplitude as int) * (1500 + region) <= 2_500_000_000)
                by (nonlinear_arith)
                requires
                    0 <= amplitude <= 1_000_000,
                    500 <= 1500 + region <= 2500,
            ;
        }
        let amp_eff: i64 = amplitude * (1500 + region) / 1000;
        proof {
            assert(amp_eff == eff_amplitude(amplitude as int, region as int));
            assert(0 <= amp_eff <= 2_500_000);
        }
        let mut k: usize = 0;
        while k < PATCH_POINT_COUNT
            invariant
                k <= PATCH_POINT_COUNT,
                self.points@.len() == 20,
                forall|kk: int|
                    0 <= kk < k ==> (#[trigger] self.points@[kk]) == deformed_point(
                        old(self).points@[kk],
                        variances@[kk] as int,
                        amplitude as int,
                        region as int,
                    ),
                forall|kk: int|
                    k <= kk < 20 ==> (#[trigger] self.points@[kk]) == old(self).points@[kk],
                self.colour == old(self).colour,
                self.position == old(self).position,
                self.size == old(self).size,
                self.max_size == old(self).max_size,
                self.noise_z == old(self).noise_z,
                self.creation_time == old(self).creation_time,
                self.opacity == old(self).opacity,
            decreases PATCH_POINT_COUNT - k,
        {
            let p: Vec2i = self.points[k];
            let raw: i64 = variances[k];
            proof {
                assert(-2_500_000_000_000 <= (raw as int) * (amp_eff as int)
                    <= 2_500_000_000_000) by (nonlinear_arith)
                    requires
                        -1000 <= raw <= 1000,
                        0 <= amp_eff <= 2_500_000,
                ;
            }
            let prod: i64 = raw * amp_eff;
            let v0: i64 = if prod >= 0 {
                prod / 1000
            } else {
                -((-prod) / 1000)
            };
            let v: i64 = clamp_i64(v0, -VARIANCE_CLAMP, VARIANCE_CLAMP);
            proof {
                assert(v0 == tdiv_milli((raw as int) * (amp_eff as int)));
                assert(v == point_variance(raw as int, amplitude as int, region as int));
                assert(-1_000_000_000_000 <= (p.x as int) * (v as int) <= 1_000_000_000_000)
                    by (nonlinear_arith)
                    requires
                        -1_000_000_000 <= p.x <= 1_000_000_000,
                        -999 <= v <= 999,
                ;
                assert(-1_000_000_000_000 <= (p.y as int) * (v as int) <= 1_000_000_000_000)
                    by (nonlinear_arith)
                    requires
                        -1_000_000_000 <= p.y <= 1_000_000_000,
                        -999 <= v <= 999,
                ;
                crate::fixed::lemma_tdiv_milli_bounds((p.x as int) * (v as int));
                crate::fixed::lemma_tdiv_milli_bounds((p.y as int) * (v as int));
            }
            let dx: i64 = mul_div_milli(p.x, v);
            let dy: i64 = mul_div_milli(p.y, v);
            let nx: i64 = clamp_i64(p.x + dx, -POINT_LIMIT, POINT_LIMIT);
            let ny: i64 = clamp_i64(p.y + dy, -POINT_LIMIT, POINT_LIMIT);
            self.points[k] = Vec2i { x: nx, y: ny };
            k += 1;
            proof {
                assert(self.points@[k as int - 1] == deformed_point(
                    old(self).points@[k as int - 1],
                    variances@[k as int - 1] as int,
                    amplitude as int,
                    region as int,
                ));
            }
        }
        if self.noise_z <= NOISE_Z_LIMIT - NOISE_Z_STEP {
            self.noise_z = self.noise_z + NOISE_Z_STEP;
        } else {
            self.noise_z = NOISE_Z_LIMIT;
        }
        if self.size < 1000 {
            self.size = 1000;
        } else if self.size <= self.max_size {
            let elapsed: i64 = time - self.creation_time;
            proof {
                assert(0 <= (self.max_size as int) * (elapsed as int) <= 60_000_000_000_000_000)
                    by (nonlinear_arith)
                    requires
                        1000 <= self.max_size <= 1_000_000_000,
                        0 <= elapsed <= 60_000_000,
                ;
            }
            self.size = self.max_size * elapsed / GROWTH_DURATION;
        } else {
            self.opacity = self.opacity - FADE_STEP;
            if self.opacity <= 0 {
                self.opacity = 1000;
                self.size = 1000;
            }
        }
        proof {
            assert forall|kk: int|
                0 <= kk < 20 implies matches_sign(
                (#[trigger] self.points@[kk]).x as int,
                ring_x_sign(kk),
            ) && matches_sign(self.points@[kk].y as int, ring_y_sign(kk)) && -POINT_LIMIT
                <= self.points@[kk].x <= POINT_LIMIT && -POINT_LIMIT <= self.points@[kk].y
                <= POINT_LIMIT by {
                let v = point_variance(variances@[kk] as int, amplitude as int, region as int);
                lemma_deform_sign(old(self).points@[kk].x as int, v);
                lemma_deform_sign(old(self).points@[kk].y as int, v);
            }
        }
    }

    /// The patch's loop as it stands on the canvas: every vertex scaled by
    /// the current size and moved to the patch's position.
    pub open spec fn plotted_points(self) -> Seq<Vec2i> {
        Seq::new(
            20,
            |k: int|
                Vec2i {
                    x: (self.position.x + mul_milli(self.points@[k].x as int, self.size as int)) as i64,
                    y: (self.position.y + mul_milli(self.points@[k].y as int, self.size as int)) as i64,
                },
        )
    }

    /// Whether the patch, at its current position and size, covers `q`.
    pub open spec fn spec_contains(self, q: Vec2i) -> bool {
        polygon_contains(self.plotted_points(), q)
    }

    /// Every plotted coordinate stays within about an exa-milli-unit.
    proof fn lemma_plotted_bounds(self)
        requires
            self.wf(),
        ensures
            forall|k: int|
                0 <= k < 20 ==> -1_100_000_000_000_000_000 <= (#[trigger] self.plotted_points()[k]).x
                    <= 1_100_000_000_000_000_000 && -1_100_000_000_000_000_000
                    <= self.plotted_points()[k].y <= 1_100_000_000_000_000_000,
    {
        assert forall|k: int|
            0 <= k < 20 implies -1_100_000_000_000_000_000 <= (
        #[trigger] self.plotted_points()[k]).x <= 1_100_000_000_000_000_000
            && -1_100_000_000_000_000_000 <= self.plotted_points()[k].y
            <= 1_100_000_000_000_000_000 by {
            let px = self.points@[k].x as int;
            let py = self.points@[k].y as int;
            let s = self.size as int;
            assert(-1_000_000_000_000_000_000_000 <= px * s <= 1_000_000_000_000_000_000_000
                && -1_000_000_000_000_000_000_000 <= py * s
                <= 1_000_000_000_000_000_000_000) by (nonlinear_arith)
                requires
                    -1_000_000_000 <= px <= 1_000_000_000,
                    -1_000_000_000 <= py <= 1_000_000_000,
                    0 <= s <= 1_000_000_000_000,
            ;
            crate::fixed::lemma_tdiv_milli_range(px * s, 1_000_000_000_000_000_000_000);
            crate::fixed::lemma_tdiv_milli_range(py * s, 1_000_000_000_000_000_000_000);
        }
    }

    /// Whether the patch covers the point `position`: its loop is scaled by
    /// the current size, translated to the patch's position, and ray-cast.
    #[verifier::loop_isolation(false)]
    pub fn contains(&self, position: &Vec2i) -> (r: bool)
        requires
            self.wf(),
            -1_000_000_000_000_000_000 <= position.x <= 1_000_000_000_000_000_000,
            -1_000_000_000_000_000_000 <= position.y <= 1_000_000_000_000_000_000,
        ensures
            r == self.spec_contains(*position),
    {
        proof {
            self.lemma_plotted_bounds();
        }
        let mut plotted: Vec<Vec2i> = Vec::new();
        let mut k: usize = 0;
        while k < PATCH_POINT_COUNT
            invariant
                k <= 20,
                plotted@.len() == k,
                forall|kk: int|
                    0 <= kk < k ==> #[trigger] plotted@[kk] == self.plotted_points()[kk],
            decreases 20 - k,
        {
            let p: Vec2i = self.points[k];
            proof {
                assert(-1_000_000_000_000_000_000_000 <= (p.x as int) * (self.size as int)
                    <= 1_000_000_000_000_000_000_000 && -1_000_000_000_000_000_000_000 <= (
                p.y as int) * (self.size as int) <= 1_000_000_000_000_000_000_000)
                    by (nonlinear_arith)
                    requires
                        -1_000_000_000 <= p.x <= 1_000_000_000,
                        -1_000_000_000 <= p.y <= 1_000_000_000,
                        0 <= self.size <= 1_000_000_000_000,
                ;
                crate::fixed::lemma_tdiv_milli_range(
                    (p.x as int) * (self.size as int),
                    1_000_000_000_000_000_000_000,
                );
                crate::fixed::lemma_tdiv_milli_range(
                    (p.y as int) * (self.size as int),
                    1_000_000_000_000_000_000_000,
                );
            }
            let sx: i64 = mul_div_milli_wide(p.x, self.size);
            let sy: i64 = mul_div_milli_wide(p.y, self.size);
            plotted.push(Vec2i { x: self.position.x + sx, y: self.position.y + sy });
            k += 1;
            proof {
                assert(plotted@[k as int - 1] == self.plotted_points()[k as int - 1]);
            }
        }
        proof {
            assert(plotted@ =~= self.plotted_points());
        }
        point_in_polygon(&plotted, *position)
    }

    /// The noise-field coordinates at which to sample the per-vertex
    /// deformation for the next tick: each vertex scaled by `frequency`,
    /// with the patch's phase and position mixed into the third axis.
    #[verifier::loop_isolation(false)]
    pub fn noise_inputs(&self, frequency: i64) -> (v: Vec<Vec3i>)
        requires
            self.wf(),
            0 <= frequency <= FREQUENCY_LIMIT,
        ensures
            v@.len() == PATCH_POINT_COUNT,
            forall|k: int|
                0 <= k < 20 ==> #[trigger] v@[k] == (Vec3i {
                    x: mul_milli(self.points@[k].x as int, frequency as int) as i64,
                    y: mul_milli(self.points@[k].y as int, frequency as int) as i64,
                    z: mul_milli(
                        self.noise_z + self.position.x + self.position.y,
                        frequency as int,
                    ) as i64,
                }),
    {
        let zbase: i64 = self.noise_z + self.position.x + self.position.y;
        proof {
            assert(-2_000_000_000_000_000_000 <= (zbase as int) * (frequency as int)
                <= 2_000_000_000_000_000_000) by (nonlinear_arith)
                requires
                    -2_000_000_000_000 <= zbase <= 2_000_000_000_000,
                    0 <= frequency <= 1_000_000,
            ;
        }
        let z: i64 = mul_div_milli(zbase, frequency);
        let mut v: Vec<Vec3i> = Vec::new();
        let mut k: usize = 0;
        while k < PATCH_POINT_COUNT
            invariant
                k <= 20,
                v@.len() == k,
                forall|kk: int|
                    0 <= kk < k ==> #[trigger] v@[kk] == (Vec3i {
                        x: mul_milli(self.points@[kk].x as int, frequency as int) as i64,
                        y: mul_milli(self.points@[kk].y as int, frequency as int) as i64,
                        z: mul_milli(
                            self.noise_z + self.position.x + self.position.y,
                            frequency as int,
                        ) as i64,
                    }),
            decreases 20 - k,
        {
            let p: Vec2i = self.points[k];
            proof {
                assert(-1_000_000_000_000_000 <= (p.x as int) * (frequency as int)
                    <= 1_000_000_000_000_000 && -1_000_000_000_000_000 <= (p.y as int) * (
                frequency as int) <= 1_000_000_000_000_000) by (nonlinear_arith)
                    requires
                        -1_000_000_000 <= p.x <= 1_000_000_000,
                        -1_000_000_000 <= p.y <= 1_000_000_000,
                        0 <= frequency <= 1_000_000,
                ;
            }
            let x: i64 = mul_div_milli(p.x, frequency);
            let y: i64 = mul_div_milli(p.y, frequency);
            v.push(Vec3i { x, y, z });
            k += 1;
        }
        v
    }

    /// The noise-field coordinate at which to sample the patch's regional
    /// amplitude modulation: its own position at a fixed depth.
    pub fn region_query(&self) -> (v: Vec3i)
        ensures
            v.x == self.position.x,
            v.y == self.position.y,
            v.z == REGION_DEPTH,
    {
        Vec3i { x: self.position.x, y: self.position.y, z: REGION_DEPTH }
    }
}

/// How one call of `update` relates a patch's new state to its old, given
/// the injected noise samples: identity on colour, position, target size and
/// creation time; the phase advanced; every vertex deformed; the life-cycle
/// stepped.
pub open spec fn patch_stepped(
    p0: RustPatch,
    p1: RustPatch,
    region: int,
    vars: Seq<i64>,
    amplitude: int,
    time: int,
) -> bool {
    &&& p1.colour == p0.colour
    &&& p1.position == p0.position
    &&& p1.max_size == p0.max_size
    &&& p1.creation_time == p0.creation_time
    &&& p1.noise_z == if p0.noise_z + NOISE_Z_STEP <= NOISE_Z_LIMIT {
        p0.noise_z + NOISE_Z_STEP
    } else {
        NOISE_Z_LIMIT as int
    }
    &&& p1.points@.len() == p0.points@.len()
    &&& forall|k: int|
        0 <= k < p0.points@.len() ==> (#[trigger] p1.points@[k]) == deformed_point(
            p0.points@[k],
            vars[k] as int,
            amplitude,
            region,
        )
    &&& p1.size == cycle_step(
        p0.size as int,
        p0.max_size as int,
        p0.opacity as int,
        time - p0.creation_time,
    ).0
    &&& p1.opacity == cycle_step(
        p0.size as int,
        p0.max_size as int,
        p0.opacity as int,
        time - p0.creation_time,
    ).1
}

/// The life-cycle iterated: `n` ticks of `cycle_step` at a fixed elapsed
/// time.
pub open spec fn cycle_iter(size: int, max_size: int, opacity: int, elapsed: int, n: nat) -> (
    int,
    int,
)
    decreases n,
{
    if n == 0 {
        (size, opacity)
    } else {
        let s = cycle_step(size, max_size, opacity, elapsed);
        cycle_iter(s.0, max_size, s.1, elapsed, (n - 1) as nat)
    }
}

/// Growth law: halfway through the growth duration, a growing patch's size
/// is half its target, rounded down.
pub proof fn lemma_growth_halfway(size: int, max_size: int, opacity: int)
    requires
        1000 <= size <= max_size,
    ensures
        cycle_step(size, max_size, opacity, 30_000).0 == max_size / 2,
{
    vstd::arithmetic::div_mod::lemma_div_denominator(max_size * 30_000, 30_000, 2);
    vstd::arithmetic::div_mod::lemma_div_multiples_vanish(max_size, 30_000);
    vstd::arithmetic::mul::lemma_mul_is_commutative(max_size, 30_000);
}

/// Fade law: a fully grown patch, ticked repeatedly, loses opacity by the
/// fade step each tick until it runs out, and then resets both opacity and
/// size; from full opacity the reset comes after exactly 500 ticks.
pub proof fn lemma_fade_cycle(size: int, max_size: int, opacity: int, elapsed: int)
    requires
        1000 <= max_size < size,
        1 <= opacity <= 1000,
    ensures
        ({
            let n = ((opacity + 1) / 2) as nat;
            &&& cycle_iter(size, max_size, opacity, elapsed, n) == (1000int, 1000int)
            &&& n <= 500
            &&& (opacity == 1000 ==> n == 500)
            &&& forall|m: nat|
                m < n ==> #[trigger] cycle_iter(size, max_size, opacity, elapsed, m) == (
                size,
                opacity - 2 * m,
            )
        }),
    decreases opacity,
{
    let n = ((opacity + 1) / 2) as nat;
    if opacity <= 2 {
        assert(n == 1);
        assert(cycle_step(size, max_size, opacity, elapsed) == (1000int, 1000int));
        assert(cycle_iter(1000, max_size, 1000, elapsed, 0) == (1000int, 1000int));
        assert(cycle_iter(size, max_size, opacity, elapsed, 1) == (1000int, 1000int));
        assert forall|m: nat|
            m < n implies #[trigger] cycle_iter(size, max_size, opacity, elapsed, m) == (
        size,
        opacity - 2 * m,
        ) by {
            assert(m == 0);
        }
    } else {
        assert(cycle_step(size, max_size, opacity, elapsed) == (size, opacity - 2));
        lemma_fade_cycle(size, max_size, opacity - 2, elapsed);
        let n2 = ((opacity - 1) / 2) as nat;
        assert((opacity + 1) / 2 == (opacity - 1) / 2 + 1) by {
            vstd::arithmetic::div_mod::lemma_div_multiples_vanish_fancy((opacity - 1) / 2, (
            opacity + 1) % 2, 2);
            vstd::arithmetic::div_mod::lemma_fundamental_div_mod(opacity + 1, 2);
            vstd::arithmetic::div_mod::lemma_fundamental_div_mod(opacity - 1, 2);
        }
        assert(n == n2 + 1);
        assert(cycle_iter(size, max_size, opacity, elapsed, n) == cycle_iter(
            size,
            max_size,
            opacity - 2,
            elapsed,
            n2,
        ));
        assert forall|m: nat|
            m < n implies #[trigger] cycle_iter(size, max_size, opacity, elapsed, m) == (
        size,
        opacity - 2 * m,
        ) by {
            if m > 0 {
                assert(cycle_iter(size, max_size, opacity, elapsed, m) == cycle_iter(
                    size,
                    max_size,
                    opacity - 2,
                    elapsed,
                    (m - 1) as nat,
                ));
                assert(((m - 1) as nat) < n2);
                assert(cycle_iter(size, max_size, opacity - 2, elapsed, (m - 1) as nat) == (
                size,
                opacity - 2 - 2 * ((m - 1) as nat),
                ));
            }
        }
    }
}

/// Containment law, inner half: a patch always covers its own position once
/// its size has reached the life-cycle floor of one unit, however the noise
/// has deformed its loop.
pub proof fn lemma_position_contained(p: RustPatch)
    requires
        p.wf(),
        1000 <= p.size,
    ensures
        p.spec_contains(p.position),
{
    let pts = p.plotted_points();
    assert forall|k: int|
        0 <= k < 20 implies matches_sign((#[trigger] pts[k]).x - p.position.x, ring_x_sign(k))
        && matches_sign(pts[k].y - p.position.y, ring_y_sign(k)) by {
        let px = p.points@[k].x as int;
        let py = p.points@[k].y as int;
        let s = p.size as int;
        assert(-1_000_000_000_000_000_000_000 <= px * s <= 1_000_000_000_000_000_000_000
            && -1_000_000_000_000_000_000_000 <= py * s <= 1_000_000_000_000_000_000_000)
            by (nonlinear_arith)
            requires
                -1_000_000_000 <= px <= 1_000_000_000,
                -1_000_000_000 <= py <= 1_000_000_000,
                0 <= s <= 1_000_000_000_000,
        ;
        crate::fixed::lemma_tdiv_milli_range(px * s, 1_000_000_000_000_000_000_000);
        crate::fixed::lemma_tdiv_milli_range(py * s, 1_000_000_000_000_000_000_000);
        lemma_scale_sign(px, s);
        lemma_scale_sign(py, s);
    }
    crate::polygon::lemma_ring_contains_centre(pts, p.position);
}

/// Containment law, outer half: a point strictly to the right of the
/// patch's scaled bounding radius is never covered, whatever the noise
/// deformation did, because every displacement saturates at the coordinate
/// bound.
pub proof fn lemma_far_point_outside(p: RustPatch, q: Vec2i)
    requires
        p.wf(),
        p.position.x + mul_milli(POINT_LIMIT as int, p.size as int) < q.x,
    ensures
        !p.spec_contains(q),
{
    let pts = p.plotted_points();
    assert forall|k: int| 0 <= k < 20 implies (#[trigger] pts[k]).x < q.x by {
        let px = p.points@[k].x as int;
        let s = p.size as int;
        assert(px * s <= POINT_LIMIT * s && -1_000_000_000_000_000_000_000 <= px * s
            <= 1_000_000_000_000_000_000_000 && POINT_LIMIT * s
            <= 1_000_000_000_000_000_000_000) by (nonlinear_arith)
            requires
                -1_000_000_000 <= px <= 1_000_000_000,
                0 <= s <= 1_000_000_000_000,
                POINT_LIMIT == 1_000_000_000,
        ;
        crate::fixed::lemma_tdiv_milli_range(px * s, 1_000_000_000_000_000_000_000);
        crate::fixed::lemma_tdiv_milli_mono(px * s, POINT_LIMIT * s);
    }
    crate::polygon::lemma_right_of_all_outside(pts, q);
}

/// Scaling by at least one whole unit keeps a coordinate's sign.
proof fn lemma_scale_sign(x: int, s: int)
    requires
        1000 <= s <= SIZE_LIMIT,
        -POINT_LIMIT <= x <= POINT_LIMIT,
    ensures
        x > 0 ==> tdiv_milli(x * s) > 0,
        x == 0 ==> tdiv_milli(x * s) == 0,
        x < 0 ==> tdiv_milli(x * s) < 0,
{
    if x == 0 {
        assert(x * s == 0) by (nonlinear_arith)
            requires
                x == 0,
        ;
    } else if x > 0 {
        assert(x * s >= 1000) by (nonlinear_arith)
            requires
                1 <= x,
                1000 <= s,
        ;
        vstd::arithmetic::div_mod::lemma_div_is_ordered(1000, x * s, 1000);
    } else {
        assert(x * s == -((-x) * s) && (-x) * s >= 1000) by (nonlinear_arith)
            requires
                x <= -1,
                1000 <= s,
        ;
        vstd::arithmetic::div_mod::lemma_div_is_ordered(1000, (-x) * s, 1000);
    }
}

} // verus!
