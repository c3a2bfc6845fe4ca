//! The orchestrator: a grid, a population of patches, and the rules that
//! reset and advance them each frame.
//!
//! Sampling the noise field is a collaborator's job: the caller hands each
//! tick the samples taken at the coordinates the patches publish, and the
//! simulation behaves as specified for every sample value.

use vstd::prelude::*;
use crate::colour::Hsla;
use crate::fixed::{clamp_i64, mul_div_milli};
use crate::geometry::{Rect, Vec2i, COORD_LIMIT};
use crate::grid::{cell_ruled, col_in, composite_colour, grid_cols, grid_rows, new_cell, recoloured, row_in, GridError, ImageGrid};
use crate::image::ImageBuf;
use crate::rng::{map_rng_range, next_u32, rng_from_seed};
use crate::rust_patches::{
    patch_stepped,
    unit_ring_seq,
    RustPatch,
    AMPLITUDE_LIMIT,
    ELAPSED_LIMIT,
    FREQUENCY_LIMIT,
    MAX_SIZE_LIMIT,
    SIZE_LIMIT,
};

verus! {

/// The tunable constants of one installation, passed in explicitly so no
/// ambient state configures the simulation.
#[derive(Clone, Copy, Debug)]
pub struct Config {
    /// Lattice pitch of the grid, in milli-units.
    pub cell_size: i64,
    /// Stretch applied to a cell's pitch when drawing its dot, milli-valued.
    pub grid_scale_factor: i64,
    /// Noise frequency for the patch deformation queries, milli-valued.
    pub frequency: i64,
    /// Base deformation amplitude, milli-valued.
    pub amplitude: i64,
    /// How many root patches a reset scatters over the viewport.
    pub start_patches: usize,
    /// How many forked patches a reset derives from the roots.
    pub next_patches: usize,
    /// The size a root patch starts from, in milli-units.
    pub start_size: i64,
    /// The size every patch grows toward, in milli-units.
    pub patch_max_size: i64,
    /// The colour of forked patches.
    pub orange: Hsla,
    /// The colour of root patches.
    pub red_brown: Hsla,
    /// A deep accent colour for renderers that layer patch outlines.
    pub dark_brown: Hsla,
}

impl Config {
    /// Valid configuration: every scalar inside the bound its consumers
    /// require, at least one root patch, and well-formed colours.
    pub open spec fn wf(self) -> bool {
        &&& 0 < self.cell_size
        &&& 0 <= self.grid_scale_factor <= 100_000
        &&& 0 <= self.frequency <= FREQUENCY_LIMIT
        &&& 0 <= self.amplitude <= AMPLITUDE_LIMIT
        &&& 0 <= self.start_size <= SIZE_LIMIT
        &&& 1000 <= self.patch_max_size <= MAX_SIZE_LIMIT
        &&& 1 <= self.start_patches
        &&& self.start_patches + self.next_patches <= 10_000
        &&& self.orange.wf()
        &&& self.red_brown.wf()
        &&& self.dark_brown.wf()
    }
}

impl Default for Config {
    /// The installation's stock tuning: a 12-unit cell lattice, slow subtle
    /// deformation, fifteen roots and seven forks, and a rust palette.
    fn default() -> (c: Config)
        ensures
            c.cell_size == 12_000,
            c.grid_scale_factor == 1200,
            c.frequency == 2000,
            c.amplitude == 3,
            c.start_patches == 15,
            c.next_patches == 7,
            c.start_size == 5000,
            c.patch_max_size == 500_000,
            c.orange == (Hsla { hue: 19_000, saturation: 630, lightness: 310, alpha: 1000 }),
            c.red_brown == (Hsla { hue: 9000, saturation: 720, lightness: 130, alpha: 1000 }),
            c.dark_brown == (Hsla { hue: 9000, saturation: 630, lightness: 50, alpha: 1000 }),
            c.wf(),
    {
        Config {
            cell_size: 12_000,
            grid_scale_factor: 1200,
            frequency: 2000,
            amplitude: 3,
            start_patches: 15,
            next_patches: 7,
            start_size: 5000,
            patch_max_size: 500_000,
            orange: Hsla { hue: 19_000, saturation: 630, lightness: 310, alpha: 1000 },
            red_brown: Hsla { hue: 9000, saturation: 720, lightness: 130, alpha: 1000 },
            dark_brown: Hsla { hue: 9000, saturation: 630, lightness: 50, alpha: 1000 },
        }
    }
}

/// The noise samples one patch needs for one tick: the regional modulation
/// sample and one deformation sample per vertex, all in `[-1000, 1000]`.
pub struct PatchNoise {
    /// The sample at the patch's `region_query` coordinate.
    pub region: i64,
    /// The samples at the patch's `noise_inputs` coordinates, in order.
    pub variances: Vec<i64>,
}

impl PatchNoise {
    /// Valid samples: one per vertex, each within the noise range.
    pub open spec fn wf(self) -> bool {
        &&& -1000 <= self.region <= 1000
        &&& self.variances@.len() == crate::rust_patches::PATCH_POINT_COUNT
        &&& forall|k: int| 0 <= k < self.variances@.len() ==> -1000 <= #[trigger] self.variances@[k]
            <= 1000
    }
}

/// Which root a forked patch anchors to: fork `f` of `next` maps
/// proportionally onto the `start` roots, spreading forks evenly.
pub open spec fn fork_source(f: int, start: int, next: int) -> int {
    f * start / next
}

/// Whether `g` is the grid a reset leaves behind when a face is composited:
/// the background discretised over `rect`, with the cells under the face
/// rectangle of extents `size` shifted by `offset` recoloured from the face.
pub open spec fn composited_from(
    g: ImageGrid,
    rect: Rect,
    cell_size: int,
    background: ImageBuf,
    face: ImageBuf,
    size: Vec2i,
    offset: Vec2i,
) -> bool {
    let tgt = rect.spec_centred(size, offset);
    forall|i: int, j: int|
        0 <= i < grid_cols(rect, cell_size) && 0 <= j < grid_rows(rect, cell_size)
            ==> (#[trigger] g.cell_at(i, j)) == (if col_in(rect, cell_size, tgt, i) && row_in(
            rect,
            cell_size,
            tgt,
            j,
        ) {
            recoloured(
                new_cell(rect, cell_size, background, i, j),
                composite_colour(rect, cell_size, tgt, face, i, j),
            )
        } else {
            new_cell(rect, cell_size, background, i, j)
        })
}

/// The orchestrator's whole state: the grid, the patch population, the
/// generator every random draw comes from, and the tuning.
pub struct Simulation {
    grid: ImageGrid,
    patches: Vec<RustPatch>,
    rng: rand_chacha::ChaCha8Rng,
    config: Config,
}

impl Simulation {
    /// The grid.
    pub closed spec fn spec_grid(self) -> ImageGrid {
        self.grid
    }

    /// The patches, in priority order: earlier patches win overlaps.
    pub closed spec fn spec_patches(self) -> Seq<RustPatch> {
        self.patches@
    }

    /// The tuning the simulation was built with.
    pub closed spec fn spec_config(self) -> Config {
        self.config
    }

    /// Valid state: grid, patches and tuning all well formed.
    pub open spec fn wf(self) -> bool {
        &&& self.spec_grid().wf()
        &&& forall|k: int|
            0 <= k < self.spec_patches().len() ==> (#[trigger] self.spec_patches()[k]).wf()
        &&& self.spec_config().wf()
    }

    /// The grid.
    pub fn grid(&self) -> (g: &ImageGrid)
        ensures
            *g == self.spec_grid(),
    {
        &self.grid
    }

    /// The patches, in priority order.
    pub fn patches(&self) -> (p: &Vec<RustPatch>)
        ensures
            p@ == self.spec_patches(),
    {
        &self.patches
    }

    /// The tuning the simulation was built with.
    pub fn config(&self) -> (c: &Config)
        ensures
            *c == self.spec_config(),
    {
        &self.config
    }

    /// Build a simulation over `window_rect`: the grid discretises `image`,
    /// the patch population starts empty, and every later random draw comes
    /// from a ChaCha stream seeded with `seed`, so a run replays exactly.
    pub fn new(window_rect: &Rect, image: &ImageBuf, config: Config, seed: u64) -> (r: Result<
        Simulation,
        GridError,
    >)
        requires
            window_rect.wf(),
            image.wf(),
            config.wf(),
        ensures
            match r {
                Ok(s) => {
                    &&& s.wf()
                    &&& s.spec_config() == config
                    &&& s.spec_patches().len() == 0
                    &&& s.spec_grid().spec_rect() == *window_rect
                    &&& s.spec_grid().spec_cell_size() == config.cell_size
                    &&& forall|i: int, j: int|
                        0 <= i < s.spec_grid().spec_cols() && 0 <= j < s.spec_grid().spec_rows()
                            ==> #[trigger] s.spec_grid().cell_at(i, j) == new_cell(
                            *window_rect,
                            config.cell_size as int,
                            *image,
                            i,
                            j,
                        )
                },
                Err(e) => {
                    &&& e == GridError::InvalidGeometry
                    &&& (crate::grid::grid_cols(*window_rect, config.cell_size as int) == 0
                        || crate::grid::grid_rows(*window_rect, config.cell_size as int) == 0)
                },
            },
    {
        match ImageGrid::new(window_rect, config.cell_size, image) {
            Ok(grid) => Ok(
                Simulation { grid, patches: Vec::new(), rng: rng_from_seed(seed), config },
            ),
            Err(e) => Err(e),
        }
    }

    /// Rebuild the whole composition: a fresh grid from `background`, the
    /// optional `face` composited over the grid's centre at a size derived
    /// from the viewport height with a random wobble, and a new patch
    /// population of scattered roots followed by forks spread evenly over
    /// them. Fails with `InvalidGeometry`, leaving the state as it was, when
    /// the cell size exceeds a viewport dimension.
    #[verifier::loop_isolation(false)]
    #[verifier::rlimit(60)]
    pub fn reset(
        &mut self,
        window_rect: &Rect,
        background: &ImageBuf,
        face: Option<&ImageBuf>,
        time: i64,
    ) -> (r: Result<(), GridError>)
        requires
            old(self).wf(),
            window_rect.wf(),
            background.wf(),
            background.spec_width() <= 1_000_000_000,
            background.spec_height() <= 1_000_000_000,
            match face {
                Some(f) => f.wf() && f.spec_width() <= 1_000_000_000 && f.spec_height()
                    <= 1_000_000_000,
                None => true,
            },
            0 <= time,
        ensures
            final(self).spec_config() == old(self).spec_config(),
            match r {
                Ok(()) => {
                    let cfg = old(self).spec_config();
                    let g = final(self).spec_grid();
                    &&& final(self).wf()
                    &&& g.spec_rect() == *window_rect
                    &&& g.spec_cell_size() == cfg.cell_size
                    &&& forall|i: int, j: int|
                        0 <= i < g.spec_cols() && 0 <= j < g.spec_rows() ==> {
                            let c = #[trigger] g.cell_at(i, j);
                            &&& !c.spec_finished()
                            &&& c.colour == c.original_colour
                            &&& c.spec_scale() == 1000 - c.colour.lightness
                        }
                    &&& match face {
                        None => forall|i: int, j: int|
                            0 <= i < g.spec_cols() && 0 <= j < g.spec_rows()
                                ==> #[trigger] g.cell_at(i, j) == new_cell(
                                *window_rect,
                                cfg.cell_size as int,
                                *background,
                                i,
                                j,
                            ),
                        Some(f) => exists|size: Vec2i, offset: Vec2i|
                            {
                                &&& 0 <= size.x <= COORD_LIMIT
                                &&& 0 <= size.y <= COORD_LIMIT
                                &&& -100_000 <= offset.x <= 100_000
                                &&& -100_000 <= offset.y <= 100_000
                                &&& #[trigger] composited_from(
                                    g,
                                    *window_rect,
                                    cfg.cell_size as int,
                                    *background,
                                    *f,
                                    size,
                                    offset,
                                )
                            },
                    }
                    &&& final(self).spec_patches().len() == cfg.start_patches + cfg.next_patches
                    &&& forall|k: int|
                        0 <= k < cfg.start_patches ==> {
                            let p = #[trigger] final(self).spec_patches()[k];
                            &&& p.wf()
                            &&& p.colour == cfg.red_brown
                            &&& p.size == cfg.start_size
                            &&& p.max_size == cfg.patch_max_size
                            &&& p.creation_time == time
                            &&& p.opacity == 1000
                            &&& p.points@ == unit_ring_seq()
                            &&& window_rect.spec_contains(p.position)
                        }
                    &&& forall|k: int|
                        cfg.start_patches <= k < cfg.start_patches + cfg.next_patches ==> {
                            let p = #[trigger] final(self).spec_patches()[k];
                            let src = fork_source(
                                k - cfg.start_patches,
                                cfg.start_patches as int,
                                cfg.next_patches as int,
                            );
                            &&& p.wf()
                            &&& p.colour == cfg.orange
                            &&& p.size == 1000
                            &&& p.max_size == cfg.patch_max_size
                            &&& p.creation_time == time
                            &&& p.opacity == 1000
                            &&& p.points@ == unit_ring_seq()
                            &&& 0 <= src < cfg.start_patches
                            &&& p.position == final(self).spec_patches()[src].position
                        }
                },
                Err(e) => {
                    &&& e == GridError::InvalidGeometry
                    &&& (crate::grid::grid_cols(*window_rect, old(self).spec_config().cell_size as int)
                        == 0 || crate::grid::grid_rows(
                        *window_rect,
                        old(self).spec_config().cell_size as int,
                    ) == 0)
                    &&& final(self).spec_grid() == old(self).spec_grid()
                    &&& final(self).spec_patches() == old(self).spec_patches()
                },
            },
    {
        let ghost cfg0 = self.config;
        let ghost mut wsize: Vec2i = Vec2i { x: 0, y: 0 };
        let ghost mut woff: Vec2i = Vec2i { x: 0, y: 0 };
        let grid = match ImageGrid::new(window_rect, self.config.cell_size, background) {
            Ok(g) => g,
            Err(e) => {
                return Err(e);
            },
        };
        self.grid = grid;
        match face {
            Some(img) => {
                let rx: i64 = map_rng_range(next_u32(&mut self.rng), 900, 1100);
                let ry: i64 = map_rng_range(next_u32(&mut self.rng), 900, 1100);
                let dx: i64 = map_rng_range(next_u32(&mut self.rng), -100_000, 100_000);
                let dy: i64 = map_rng_range(next_u32(&mut self.rng), -100_000, 100_000);
                proof {
                    crate::fixed::lemma_tdiv_milli_bounds((window_rect.height as int) * 660);
                }
                let two_thirds: i64 = mul_div_milli(window_rect.height, 660);
                proof {
                    crate::fixed::lemma_tdiv_milli_bounds((two_thirds as int) * 880);
                }
                let narrowed: i64 = mul_div_milli(two_thirds, 880);
                proof {
                    assert(0 <= (narrowed as int) * (rx as int) <= 0x4000_0000_0000_0000)
                        by (nonlinear_arith)
                        requires
                            0 <= narrowed <= 20_000_000_000_000,
                            0 <= rx <= 1100,
                    ;
                    assert(0 <= (two_thirds as int) * (ry as int) <= 0x4000_0000_0000_0000)
                        by (nonlinear_arith)
                        requires
                            0 <= two_thirds <= 20_000_000_000_000,
                            0 <= ry <= 1100,
                    ;
                    crate::fixed::lemma_tdiv_milli_bounds((narrowed as int) * (rx as int));
                    crate::fixed::lemma_tdiv_milli_bounds((two_thirds as int) * (ry as int));
                }
                let size_x: i64 = clamp_i64(mul_div_milli(narrowed, rx), 0, COORD_LIMIT);
                let size_y: i64 = clamp_i64(mul_div_milli(two_thirds, ry), 0, COORD_LIMIT);
                let ghost gfresh: ImageGrid = self.grid;
                self.grid.add_image_centre(img, Vec2i { x: size_x, y: size_y }, Vec2i { x: dx, y: dy });
                proof {
                    let rectv = *window_rect;
                    let csv = cfg0.cell_size as int;
                    let sizev = Vec2i { x: size_x, y: size_y };
                    let offv = Vec2i { x: dx, y: dy };
                    let tgtv = rectv.spec_centred(sizev, offv);
                    assert forall|i2: int, j2: int|
                        0 <= i2 < grid_cols(rectv, csv) && 0 <= j2 < grid_rows(rectv, csv) implies (
                    #[trigger] self.grid.cell_at(i2, j2)) == (if col_in(rectv, csv, tgtv, i2)
                        && row_in(rectv, csv, tgtv, j2) {
                        recoloured(
                            new_cell(rectv, csv, *background, i2, j2),
                            composite_colour(rectv, csv, tgtv, *img, i2, j2),
                        )
                    } else {
                        new_cell(rectv, csv, *background, i2, j2)
                    }) by {
                        assert(gfresh.cell_at(i2, j2) == new_cell(rectv, csv, *background, i2, j2));
                    }
                    assert(composited_from(
                        self.grid,
                        rectv,
                        csv,
                        *background,
                        *img,
                        sizev,
                        offv,
                    ));
                    wsize = sizev;
                    woff = offv;
                }
            },
            None => {},
        }
        self.patches.clear();
        let ghost gdone: ImageGrid = self.grid;
        let start: usize = self.config.start_patches;
        let next: usize = self.config.next_patches;
        let mut s: usize = 0;
        while s < start
            invariant
                s <= start,
                self.grid == gdone,
                self.config == cfg0,
                self.patches@.len() == s,
                forall|k: int|
                    0 <= k < s ==> {
                        let p = #[trigger] self.patches@[k];
                        &&& p.wf()
                        &&& p.colour == cfg0.red_brown
                        &&& p.size == cfg0.start_size
                        &&& p.max_size == cfg0.patch_max_size
                        &&& p.creation_time == time
                        &&& p.opacity == 1000
                        &&& p.points@ == unit_ring_seq()
                        &&& window_rect.spec_contains(p.position)
                    },
            decreases start - s,
        {
            let start_size: i64 = self.config.start_size;
            let max_size: i64 = self.config.patch_max_size;
            let colour = self.config.red_brown;
            let p = RustPatch::new_rand(&mut self.rng, window_rect, start_size, max_size, time, colour);
            self.patches.push(p);
            s += 1;
        }
        let ghost roots: Seq<RustPatch> = self.patches@;
        proof {
            assert forall|k: int|
                0 <= k < start implies {
                let p = #[trigger] roots[k];
                &&& p.wf()
                &&& p.colour == cfg0.red_brown
                &&& p.size == cfg0.start_size
                &&& p.max_size == cfg0.patch_max_size
                &&& p.creation_time == time
                &&& p.opacity == 1000
                &&& p.points@ == unit_ring_seq()
                &&& window_rect.spec_contains(p.position)
            } by {
                assert(roots[k] == self.patches@[k]);
            }
        }
        let mut f: usize = 0;
        while f < next
            invariant
                f <= next,
                self.grid == gdone,
                self.config == cfg0,
                self.patches@.len() == start + f,
                forall|k: int| 0 <= k < start ==> #[trigger] self.patches@[k] == roots[k],
                forall|k: int|
                    start <= k < start + f ==> {
                        let p = #[trigger] self.patches@[k];
                        let src = fork_source(k - start, start as int, next as int);
                        &&& p.wf()
                        &&& p.colour == cfg0.orange
                        &&& p.size == 1000
                        &&& p.max_size == cfg0.patch_max_size
                        &&& p.creation_time == time
                        &&& p.opacity == 1000
                        &&& p.points@ == unit_ring_seq()
                        &&& 0 <= src < start
                        &&& p.position == roots[src].position
                    },
            decreases next - f,
        {
            proof {
                assert((f as int) * (start as int) < (next as int) * (start as int))
                    by (nonlinear_arith)
                    requires
                        0 <= f < next as int,
                        1 <= start as int,
                ;
                assert((f as int) * (start as int) <= 100_000_000) by (nonlinear_arith)
                    requires
                        0 <= f as int <= 10_000,
                        0 <= start as int <= 10_000,
                ;
                vstd::arithmetic::div_mod::lemma_multiply_divide_lt(
                    (f as int) * (start as int),
                    next as int,
                    start as int,
                );
                vstd::arithmetic::div_mod::lemma_div_pos_is_pos(
                    (f as int) * (start as int),
                    next as int,
                );
            }
            let ri: usize = f * start / next;
            let colour = self.config.orange;
            let p = RustPatch::new_from_ref(&self.patches[ri], colour, time);
            self.patches.push(p);
            f += 1;
        }
        proof {
            assert forall|k: int|
                start <= k < start + next implies {
                let p = #[trigger] self.patches@[k];
                let src = fork_source(k - start, start as int, next as int);
                &&& 0 <= src < start
                &&& p.position == self.patches@[src].position
            } by {
                let p2 = self.patches@[k];
                let src2 = fork_source(k - start, start as int, next as int);
                assert(start <= k < start + next);
                assert(0 <= src2 < start && p2.position == roots[src2].position);
                assert(self.patches@[src2] == roots[src2]);
            }
        }
        proof {
            match face {
                Some(imgref) => {
                    assert(self.grid == gdone);
                    assert(composited_from(
                        self.grid,
                        *window_rect,
                        cfg0.cell_size as int,
                        *background,
                        *imgref,
                        wsize,
                        woff,
                    ));
                    assert(exists|size: Vec2i, offset: Vec2i|
                        {
                            &&& 0 <= size.x <= COORD_LIMIT
                            &&& 0 <= size.y <= COORD_LIMIT
                            &&& -100_000 <= offset.x <= 100_000
                            &&& -100_000 <= offset.y <= 100_000
                            &&& #[trigger] composited_from(
                                self.grid,
                                *window_rect,
                                cfg0.cell_size as int,
                                *background,
                                *imgref,
                                size,
                                offset,
                            )
                        });
                },
                None => {},
            }
        }
        Ok(())
    }

    /// One frame of steady state: advance every patch with its injected
    /// noise samples, then let the patches colour the unfinished cells they
    /// cover, earliest patch first.
    ///
    /// `noise` carries, for each patch in order, the field sampled at that
    /// patch's `region_query` and `noise_inputs` coordinates; the tick is
    /// specified for every sample value in range.
    #[verifier::loop_isolation(false)]
    pub fn tick(&mut self, noise: &Vec<PatchNoise>, time: i64)
        requires
            old(self).wf(),
            noise@.len() == old(self).spec_patches().len(),
            forall|k: int| 0 <= k < noise@.len() ==> (#[trigger] noise@[k]).wf(),
            forall|k: int|
                0 <= k < old(self).spec_patches().len() ==> (#[trigger] old(
                    self,
                ).spec_patches()[k]).creation_time <= time && time - old(
                    self,
                ).spec_patches()[k].creation_time <= ELAPSED_LIMIT,
        ensures
            final(self).wf(),
            final(self).spec_config() == old(self).spec_config(),
            final(self).spec_patches().len() == old(self).spec_patches().len(),
            forall|k: int|
                0 <= k < old(self).spec_patches().len() ==> patch_stepped(
                    old(self).spec_patches()[k],
                    #[trigger] final(self).spec_patches()[k],
                    noise@[k].region as int,
                    noise@[k].variances@,
                    old(self).spec_config().amplitude as int,
                    time as int,
                ),
            final(self).spec_grid().spec_rect() == old(self).spec_grid().spec_rect(),
            final(self).spec_grid().spec_cell_size() == old(self).spec_grid().spec_cell_size(),
            final(self).spec_grid().view().len() == old(self).spec_grid().view().len(),
            forall|i: int, j: int|
                0 <= i < old(self).spec_grid().spec_cols() && 0 <= j < old(
                    self,
                ).spec_grid().spec_rows() ==> cell_ruled(
                    old(self).spec_grid().cell_at(i, j),
                    #[trigger] final(self).spec_grid().cell_at(i, j),
                    final(self).spec_patches(),
                ),
    {
        let ghost s0: Simulation = *old(self);
        let n: usize = self.patches.len();
        let amplitude: i64 = self.config.amplitude;
        let mut k: usize = 0;
        while k < n
            invariant
                k <= n,
                self.grid == s0.spec_grid(),
                self.config == s0.spec_config(),
                self.patches@.len() == n,
                forall|kk: int|
                    0 <= kk < k ==> (#[trigger] self.patches@[kk]).wf() && patch_stepped(
                        s0.spec_patches()[kk],
                        self.patches@[kk],
                        noise@[kk].region as int,
                        noise@[kk].variances@,
                        amplitude as int,
                        time as int,
                    ),
                forall|kk: int|
                    k <= kk < n ==> (#[trigger] self.patches@[kk]) == s0.spec_patches()[kk],
            decreases n - k,
        {
            let pn: &PatchNoise = &noise[k];
            proof {
                assert(self.patches@[k as int] == s0.spec_patches()[k as int]);
            }
            self.patches[k].update(pn.region, &pn.variances, amplitude, time);
            k += 1;
            proof {
                assert(patch_stepped(
                    s0.spec_patches()[k as int - 1],
                    self.patches@[k as int - 1],
                    noise@[k as int - 1].region as int,
                    noise@[k as int - 1].variances@,
                    amplitude as int,
                    time as int,
                ));
            }
        }
        self.grid.apply_patches(&self.patches, &mut self.rng);
    }
}

} // verus!
