use noise::{NoiseFn, Perlin};
use oxidising::colour::Rgba;
use oxidising::geometry::Rect;
use oxidising::image::ImageBuf;
use oxidising::simulation::{Config, PatchNoise, Simulation};

fn viewport() -> Rect {
    Rect { left: -960_000, bottom: -540_000, width: 1_920_000, height: 1_080_000 }
}

fn flat_image(r: u8, g: u8, b: u8) -> ImageBuf {
    ImageBuf::from_pixels(1, 1, vec![Rgba { r, g, b, a: 255 }]).unwrap()
}

/// One noise sample in milli-units, clamped into the accepted range.
fn milli_sample(perlin: &Perlin, x: i64, y: i64, z: i64) -> i64 {
    let v = perlin.get([x as f64 / 1000.0, y as f64 / 1000.0, z as f64 / 1000.0]);
    ((v * 1000.0) as i64).clamp(-1000, 1000)
}

fn sample_noise(sim: &Simulation, perlin: &Perlin) -> Vec<PatchNoise> {
    let mut out: Vec<PatchNoise> = Vec::new();
    for p in sim.patches() {
        let rq = p.region_query();
        let region = milli_sample(perlin, rq.x, rq.y, rq.z);
        let mut variances: Vec<i64> = Vec::new();
        for q in p.noise_inputs(sim.config().frequency) {
            variances.push(milli_sample(perlin, q.x, q.y, q.z));
        }
        out.push(PatchNoise { region, variances });
    }
    out
}

#[test]
fn default_config_matches_the_installation_tuning() {
    let c = Config::default();
    assert_eq!(c.cell_size, 12_000);
    assert_eq!(c.grid_scale_factor, 1200);
    assert_eq!(c.frequency, 2000);
    assert_eq!(c.amplitude, 3);
    assert_eq!(c.start_patches, 15);
    assert_eq!(c.next_patches, 7);
    assert_eq!(c.red_brown.hue, 9000);
    assert_eq!(c.orange.hue, 19_000);
}

#[test]
fn reset_builds_the_full_patch_population() {
    let rect = viewport();
    let cfg = Config::default();
    let mut sim = Simulation::new(&rect, &flat_image(200, 200, 200), cfg, 7).unwrap();
    assert_eq!(sim.patches().len(), 0);
    sim.reset(&rect, &flat_image(200, 200, 200), None, 0).unwrap();
    assert_eq!(sim.patches().len(), 22);
    for k in 0..15 {
        let p = &sim.patches()[k];
        assert_eq!(p.colour, cfg.red_brown);
        assert_eq!(p.size, 5000);
        assert_eq!(p.max_size, 500_000);
    }
    for k in 15..22 {
        let p = &sim.patches()[k];
        assert_eq!(p.colour, cfg.orange);
        assert_eq!(p.size, 1000);
        // Each fork anchors to the root its index maps onto proportionally.
        let src = (k - 15) * 15 / 7;
        assert_eq!(p.position, sim.patches()[src].position);
    }
}

#[test]
fn reset_composites_the_face_over_the_centre() {
    let rect = viewport();
    let cfg = Config::default();
    let mut sim = Simulation::new(&rect, &flat_image(255, 255, 255), cfg, 7).unwrap();
    sim.reset(&rect, &flat_image(255, 255, 255), Some(&flat_image(255, 0, 0)), 0).unwrap();
    let g = sim.grid();
    let mut red_cells: usize = 0;
    for i in 0..g.cols() {
        for j in 0..g.rows() {
            let c = g.cell(i, j);
            assert!(!c.finished);
            assert_eq!(c.colour, c.original_colour);
            if c.original_colour.saturation == 1000 {
                red_cells += 1;
            }
        }
    }
    // The face lands near the grid centre in a contiguous block whose size
    // wobbles with the random factors: roughly two thirds of 1080 units on a
    // 12-unit lattice, so thousands of cells, never the whole grid.
    assert!(red_cells > 1000);
    assert!(red_cells < 14_400);
}

#[test]
fn finished_cells_never_change_colour_again() {
    let rect = viewport();
    let cfg = Config::default();
    let perlin = Perlin::new(3_452_392);
    let mut sim = Simulation::new(&rect, &flat_image(230, 230, 230), cfg, 11).unwrap();
    sim.reset(&rect, &flat_image(230, 230, 230), None, 0).unwrap();
    // Grow the patches for a while, then snapshot every finished cell.
    for t in 1..=40i64 {
        let noise = sample_noise(&sim, &perlin);
        sim.tick(&noise, t * 1000);
    }
    let mut snapshot = Vec::new();
    {
        let g = sim.grid();
        for i in 0..g.cols() {
            for j in 0..g.rows() {
                let c = g.cell(i, j);
                if c.finished {
                    snapshot.push((i, j, c.colour));
                }
            }
        }
    }
    assert!(!snapshot.is_empty());
    for t in 41..=60i64 {
        let noise = sample_noise(&sim, &perlin);
        sim.tick(&noise, t * 1000);
    }
    let g = sim.grid();
    for (i, j, colour) in &snapshot {
        let c = g.cell(*i, *j);
        assert!(c.finished);
        assert_eq!(c.colour, *colour);
    }
}

#[test]
fn coloured_cells_take_a_patch_colour_with_bounded_jitter() {
    let rect = viewport();
    let cfg = Config::default();
    let perlin = Perlin::new(9);
    let mut sim = Simulation::new(&rect, &flat_image(10, 10, 10), cfg, 13).unwrap();
    sim.reset(&rect, &flat_image(10, 10, 10), None, 0).unwrap();
    for t in 1..=30i64 {
        let noise = sample_noise(&sim, &perlin);
        sim.tick(&noise, t * 1000);
    }
    let g = sim.grid();
    let mut seen: usize = 0;
    for i in 0..g.cols() {
        for j in 0..g.rows() {
            let c = g.cell(i, j);
            if c.finished {
                seen += 1;
                // Either rust red or orange, give or take the jitter radius.
                let near_red = (c.colour.hue - cfg.red_brown.hue).abs() <= 10_000
                    && (c.colour.saturation - cfg.red_brown.saturation).abs() <= 100;
                let near_orange = (c.colour.hue - cfg.orange.hue).abs() <= 10_000
                    && (c.colour.saturation - cfg.orange.saturation).abs() <= 100;
                assert!(near_red || near_orange);
                // The source sample is remembered unchanged.
                assert_eq!(c.original_colour.saturation, 0);
            }
        }
    }
    assert!(seen > 0);
}

#[test]
fn equal_seeds_replay_the_same_composition() {
    let rect = viewport();
    let cfg = Config::default();
    let perlin = Perlin::new(77);
    let mut a = Simulation::new(&rect, &flat_image(90, 120, 150), cfg, 21).unwrap();
    let mut b = Simulation::new(&rect, &flat_image(90, 120, 150), cfg, 21).unwrap();
    a.reset(&rect, &flat_image(90, 120, 150), None, 0).unwrap();
    b.reset(&rect, &flat_image(90, 120, 150), None, 0).unwrap();
    for t in 1..=20i64 {
        let na = sample_noise(&a, &perlin);
        a.tick(&na, t * 1000);
        let nb = sample_noise(&b, &perlin);
        b.tick(&nb, t * 1000);
    }
    for k in 0..a.patches().len() {
        assert_eq!(a.patches()[k].position, b.patches()[k].position);
        assert_eq!(a.patches()[k].size, b.patches()[k].size);
        assert_eq!(a.patches()[k].points, b.patches()[k].points);
    }
    let (ga, gb) = (a.grid(), b.grid());
    for i in 0..ga.cols() {
        for j in 0..ga.rows() {
            assert_eq!(ga.cell(i, j).colour, gb.cell(i, j).colour);
            assert_eq!(ga.cell(i, j).finished, gb.cell(i, j).finished);
        }
    }
}
