use oxidising::colour::Hsla;
use oxidising::geometry::{Rect, Vec2i};
use oxidising::rng::map_rng_range;
use oxidising::rust_patches::RustPatch;
use rand_chacha::rand_core::{RngCore, SeedableRng};
use rand_chacha::ChaCha8Rng;

fn rng_from_seed(seed: u64) -> ChaCha8Rng {
    ChaCha8Rng::seed_from_u64(seed)
}

fn viewport() -> Rect {
    Rect { left: -960_000, bottom: -540_000, width: 1_920_000, height: 1_080_000 }
}

fn rust_red() -> Hsla {
    Hsla { hue: 9000, saturation: 720, lightness: 130, alpha: 1000 }
}

fn zero_noise() -> Vec<i64> {
    vec![0i64; 20]
}

fn pseudo_noise(seed: i64) -> Vec<i64> {
    let mut v: Vec<i64> = Vec::new();
    for k in 0..20i64 {
        v.push(((seed * 131 + k * 37) % 2001) - 1000);
    }
    v
}

#[test]
fn map_rng_range_covers_the_whole_interval() {
    assert_eq!(map_rng_range(0, -5, 10), -5);
    assert_eq!(map_rng_range(u32::MAX, -5, 10), 10);
    assert_eq!(map_rng_range(u32::MAX / 2, 0, 1000), 499);
    assert_eq!(map_rng_range(12345, 7, 7), 7);
}

#[test]
fn random_patch_lands_inside_the_viewport() {
    let mut rng = rng_from_seed(3_452_392);
    let rect = viewport();
    for _ in 0..50 {
        let p = RustPatch::new_rand(&mut rng, &rect, 5000, 500_000, 0, rust_red());
        assert!(rect.left <= p.position.x && p.position.x <= rect.left + rect.width);
        assert!(rect.bottom <= p.position.y && p.position.y <= rect.bottom + rect.height);
        assert!(0 <= p.noise_z && p.noise_z <= 100_000);
        assert_eq!(p.size, 5000);
        assert_eq!(p.opacity, 1000);
    }
}

#[test]
fn new_patch_polygon_is_the_unit_ring() {
    let mut rng = rng_from_seed(1);
    let p = RustPatch::new_rand(&mut rng, &viewport(), 5000, 500_000, 0, rust_red());
    assert_eq!(p.points.len(), 20);
    assert_eq!(p.points[0], Vec2i { x: 500, y: 0 });
    assert_eq!(p.points[5], Vec2i { x: 0, y: 500 });
    assert_eq!(p.points[10], Vec2i { x: -500, y: 0 });
    assert_eq!(p.points[15], Vec2i { x: 0, y: -500 });
    assert_eq!(p.points[1], Vec2i { x: 476, y: 155 });
}

#[test]
fn forked_patch_shares_position_and_target_but_restarts() {
    let mut rng = rng_from_seed(2);
    let root = RustPatch::new_rand(&mut rng, &viewport(), 5000, 500_000, 0, rust_red());
    let orange = Hsla { hue: 19_000, saturation: 630, lightness: 310, alpha: 1000 };
    let fork = RustPatch::new_from_ref(&root, orange, 42);
    assert_eq!(fork.position, root.position);
    assert_eq!(fork.max_size, root.max_size);
    assert_eq!(fork.size, 1000);
    assert_eq!(fork.noise_z, root.noise_z + 10_000);
    assert_eq!(fork.colour, orange);
    assert_eq!(fork.creation_time, 42);
}

#[test]
fn advance_keeps_the_polygon_point_count() {
    let mut rng = rng_from_seed(3);
    let mut p = RustPatch::new_rand(&mut rng, &viewport(), 5000, 500_000, 0, rust_red());
    for t in 0..200i64 {
        let vars = pseudo_noise(t);
        let region = (t * 271 % 2001) - 1000;
        p.update(region, &vars, 1_000_000, 30_000 + t);
        assert_eq!(p.points.len(), 20);
    }
}

#[test]
fn growth_reaches_half_target_at_half_duration() {
    let mut rng = rng_from_seed(4);
    let mut p = RustPatch::new_rand(&mut rng, &viewport(), 5000, 500_000, 0, rust_red());
    let before = p.points.clone();
    // Zero amplitude: the polygon must not move at all.
    p.update(0, &zero_noise(), 0, 30_000);
    assert_eq!(p.size, 250_000);
    for k in 0..20 {
        assert_eq!(p.points[k], before[k]);
    }
}

#[test]
fn fade_cycle_resets_after_five_hundred_ticks() {
    let mut rng = rng_from_seed(5);
    // A patch already past its target size starts fading at once.
    let mut p = RustPatch::new_rand(&mut rng, &viewport(), 5000, 1000, 0, rust_red());
    for _ in 0..499 {
        p.update(0, &zero_noise(), 0, 0);
        assert_eq!(p.size, 5000);
    }
    assert_eq!(p.opacity, 1000 - 2 * 499);
    p.update(0, &zero_noise(), 0, 0);
    assert_eq!(p.opacity, 1000);
    assert_eq!(p.size, 1000);
}

#[test]
fn patch_contains_its_own_position() {
    let mut rng = rng_from_seed(6);
    let mut p = RustPatch::new_rand(&mut rng, &viewport(), 5000, 500_000, 0, rust_red());
    let home = p.position;
    assert!(p.contains(&home));
    // Still true after many strongly noised ticks while growing.
    for t in 0..100i64 {
        p.update(((t * 613) % 2001) - 1000, &pseudo_noise(t + 7), 1_000_000, 30_000 + t);
        assert!(p.contains(&home));
    }
}

#[test]
fn far_point_is_never_contained() {
    let mut rng = rng_from_seed(7);
    let mut p = RustPatch::new_rand(&mut rng, &viewport(), 5000, 500_000, 0, rust_red());
    for t in 0..100i64 {
        p.update(((t * 401) % 2001) - 1000, &pseudo_noise(t + 3), 1_000_000, 30_000 + t);
        // Ten times the largest possible scaled radius away.
        let radius = 1_000_000_000i64 / 1000 * p.size;
        let far = Vec2i { x: p.position.x + 10 * radius, y: p.position.y };
        assert!(!p.contains(&far));
    }
}

#[test]
fn noise_queries_publish_the_patch_geometry() {
    let mut rng = rng_from_seed(8);
    let p = RustPatch::new_rand(&mut rng, &viewport(), 5000, 500_000, 0, rust_red());
    let region = p.region_query();
    assert_eq!(region.x, p.position.x);
    assert_eq!(region.y, p.position.y);
    assert_eq!(region.z, 100_000);
    let inputs = p.noise_inputs(2000);
    assert_eq!(inputs.len(), 20);
    for k in 0..20 {
        assert_eq!(inputs[k].x, p.points[k].x * 2);
        assert_eq!(inputs[k].y, p.points[k].y * 2);
        assert_eq!(inputs[k].z, (p.noise_z + p.position.x + p.position.y) * 2);
    }
}

#[test]
fn seeded_stream_replays_exactly() {
    let mut a = rng_from_seed(99);
    let mut b = rng_from_seed(99);
    for _ in 0..32 {
        assert_eq!(a.next_u32(), b.next_u32());
    }
}
