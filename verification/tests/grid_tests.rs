use oxidising::colour::Rgba;
use oxidising::geometry::{Rect, Vec2i};
use oxidising::grid::{GridError, ImageGrid};
use oxidising::image::ImageBuf;

fn viewport_1920_1080() -> Rect {
    Rect { left: -960_000, bottom: -540_000, width: 1_920_000, height: 1_080_000 }
}

fn flat_image(r: u8, g: u8, b: u8) -> ImageBuf {
    ImageBuf::from_pixels(1, 1, vec![Rgba { r, g, b, a: 255 }]).unwrap()
}

#[test]
fn grid_tiling_matches_floor_of_viewport_over_cell_size() {
    let rect = viewport_1920_1080();
    let grid = ImageGrid::new(&rect, 12_000, &flat_image(255, 255, 255)).unwrap();
    assert_eq!(grid.cols(), 160);
    assert_eq!(grid.rows(), 90);
    assert_eq!(grid.cols() * grid.rows(), 14_400);
}

#[test]
fn grid_positions_form_a_regular_lattice() {
    let rect = viewport_1920_1080();
    let grid = ImageGrid::new(&rect, 12_000, &flat_image(0, 0, 0)).unwrap();
    // Column 0, row 0 sits half a cell in from the top-left corner.
    assert_eq!(grid.cell(0, 0).position, Vec2i { x: -954_000, y: 534_000 });
    // Uniform spacing of one cell size in both directions.
    assert_eq!(grid.cell(1, 0).position.x - grid.cell(0, 0).position.x, 12_000);
    assert_eq!(grid.cell(0, 0).position.y - grid.cell(0, 1).position.y, 12_000);
    // The far corner is half a cell in from where the last full cell ends.
    assert_eq!(grid.cell(159, 89).position, Vec2i { x: -954_000 + 159 * 12_000, y: 534_000 - 89 * 12_000 });
}

#[test]
fn grid_with_oversized_cell_fails_fast() {
    let rect = viewport_1920_1080();
    let r = ImageGrid::new(&rect, 2_000_000, &flat_image(0, 0, 0));
    assert!(matches!(r, Err(GridError::InvalidGeometry)));
}

#[test]
fn grid_samples_image_colour_into_both_colour_fields() {
    let rect = viewport_1920_1080();
    let grid = ImageGrid::new(&rect, 12_000, &flat_image(255, 0, 0)).unwrap();
    let c = grid.cell(80, 45);
    assert_eq!(c.colour.hue, 0);
    assert_eq!(c.colour.saturation, 1000);
    assert_eq!(c.colour.lightness, 500);
    assert_eq!(c.original_colour, c.colour);
    assert_eq!(c.scale, 500);
    assert!(!c.finished);
}

#[test]
fn centred_image_recolours_exactly_the_covered_block() {
    // Viewport 1920x1080 at cell size 12: a 200x200 centred square covers
    // columns 72..=87 and rows 37..=52, a contiguous 16x16 block.
    let rect = viewport_1920_1080();
    let mut grid = ImageGrid::new(&rect, 12_000, &flat_image(255, 255, 255)).unwrap();
    let face = flat_image(255, 0, 0);
    grid.add_image_centre(&face, Vec2i { x: 200_000, y: 200_000 }, Vec2i { x: 0, y: 0 });
    let mut updated: usize = 0;
    for i in 0..grid.cols() {
        for j in 0..grid.rows() {
            let c = grid.cell(i, j);
            let inside = (72..=87).contains(&i) && (37..=52).contains(&j);
            if inside {
                assert_eq!(c.original_colour.saturation, 1000);
                assert_eq!(c.original_colour.lightness, 500);
                assert_eq!(c.colour, c.original_colour);
                assert_eq!(c.scale, 500);
                updated += 1;
            } else {
                assert_eq!(c.original_colour.lightness, 1000);
                assert_eq!(c.scale, 0);
            }
        }
    }
    assert_eq!(updated, 256);
}

#[test]
fn centred_image_with_empty_selection_changes_nothing() {
    let rect = viewport_1920_1080();
    let mut grid = ImageGrid::new(&rect, 12_000, &flat_image(10, 20, 30)).unwrap();
    let before = *grid.cell(5, 5);
    // Shift the 200x200 target far outside the viewport: no cell selected.
    grid.add_image_centre(
        &flat_image(255, 0, 0),
        Vec2i { x: 200_000, y: 200_000 },
        Vec2i { x: 9_000_000, y: 0 },
    );
    let after = *grid.cell(5, 5);
    assert_eq!(before.colour, after.colour);
    assert_eq!(before.original_colour, after.original_colour);
    assert_eq!(before.scale, after.scale);
    for i in 0..grid.cols() {
        for j in 0..grid.rows() {
            assert_eq!(grid.cell(i, j).original_colour, before.original_colour);
        }
    }
}

#[test]
fn draw_emits_one_dot_per_cell_with_scaled_diameter() {
    let rect = viewport_1920_1080();
    // A black source: lightness 0, so scale is 1000 and the dot diameter is
    // the full stretched pitch: 12000 * 1.2 = 14400.
    let grid = ImageGrid::new(&rect, 12_000, &flat_image(0, 0, 0)).unwrap();
    let dots = grid.draw(1200);
    assert_eq!(dots.len(), 14_400);
    assert_eq!(dots[0].diameter, 14_400);
    assert_eq!(dots[0].position, grid.cell(0, 0).position);
    // Column-major order: dot 90 starts column 1.
    assert_eq!(dots[90].position, grid.cell(1, 0).position);
}
