use oxidising::colour::{pixel_to_hsla, Hsla, Rgba};

fn px(r: u8, g: u8, b: u8) -> Rgba {
    Rgba { r, g, b, a: 255 }
}

#[test]
fn red_pixel_converts_exactly() {
    let c = pixel_to_hsla(px(255, 0, 0));
    assert_eq!(c, Hsla { hue: 0, saturation: 1000, lightness: 500, alpha: 1000 });
}

#[test]
fn green_pixel_converts_exactly() {
    let c = pixel_to_hsla(px(0, 255, 0));
    assert_eq!(c, Hsla { hue: 120_000, saturation: 1000, lightness: 500, alpha: 1000 });
}

#[test]
fn blue_pixel_converts_exactly() {
    let c = pixel_to_hsla(px(0, 0, 255));
    assert_eq!(c, Hsla { hue: 240_000, saturation: 1000, lightness: 500, alpha: 1000 });
}

#[test]
fn white_pixel_is_achromatic_and_light() {
    let c = pixel_to_hsla(px(255, 255, 255));
    assert_eq!(c, Hsla { hue: 0, saturation: 0, lightness: 1000, alpha: 1000 });
}

#[test]
fn black_pixel_is_achromatic_and_dark() {
    let c = pixel_to_hsla(px(0, 0, 0));
    assert_eq!(c, Hsla { hue: 0, saturation: 0, lightness: 0, alpha: 1000 });
}

#[test]
fn rust_orange_pixel_converts_exactly() {
    // mx=200, mn=50, chroma=150: lightness 250*1000/510, saturation
    // 150*1000/250, hue 60000*(100-50)/150.
    let c = pixel_to_hsla(px(200, 100, 50));
    assert_eq!(c, Hsla { hue: 20_000, saturation: 600, lightness: 490, alpha: 1000 });
}

#[test]
fn every_channel_stays_in_range_on_a_sweep() {
    let mut v: u16 = 0;
    while v < 256 {
        let c = pixel_to_hsla(px(v as u8, (255 - v) as u8, (v / 2) as u8));
        assert!(0 <= c.hue && c.hue < 360_000);
        assert!(0 <= c.saturation && c.saturation <= 1000);
        assert!(0 <= c.lightness && c.lightness <= 1000);
        assert_eq!(c.alpha, 1000);
        v += 1;
    }
}

#[test]
fn pixel_alpha_is_ignored() {
    let opaque = pixel_to_hsla(Rgba { r: 10, g: 20, b: 30, a: 255 });
    let clear = pixel_to_hsla(Rgba { r: 10, g: 20, b: 30, a: 0 });
    assert_eq!(opaque, clear);
}
