use image::DynamicImage;
use image::Rgb;
use image::RgbImage;
use txtimg::ColorMode;
use txtimg::Options;
use txtimg::TextImage;

fn solid_image(width: u32, height: u32, rgb: (u8, u8, u8)) -> DynamicImage {
    DynamicImage::ImageRgb8(RgbImage::from_pixel(width, height, Rgb([rgb.0, rgb.1, rgb.2])))
}

#[test]
fn all_black_pixel_full_mode() {
    let img = solid_image(1, 1, (0, 0, 0));
    let ti = TextImage::from_image_with(img, Options { width: 1, height: 1 }, ColorMode::Full);
    assert_eq!(ti.cell_count(), 1);
    let cell = ti.cell_at(0);
    assert_eq!(cell.background, Some((0, 0, 0)));
    assert_eq!(cell.foreground, Some((0, 0, 0)));
    // the palette's first (darkest) entry
    assert_eq!(cell.glyph, ' ');
}

#[test]
fn all_white_pixel_full_mode() {
    let img = solid_image(1, 1, (255, 255, 255));
    let ti = TextImage::from_image_with(img, Options { width: 1, height: 1 }, ColorMode::Full);
    let cell = ti.cell_at(0);
    // the palette's last (densest) entry
    assert_eq!(cell.glyph, '#');
    assert_eq!(cell.background, Some((255, 255, 255)));
    assert_eq!(cell.foreground, Some((255, 255, 255)));
}

#[test]
fn default_mode_is_background_only() {
    let img = solid_image(1, 1, (255, 255, 255));
    let ti = TextImage::from_image(img, Options { width: 1, height: 1 });
    let cell = ti.cell_at(0);
    assert_eq!(cell.glyph, ' ');
    assert_eq!(cell.background, Some((255, 255, 255)));
    assert_eq!(cell.foreground, None);
}

#[test]
fn downsampling_reaches_requested_grid() {
    let img = solid_image(8, 6, (10, 20, 30));
    let ti = TextImage::from_image(img, Options { width: 4, height: 3 });
    assert_eq!(ti.width(), 4);
    assert_eq!(ti.height(), 3);
    assert_eq!(ti.cell_count(), 12);
    // a solid source stays solid through resampling
    for i in 0..12 {
        assert_eq!(ti.cell_at(i).background, Some((10, 20, 30)));
    }
}

#[test]
fn rendered_solid_image_row_count() {
    let img = solid_image(4, 4, (5, 5, 5));
    let ti = TextImage::from_image(img, Options { width: 2, height: 2 });
    let mut buf = String::new();
    ti.to_buffer(&mut buf);
    assert_eq!(buf.matches("\r\n").count(), 2);
    assert_eq!(buf, "\u{1b}[48;2;5;5;5m \u{1b}[0m\u{1b}[48;2;5;5;5m \u{1b}[0m\r\n\u{1b}[48;2;5;5;5m \u{1b}[0m\u{1b}[48;2;5;5;5m \u{1b}[0m\r\n");
}
