use txtimg::ColorMode;
use txtimg::Options;
use txtimg::Pixel;
use txtimg::TextImage;
use txtimg::render::compose;

fn red_at_sign_cells() -> Vec<Pixel> {
    vec![
        Pixel { glyph: '@', background: Some((255, 0, 0)), foreground: None },
        Pixel { glyph: ' ', background: None, foreground: None },
    ]
}

#[test]
fn background_cell_then_plain_cell() {
    let ti = TextImage::new(2, 1, red_at_sign_cells());
    let mut buf = String::new();
    ti.to_buffer(&mut buf);
    assert_eq!(buf, "\u{1b}[48;2;255;0;0m@\u{1b}[0m \r\n");
}

#[test]
fn foreground_only_cell() {
    let cells = vec![Pixel { glyph: 'x', background: None, foreground: Some((1, 2, 3)) }];
    let ti = TextImage::new(1, 1, cells);
    let mut buf = String::new();
    ti.to_buffer(&mut buf);
    assert_eq!(buf, "\u{1b}[38;2;1;2;3mx\u{1b}[0m\r\n");
}

#[test]
fn both_colors_cell() {
    let cells = vec![Pixel { glyph: 'o', background: Some((9, 8, 7)), foreground: Some((200, 100, 0)) }];
    let ti = TextImage::new(1, 1, cells);
    let mut buf = String::new();
    ti.to_buffer(&mut buf);
    assert_eq!(buf, "\u{1b}[38;2;200;100;0m\u{1b}[48;2;9;8;7mo\u{1b}[0m\r\n");
}

#[test]
fn rendering_is_deterministic() {
    let ti = TextImage::new(2, 1, red_at_sign_cells());
    let mut first = String::new();
    ti.to_buffer(&mut first);
    let mut second = String::new();
    ti.to_buffer(&mut second);
    assert_eq!(first, second);
    assert_eq!(first.as_bytes(), second.as_bytes());
}

#[test]
fn rendering_appends_to_existing_buffer() {
    let ti = TextImage::new(1, 1, vec![Pixel { glyph: 'z', background: None, foreground: None }]);
    let mut buf = String::from("head:");
    ti.to_buffer(&mut buf);
    assert_eq!(buf, "head:z\r\n");
}

#[test]
fn one_crlf_per_row() {
    let cells = vec![
        Pixel { glyph: 'a', background: None, foreground: None },
        Pixel { glyph: 'b', background: Some((1, 1, 1)), foreground: None },
        Pixel { glyph: 'c', background: None, foreground: Some((2, 2, 2)) },
        Pixel { glyph: 'd', background: None, foreground: None },
        Pixel { glyph: 'e', background: None, foreground: None },
        Pixel { glyph: 'f', background: Some((3, 3, 3)), foreground: Some((4, 4, 4)) },
    ];
    let ti = TextImage::new(2, 3, cells);
    let mut buf = String::new();
    ti.to_buffer(&mut buf);
    assert_eq!(buf.matches("\r\n").count(), 3);
    assert!(buf.ends_with("\r\n"));
}

#[test]
fn each_crlf_closes_a_row_of_width_cells() {
    let cells = vec![
        Pixel { glyph: 'a', background: None, foreground: None },
        Pixel { glyph: 'b', background: None, foreground: None },
        Pixel { glyph: 'c', background: None, foreground: None },
        Pixel { glyph: 'd', background: None, foreground: None },
    ];
    let ti = TextImage::new(2, 2, cells);
    let mut buf = String::new();
    ti.to_buffer(&mut buf);
    assert_eq!(buf, "ab\r\ncd\r\n");
}

#[test]
fn compose_background_only_forces_space_glyph() {
    let p = compose((200, 10, 30), ColorMode::BackgroundOnly);
    assert_eq!(p.glyph, ' ');
    assert_eq!(p.background, Some((200, 10, 30)));
    assert_eq!(p.foreground, None);
}

#[test]
fn compose_full_mode_sets_foreground_and_glyph() {
    let p = compose((255, 255, 255), ColorMode::Full);
    assert_eq!(p.glyph, '#');
    assert_eq!(p.background, Some((255, 255, 255)));
    assert_eq!(p.foreground, Some((255, 255, 255)));
}

#[test]
fn from_samples_len_is_width_times_height() {
    let samples: Vec<(u8, u8, u8)> = vec![(0, 0, 0); 12];
    let ti = TextImage::from_samples(
        Options { width: 4, height: 3 },
        &samples,
        ColorMode::BackgroundOnly,
    );
    assert_eq!(ti.width(), 4);
    assert_eq!(ti.height(), 3);
    assert_eq!(ti.cell_count(), 12);
}

#[test]
fn from_samples_composes_every_cell() {
    let samples: Vec<(u8, u8, u8)> = vec![(1, 2, 3), (255, 255, 255)];
    let ti = TextImage::from_samples(Options { width: 2, height: 1 }, &samples, ColorMode::Full);
    let first = ti.cell_at(0);
    assert_eq!(first.background, Some((1, 2, 3)));
    assert_eq!(first.foreground, Some((1, 2, 3)));
    let second = ti.cell_at(1);
    assert_eq!(second.glyph, '#');
}
