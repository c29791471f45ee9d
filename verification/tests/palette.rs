use txtimg::get_char;
use txtimg::luminance;

#[test]
fn luminance_extremes() {
    assert_eq!(luminance((0, 0, 0)), 0);
    assert_eq!(luminance((255, 255, 255)), 255);
}

#[test]
fn luminance_weighted_sum() {
    // (3*10 + 4*20 + 30) / 8 == 140 / 8 == 17
    assert_eq!(luminance((10, 20, 30)), 17);
    // (3*255 + 4*0 + 0) / 8 == 765 / 8 == 95
    assert_eq!(luminance((255, 0, 0)), 95);
    // green carries the largest weight
    assert_eq!(luminance((0, 255, 0)), 127);
    assert_eq!(luminance((0, 0, 255)), 31);
}

#[test]
fn glyph_extremes() {
    assert_eq!(get_char(0), ' ');
    assert_eq!(get_char(255), '#');
}

#[test]
fn glyph_bucket_boundaries() {
    // buckets are 25.5 luminance values wide (index = 2*l / 51):
    // 0..=25 -> first entry, 26..=50 -> second, ..., 204..=229 -> ninth,
    // 230..=255 -> last, with luminance 255 clamped onto the last entry
    assert_eq!(get_char(25), ' ');
    assert_eq!(get_char(26), '.');
    assert_eq!(get_char(50), '.');
    assert_eq!(get_char(51), ':');
    assert_eq!(get_char(76), ':');
    assert_eq!(get_char(77), ';');
    assert_eq!(get_char(203), '&');
    assert_eq!(get_char(204), '@');
    assert_eq!(get_char(229), '@');
    assert_eq!(get_char(230), '#');
    assert_eq!(get_char(254), '#');
    assert_eq!(get_char(255), '#');
}

#[test]
fn luminance_monotone_in_weighted_sum() {
    // spot-check: ordering by 3r+4g+b is never inverted by luminance
    let triples = [
        (0u8, 0u8, 0u8),
        (1, 0, 0),
        (0, 1, 0),
        (8, 0, 0),
        (0, 0, 17),
        (100, 50, 25),
        (255, 255, 255),
    ];
    for &a in triples.iter() {
        for &b in triples.iter() {
            let wa = 3 * a.0 as u32 + 4 * a.1 as u32 + a.2 as u32;
            let wb = 3 * b.0 as u32 + 4 * b.1 as u32 + b.2 as u32;
            if wa <= wb {
                assert!(luminance(a) <= luminance(b));
            }
        }
    }
}
