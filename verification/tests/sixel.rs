use avt::color::Rgb;
use avt::sixel::{decode, Image, Rgba, Sixel};

fn black(_h: usize, _l: usize, _s: usize) -> Rgb {
    Rgb { r: 0, g: 0, b: 0 }
}

fn opaque(r: u8, g: u8, b: u8) -> Rgba {
    Rgba { r, g, b, a: 255 }
}

#[test]
fn decodes_single_red_pixel() {
    let s = decode("#0;2;100;0;0@", black).unwrap();

    assert_eq!((s.width, s.height), (1, 6));
    assert_eq!(s.pixels[0], opaque(255, 0, 0));
    assert!(s.pixels[1..].iter().all(|p| p.a == 0));
}

#[test]
fn honors_raster_dimensions() {
    let s = decode("\"1;1;4;12#0;2;100;100;100@", black).unwrap();

    assert_eq!((s.width, s.height), (4, 12));
    assert_eq!(s.pixels.len(), 48);
}

#[test]
fn run_length_and_bands() {
    let s = decode("#0;2;0;0;100!5~-!5~", black).unwrap();

    assert_eq!((s.width, s.height), (5, 12));
    assert!(s.pixels.iter().all(|p| *p == opaque(0, 0, 255)));
}

#[test]
fn empty_data_is_none() {
    assert!(decode("", black).is_none());
}

#[test]
fn oversized_raster_declaration_is_rejected() {
    let s = decode("\"1;1;999999999;999999999#0;2;100;0;0@", black);
    assert!(s.is_none(), "expected oversized raster to be rejected");
}

#[test]
fn hls_colors_come_from_the_converter() {
    let s = decode("#1;1;120;50;100@", |h: usize, l: usize, s: usize| Rgb {
        r: h as u8,
        g: l as u8,
        b: s as u8,
    })
    .unwrap();

    assert_eq!(s.pixels[0], opaque(120, 50, 100));
}

#[test]
fn default_palette_and_registers() {
    // register 3 is the VT340's green (20%, 80%, 20%)
    let s = decode("#3@", black).unwrap();
    assert_eq!(s.pixels[0], opaque(51, 204, 51));

    // a redefined register keeps its color when selected again
    let s = decode("#5;2;0;100;0#0@#5A", black).unwrap();
    assert_eq!((s.width, s.height), (2, 6));
    assert_eq!(s.pixels[0], opaque(0, 0, 0));
    assert_eq!(s.pixels[1].a, 0);
    assert_eq!(s.pixels[2], Rgba { r: 0, g: 0, b: 0, a: 0 });
    assert_eq!(s.pixels[2 + 1], opaque(0, 255, 0));
}

#[test]
fn carriage_return_and_bits() {
    // `B` (value 3) paints the top two rows; `$` goes back to column 0
    let s = decode("#0;2;100;0;0B$#0;2;0;0;100~", black).unwrap();
    assert_eq!((s.width, s.height), (1, 6));
    assert!(s.pixels.iter().all(|p| *p == opaque(0, 0, 255)));

    let s = decode("#0;2;100;0;0B", black).unwrap();
    assert_eq!(s.pixels[0], opaque(255, 0, 0));
    assert_eq!(s.pixels[1], opaque(255, 0, 0));
    assert_eq!(s.pixels[2].a, 0);
}

#[test]
fn repeat_of_zero_paints_once() {
    let s = decode("!0~", black).unwrap();
    assert_eq!((s.width, s.height), (1, 6));
}

#[test]
fn image_footprint_and_occlusion() {
    let sixel = Sixel { width: 10, height: 20, pixels: vec![Rgba { r: 0, g: 0, b: 0, a: 0 }; 200] };
    let mut img = Image::from_sixel(3, 4, sixel, Some((4, 8)));

    assert_eq!((img.width(), img.height()), (10, 20));
    assert_eq!((img.cols(), img.rows()), (3, 3));
    assert_eq!(img.pixels().len(), 200);
    assert!(!img.is_occluded(1, 1));

    img.occlude(4, 5);
    assert!(img.is_occluded(1, 1));
    assert!(!img.is_occluded(0, 0));

    img.occlude(2, 5);
    img.occlude(6, 5);
    assert!(!img.is_occluded(0, 1));
    assert!(!img.is_occluded(3, 1));
}

#[test]
fn image_without_cell_size_has_no_footprint() {
    let mut img = Image::new(1, 2, 2, 1, vec![Rgba { r: 1, g: 2, b: 3, a: 255 }; 2]);
    assert_eq!((img.cols(), img.rows()), (0, 0));
    img.occlude(1, 2);
    assert!(!img.is_occluded(0, 0));

    let sixel = Sixel { width: 2, height: 2, pixels: vec![Rgba { r: 0, g: 0, b: 0, a: 0 }; 4] };
    let img = Image::from_sixel(0, 0, sixel, Some((0, 8)));
    assert_eq!((img.cols(), img.rows()), (0, 0));
}
