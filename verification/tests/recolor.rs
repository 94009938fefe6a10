use fleurs::chest::generate_chest;
use fleurs::directives::back;
use fleurs::directives::to_replace;
use fleurs::hat::{generate_hat, HAT_DIRECTIVES};
use fleurs::image::{diffrent, to_color_table, to_hex, Image, ImageParseOptions, PixelFormat};
use fleurs::outfit;
use fleurs::pants::{generate_pants, PANTS_DIRECTIVES, PANTS_HIDE_BODY_DIRECTIVES};
use fleurs::template::create;

fn solid_image(width: u32, height: u32, pixel: [u8; 4]) -> Image {
    let mut data: Vec<u8> = Vec::new();
    for _ in 0..(width * height) {
        data.extend_from_slice(&pixel);
    }
    Image::new(data, width, height, PixelFormat::RGBA32)
}

#[test]
fn hex_codes() {
    // an opaque alpha byte is dropped, and repeated digits shorten
    assert_eq!(to_hex(&[255, 255, 255, 255]), "fff");
    assert_eq!(to_hex(&[0x11, 0x22, 0x33, 255]), "123");
    assert_eq!(to_hex(&[0x12, 0x34, 0x56, 255]), "123456");
    assert_eq!(to_hex(&[0x12, 0x34, 0x56, 0x78]), "12345678");
    assert_eq!(to_hex(&[0x00, 0x01, 0x00, 0x00]), "00010000");
    assert_eq!(to_hex(&[0x11, 0x22, 0x33]), "123");
    assert_eq!(to_hex(&[]), "");
}

#[test]
fn pixels_read_back() {
    let img = Image::new(vec![1, 2, 3, 4, 5, 6], 2, 1, PixelFormat::RGB24);
    assert_eq!(img.weight(), 2);
    assert_eq!(img.height(), 1);
    assert_eq!(img.bytes_per_pixel(), 3);
    assert_eq!(img.get_pixel(0, 0), [1, 2, 3, 255]);
    assert_eq!(img.get_pixel(1, 0), [4, 5, 6, 255]);

    let img = Image::new(vec![9, 8, 7, 6], 1, 1, PixelFormat::RGBA32);
    assert_eq!(img.get_pixel(0, 0), [9, 8, 7, 6]);
}

#[test]
fn color_table_is_bottom_row_first() {
    // two rows: the top pixel is red, the bottom pixel green
    let img = Image::new(
        vec![255, 0, 0, 255, 0, 255, 0, 255],
        1,
        2,
        PixelFormat::RGBA32,
    );
    let table = to_color_table(&img, ImageParseOptions { skip_transparent: false });
    assert_eq!(table, vec![vec!["0f0".to_string()], vec!["f00".to_string()]]);
}

#[test]
fn transparent_pixels_are_skipped() {
    let img = Image::new(vec![255, 0, 0, 0], 1, 1, PixelFormat::RGBA32);
    let table = to_color_table(&img, ImageParseOptions { skip_transparent: true });
    assert_eq!(table, vec![vec!["".to_string()]]);
    let table = to_color_table(&img, ImageParseOptions { skip_transparent: false });
    // with a transparent alpha kept, every byte shortens to one digit
    assert_eq!(table, vec![vec!["f000".to_string()]]);
}

#[test]
fn template_sheet_cells() {
    let frames = vec![vec!["01".to_string()]];
    let sheet = create(1, 1, frames);
    assert_eq!(sheet, vec![vec!["00010000".to_string()]]);

    // an empty identifier leaves its frame blank
    let frames = vec![vec!["".to_string(), "02".to_string()]];
    let sheet = create(1, 1, frames);
    assert_eq!(sheet, vec![vec!["".to_string(), "00020000".to_string()]]);
}

#[test]
fn template_sheet_lays_frame_rows_out_from_the_back() {
    let frames = vec![vec!["01".to_string()], vec!["02".to_string()]];
    let sheet = create(1, 1, frames);
    // sheet row `r` reads the frame at grid row `len - 1 - (v - 1 - r)`
    assert_eq!(
        sheet,
        vec![vec!["00010000".to_string()], vec!["00020000".to_string()]]
    );
}

#[test]
fn diffrent_pairs_cells() {
    let from = vec![vec!["a".to_string(), "".to_string(), "b".to_string()]];
    let to = vec![vec!["x".to_string(), "y".to_string(), "z".to_string()]];
    let swaps = diffrent(from, to);
    assert_eq!(
        swaps,
        vec![("a".to_string(), "x".to_string()), ("b".to_string(), "z".to_string())]
    );
}

#[test]
fn diffrent_later_binding_wins() {
    let from = vec![vec!["a".to_string(), "a".to_string()]];
    let to = vec![vec!["x".to_string(), "y".to_string()]];
    let swaps = diffrent(from, to);
    assert_eq!(swaps, vec![("a".to_string(), "y".to_string())]);
}

#[test]
fn replace_directive_text() {
    let palette = vec![
        ("a".to_string(), "b".to_string()),
        ("c".to_string(), "d".to_string()),
    ];
    assert_eq!(to_replace(&palette, false), "?replace;a=b;c=d");
    assert_eq!(to_replace(&palette, true), ";a=b;c=d");
    assert_eq!(to_replace(&Vec::new(), false), "?replace");
}

#[test]
fn hat_directives_start_with_the_fixed_prefix() {
    let img = solid_image(43, 43, [0, 0, 0, 0]);
    let out = generate_hat(&img);
    // a fully transparent hat dictates no swaps
    assert_eq!(out, format!("{}?replace", HAT_DIRECTIVES));

    let out2 = outfit::hat::generate(&img);
    assert!(out2.ends_with("?replace"));
}

#[test]
fn hat_swaps_map_template_cells_to_image_colors() {
    let img = solid_image(43, 43, [0xab, 0xcd, 0xef, 255]);
    let out = generate_hat(&img);
    assert!(out.starts_with(HAT_DIRECTIVES));
    assert!(out.contains("?replace;"));
    // the template encodes column, frame identifier, row: 00 01 2a 00
    assert!(out.contains(";00012a00=abcdef"));
}

#[test]
fn pants_directives_pick_their_prefix() {
    let img = solid_image(9 * 43, 6 * 43, [0, 0, 0, 0]);
    let out = generate_pants(&img, false);
    assert!(out.starts_with(PANTS_DIRECTIVES));
    let out = generate_pants(&img, true);
    assert!(out.starts_with(PANTS_HIDE_BODY_DIRECTIVES));
}

#[test]
fn chest_directives_concatenate_three_pieces() {
    let torso = solid_image(2 * 43, 6 * 43, [0, 0, 0, 0]);
    let sleeve = solid_image(9 * 43, 7 * 43, [0, 0, 0, 0]);
    let out = generate_chest(&torso, &sleeve, &sleeve);
    // transparent pieces dictate no swaps: one named directive, two bare lists
    assert!(out.ends_with("?replace"));
}

#[test]
fn back_directives_start_with_the_fixed_prefix() {
    let img = solid_image(9 * 43, 7 * 43, [0, 0, 0, 0]);
    let out = back::generate(&img);
    assert!(out.starts_with(back::BACK_DIRECTIVES));
}
