use ttf_render::renderer::pbm::Image;
use ttf_render::renderer::render::render_glyph;
use ttf_render::ttf::glyph::{CompositeGlyph, Glyph, GlyphHeader, SimpleGlyph};

#[test]
fn new_image_is_blank() {
    let img = Image::new(3, 2);
    assert_eq!(img.width, 3);
    assert_eq!(img.height, 2);
    assert_eq!(img.data, vec![false; 6]);
}

#[test]
fn set_pixel_writes_row_major() {
    let mut img = Image::new(3, 2);
    img.set_pixel(1, 1, true);
    assert_eq!(img.data, vec![false, false, false, false, true, false]);
    img.set_pixel(1, 1, false);
    assert_eq!(img.data, vec![false; 6]);
}

#[test]
fn set_pixel_outside_is_ignored() {
    let mut img = Image::new(2, 2);
    img.set_pixel(2, 0, true);
    img.set_pixel(0, 5, true);
    assert_eq!(img.data, vec![false; 4]);
}

#[test]
fn pbm_text() {
    let mut img = Image::new(3, 2);
    img.set_pixel(0, 0, true);
    img.set_pixel(2, 1, true);
    assert_eq!(String::from_utf8(img.to_pbm()).unwrap(), "P1\n3 2\n100\n001\n");
}

#[test]
fn ppm_text() {
    let mut img = Image::new(2, 1);
    img.set_pixel(1, 0, true);
    assert_eq!(
        String::from_utf8(img.to_ppm()).unwrap(),
        "P3\n2 1\n255\n0 0 0 255 255 255 \n"
    );
}

#[test]
fn empty_image_has_header_only() {
    let img = Image::new(0, 4);
    assert_eq!(String::from_utf8(img.to_pbm()).unwrap(), "P1\n0 4\n\n\n\n\n");
}

fn header(x_min: i16, y_min: i16, x_max: i16, y_max: i16, n: i16) -> GlyphHeader {
    GlyphHeader { number_of_contours: n, x_min, y_min, x_max, y_max }
}

#[test]
fn render_glyph_sizes_image_to_bounding_box() {
    let g = Glyph::Simple(SimpleGlyph {
        header: header(-10, 5, 20, 14, 0),
        end_pts_of_contours: vec![],
        instruction_length: 0,
        instructions: vec![],
        points: vec![],
    });
    let img = render_glyph(&g);
    assert_eq!(img.width, 31);
    assert_eq!(img.height, 10);
    assert_eq!(img.data.len(), 310);
    assert!(img.data.iter().all(|p| !p));
}

#[test]
fn render_composite_glyph() {
    let g = Glyph::Composite(CompositeGlyph { header: header(0, 0, 0, 1, -1) });
    let img = render_glyph(&g);
    assert_eq!(img.width, 1);
    assert_eq!(img.height, 2);
}

#[test]
fn render_point_box_is_one_pixel() {
    let g = Glyph::Composite(CompositeGlyph { header: header(0, 0, 0, 0, -1) });
    let img = render_glyph(&g);
    assert_eq!(img.width, 1);
    assert_eq!(img.height, 1);
    assert_eq!(img.data, vec![false]);
}
