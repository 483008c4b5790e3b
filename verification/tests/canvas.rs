use raytracer::canvas::{build_canvas, pixel_at, quantize, rgb_bytes, write_pixel};
use raytracer::colors::Color;
use raytracer::scalar::Scalar;

fn s(x: f32) -> Scalar {
    Scalar::from_bits(x.to_bits())
}

fn color(r: f32, g: f32, b: f32) -> Color {
    Color { r: s(r), g: s(g), b: s(b) }
}

#[test]
fn default_color_is_black() {
    let canvas = build_canvas(10, 10);
    assert_eq!(pixel_at(&canvas, 0, 0), color(0.0, 0.0, 0.0))
}

#[test]
fn can_write_pixels_in_canvas() {
    let color_to_write = color(1.0, 0.0, 0.0);
    let mut canvas = build_canvas(10, 10);
    write_pixel(&mut canvas, 0, 0, color_to_write);
    assert_eq!(pixel_at(&canvas, 0, 0), color(1.0, 0.0, 0.0))
}

#[test]
fn a_new_canvas_has_its_size_and_is_black_all_over() {
    let canvas = build_canvas(7, 3);
    assert_eq!(canvas.width(), 7);
    assert_eq!(canvas.height(), 3);
    for y in 0..3 {
        for x in 0..7 {
            assert_eq!(pixel_at(&canvas, x, y), Color::black());
        }
    }
}

#[test]
fn writing_a_pixel_leaves_the_others() {
    let mut canvas = build_canvas(4, 3);
    write_pixel(&mut canvas, 3, 1, color(0.5, 0.25, 1.0));
    for y in 0..3 {
        for x in 0..4 {
            if x == 3 && y == 1 {
                assert_eq!(pixel_at(&canvas, x, y), color(0.5, 0.25, 1.0));
            } else {
                assert_eq!(pixel_at(&canvas, x, y), Color::black());
            }
        }
    }
    write_pixel(&mut canvas, 3, 1, color(0.0, 1.0, 0.0));
    assert_eq!(pixel_at(&canvas, 3, 1), color(0.0, 1.0, 0.0));
}

#[test]
fn an_empty_canvas_has_no_bytes() {
    assert_eq!(rgb_bytes(&build_canvas(0, 0)).len(), 0);
    assert_eq!(rgb_bytes(&build_canvas(5, 0)).len(), 0);
    assert_eq!(rgb_bytes(&build_canvas(0, 5)).len(), 0);
}

#[test]
fn channels_become_bytes_as_the_machine_casts_them() {
    let values = [
        0.0_f32,
        -0.0,
        0.001,
        0.5,
        0.999,
        1.0,
        1.0000001,
        1.5,
        -0.5,
        -3.0,
        0.2,
        0.1,
        0.9,
        1.9,
        0.7363961,
        f32::NAN,
        f32::INFINITY,
        f32::NEG_INFINITY,
        3.0e38,
        1.0e-40,
    ];
    for v in values {
        let expected = (255.0 * v) as u8;
        let (r, g, b) = quantize(&color(v, 0.0, 1.0));
        assert_eq!(r, expected, "{}", v);
        assert_eq!(g, 0);
        assert_eq!(b, 255);
    }
}

#[test]
fn the_bytes_run_row_after_row() {
    let mut canvas = build_canvas(3, 2);
    write_pixel(&mut canvas, 0, 0, color(1.0, 0.0, 0.0));
    write_pixel(&mut canvas, 2, 0, color(0.0, 0.5, 0.0));
    write_pixel(&mut canvas, 1, 1, color(0.0, 0.0, 0.2));
    write_pixel(&mut canvas, 2, 1, color(2.0, -1.0, 1.0));
    let bytes = rgb_bytes(&canvas);
    assert_eq!(
        bytes,
        vec![
            255, 0, 0, 0, 0, 0, 0, 127, 0, //
            0, 0, 0, 0, 0, 51, 255, 0, 255
        ]
    );
}
