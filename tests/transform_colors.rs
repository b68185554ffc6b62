use colorswitch::hsl::{
    hsl_to_rgb, pixel_hue, rehue_saturate_pixel, rotate_saturate_pixel, Hue,
    ARC_MINUTES_PER_TURN,
};
use colorswitch::image::ImType;
use palette::ConvertInto;
use colorswitch::transform_colors::{apply_transform, color_stretch, saturate_and_rotate};

/// The hue stretch around the reference hue 0.6 of a turn, radius 0.8, in
/// double precision.
fn stretch_f64(h: Hue) -> u32 {
    let pi2 = std::f64::consts::PI * 2.0;
    let cx = 0.8 * (0.6 * pi2).cos();
    let cy = 0.8 * (0.6 * pi2).sin();
    let hue = h.num as f64 / (6.0 * h.den as f64) * pi2;
    let turns = (hue.sin() - cy).atan2(hue.cos() - cx) / pi2;
    let minutes = (turns * ARC_MINUTES_PER_TURN as f64).round();
    minutes.rem_euclid(ARC_MINUTES_PER_TURN as f64) as u32
}

fn sample_buffer() -> Vec<u8> {
    let mut v = Vec::new();
    for i in 0..200u32 {
        v.push((i * 37 % 256) as u8);
        v.push((i * 91 % 256) as u8);
        v.push((i * 53 % 256) as u8);
        v.push((i * 11 % 256) as u8);
    }
    v
}

#[test]
fn end_to_end_red_and_green() {
    let mut data = vec![255, 0, 0, 255, 0, 255, 0, 255];
    saturate_and_rotate(&mut data);
    assert_eq!(data, vec![0, 255, 255, 255, 255, 0, 255, 255]);
}

#[test]
fn rotate_partly_saturated_pixel() {
    assert_eq!(rotate_saturate_pixel(200, 100, 50), (0, 167, 250));
    assert_eq!(rotate_saturate_pixel(64, 115, 191), (255, 153, 0));
    assert_eq!(rotate_saturate_pixel(0, 0, 255), (255, 255, 0));
}

#[test]
fn shape_and_alpha_kept() {
    for mode in [ImType::Original, ImType::Rotated, ImType::Stretch] {
        let before = sample_buffer();
        let mut data = before.clone();
        apply_transform(mode, &mut data, stretch_f64);
        assert_eq!(data.len(), before.len());
        for i in (3..data.len()).step_by(4) {
            assert_eq!(data[i], before[i]);
        }
    }
    let mut empty: Vec<u8> = Vec::new();
    saturate_and_rotate(&mut empty);
    assert!(empty.is_empty());
}

#[test]
fn rotating_twice_restores_hue_not_saturation() {
    // Fully saturated: both come back.
    let mut data = vec![255, 0, 0, 9];
    saturate_and_rotate(&mut data);
    saturate_and_rotate(&mut data);
    assert_eq!(data, vec![255, 0, 0, 9]);

    // Fully saturated, not primaries: back byte for byte.
    for p in [[255, 100, 0, 1], [10, 0, 0, 2], [0, 255, 200, 3], [128, 255, 1, 4]] {
        let mut data = p.to_vec();
        saturate_and_rotate(&mut data);
        assert_ne!(data, p.to_vec());
        saturate_and_rotate(&mut data);
        assert_eq!(data, p.to_vec());
    }

    // Saturation 0.6: the hue comes back (to rounding), the saturation does not.
    let mut data = vec![200, 100, 50, 7];
    saturate_and_rotate(&mut data);
    saturate_and_rotate(&mut data);
    assert_eq!(data, vec![250, 83, 0, 7]);
    let before = pixel_hue(200, 100, 50).unwrap();
    let after = pixel_hue(data[0], data[1], data[2]).unwrap();
    let turn = |h: Hue| h.num as f64 / (6.0 * h.den as f64);
    assert!((turn(before) - turn(after)).abs() < 0.001);
    assert_ne!(data[..3], [200, 100, 50]);
}

#[test]
fn hue_wraps_past_full_turn() {
    // Hue 270 degrees turns to 90 degrees, not 450.
    assert_eq!(pixel_hue(100, 0, 200), Some(Hue { num: 900, den: 200 }));
    assert_eq!(rotate_saturate_pixel(100, 0, 200), (100, 200, 0));
    assert_eq!(pixel_hue(100, 200, 0), Some(Hue { num: 300, den: 200 }));
}

#[test]
fn grey_pixels_unchanged() {
    for v in 0..=255u8 {
        let mut a = vec![v, v, v, 128];
        saturate_and_rotate(&mut a);
        assert_eq!(a, vec![v, v, v, 128]);
        let mut b = vec![v, v, v, 3];
        color_stretch(&mut b, stretch_f64);
        assert_eq!(b, vec![v, v, v, 3]);
    }
}

#[test]
fn white_and_black_unchanged() {
    let before = vec![255, 255, 255, 10, 0, 0, 0, 200];
    for mode in [ImType::Rotated, ImType::Stretch] {
        let mut data = before.clone();
        apply_transform(mode, &mut data, stretch_f64);
        assert_eq!(data, before);
    }
}

#[test]
fn stretch_near_reference_hue() {
    // Hue about 216 degrees, saturation and lightness about one half.
    let h = pixel_hue(64, 115, 191).unwrap();
    assert_eq!(h, Hue { num: 457, den: 127 });
    assert_eq!(stretch_f64(h), 12932);
    let mut data = vec![64, 115, 191, 255];
    color_stretch(&mut data, stretch_f64);
    assert_eq!(data, vec![0, 104, 255, 255]);
}

#[test]
fn reference_hue_at_half_lightness() {
    // Lightness one half, saturation at least a quarter, hue 216 degrees.
    for (r, g, b) in [(64, 115, 191), (0, 64, 255), (60, 100, 195), (255, 0, 0)] {
        assert_eq!(rehue_saturate_pixel(r, g, b, 12960), (0, 102, 255));
    }
}

#[test]
fn hue_after_two_rotations_within_byte_grid() {
    let steps: Vec<u8> = (0..=255u32).step_by(17).map(|v| v as u8).collect();
    for &r in &steps {
        for &g in &steps {
            for &b in &steps {
                let (mx, mn) = (r.max(g).max(b) as i64, r.min(g).min(b) as i64);
                if mx == mn {
                    continue;
                }
                let o = rotate_saturate_pixel(r, g, b);
                let o2 = rotate_saturate_pixel(o.0, o.1, o.2);
                let c1 = (o.0.max(o.1).max(o.2) - o.0.min(o.1).min(o.2)) as i64;
                let lo2 = o2.0.min(o2.1).min(o2.2) as i64;
                let c2 = o2.0.max(o2.1).max(o2.2) as i64 - lo2;
                let d = mx - mn;
                for (x, x2) in [(r, o2.0), (g, o2.1), (b, o2.2)] {
                    let gap = (x2 as i64 - lo2) * d * c1 - (x as i64 - mn) * c2 * c1;
                    assert!(gap.abs() < d * c1 + d * c2, "{:?}", (r, g, b));
                }
            }
        }
    }
}

#[test]
fn stretch_primaries() {
    let mut data = vec![255, 0, 0, 1, 0, 255, 0, 2, 0, 0, 255, 3];
    color_stretch(&mut data, stretch_f64);
    assert_eq!(data, vec![255, 68, 0, 1, 154, 255, 0, 2, 214, 0, 255, 3]);
}

#[test]
fn stretch_uses_returned_hue() {
    // A stretch that sends every hue to green.
    let mut data = vec![255, 0, 0, 4, 10, 20, 30, 5];
    color_stretch(&mut data, |_h: Hue| 7200);
    assert_eq!(data[..4], [0, 255, 0, 4]);
    assert_eq!(data[4..], [0, 40, 0, 5]);
}

#[test]
fn identity_keeps_bytes() {
    let before = sample_buffer();
    let mut data = before.clone();
    apply_transform(ImType::Original, &mut data, stretch_f64);
    assert_eq!(data, before);
}

#[test]
fn hue_of_primaries_and_grey() {
    assert_eq!(pixel_hue(255, 0, 0), Some(Hue { num: 0, den: 255 }));
    assert_eq!(pixel_hue(0, 255, 0), Some(Hue { num: 510, den: 255 }));
    assert_eq!(pixel_hue(0, 0, 255), Some(Hue { num: 1020, den: 255 }));
    assert_eq!(pixel_hue(255, 0, 128), Some(Hue { num: 1402, den: 255 }));
    assert_eq!(pixel_hue(255, 255, 0), Some(Hue { num: 255, den: 255 }));
    assert_eq!(pixel_hue(7, 7, 7), None);
}

#[test]
fn rebuild_from_hue() {
    // Hue 120 degrees, lightness one half, full chroma: green.
    assert_eq!(hsl_to_rgb(Hue { num: 2, den: 1 }, 255, 255), (0, 255, 0));
    // Half the chroma, about: a blend towards grey.
    assert_eq!(hsl_to_rgb(Hue { num: 2, den: 1 }, 255, 127), (64, 191, 64));
    // A pixel rebuilt from its own hue, lightness sum and chroma.
    let h = pixel_hue(200, 100, 50).unwrap();
    assert_eq!(hsl_to_rgb(h, 250, 150), (200, 100, 50));
}

#[test]
fn rehue_wraps_the_turn() {
    assert_eq!(rehue_saturate_pixel(255, 0, 0, 7200), (0, 255, 0));
    assert_eq!(rehue_saturate_pixel(255, 0, 0, 7200 + ARC_MINUTES_PER_TURN), (0, 255, 0));
    assert_eq!(rehue_saturate_pixel(9, 9, 9, 7200), (9, 9, 9));
}

/// Rotate-and-saturate in single-precision floating point through `palette`:
/// bytes read as linear RGB (no gamma decoding), HSL, half a turn of hue,
/// saturation times four clamped to one, and back to rounded bytes.
fn palette_rotate(r: u8, g: u8, b: u8) -> (u8, u8, u8) {
    type Lin = palette::encoding::Linear<palette::encoding::Srgb>;
    let rgb: palette::rgb::Rgb<Lin, u8> = palette::rgb::Rgb::new(r, g, b);
    let rgb_f32: palette::rgb::Rgb<Lin, f32> = rgb.into_format();
    let mut hsl: palette::Hsl<palette::encoding::Srgb, f32> = rgb_f32.convert_into();
    hsl.hue = palette::RgbHue::from_degrees(hsl.hue.to_degrees() + 180.0);
    hsl.saturation = (hsl.saturation * 4.0).min(1.0);
    let back: palette::rgb::Rgb<Lin, f32> = hsl.convert_into();
    let out: palette::rgb::Rgb<Lin, u8> = back.into_format();
    (out.red, out.green, out.blue)
}

#[test]
fn agrees_with_palette_within_one() {
    let steps: Vec<u8> = (0..=255u32).step_by(15).map(|v| v as u8).collect();
    for &r in &steps {
        for &g in &steps {
            for &b in &steps {
                let ours = rotate_saturate_pixel(r, g, b);
                let theirs = palette_rotate(r, g, b);
                for (x, y) in [(ours.0, theirs.0), (ours.1, theirs.1), (ours.2, theirs.2)] {
                    assert!(
                        (x as i32 - y as i32).abs() <= 1,
                        "{:?} gives {:?}, palette {:?}",
                        (r, g, b),
                        ours,
                        theirs
                    );
                }
            }
        }
    }
}
