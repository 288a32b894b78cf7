use std::cell::Cell;

use imagequant::Attributes;
use imagequant::Color;
use imagequant::HistogramEntry;
use imagequant::Image;
use imagequant::LiqError;

#[test]
fn buffer_bound_is_exact() {
    let liq = Attributes::new();
    // stride 5, width 3, height 4: the rectangle needs 5*3+3 = 18 pixels.
    let buf = vec![Color::new(9, 9, 9, 255); 18];
    assert!(liq.new_image_stride(&buf, 3, 4, 5, 0).is_ok());
    assert!(matches!(
        liq.new_image_stride(&buf[..17], 3, 4, 5, 0),
        Err(LiqError::BufferTooSmall)
    ));
}

#[test]
fn senseless_dimensions_rejected() {
    let liq = Attributes::new();
    let buf = vec![Color::new(0, 0, 0, 255); 16];
    // zero width, zero height, stride below width, gamma above 1.0
    assert!(matches!(liq.new_image(&buf, 0, 1, 0), Err(LiqError::ValueOutOfRange)));
    assert!(matches!(liq.new_image(&buf, 1, 0, 0), Err(LiqError::ValueOutOfRange)));
    assert!(matches!(
        liq.new_image_stride(&buf, 4, 2, 3, 0),
        Err(LiqError::ValueOutOfRange)
    ));
    assert!(matches!(
        liq.new_image(&buf, 4, 2, 1_000_001),
        Err(LiqError::ValueOutOfRange)
    ));
}

#[test]
fn copied_image_ignores_later_buffer_changes() {
    let mut liq = Attributes::new();
    let mut buf = vec![Color::new(10, 20, 30, 255); 4];
    buf[3] = Color::new(200, 100, 50, 255);
    let img = liq.new_image_stride_copy(&buf, 2, 2, 2, 0).unwrap();
    let mut before = liq.quantize(&img).unwrap();
    let pal_before = before.palette();

    // Scribble over the source buffer after construction.
    for px in buf.iter_mut() {
        *px = Color::new(1, 2, 3, 4);
    }
    let mut after = liq.quantize(&img).unwrap();
    let pal_after = after.palette();

    assert_eq!(pal_before, pal_after);
    assert_eq!(2, pal_after.len());
    assert_eq!(Color::new(10, 20, 30, 255), pal_after[0]);
    assert_eq!(Color::new(200, 100, 50, 255), pal_after[1]);
}

#[test]
fn row_generator_runs_once_per_row() {
    let mut liq = Attributes::new();
    let calls = Cell::new(0usize);
    let img = Image::new_fn(
        &liq,
        |y| {
            assert!(y < 2);
            calls.set(calls.get() + 1);
            let mut row = Vec::new();
            for x in 0..3usize {
                let v = (y * 3 + x) as u8;
                row.push(Color::new(v, v, v, 255));
            }
            row
        },
        3,
        2,
        0,
    )
    .unwrap();
    assert_eq!(2, calls.get());
    assert_eq!(3, img.width());
    assert_eq!(2, img.height());
    let mut res = liq.quantize(&img).unwrap();
    assert_eq!(6, res.palette().len());
}

#[test]
fn row_generator_width_must_match() {
    let liq = Attributes::new();
    let r = Image::new_fn(&liq, |_y| vec![Color::new(0, 0, 0, 255); 2], 3, 2, 0);
    assert!(matches!(r, Err(LiqError::Unsupported)));
}

#[test]
fn cloned_configuration_is_independent() {
    let mut liq = Attributes::new();
    liq.set_speed(7);
    liq.set_quality(10, 90);
    let mut liq2 = liq.clone();
    assert_eq!(liq.speed(), liq2.speed());
    assert_eq!(liq.quality(), liq2.quality());
    assert_eq!(liq.max_colors(), liq2.max_colors());
    assert_eq!(liq.min_posterization(), liq2.min_posterization());

    // Mutating the clone leaves the original alone, and the other way round.
    liq2.set_speed(2);
    assert_eq!(7, liq.speed());
    assert_eq!(2, liq2.speed());
    liq.set_quality(0, 50);
    assert_eq!((10, 90), liq2.quality());
    drop(liq);
    assert_eq!(2, liq2.speed());
}

#[test]
fn remap_into_undersized_buffer() {
    let mut liq = Attributes::new();
    let bitmap = vec![Color::new(0, 0, 0, 255), Color::new(255, 255, 255, 255)];
    let ref mut img = liq.new_image(&bitmap, 2, 1, 0).unwrap();
    let mut res = liq.quantize(img).unwrap();

    let mut small = vec![77u8; 1];
    let r = res.remap_into(img, &mut small);
    assert!(matches!(r, Err(LiqError::BufferTooSmall)));
    // Nothing was written.
    assert_eq!(vec![77u8; 1], small);

    // A roomy buffer gets exactly width*height bytes; the tail survives.
    let mut roomy = vec![88u8; 4];
    res.remap_into(img, &mut roomy).unwrap();
    assert_eq!(4, roomy.len());
    assert_eq!(88u8, roomy[2]);
    assert_eq!(88u8, roomy[3]);
    let pal = res.palette();
    assert_eq!(pal[roomy[0] as usize], Color::new(0, 0, 0, 255));
    assert_eq!(pal[roomy[1] as usize], Color::new(255, 255, 255, 255));
}

#[test]
fn remapped_indices_are_exact() {
    let mut liq = Attributes::new();
    let bitmap = vec![Color::new(250, 250, 250, 255), Color::new(5, 5, 5, 255)];
    let ref mut img = liq.new_image(&bitmap, 2, 1, 0).unwrap();
    let mut res = liq.quantize(img).unwrap();
    let (pal, bytes) = res.remapped(img).unwrap();
    assert_eq!(2, bytes.len());
    assert_eq!(bitmap[0], pal[bytes[0] as usize]);
    assert_eq!(bitmap[1], pal[bytes[1] as usize]);
    assert_eq!(Some(0), res.quantization_error());
}

#[test]
fn quality_floor_can_fail() {
    let mut liq = Attributes::new();
    liq.set_max_colors(2);
    liq.set_quality(100, 100);
    let bitmap = vec![
        Color::new(0, 0, 0, 255),
        Color::new(255, 255, 255, 255),
        Color::new(255, 0, 0, 255),
    ];
    let ref mut img = liq.new_image(&bitmap, 3, 1, 0).unwrap();
    let r = liq.quantize(img);
    assert!(matches!(r, Err(LiqError::QualityTooLow)));
}

#[test]
fn setters_reject_out_of_domain_values() {
    let mut liq = Attributes::new();
    assert_eq!(LiqError::ValueOutOfRange, liq.set_speed(11));
    assert_eq!(LiqError::ValueOutOfRange, liq.set_speed(0));
    assert_eq!(4, liq.speed());
    assert_eq!(LiqError::ValueOutOfRange, liq.set_max_colors(0));
    assert_eq!(LiqError::ValueOutOfRange, liq.set_max_colors(257));
    assert_eq!(256, liq.max_colors());
    assert_eq!(LiqError::ValueOutOfRange, liq.set_quality(80, 40));
    assert_eq!(LiqError::ValueOutOfRange, liq.set_quality(0, 101));
    assert_eq!((0, 100), liq.quality());
    assert_eq!(LiqError::ValueOutOfRange, liq.set_min_posterization(5));
    assert_eq!(0, liq.min_posterization());
    assert_eq!(LiqError::LiqOk, liq.set_speed(1));
    assert_eq!(1, liq.speed());
}

#[test]
fn fixed_color_reservations_are_capped() {
    let liq = Attributes::new();
    let bitmap = vec![Color::new(1, 1, 1, 255); 1];
    let mut img = liq.new_image(&bitmap, 1, 1, 0).unwrap();
    for i in 0..256usize {
        let c = Color::new((i % 256) as u8, (i / 256) as u8, 3, 255);
        assert_eq!(LiqError::LiqOk, img.add_fixed_color(c));
    }
    assert_eq!(
        LiqError::BufferTooSmall,
        img.add_fixed_color(Color::new(9, 9, 9, 9))
    );
}

#[test]
fn fixed_colors_lead_the_palette() {
    let mut liq = Attributes::new();
    let bitmap = vec![Color::new(255, 255, 255, 255); 4];
    let mut img = liq.new_image(&bitmap, 2, 2, 0).unwrap();
    img.add_fixed_color(Color::new(200, 0, 0, 255));
    let mut res = liq.quantize(&img).unwrap();
    let pal = res.palette();
    assert_eq!(2, pal.len());
    assert_eq!(Color::new(200, 0, 0, 255), pal[0]);
    assert_eq!(Color::new(255, 255, 255, 255), pal[1]);
}

#[test]
fn background_pixels_become_transparent() {
    let mut liq = Attributes::new();
    let red = Color::new(200, 0, 0, 255);
    let clear = Color::new(0, 0, 0, 0);
    let white = Color::new(255, 255, 255, 255);

    let bitmap = vec![red, clear];
    let bg_bitmap = vec![red, white];

    // Without a background, the red pixel keeps its own palette entry.
    let ref mut plain = liq.new_image(&bitmap, 2, 1, 0).unwrap();
    let mut res = liq.quantize(plain).unwrap();
    let (pal, bytes) = res.remapped(plain).unwrap();
    assert_eq!(clear, pal[bytes[1] as usize]);
    assert_eq!(red, pal[bytes[0] as usize]);

    // With a background, the matching pixel maps to the transparent entry.
    let mut img = liq.new_image(&bitmap, 2, 1, 0).unwrap();
    let bg = liq.new_image(&bg_bitmap, 2, 1, 0).unwrap();
    img.set_background(bg).unwrap();
    let mut res2 = liq.quantize(&img).unwrap();
    let mut out = vec![0u8; 2];
    res2.remap_into(&mut img, &mut out).unwrap();
    let pal2 = res2.palette();
    assert_eq!(clear, pal2[out[0] as usize]);
    assert_eq!(clear, pal2[out[1] as usize]);
}

#[test]
fn background_must_fit() {
    let liq = Attributes::new();
    let bitmap = vec![Color::new(1, 2, 3, 255); 4];
    let mut img = liq.new_image(&bitmap, 2, 2, 0).unwrap();
    let small = liq.new_image(&bitmap, 1, 1, 0).unwrap();
    assert!(matches!(img.set_background(small), Err(LiqError::BufferTooSmall)));
    let ok_bg = liq.new_image(&bitmap, 2, 2, 0).unwrap();
    img.set_background(ok_bg).unwrap();
    let another = liq.new_image(&bitmap, 2, 2, 0).unwrap();
    assert!(matches!(img.set_background(another), Err(LiqError::Unsupported)));
}

#[test]
fn importance_map_size_is_checked() {
    let liq = Attributes::new();
    let bitmap = vec![Color::new(1, 2, 3, 255); 4];
    let mut img = liq.new_image(&bitmap, 2, 2, 0).unwrap();
    assert!(matches!(
        img.set_importance_map(&[255, 0, 0]),
        Err(LiqError::BufferTooSmall)
    ));
    img.set_importance_map(&[255, 0, 0, 0]).unwrap();
}

#[test]
fn histogram_add_colors_checks_gamma() {
    let attr = Attributes::new();
    let mut hist = attr.new_histogram();
    let entries = [HistogramEntry { color: Color::new(1, 2, 3, 255), count: 1 }];
    assert_eq!(LiqError::ValueOutOfRange, hist.add_colors(&entries, 1_000_001));
    assert_eq!(LiqError::LiqOk, hist.add_colors(&entries, 500_000));
    let mut res = hist.quantize().unwrap();
    assert_eq!(1, res.palette().len());
}

#[test]
fn output_gamma_round_trip() {
    let mut liq = Attributes::new();
    let bitmap = vec![Color::new(1, 2, 3, 255); 1];
    let ref mut img = liq.new_image(&bitmap, 1, 1, 0).unwrap();
    let mut res = liq.quantize(img).unwrap();
    assert_eq!(454_545, res.output_gamma());
    assert_eq!(LiqError::ValueOutOfRange, res.set_output_gamma(0));
    assert_eq!(LiqError::ValueOutOfRange, res.set_output_gamma(1_000_000));
    assert_eq!(LiqError::LiqOk, res.set_output_gamma(300_000));
    assert_eq!(300_000, res.output_gamma());
    assert_eq!(LiqError::ValueOutOfRange, res.set_dithering_level(1_000_001));
    assert_eq!(LiqError::LiqOk, res.set_dithering_level(500_000));
}

#[test]
fn last_index_transparent_moves_the_entry() {
    let clear = Color::new(0, 0, 0, 0);
    let white = Color::new(255, 255, 255, 255);
    let bitmap = vec![white, clear];

    let mut first = Attributes::new();
    let ref mut img1 = first.new_image(&bitmap, 2, 1, 0).unwrap();
    let mut res1 = first.quantize(img1).unwrap();
    assert_eq!(clear, res1.palette()[0]);

    let mut second = Attributes::new();
    second.set_last_index_transparent(true);
    let ref mut img2 = second.new_image(&bitmap, 2, 1, 0).unwrap();
    let mut res2 = second.quantize(img2).unwrap();
    let pal2 = res2.palette();
    assert_eq!(clear, pal2[pal2.len() - 1]);
}

#[test]
fn posterization_collapses_near_colors() {
    let mut liq = Attributes::new();
    let bitmap = vec![Color::new(0, 0, 0, 255), Color::new(1, 1, 1, 255)];
    let ref mut img = liq.new_image(&bitmap, 2, 1, 0).unwrap();
    let mut full = liq.quantize(img).unwrap();
    assert_eq!(2, full.palette().len());

    // One discarded bit folds the two colors together.
    liq.set_min_posterization(1);
    let ref mut img2 = liq.new_image(&bitmap, 2, 1, 0).unwrap();
    let mut coarse = liq.quantize(img2).unwrap();
    let pal = coarse.palette();
    assert_eq!(1, pal.len());
    assert_eq!(Color::new(0, 0, 0, 254), pal[0]);
}

#[test]
fn aggregation_order_keeps_statistics() {
    let attr = Attributes::new();
    let e1 = HistogramEntry { color: Color::new(10, 0, 0, 255), count: 3 };
    let e2 = HistogramEntry { color: Color::new(0, 99, 0, 255), count: 7 };

    let mut h1 = attr.new_histogram();
    h1.add_colors(&[e1], 0);
    h1.add_colors(&[e2], 0);
    let p1 = h1.quantize().unwrap().palette();

    let mut h2 = attr.new_histogram();
    h2.add_colors(&[e2], 0);
    h2.add_colors(&[e1], 0);
    let p2 = h2.quantize().unwrap().palette();

    assert_eq!(2, p1.len());
    assert_eq!(p1.len(), p2.len());
    for c in p1 {
        assert!(p2.contains(&c));
    }
}
