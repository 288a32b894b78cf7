use imagequant::Attributes;
use imagequant::Color;
use imagequant::HistogramEntry;
use imagequant::new;
use imagequant::RGBA;

#[test]
fn copy_img() {
    let tmp = vec![RGBA::new(1, 2, 3, 4); 10 * 100];
    let liq = Attributes::new();
    let _ = liq.new_image_stride_copy(&tmp, 10, 100, 10, 0).unwrap();
}

#[test]
fn takes_rgba() {
    let liq = Attributes::new();

    let img = vec![RGBA { r: 0, g: 0, b: 0, a: 0 }; 8];

    liq.new_image(&img, 1, 1, 0).unwrap();
    liq.new_image(&img, 4, 2, 0).unwrap();
    liq.new_image(&img, 8, 1, 0).unwrap();
    assert!(liq.new_image(&img, 9, 1, 0).is_err());
    assert!(liq.new_image(&img, 4, 3, 0).is_err());
}

#[test]
fn histogram() {
    let attr = Attributes::new();
    let mut hist = attr.new_histogram();

    let bitmap1 = vec![RGBA { r: 0, g: 0, b: 0, a: 0 }; 1];
    let mut image1 = attr.new_image(&bitmap1[..], 1, 1, 0).unwrap();
    hist.add_image(&mut image1);

    let bitmap2 = vec![RGBA { r: 255, g: 255, b: 255, a: 255 }; 1];
    let mut image2 = attr.new_image(&bitmap2[..], 1, 1, 0).unwrap();
    hist.add_image(&mut image2);

    hist.add_colors(
        &[HistogramEntry { color: Color::new(255, 128, 255, 128), count: 10 }],
        0,
    );

    let mut res = hist.quantize().unwrap();
    let pal = res.palette();
    assert_eq!(3, pal.len());
}

#[test]
fn poke_it() {
    let width = 10usize;
    let height = 10usize;
    let mut fakebitmap = vec![RGBA::new(255, 255, 255, 255); width * height];

    fakebitmap[0].r = 0x55;
    fakebitmap[0].g = 0x66;
    fakebitmap[0].b = 0x77;

    // Configure the library
    let mut liq = Attributes::new();
    liq.set_speed(5);
    liq.set_quality(70, 99);
    liq.set_min_posterization(1);
    assert_eq!(1, liq.min_posterization());
    liq.set_min_posterization(0);

    // Describe the bitmap
    let ref mut img = liq.new_image(&fakebitmap[..], width, height, 0).unwrap();

    // The magic happens in quantize()
    let mut res = match liq.quantize(img) {
        Ok(res) => res,
        Err(err) => panic!("Quantization failed, because: {:?}", err),
    };

    // Enable dithering for subsequent remappings
    res.set_dithering_level(1_000_000);

    // You can reuse the result to generate several images with the same palette
    let (palette, pixels) = res.remapped(img).unwrap();

    assert_eq!(width * height, pixels.len());
    assert_eq!(100, res.quantization_quality());
    assert_eq!(Color { r: 255, g: 255, b: 255, a: 255 }, palette[0]);
    assert_eq!(Color { r: 0x55, g: 0x66, b: 0x77, a: 255 }, palette[1]);
}

#[test]
fn set_importance_map() {
    let mut liq = new();
    let bitmap = &[RGBA::new(255, 0, 0, 255), RGBA::new(0u8, 0, 255, 255)];
    let ref mut img = liq.new_image(&bitmap[..], 2, 1, 0).unwrap();
    let map = &[255, 0];
    img.set_importance_map(map).unwrap();
    let mut res = liq.quantize(img).unwrap();
    let pal = res.palette();
    assert_eq!(1, pal.len());
    assert_eq!(bitmap[0], pal[0]);
}
