use van_gogh::{ImageError, PngColor, PngFrame, RawImage};

fn png_bytes(width: u32, height: u32, color: png::ColorType, samples: &[u8]) -> Vec<u8> {
    let mut out = Vec::new();
    {
        let mut encoder = png::Encoder::new(&mut out, width, height);
        encoder.set_color(color);
        let mut writer = encoder.write_header().unwrap();
        writer.write_image_data(samples).unwrap();
    }
    out
}

fn read_frame(bytes: &[u8]) -> RawImage {
    RawImage::from_png(bytes).unwrap()
}

#[test]
fn from_png() {
    let frame1 = read_frame(&png_bytes(1920, 1080, png::ColorType::Rgb, &vec![17u8; 1920 * 1080 * 3]));
    let frame2 = read_frame(&png_bytes(1920, 1080, png::ColorType::Rgb, &vec![200u8; 1920 * 1080 * 3]));
    let frame3 = read_frame(&png_bytes(1000, 1500, png::ColorType::Rgb, &vec![0u8; 1000 * 1500 * 3]));

    println!("frame1 -- w:{} h:{}", frame1.width, frame1.height);
    println!("frame2 -- w:{} h:{}", frame2.width, frame2.height);
    println!("frame3 -- w:{} h:{}", frame3.width, frame3.height);

    assert_eq!(frame1.width, 1920); assert_eq!(frame1.height, 1080);
    assert_eq!(frame2.width, 1920); assert_eq!(frame2.height, 1080);
    assert_eq!(frame3.width, 1000); assert_eq!(frame3.height, 1500);
}

#[test]
fn from_arbitrary() {
    let frame1 = read_frame(&png_bytes(1920, 1080, png::ColorType::Rgba, &vec![128u8; 1920 * 1080 * 4]));
    let frame2 = read_frame(&png_bytes(1920, 1080, png::ColorType::Rgb, &vec![3u8; 1920 * 1080 * 3]));
    let frame3 = read_frame(&png_bytes(1000, 1500, png::ColorType::Rgba, &vec![255u8; 1000 * 1500 * 4]));

    println!("frame1 -- w:{} h:{}", frame1.width, frame1.height);
    println!("frame2 -- w:{} h:{}", frame2.width, frame2.height);
    println!("frame3 -- w:{} h:{}", frame3.width, frame3.height);

    assert_eq!(frame1.width, 1920); assert_eq!(frame1.height, 1080);
    assert_eq!(frame2.width, 1920); assert_eq!(frame2.height, 1080);
    assert_eq!(frame3.width, 1000); assert_eq!(frame3.height, 1500);
    assert_eq!(frame1.red[0], 64);
    assert_eq!(frame3.blue[1000 * 1500 - 1], 255);
}

#[test]
fn png_round_trip_through_library() {
    let img = RawImage {
        red: vec![1, 2, 3, 4, 5, 6],
        green: vec![10, 20, 30, 40, 50, 60],
        blue: vec![200, 201, 202, 203, 204, 205],
        width: 3,
        height: 2,
    };
    let bytes = img.to_png().unwrap();
    assert_eq!(&bytes[1..4], b"PNG");
    let back = RawImage::from_png(&bytes).unwrap();
    assert_eq!((back.width, back.height), (3, 2));
    assert_eq!(back.red, img.red);
    assert_eq!(back.green, img.green);
    assert_eq!(back.blue, img.blue);
}

#[test]
fn png_rgba_through_library() {
    let bytes = png_bytes(2, 1, png::ColorType::Rgba, &[200, 100, 50, 128, 9, 9, 9, 0]);
    let img = RawImage::from_png(&bytes).unwrap();
    assert_eq!(img.red, vec![100, 0]);
    assert_eq!(img.green, vec![50, 0]);
    assert_eq!(img.blue, vec![25, 0]);
}

#[test]
fn png_grayscale_unsupported() {
    let bytes = png_bytes(2, 2, png::ColorType::Grayscale, &[1, 2, 3, 4]);
    assert_eq!(RawImage::from_png(&bytes).err(), Some(ImageError::UnsupportedFormat));
}

#[test]
fn png_garbage_refused() {
    assert_eq!(RawImage::from_png(&[1, 2, 3, 4, 5]).err(), Some(ImageError::Png));
}

#[test]
fn frame_checks() {
    let short = PngFrame { samples: vec![1, 2, 3, 4, 5], width: 2, height: 1, color: PngColor::Rgb, bit_depth: 8 };
    assert_eq!(RawImage::from_png_frame(&short).err(), Some(ImageError::ShortFrame));
    let deep = PngFrame { samples: vec![0; 12], width: 2, height: 1, color: PngColor::Rgb, bit_depth: 16 };
    assert_eq!(RawImage::from_png_frame(&deep).err(), Some(ImageError::UnsupportedFormat));
    let indexed = PngFrame { samples: vec![0; 2], width: 2, height: 1, color: PngColor::Indexed, bit_depth: 8 };
    assert_eq!(RawImage::from_png_frame(&indexed).err(), Some(ImageError::UnsupportedFormat));
    let ok = PngFrame { samples: vec![1, 2, 3, 4, 5, 6], width: 2, height: 1, color: PngColor::Rgb, bit_depth: 8 };
    let img = RawImage::from_png_frame(&ok).unwrap();
    assert_eq!(img.red, vec![1, 4]);
    assert_eq!(img.blue, vec![3, 6]);
}
