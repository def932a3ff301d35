use van_gogh::{random_quote, CodecError, ColorTable, RawImage, VanGoghDecoder, VanGoghEncoder, VanGoghImage};

fn image(red: Vec<u8>, green: Vec<u8>, blue: Vec<u8>, width: u32, height: u32) -> RawImage {
    RawImage { red, green, blue, width, height }
}

fn solid(width: u32, height: u32, c: [u8; 3]) -> RawImage {
    let n = (width * height) as usize;
    image(vec![c[0]; n], vec![c[1]; n], vec![c[2]; n], width, height)
}

fn serialize(img: &VanGoghImage) -> Vec<u8> {
    let mut out = Vec::new();
    img.write_to(&mut out).unwrap();
    out
}

#[test]
fn palette_grid_slots() {
    let t = ColorTable::generate_optimal(&RawImage::empty(1, 1));
    assert_eq!(t.entry(0), [0, 0, 0]);
    assert_eq!(t.entry(1), [0, 0, 64]);
    assert_eq!(t.entry(31), [64, 64, 64]);
    assert_eq!(t.entry(100), [255, 0, 0]);
    assert_eq!(t.entry(87), [191, 128, 128]);
    assert_eq!(t.entry(124), [255, 255, 255]);
    for i in 125..255 {
        assert_eq!(t.entry(i), [0, 0, 0]);
    }
}

#[test]
fn wrap_and_inner_keep_the_array() {
    let mut a = [[0u8; 3]; 255];
    a[7] = [1, 2, 3];
    a[254] = [9, 8, 7];
    let t = ColorTable::wrap(a);
    assert_eq!(t.inner(), a);
    assert_eq!(t.entry(254), [9, 8, 7]);
}

#[test]
fn nearest_index_values() {
    let t = ColorTable::generate_optimal(&RawImage::empty(1, 1));
    assert_eq!(t.find_index_nearest(255, 0, 0), 100);
    assert_eq!(t.find_index_nearest(0, 0, 0), 0);
    assert_eq!(t.find_index_nearest(255, 255, 255), 124);
    assert_eq!(t.find_index_nearest(31, 0, 0), 0);
    assert_eq!(t.find_index_nearest(32, 0, 0), 25);
    assert_eq!(t.find_index_nearest(159, 0, 0), 50);
    assert_eq!(t.find_index_nearest(160, 0, 0), 75);
    assert_eq!(t.find_index_nearest(0, 96, 223), 13);
}

#[test]
fn nearest_index_stays_in_grid() {
    let t = ColorTable::generate_optimal(&RawImage::empty(1, 1));
    for r in 0..=255u8 {
        for g in 0..=255u8 {
            for b in [0u8, 1, 31, 32, 95, 96, 159, 160, 223, 224, 254, 255] {
                assert!(t.find_index_nearest(r, g, b) <= 124);
            }
        }
    }
}

#[test]
fn solid_red_blocks_decode_to_red() {
    let enc = VanGoghEncoder::with_block_size(2).encode(solid(4, 4, [255, 0, 0]));
    assert_eq!(enc.data, vec![100u8; 16]);
    let dec = VanGoghDecoder::decode(enc);
    assert_eq!((dec.width, dec.height), (4, 4));
    for i in 0..16 {
        assert_eq!([dec.red[i], dec.green[i], dec.blue[i]], [255, 0, 0]);
    }
}

#[test]
fn corner_colors_round_trip() {
    let img = image(vec![255, 0, 0, 255], vec![0, 255, 0, 255], vec![0, 0, 255, 255], 2, 2);
    let enc = VanGoghEncoder::new().encode(img);
    assert_eq!(enc.data, vec![100, 24, 62, 62]);
    let dec = VanGoghDecoder::decode(enc);
    assert_eq!((dec.width, dec.height), (2, 2));
    assert_eq!(dec.red, vec![255, 0, 128, 128]);
    assert_eq!(dec.green, vec![0, 255, 128, 128]);
    assert_eq!(dec.blue, vec![0, 255, 128, 128]);
}

#[test]
fn running_average_above_target_saturates() {
    let img = image(vec![250, 10, 10, 10], vec![250, 10, 10, 10], vec![250, 10, 10, 10], 2, 2);
    let enc = VanGoghEncoder::new().encode(img);
    assert_eq!(enc.data, vec![124, 0, 0, 0]);
}

#[test]
fn partial_blocks_get_index_zero() {
    let red: Vec<u8> = (0..15u32).map(|i| ((i * 37) % 256) as u8).collect();
    let green: Vec<u8> = (0..15u32).map(|i| ((i * 91 + 7) % 256) as u8).collect();
    let blue: Vec<u8> = (0..15u32).map(|i| ((i * 13 + 200) % 256) as u8).collect();
    let enc = VanGoghEncoder::new().encode(image(red, green, blue, 5, 3));
    assert_eq!(enc.data, vec![3, 90, 44, 30, 0, 57, 62, 42, 38, 0, 0, 0, 0, 0, 0]);
}

#[test]
fn uniform_block_average_close() {
    for bs in 1..=4u32 {
        for c in [0u8, 3, 32, 100, 169, 182, 200, 255] {
            let enc = VanGoghEncoder::with_block_size(bs as usize).encode(solid(bs, bs, [c, c, c]));
            let dec = VanGoghDecoder::decode(enc);
            let n = (bs * bs) as i64;
            let sum: i64 = dec.red.iter().map(|&v| v as i64).sum();
            assert!((sum - c as i64 * n).abs() <= 64 * n);
        }
    }
    let enc = VanGoghEncoder::with_block_size(4).encode(solid(4, 4, [100, 100, 100]));
    assert_eq!(enc.data, vec![62, 31, 62, 31, 62, 31, 62, 62, 31, 62, 62, 62, 31, 62, 62, 62]);
}

#[test]
fn round_trip_keeps_dimensions() {
    for (w, h, bs) in [(1u32, 1u32, 2usize), (7, 3, 2), (6, 9, 3), (4, 4, 5), (0, 3, 1)] {
        let n = (w * h) as usize;
        let red: Vec<u8> = (0..n).map(|i| (i * 7 % 256) as u8).collect();
        let enc = VanGoghEncoder::new().set_block_size(bs).encode(image(red, vec![9; n], vec![200; n], w, h));
        assert_eq!(enc.data.len(), n);
        let dec = VanGoghDecoder::decode(enc);
        assert_eq!((dec.width, dec.height), (w, h));
        assert_eq!(dec.red.len(), n);
    }
}

#[test]
fn container_round_trip() {
    let red: Vec<u8> = (0..12u32).map(|i| (i * 20) as u8).collect();
    let enc = VanGoghEncoder::new().encode(image(red, vec![30; 12], vec![240; 12], 4, 3));
    let bytes = serialize(&enc);
    assert_eq!(bytes.len(), 765 + 8 + 12);
    assert_eq!(&bytes[765..773], &[0, 0, 0, 4, 0, 0, 0, 3]);
    assert_eq!(&bytes[300..303], &[255, 0, 0]);
    let back = VanGoghImage::read_from(&bytes).unwrap();
    assert_eq!(back.width, 4);
    assert_eq!(back.height, 3);
    assert_eq!(back.data, enc.data);
    assert_eq!(back.color_table.inner(), enc.color_table.inner());
    assert_eq!(serialize(&back), bytes);
}

#[test]
fn container_big_endian_dimensions() {
    let img = VanGoghImage {
        color_table: ColorTable::wrap([[5u8, 6, 7]; 255]),
        width: 0x0102,
        height: 0,
        data: vec![],
    };
    let bytes = serialize(&img);
    assert_eq!(&bytes[765..773], &[0, 0, 1, 2, 0, 0, 0, 0]);
    assert_eq!(&bytes[0..3], &[5, 6, 7]);
    let back = VanGoghImage::read_from(&bytes).unwrap();
    assert_eq!(back.width, 258);
}

#[test]
fn truncated_palette_is_corruption() {
    let enc = VanGoghEncoder::new().encode(solid(2, 2, [10, 20, 30]));
    let bytes = serialize(&enc);
    for cut in [0usize, 1, 3, 500, 764] {
        assert!(matches!(VanGoghImage::read_from(&bytes[..cut]), Err(CodecError::TruncatedPalette)));
    }
}

#[test]
fn truncated_header_and_data_are_corruption() {
    let enc = VanGoghEncoder::new().encode(solid(2, 2, [10, 20, 30]));
    let bytes = serialize(&enc);
    for cut in [765usize, 768, 772] {
        assert!(matches!(VanGoghImage::read_from(&bytes[..cut]), Err(CodecError::TruncatedHeader)));
    }
    for cut in [773usize, 776] {
        assert!(matches!(VanGoghImage::read_from(&bytes[..cut]), Err(CodecError::TruncatedData)));
    }
    let mut longer = bytes.clone();
    longer.push(99);
    let back = VanGoghImage::read_from(&longer).unwrap();
    assert_eq!(back.data.len(), 4);
}

#[test]
fn write_refuses_size_mismatch() {
    let img = VanGoghImage {
        color_table: ColorTable::wrap([[0u8; 3]; 255]),
        width: 2,
        height: 2,
        data: vec![1, 2, 3],
    };
    let mut out = vec![42u8];
    assert_eq!(img.write_to(&mut out), Err(CodecError::SizeMismatch));
    assert_eq!(out, vec![42u8]);
}

#[test]
fn decode_looks_up_slots() {
    let mut a = [[0u8; 3]; 255];
    a[0] = [1, 2, 3];
    a[200] = [7, 8, 9];
    let img = VanGoghImage { color_table: ColorTable::wrap(a), width: 3, height: 1, data: vec![200, 255, 0] };
    let dec = VanGoghDecoder::decode(img);
    assert_eq!(dec.red, vec![7, 0, 1]);
    assert_eq!(dec.green, vec![8, 0, 2]);
    assert_eq!(dec.blue, vec![9, 0, 3]);
}

#[test]
fn encoder_configuration() {
    assert_eq!(VanGoghEncoder::new().block_size, 2);
    assert_eq!(VanGoghEncoder::with_block_size(5).block_size, 5);
    assert_eq!(VanGoghEncoder::new().set_block_size(3).block_size, 3);
}

#[test]
fn empty_image_is_black() {
    let img = RawImage::empty(3, 2);
    assert_eq!((img.width, img.height), (3, 2));
    assert_eq!(img.red, vec![0; 6]);
    assert_eq!(img.green, vec![0; 6]);
    assert_eq!(img.blue, vec![0; 6]);
}

#[test]
fn interleaving_both_ways() {
    let buf = vec![1u8, 2, 3, 4, 5, 6];
    let img = RawImage::from_png_rgb(&buf, 2, 1);
    assert_eq!(img.red, vec![1, 4]);
    assert_eq!(img.green, vec![2, 5]);
    assert_eq!(img.blue, vec![3, 6]);
    assert_eq!(img.to_rgb_bytes(), buf);
}

#[test]
fn rgba_laid_over_black() {
    let buf = vec![200u8, 100, 50, 128, 10, 20, 30, 255, 90, 90, 90, 0];
    let img = RawImage::from_png_rgba(&buf, 3, 1);
    assert_eq!(img.red, vec![100, 10, 0]);
    assert_eq!(img.green, vec![50, 20, 0]);
    assert_eq!(img.blue, vec![25, 30, 0]);
}

#[test]
fn quote_by_seconds() {
    assert_eq!(random_quote(13), "\"There is nothing more truly artistic than to love people.\" --VVG");
    assert_eq!(random_quote(0), random_quote(10));
    assert!(random_quote(9).starts_with("\"I often think"));
}

fn shown_sum(bs: u32, c: u8) -> i64 {
    let enc = VanGoghEncoder::with_block_size(bs as usize).encode(solid(bs, bs, [c, c, c]));
    let dec = VanGoghDecoder::decode(enc);
    dec.red.iter().map(|&v| v as i64).sum()
}

#[test]
fn uniform_block_average_every_value_up_to_side_nine() {
    for bs in 1..=9u32 {
        let n = (bs * bs) as i64;
        for c in 0..=255u8 {
            assert!((shown_sum(bs, c) - c as i64 * n).abs() <= 64 * n, "side {} value {}", bs, c);
        }
    }
}

#[test]
fn uniform_block_average_drifts_at_side_ten() {
    assert_eq!(shown_sum(10, 3), 7160);
}
