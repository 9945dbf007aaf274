use rose_data_core::dds::{decode, decode_bc1, mask_to_byte, rgb565, DdsError, DecodedImage};

fn header(width: u32, height: u32, flags: u32, fourcc: &[u8; 4], bpp: u32, masks: [u32; 4]) -> Vec<u8> {
    let mut d = vec![0u8; 128];
    d[0..4].copy_from_slice(b"DDS ");
    d[12..16].copy_from_slice(&height.to_le_bytes());
    d[16..20].copy_from_slice(&width.to_le_bytes());
    d[80..84].copy_from_slice(&flags.to_le_bytes());
    d[84..88].copy_from_slice(fourcc);
    d[88..92].copy_from_slice(&bpp.to_le_bytes());
    for (k, m) in masks.iter().enumerate() {
        d[92 + 4 * k..96 + 4 * k].copy_from_slice(&m.to_le_bytes());
    }
    d
}

#[test]
fn rgb565_expands_to_full_range() {
    assert_eq!(rgb565(0xffff), (255, 255, 255));
    assert_eq!(rgb565(0), (0, 0, 0));
    assert_eq!(rgb565(0xf800), (255, 0, 0));
    assert_eq!(rgb565(0x07e0), (0, 255, 0));
}

#[test]
fn mask_to_byte_scales_channels() {
    assert_eq!(mask_to_byte(0x00ff_0000, 0x00ff_0000), 255);
    assert_eq!(mask_to_byte(0x0012_3456, 0x0000_ff00), 0x34);
    assert_eq!(mask_to_byte(0x1234, 0), 0);
    assert_eq!(mask_to_byte(0x001f, 0x001f), 255);
    assert_eq!(mask_to_byte(0x0010, 0x001f), 132);
    assert_eq!(mask_to_byte(0xfff0_0000, 0xfff0_0000), 0xff);
}

#[test]
fn not_dds_and_unsupported_formats() {
    assert_eq!(decode(&[0u8; 10]).unwrap_err(), DdsError::NotDds);
    let mut bad_magic = header(1, 1, 0x40, b"\0\0\0\0", 32, [0; 4]);
    bad_magic[0] = b'X';
    assert_eq!(decode(&bad_magic).unwrap_err(), DdsError::NotDds);
    let fourcc = header(4, 4, 0x4, b"ATI2", 0, [0; 4]);
    assert_eq!(decode(&fourcc).unwrap_err(), DdsError::UnsupportedFourCC(*b"ATI2"));
    let bpp24 = header(4, 4, 0x40, b"\0\0\0\0", 24, [0; 4]);
    assert_eq!(decode(&bpp24).unwrap_err(), DdsError::UnsupportedFormat { flags: 0x40, bpp: 24 });
}

#[test]
fn rgb32_pixels_follow_masks() {
    let mut d = header(2, 1, 0x41, b"\0\0\0\0", 32, [0x00ff_0000, 0x0000_ff00, 0x0000_00ff, 0xff00_0000]);
    d.extend_from_slice(&0x8011_2233u32.to_le_bytes());
    d.extend_from_slice(&0x00aa_bbccu32.to_le_bytes());
    let img = decode(&d).unwrap();
    assert_eq!((img.width, img.height), (2, 1));
    assert_eq!(img.rgba, vec![0x11, 0x22, 0x33, 0x80, 0xaa, 0xbb, 0xcc, 0x00]);
}

#[test]
fn rgb32_without_alpha_flag_is_opaque_and_short_data_stays_zero() {
    let mut d = header(2, 1, 0x40, b"\0\0\0\0", 32, [0x00ff_0000, 0x0000_ff00, 0x0000_00ff, 0xff00_0000]);
    d.extend_from_slice(&0x8011_2233u32.to_le_bytes());
    let img = decode(&d).unwrap();
    assert_eq!(img.rgba, vec![0x11, 0x22, 0x33, 0xff, 0, 0, 0, 0]);
}

#[test]
fn rgb16_pixels_follow_masks() {
    let mut d = header(1, 1, 0x40, b"\0\0\0\0", 16, [0xf800, 0x07e0, 0x001f, 0]);
    d.extend_from_slice(&0xf800u16.to_le_bytes());
    let img = decode(&d).unwrap();
    assert_eq!(img.rgba, vec![255, 0, 0, 255]);
}

#[test]
fn bc1_block_uses_palette_indices() {
    // c0 = white, c1 = black, c0 > c1: four opaque colours.
    let mut block = Vec::new();
    block.extend_from_slice(&0xffffu16.to_le_bytes());
    block.extend_from_slice(&0x0000u16.to_le_bytes());
    // pixel (0,0) index 0, (1,0) index 1, (2,0) index 2, (3,0) index 3.
    block.extend_from_slice(&0b1110_0100u32.to_le_bytes());
    let img = decode_bc1(&block, 4, 1);
    assert_eq!(img.rgba.len(), 16);
    assert_eq!(&img.rgba[0..4], &[255, 255, 255, 255]);
    assert_eq!(&img.rgba[4..8], &[0, 0, 0, 255]);
    assert_eq!(&img.rgba[8..12], &[170, 170, 170, 255]);
    assert_eq!(&img.rgba[12..16], &[85, 85, 85, 255]);

    let mut d = header(4, 1, 0x4, b"DXT1", 0, [0; 4]);
    d.extend_from_slice(&block);
    assert_eq!(decode(&d).unwrap().rgba, img.rgba);
}

#[test]
fn bc1_transparent_index_when_c0_not_greater() {
    let mut block = Vec::new();
    block.extend_from_slice(&0x0000u16.to_le_bytes());
    block.extend_from_slice(&0xffffu16.to_le_bytes());
    block.extend_from_slice(&0b1110u32.to_le_bytes());
    let img = decode_bc1(&block, 2, 1);
    assert_eq!(&img.rgba[0..4], &[127, 127, 127, 255]);
    assert_eq!(&img.rgba[4..8], &[0, 0, 0, 0]);
}

#[test]
fn bc1_missing_blocks_stay_zero() {
    let img = decode_bc1(&[], 4, 4);
    assert_eq!(img.rgba, vec![0u8; 64]);
}

#[test]
fn crop_copies_rectangle_or_refuses() {
    let img = DecodedImage { width: 3, height: 2, rgba: (0u8..24).collect() };
    let c = img.crop(1, 1, 2, 1).unwrap();
    assert_eq!((c.width, c.height), (2, 1));
    assert_eq!(c.rgba, vec![16, 17, 18, 19, 20, 21, 22, 23]);
    assert!(img.crop(2, 0, 2, 1).is_none());
    assert!(img.crop(0, 1, 1, 2).is_none());
    assert!(img.crop(u32::MAX, 0, 2, 1).is_none());
}
