use bit_bound::framebuffer::FrameBuffer;
use bit_bound::sprite::{
    Sprite, SpriteError, color_index, compile_sprite, decode_pixel, encode_planar, index_pixels,
};

const COLORS: [[u8; 4]; 4] = [[0, 0, 0, 0], [15, 56, 15, 255], [48, 98, 48, 255], [139, 172, 15, 255]];

fn rgba_of(indices: &[u8]) -> Vec<u8> {
    indices.iter().flat_map(|&i| COLORS[i as usize]).collect()
}

#[test]
fn recognised_colors_map_to_indices() {
    for (i, c) in COLORS.iter().enumerate() {
        assert_eq!(color_index(c[0], c[1], c[2], c[3]), Some(i as u8));
    }
    assert_eq!(color_index(15, 56, 15, 254), None);
    assert_eq!(color_index(0, 0, 0, 255), None);
}

#[test]
fn round_trip_8x8() {
    let indices: Vec<u8> = (0..64).map(|i| ((i % 8 + i / 8) % 4) as u8).collect();
    let sprite = compile_sprite(&rgba_of(&indices), 8, 8).unwrap();
    assert_eq!((sprite.width, sprite.height, sprite.tiles_x, sprite.tiles_y), (8, 8, 1, 1));
    assert_eq!(sprite.data.len(), 16);
    for y in 0..8 {
        for x in 0..8 {
            assert_eq!(sprite.pixel(x, y), indices[y * 8 + x]);
        }
    }
}

#[test]
fn round_trip_16x16() {
    let indices: Vec<u8> = (0..256).map(|i| ((i * 7 + i / 16) % 4) as u8).collect();
    let data = encode_planar(&indices, 16, 16);
    assert_eq!(data.len(), 64);
    for y in 0..16 {
        for x in 0..16 {
            assert_eq!(decode_pixel(&data, 2, x, y), indices[y * 16 + x]);
        }
    }
}

#[test]
fn padding_reads_as_transparent() {
    let indices: Vec<u8> = vec![3; 10 * 3];
    let sprite = compile_sprite(&rgba_of(&indices), 10, 3).unwrap();
    assert_eq!((sprite.width, sprite.height), (16, 8));
    assert_eq!(sprite.data.len(), 2 * 16);
    for y in 0..8 {
        for x in 0..16 {
            let expected = if x < 10 && y < 3 { 3 } else { 0 };
            assert_eq!(sprite.pixel(x, y), expected);
        }
    }
}

#[test]
fn planar_bytes_are_exact() {
    let mut indices = vec![1u8; 64];
    indices[0] = 3;
    indices[7] = 2;
    let data = encode_planar(&indices, 8, 8);
    assert_eq!(data[0], 0b1111_1110);
    assert_eq!(data[1], 0b1000_0001);
    for row in 1..8 {
        assert_eq!(data[row * 2], 0xff);
        assert_eq!(data[row * 2 + 1], 0x00);
    }
}

#[test]
fn tiles_are_row_major() {
    // 16x16: tile 1 (top right) is all index 2, the rest index 0.
    let mut indices = vec![0u8; 256];
    for y in 0..8 {
        for x in 8..16 {
            indices[y * 16 + x] = 2;
        }
    }
    let data = encode_planar(&indices, 16, 16);
    assert!(data[0..16].iter().all(|&b| b == 0));
    for row in 0..8 {
        assert_eq!(data[16 + row * 2], 0x00);
        assert_eq!(data[16 + row * 2 + 1], 0xff);
    }
    assert!(data[32..64].iter().all(|&b| b == 0));
}

#[test]
fn unknown_color_is_rejected() {
    let mut rgba = rgba_of(&[0, 1, 2, 3]);
    rgba[8..12].copy_from_slice(&[49, 98, 48, 255]);
    assert_eq!(compile_sprite(&rgba, 2, 2).err(), Some(SpriteError::UnexpectedColor { index: 2 }));
    assert_eq!(index_pixels(&rgba), Err(SpriteError::UnexpectedColor { index: 2 }));
}

#[test]
fn dimension_mismatch_is_rejected() {
    let rgba = rgba_of(&[0, 1, 2, 3]);
    assert_eq!(compile_sprite(&rgba, 3, 2).err(), Some(SpriteError::DimensionMismatch));
    assert_eq!(index_pixels(&rgba[..7]), Err(SpriteError::DimensionMismatch));
    assert_eq!(Sprite::from_planar(8, 8, vec![0; 15]).err(), Some(SpriteError::DimensionMismatch));
    assert_eq!(Sprite::from_planar(12, 8, vec![0; 16]).err(), Some(SpriteError::DimensionMismatch));
    let s = Sprite::from_planar(16, 8, vec![0; 32]).unwrap();
    assert_eq!((s.tiles_x, s.tiles_y), (2, 1));
}

#[test]
fn two_tile_sprite_blits_with_transparency() {
    let mut indices = vec![0u8; 16 * 8];
    for y in 0..8 {
        for x in 0..8 {
            indices[y * 16 + x] = 1;
        }
    }
    let sprite = compile_sprite(&rgba_of(&indices), 16, 8).unwrap();
    let mut fb = FrameBuffer::new();
    fb.clear(0);
    fb.blit(0, 0, &sprite);
    for y in 0..8 {
        for x in 0..8 {
            assert_eq!(fb.get_pixel(x, y), 1);
        }
        for x in 8..16 {
            assert_eq!(fb.get_pixel(x, y), 0);
        }
    }
}

#[test]
fn blit_keeps_background_under_transparent_pixels() {
    let mut indices = vec![0u8; 64];
    indices[0] = 2;
    let sprite = compile_sprite(&rgba_of(&indices), 8, 8).unwrap();
    let mut fb = FrameBuffer::new();
    fb.clear(3);
    fb.draw_sprite(10, 20, &sprite.data, 8, 8);
    assert_eq!(fb.get_pixel(10, 20), 2);
    assert_eq!(fb.get_pixel(11, 20), 3);
    assert_eq!(fb.get_pixel(17, 27), 3);
}

#[test]
fn blit_clips_at_screen_edges() {
    let sprite = compile_sprite(&rgba_of(&vec![1u8; 64]), 8, 8).unwrap();
    let mut fb = FrameBuffer::new();
    fb.blit(-4, -4, &sprite);
    assert_eq!(fb.get_pixel(0, 0), 1);
    assert_eq!(fb.get_pixel(3, 3), 1);
    assert_eq!(fb.get_pixel(4, 0), 0);
    fb.blit(156, 140, &sprite);
    assert_eq!(fb.get_pixel(159, 143), 1);
    assert_eq!(fb.get_pixel(155, 143), 0);
}

#[test]
fn oversized_dimensions_are_rejected() {
    assert_eq!(compile_sprite(&[], 0, usize::MAX).err(), Some(SpriteError::TooLarge));
    let empty = compile_sprite(&[], 0, 0).unwrap();
    assert_eq!((empty.width, empty.height, empty.data.len()), (0, 0, 0));
}
