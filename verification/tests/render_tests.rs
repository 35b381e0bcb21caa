use frameloop::pixel::PixelBuffer;
use frameloop::surface::DrawPlacement;
use frameloop::surface::Surface;
use frameloop::texture::BlendMode;
use frameloop::texture::GPUTexture;

fn checker_buffer(width: u32, height: u32) -> PixelBuffer {
    let mut bytes: Vec<u8> = Vec::new();
    for y in 0..height {
        for x in 0..width {
            bytes.push((x * 10 + y) as u8);
            bytes.push((x * 10 + y + 1) as u8);
            bytes.push((x * 10 + y + 2) as u8);
            bytes.push(255);
        }
    }
    PixelBuffer::from_bytes(width, height, bytes).unwrap()
}

#[test]
fn from_bytes_accepts_exact_length_only() {
    let b = PixelBuffer::from_bytes(2, 3, vec![7u8; 24]);
    assert!(b.is_some());
    let b = b.unwrap();
    assert_eq!(b.width, 2);
    assert_eq!(b.height, 3);
    assert!(PixelBuffer::from_bytes(2, 3, vec![7u8; 23]).is_none());
    assert!(PixelBuffer::from_bytes(2, 3, vec![7u8; 25]).is_none());
}

#[test]
fn gradient_pixels_follow_the_column() {
    let b = PixelBuffer::column_gradient(300, 2).unwrap();
    assert_eq!(b.get_pixel(0, 0), (0, 0, 100, 200));
    assert_eq!(b.get_pixel(17, 1), (17, 0, 100, 200));
    // The red channel wraps at 256.
    assert_eq!(b.get_pixel(256, 0), (0, 0, 100, 200));
    assert_eq!(b.get_pixel(299, 1), (43, 0, 100, 200));
}

#[test]
fn create_rejects_a_pitch_too_small_for_a_row() {
    // 4 pixels per row need 16 bytes; a pitch of 15 cannot hold them.
    assert!(GPUTexture::create(4, 4, 15, BlendMode::Blend).is_err());
}

#[test]
fn create_zero_fills_and_keeps_configuration() {
    let t = GPUTexture::create(3, 2, 14, BlendMode::Blend).unwrap();
    assert_eq!(t.width, 3);
    assert_eq!(t.height, 2);
    assert_eq!(t.pitch, 14);
    assert_eq!(t.blend_mode(), BlendMode::Blend);
    assert_eq!(t.bytes().len(), 28);
    assert!(t.bytes().iter().all(|b| *b == 0));
}

#[test]
fn upload_and_readback_round_trip_with_padded_rows() {
    let b = checker_buffer(5, 4);
    // Pitch 27 leaves 7 padding bytes per row.
    let mut t = GPUTexture::create(5, 4, 27, BlendMode::Opaque).unwrap();
    assert!(t.upload(&b).is_ok());
    assert_eq!(t.readback(), b.data);
}

#[test]
fn upload_and_readback_round_trip_with_tight_rows() {
    let b = checker_buffer(6, 3);
    let mut t = GPUTexture::create(6, 3, 24, BlendMode::Blend).unwrap();
    assert!(t.upload(&b).is_ok());
    assert_eq!(t.readback(), b.data);
}

#[test]
fn upload_leaves_row_padding_untouched() {
    let b = checker_buffer(2, 2);
    let mut t = GPUTexture::create(2, 2, 11, BlendMode::Opaque).unwrap();
    assert!(t.upload(&b).is_ok());
    for y in 0..2usize {
        for k in 8..11usize {
            assert_eq!(t.bytes()[y * 11 + k], 0, "padding byte was overwritten");
        }
    }
}

#[test]
fn mismatched_upload_fails_and_preserves_contents() {
    let good = checker_buffer(4, 4);
    let mut t = GPUTexture::create(4, 4, 19, BlendMode::Blend).unwrap();
    assert!(t.upload(&good).is_ok());
    let before = t.bytes().clone();
    let narrow = checker_buffer(3, 4);
    let short = checker_buffer(4, 3);
    assert!(t.upload(&narrow).is_err());
    assert!(t.upload(&short).is_err());
    assert_eq!(t.bytes(), &before);
    assert_eq!(t.readback(), good.data);
}

#[test]
fn re_upload_replaces_previous_contents() {
    let first = checker_buffer(3, 3);
    let second = PixelBuffer::column_gradient(3, 3).unwrap();
    let mut t = GPUTexture::create(3, 3, 16, BlendMode::Blend).unwrap();
    assert!(t.upload(&first).is_ok());
    assert!(t.upload(&second).is_ok());
    assert_eq!(t.readback(), second.data);
}

#[test]
fn gradient_scenario_composites_two_rectangles() {
    // Texture 256x256, red = column, green 0, blue 100, alpha 200;
    // composited at (100,100,256,256) and (400,100,256,256).
    let b = PixelBuffer::column_gradient(256, 256).unwrap();
    let mut t = GPUTexture::create(256, 256, 256 * 4 + 12, BlendMode::Blend).unwrap();
    assert!(t.upload(&b).is_ok());
    let mut s = Surface::new(800, 600).unwrap();
    let placements = vec![
        DrawPlacement { x: 100, y: 100, width: 256, height: 256, flip_h: false, flip_v: false },
        DrawPlacement { x: 400, y: 100, width: 256, height: 256, flip_h: false, flip_v: false },
    ];
    s.present(&t, &placements);
    // Inside the first rectangle the sample follows the texture column.
    assert_eq!(s.get_pixel(100, 100), (0, 0, 100, 200));
    assert_eq!(s.get_pixel(100 + 37, 100 + 200), (37, 0, 100, 200));
    assert_eq!(s.get_pixel(100 + 255, 100 + 255), (255, 0, 100, 200));
    // Inside the second rectangle likewise.
    assert_eq!(s.get_pixel(400, 100), (0, 0, 100, 200));
    assert_eq!(s.get_pixel(400 + 123, 100 + 5), (123, 0, 100, 200));
    // Between and around the rectangles the clear shows through.
    assert_eq!(s.get_pixel(0, 0), (0, 0, 0, 0));
    assert_eq!(s.get_pixel(370, 200), (0, 0, 0, 0));
    assert_eq!(s.get_pixel(100, 99), (0, 0, 0, 0));
    assert_eq!(s.get_pixel(700, 300), (0, 0, 0, 0));
}

#[test]
fn overlapping_placements_draw_in_order() {
    let b = PixelBuffer::column_gradient(4, 4).unwrap();
    let mut t = GPUTexture::create(4, 4, 16, BlendMode::Opaque).unwrap();
    assert!(t.upload(&b).is_ok());
    let mut s = Surface::new(10, 10).unwrap();
    let placements = vec![
        DrawPlacement { x: 0, y: 0, width: 4, height: 4, flip_h: false, flip_v: false },
        DrawPlacement { x: 2, y: 0, width: 4, height: 4, flip_h: false, flip_v: false },
    ];
    s.present(&t, &placements);
    // Pixel (2,0) overlaps both; the later placement samples its column 0.
    assert_eq!(s.get_pixel(2, 0), (0, 0, 100, 200));
    // Pixel (1,0) is only under the first placement: its column 1.
    assert_eq!(s.get_pixel(1, 0), (1, 0, 100, 200));
}

#[test]
fn horizontal_flip_mirrors_columns() {
    let b = PixelBuffer::column_gradient(4, 1).unwrap();
    let mut t = GPUTexture::create(4, 1, 16, BlendMode::Opaque).unwrap();
    assert!(t.upload(&b).is_ok());
    let mut s = Surface::new(4, 1).unwrap();
    let placements = vec![
        DrawPlacement { x: 0, y: 0, width: 4, height: 1, flip_h: true, flip_v: false },
    ];
    s.present(&t, &placements);
    assert_eq!(s.get_pixel(0, 0).0, 3);
    assert_eq!(s.get_pixel(1, 0).0, 2);
    assert_eq!(s.get_pixel(2, 0).0, 1);
    assert_eq!(s.get_pixel(3, 0).0, 0);
}

#[test]
fn scaling_samples_nearest_neighbour() {
    let b = PixelBuffer::column_gradient(2, 1).unwrap();
    let mut t = GPUTexture::create(2, 1, 8, BlendMode::Opaque).unwrap();
    assert!(t.upload(&b).is_ok());
    let mut s = Surface::new(4, 2).unwrap();
    let placements = vec![
        DrawPlacement { x: 0, y: 0, width: 4, height: 2, flip_h: false, flip_v: false },
    ];
    s.present(&t, &placements);
    // A 2-wide texture stretched to 4 columns: 0,0,1,1.
    assert_eq!(s.get_pixel(0, 0).0, 0);
    assert_eq!(s.get_pixel(1, 0).0, 0);
    assert_eq!(s.get_pixel(2, 0).0, 1);
    assert_eq!(s.get_pixel(3, 1).0, 1);
}

#[test]
fn placement_is_clipped_at_the_surface_edges() {
    let b = PixelBuffer::column_gradient(4, 4).unwrap();
    let mut t = GPUTexture::create(4, 4, 16, BlendMode::Opaque).unwrap();
    assert!(t.upload(&b).is_ok());
    let mut s = Surface::new(3, 3).unwrap();
    let placements = vec![
        DrawPlacement { x: -2, y: -2, width: 4, height: 4, flip_h: false, flip_v: false },
    ];
    s.present(&t, &placements);
    // Only the placement's lower-right quarter lands on the surface.
    assert_eq!(s.get_pixel(0, 0).0, 2);
    assert_eq!(s.get_pixel(1, 1).0, 3);
    assert_eq!(s.get_pixel(2, 2), (0, 0, 0, 0));
}

#[test]
fn zero_sized_buffers_and_textures_are_consistent() {
    let b = PixelBuffer::from_bytes(0, 5, Vec::new()).unwrap();
    assert_eq!(b.width, 0);
    assert_eq!(b.height, 5);
    let mut t = GPUTexture::create(0, 5, 0, BlendMode::Opaque).unwrap();
    assert!(t.upload(&b).is_ok());
    assert_eq!(t.readback(), Vec::<u8>::new());
}

#[test]
fn empty_texture_draws_nothing() {
    let t = GPUTexture::create(0, 0, 0, BlendMode::Opaque).unwrap();
    let mut s = Surface::new(2, 2).unwrap();
    let placements = vec![
        DrawPlacement { x: 0, y: 0, width: 2, height: 2, flip_h: false, flip_v: false },
    ];
    s.present(&t, &placements);
    assert_eq!(s.get_pixel(0, 0), (0, 0, 0, 0));
    assert_eq!(s.get_pixel(1, 1), (0, 0, 0, 0));
}

#[test]
fn present_with_no_placements_only_clears() {
    let b = checker_buffer(2, 2);
    let mut t = GPUTexture::create(2, 2, 8, BlendMode::Blend).unwrap();
    assert!(t.upload(&b).is_ok());
    let mut s = Surface::new(2, 2).unwrap();
    s.present(&t, &vec![]);
    assert_eq!(s.get_pixel(0, 0), (0, 0, 0, 0));
    assert_eq!(s.get_pixel(1, 1), (0, 0, 0, 0));
}
