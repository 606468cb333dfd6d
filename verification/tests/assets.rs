//! Fonts, textures, and the images of text.

use tgr::render::text::{add_text, text_bitmap, text_bounds, Bounds, Dot, Glyph};
use tgr::render::{add_texture, add_texture_buffer, font, texture, upd_texture_buffer, Bitmap, Fonts, Textures, Upload};
use tgr::{Font, Texture};

fn glyph(min_x: i32, min_y: i32, max_x: i32, max_y: i32, dots: &[(u32, u32, u8)]) -> Glyph {
    Glyph {
        min_x,
        min_y,
        max_x,
        max_y,
        dots: dots.iter().map(|&(x, y, alpha)| Dot { x, y, alpha }).collect(),
    }
}

fn bmp_two_by_two() -> Vec<u8> {
    let mut bytes = vec![b'B', b'M'];
    bytes.extend(70u32.to_le_bytes());
    bytes.extend(0u32.to_le_bytes());
    bytes.extend(54u32.to_le_bytes());
    bytes.extend(40u32.to_le_bytes());
    bytes.extend(2i32.to_le_bytes());
    bytes.extend(2i32.to_le_bytes());
    bytes.extend(1u16.to_le_bytes());
    bytes.extend(24u16.to_le_bytes());
    bytes.extend(0u32.to_le_bytes());
    bytes.extend(16u32.to_le_bytes());
    bytes.extend(2835i32.to_le_bytes());
    bytes.extend(2835i32.to_le_bytes());
    bytes.extend(0u32.to_le_bytes());
    bytes.extend(0u32.to_le_bytes());
    bytes.extend([255, 0, 0, 255, 255, 255, 0, 0]);
    bytes.extend([0, 0, 255, 0, 255, 0, 0, 0]);
    bytes
}

#[test]
fn fonts_are_numbered_as_they_come() {
    let mut fonts = Fonts { count: 0 };
    assert_eq!(font(&mut fonts), Font { id: 0 });
    assert_eq!(font(&mut fonts), Font { id: 1 });
    assert_eq!(fonts.count, 2);
}

#[test]
fn textures_are_numbered_before_they_exist() {
    let mut textures = Textures::new();
    let a = add_texture_buffer(&mut textures, vec![1, 2, 3, 4], 1, 1);
    let b = add_texture_buffer(&mut textures, vec![0; 24], 2, 3);
    assert_eq!(a, Texture { id: 0, width: 1, height: 1 });
    assert_eq!(b, Texture { id: 1, width: 2, height: 3 });
    assert_eq!(textures.next, 2);
    assert_eq!(textures.made, 0);
    assert_eq!(textures.buffer.len(), 2);
    assert_eq!(textures.buffer[0].rgba, vec![1, 2, 3, 4]);
    assert_eq!(textures.buffer[1].width, 2);
    assert_eq!(textures.buffer[1].height, 3);
    let c = upd_texture_buffer(&mut textures, 0, vec![9; 16], 2, 2);
    assert_eq!(c, Texture { id: 0, width: 2, height: 2 });
    assert_eq!(textures.next, 2);
    assert_eq!(textures.buffer.len(), 2);
    assert_eq!(textures.update.len(), 1);
    assert_eq!(textures.update[0].0, 0);
    assert_eq!(textures.update[0].1.rgba, vec![9; 16]);
}

#[test]
fn uploads_come_out_in_the_order_the_gpu_needs() {
    let mut textures = Textures::new();
    add_texture_buffer(&mut textures, vec![1; 4], 1, 1);
    upd_texture_buffer(&mut textures, 1, vec![3; 4], 1, 1);
    add_texture_buffer(&mut textures, vec![2; 4], 1, 1);
    upd_texture_buffer(&mut textures, 0, vec![4; 4], 1, 1);
    let uploads = textures.take_uploads();
    let seen: Vec<(Option<usize>, u8)> = uploads
        .iter()
        .map(|u| match u {
            Upload::Create(image) => (None, image.rgba[0]),
            Upload::Resize(id, image) => (Some(*id), image.rgba[0]),
        })
        .collect();
    assert_eq!(seen, vec![(None, 1), (None, 2), (Some(1), 3), (Some(0), 4)]);
    assert_eq!(textures.next, 2);
    assert_eq!(textures.made, 2);
    assert!(textures.buffer.is_empty());
    assert!(textures.update.is_empty());
    assert!(textures.take_uploads().is_empty());
    assert_eq!(add_texture_buffer(&mut textures, vec![], 0, 0).id, 2);
}

#[test]
fn an_image_file_is_decoded_and_queued() {
    let mut textures = Textures::new();
    add_texture_buffer(&mut textures, vec![0; 4], 1, 1);
    let made = texture(&mut textures, &bmp_two_by_two()).unwrap();
    assert_eq!(made, Texture { id: 1, width: 2, height: 2 });
    assert_eq!(textures.next, 2);
    assert_eq!(textures.buffer.len(), 2);
    let image: &Bitmap = &textures.buffer[1];
    assert_eq!(image.width, 2);
    assert_eq!(image.height, 2);
    assert_eq!(
        image.rgba,
        vec![255, 0, 0, 255, 0, 255, 0, 255, 0, 0, 255, 255, 255, 255, 255, 255]
    );
}

#[test]
fn a_text_replaces_a_texture_even_when_no_id_is_left() {
    let glyphs = vec![glyph(0, 0, 1, 1, &[(0, 0, 7)])];
    let mut textures = Textures::new();
    textures.next = usize::MAX;
    textures.made = usize::MAX;
    let made = add_text(&mut textures, &glyphs, Some(4)).unwrap();
    assert_eq!(made, Texture { id: 4, width: 1, height: 1 });
    assert_eq!(textures.next, usize::MAX);
    assert_eq!(textures.update.len(), 1);
}

#[test]
fn bytes_that_are_no_image_queue_nothing() {
    let mut textures = Textures::new();
    assert_eq!(texture(&mut textures, b"not an image"), None);
    assert_eq!(texture(&mut textures, &[]), None);
    assert_eq!(textures.next, 0);
    assert!(textures.buffer.is_empty());
    assert_eq!(add_texture(&mut textures, None), None);
    assert_eq!(
        add_texture(&mut textures, Some((vec![7; 8], 2, 1))),
        Some(Texture { id: 0, width: 2, height: 1 })
    );
    assert_eq!(textures.buffer[0].rgba, vec![7; 8]);
}

#[test]
fn the_box_of_a_text_holds_all_its_glyphs() {
    let glyphs = vec![
        glyph(20, 25, 30, 40, &[]),
        glyph(28, 22, 41, 40, &[]),
        glyph(43, 30, 50, 44, &[]),
    ];
    assert_eq!(text_bounds(&glyphs), Bounds { min_x: 20, max_x: 50, min_y: 22, max_y: 44 });
    assert_eq!(text_bounds(&vec![glyph(-5, -7, 3, 2, &[])]), Bounds {
        min_x: -5,
        max_x: 3,
        min_y: -7,
        max_y: 2
    });
}

#[test]
fn a_text_without_glyphs_is_one_transparent_pixel() {
    assert_eq!(text_bounds(&vec![]), Bounds { min_x: 0, max_x: 1, min_y: 0, max_y: 1 });
    let image = text_bitmap(&vec![]).unwrap();
    assert_eq!(image.width, 1);
    assert_eq!(image.height, 1);
    assert_eq!(image.rgba, vec![0, 0, 0, 0]);
    let inside_out = vec![glyph(5, 0, 2, 3, &[(0, 0, 255)])];
    assert_eq!(text_bounds(&inside_out), Bounds { min_x: 0, max_x: 1, min_y: 0, max_y: 1 });
}

#[test]
fn glyphs_are_stamped_where_they_lie() {
    let glyphs = vec![
        glyph(20, 30, 22, 32, &[(0, 0, 10), (1, 0, 20), (0, 1, 30), (1, 1, 0)]),
        glyph(22, 31, 23, 33, &[(0, 0, 200), (0, 1, 100)]),
    ];
    let image = text_bitmap(&glyphs).unwrap();
    assert_eq!(image.width, 3);
    assert_eq!(image.height, 3);
    let px = |x: usize, y: usize| image.rgba[4 * (y * 3 + x)..4 * (y * 3 + x) + 4].to_vec();
    assert_eq!(px(0, 0), vec![255, 255, 255, 10]);
    assert_eq!(px(1, 0), vec![255, 255, 255, 20]);
    assert_eq!(px(2, 0), vec![0, 0, 0, 0]);
    assert_eq!(px(0, 1), vec![255, 255, 255, 30]);
    assert_eq!(px(1, 1), vec![255, 255, 255, 0]);
    assert_eq!(px(2, 1), vec![255, 255, 255, 200]);
    assert_eq!(px(0, 2), vec![0, 0, 0, 0]);
    assert_eq!(px(1, 2), vec![0, 0, 0, 0]);
    assert_eq!(px(2, 2), vec![255, 255, 255, 100]);
}

#[test]
fn a_later_dot_covers_an_earlier_one_and_a_stray_dot_is_dropped() {
    let glyphs = vec![
        glyph(0, 0, 2, 1, &[(0, 0, 1), (1, 0, 2)]),
        glyph(1, 0, 2, 1, &[(0, 0, 3), (1, 0, 4), (0, 1, 5)]),
    ];
    let image = text_bitmap(&glyphs).unwrap();
    assert_eq!(image.width, 2);
    assert_eq!(image.height, 1);
    assert_eq!(image.rgba, vec![255, 255, 255, 1, 255, 255, 255, 3]);
}

#[test]
fn a_text_is_queued_as_a_new_texture_or_as_the_content_of_an_old_one() {
    let glyphs = vec![glyph(0, 0, 2, 1, &[(0, 0, 9)])];
    let mut textures = Textures::new();
    let made = add_text(&mut textures, &glyphs, None).unwrap();
    assert_eq!(made, Texture { id: 0, width: 2, height: 1 });
    assert_eq!(textures.next, 1);
    assert_eq!(textures.buffer[0].rgba, vec![255, 255, 255, 9, 0, 0, 0, 0]);
    let longer = vec![glyph(0, 0, 3, 1, &[(2, 0, 8)])];
    let again = add_text(&mut textures, &longer, Some(made.id)).unwrap();
    assert_eq!(again, Texture { id: 0, width: 3, height: 1 });
    assert_eq!(textures.next, 1);
    assert_eq!(textures.buffer.len(), 1);
    assert_eq!(textures.update.len(), 1);
    assert_eq!(textures.update[0].0, 0);
    assert_eq!(textures.update[0].1.rgba, vec![0, 0, 0, 0, 0, 0, 0, 0, 255, 255, 255, 8]);
}

#[test]
fn the_widest_box_is_not_too_wide() {
    let glyphs = vec![glyph(i32::MIN, 0, i32::MAX, 1, &[])];
    let frame = text_bounds(&glyphs);
    assert_eq!(frame.max_x as i64 - frame.min_x as i64, u32::MAX as i64);
}
