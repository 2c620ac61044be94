use dice_mosaic::{
    build_tile_set, cell_average, check_tile_count, classify_cells, composite, map_intensity_to_dice_side,
    prepare_source, Canvas, DiceSides, MosaicError, Source, TileError,
};

fn solid_picture(w: u32, h: u32, rgba: [u8; 4]) -> Canvas {
    let mut px = Vec::new();
    for _ in 0..(w * h) {
        px.extend_from_slice(&rgba);
    }
    Canvas::new(w, h, px).unwrap()
}

fn face_colour(face: usize) -> [u8; 4] {
    [(face * 40) as u8, (face * 30) as u8, (255 - face * 20) as u8, 255]
}

fn six_pictures(side: u32) -> Vec<Canvas> {
    (1..=6).map(|f| solid_picture(side, side, face_colour(f))).collect()
}

fn uniform_source(w: u32, h: u32, v: u8) -> Source {
    Source::new(w, h, vec![v; (w * h) as usize]).unwrap()
}

#[test]
fn hundred_square_with_32_tiles_gives_96_square() {
    let tiles = build_tile_set(&six_pictures(32), 32, false).unwrap();
    let src = uniform_source(100, 100, 10);
    let m = composite(&src, &tiles).unwrap();
    assert_eq!((m.cols, m.rows), (3, 3));
    assert_eq!((m.canvas.width, m.canvas.height), (96, 96));
    assert_eq!(m.canvas.pixels.len(), 96 * 96 * 4);
}

#[test]
fn uniform_gray_200_fills_every_cell_with_face_five() {
    let tiles = build_tile_set(&six_pictures(32), 32, false).unwrap();
    let src = uniform_source(64, 64, 200);
    let m = composite(&src, &tiles).unwrap();
    assert_eq!((m.cols, m.rows), (2, 2));
    assert_eq!((m.canvas.width, m.canvas.height), (64, 64));
    let five = face_colour(5);
    for px in m.canvas.pixels.chunks(4) {
        assert_eq!(px, &five[..]);
    }
    let faces = classify_cells(&src, &tiles);
    assert_eq!(faces, vec![DiceSides::Five; 4]);
}

#[test]
fn five_pictures_are_refused() {
    let mut pics = six_pictures(8);
    pics.pop();
    assert_eq!(build_tile_set(&pics, 8, false).unwrap_err(), TileError::WrongCount(5));
    pics.push(solid_picture(8, 8, [0, 0, 0, 255]));
    pics.push(solid_picture(8, 8, [0, 0, 0, 255]));
    assert_eq!(build_tile_set(&pics, 8, false).unwrap_err(), TileError::WrongCount(7));
}

#[test]
fn zero_tile_size_is_refused() {
    assert_eq!(build_tile_set(&six_pictures(8), 0, false).unwrap_err(), TileError::ZeroSize);
}

#[test]
fn ten_square_source_is_too_small_for_32_tiles() {
    let tiles = build_tile_set(&six_pictures(32), 32, false).unwrap();
    let src = uniform_source(10, 10, 100);
    assert_eq!(composite(&src, &tiles).unwrap_err(), MosaicError::TooSmall);
    let wide = uniform_source(100, 10, 100);
    assert_eq!(composite(&wide, &tiles).unwrap_err(), MosaicError::TooSmall);
}

#[test]
fn cells_follow_their_own_brightness() {
    // Left cell dark, right cell bright, 2x2 tiles on a 4x2 source.
    let px = vec![0, 10, 250, 240, 20, 2, 255, 255];
    let src = Source::new(4, 2, px).unwrap();
    let tiles = build_tile_set(&six_pictures(2), 2, false).unwrap();
    let m = composite(&src, &tiles).unwrap();
    assert_eq!((m.cols, m.rows), (2, 1));
    let one = face_colour(1);
    let six = face_colour(6);
    for y in 0..2usize {
        for x in 0..4usize {
            let i = (y * 4 + x) * 4;
            let want = if x < 2 { one } else { six };
            assert_eq!(&m.canvas.pixels[i..i + 4], &want[..]);
        }
    }
}

#[test]
fn compositing_twice_gives_identical_canvases() {
    let mut px = Vec::new();
    for i in 0..(48 * 40u32) {
        px.push((i * 37 % 256) as u8);
    }
    let src = Source::new(48, 40, px).unwrap();
    let tiles = build_tile_set(&six_pictures(8), 8, false).unwrap();
    let a = composite(&src, &tiles).unwrap();
    let b = composite(&src, &tiles).unwrap();
    assert_eq!(a.canvas.pixels, b.canvas.pixels);
    assert_eq!((a.cols, a.rows), (6, 5));
}

#[test]
fn cell_average_is_sum_then_divide() {
    // 3x2 block: 1+2+3+4+5+6 = 21, 21 / 6 = 3 (rounded down).
    let src = Source::new(3, 2, vec![1, 2, 3, 4, 5, 6]).unwrap();
    assert_eq!(cell_average(&src, 0, 0, 3, 2), 3);
    // The same samples in another order give the same mean.
    let shuffled = Source::new(3, 2, vec![6, 4, 2, 5, 3, 1]).unwrap();
    assert_eq!(cell_average(&shuffled, 0, 0, 3, 2), 3);
    assert_eq!(cell_average(&src, 1, 1, 2, 1), 5);
    assert_eq!(cell_average(&src, 0, 0, 0, 2), 0);
    let bright = Source::new(2, 2, vec![255; 4]).unwrap();
    assert_eq!(cell_average(&bright, 0, 0, 2, 2), 255);
    assert_eq!(map_intensity_to_dice_side(cell_average(&bright, 0, 0, 2, 2)), DiceSides::Six);
}

#[test]
fn tiles_are_resampled_to_the_asked_size() {
    let pics: Vec<Canvas> = (1..=6).map(|f| solid_picture(2, 3, face_colour(f))).collect();
    let tiles = build_tile_set(&pics, 5, false).unwrap();
    assert_eq!(tiles.size, 5);
    for (i, d) in tiles.dice.iter().enumerate() {
        assert_eq!(d.side.index(), i);
        assert_eq!((d.image.width, d.image.height), (5, 5));
        assert_eq!(d.image.pixels.len(), 5 * 5 * 4);
    }
}

#[test]
fn inverted_tiles_keep_alpha() {
    let pics: Vec<Canvas> = (1..=6).map(|_| solid_picture(4, 4, [10, 20, 30, 128])).collect();
    let tiles = build_tile_set(&pics, 4, true).unwrap();
    for px in tiles.dice[0].image.pixels.chunks(4) {
        assert_eq!(px, &[245, 235, 225, 128][..]);
    }
    assert_eq!(tiles.tile(DiceSides::Three).side, DiceSides::Three);
}

#[test]
fn source_is_inverted_then_cropped_to_its_top_left_square() {
    let src = Source::new(3, 2, vec![0, 1, 2, 3, 4, 5]).unwrap();
    let sq = prepare_source(src.clone(), false, true);
    assert_eq!((sq.width, sq.height), (2, 2));
    assert_eq!(sq.pixels, vec![0, 1, 3, 4]);
    let inv = prepare_source(src.clone(), true, false);
    assert_eq!((inv.width, inv.height), (3, 2));
    assert_eq!(inv.pixels, vec![255, 254, 253, 252, 251, 250]);
    let both = prepare_source(src, true, true);
    assert_eq!(both.pixels, vec![255, 254, 252, 251]);
    let tall = Source::new(1, 3, vec![7, 8, 9]).unwrap();
    assert_eq!(tall.crop_square().pixels, vec![7]);
}

#[test]
fn buffers_must_match_their_size() {
    assert!(Source::new(2, 2, vec![0; 3]).is_none());
    assert!(Source::new(2, 2, vec![0; 4]).is_some());
    assert!(Canvas::new(2, 2, vec![0; 15]).is_none());
    assert!(Canvas::new(2, 2, vec![0; 16]).is_some());
}

#[test]
fn canvas_colour_inversion() {
    let mut c = Canvas::new(1, 1, vec![0, 100, 255, 7]).unwrap();
    c.invert_colors();
    assert_eq!(c.pixels, vec![255, 155, 0, 7]);
}

#[test]
fn six_pictures_and_a_positive_size_give_six_faces_in_order() {
    let tiles = build_tile_set(&six_pictures(4), 3, false).unwrap();
    let faces: Vec<DiceSides> = tiles.dice.iter().map(|d| d.side).collect();
    assert_eq!(
        faces,
        vec![
            DiceSides::One,
            DiceSides::Two,
            DiceSides::Three,
            DiceSides::Four,
            DiceSides::Five,
            DiceSides::Six
        ]
    );
    for d in &tiles.dice {
        assert_eq!((d.image.width, d.image.height), (3, 3));
    }
}

#[test]
fn an_empty_picture_is_refused() {
    let mut pics = six_pictures(4);
    pics[2] = Canvas::new(0, 4, Vec::new()).unwrap();
    pics[4] = Canvas::new(4, 0, Vec::new()).unwrap();
    assert_eq!(build_tile_set(&pics, 4, false).unwrap_err(), TileError::EmptyPicture(2));
}

#[test]
fn tile_count_check() {
    assert!(check_tile_count(6).is_ok());
    assert_eq!(check_tile_count(5), Err(TileError::WrongCount(5)));
    assert_eq!(check_tile_count(0), Err(TileError::WrongCount(0)));
}

#[test]
fn inverting_a_tile_set_keeps_faces_size_and_alpha() {
    let pics: Vec<Canvas> = (1..=6).map(|f| solid_picture(2, 2, [f as u8, 100, 250, 77])).collect();
    let mut tiles = build_tile_set(&pics, 2, false).unwrap();
    tiles.invert_colors();
    assert_eq!(tiles.size, 2);
    for (i, d) in tiles.dice.iter().enumerate() {
        assert_eq!(d.side.index(), i);
        assert_eq!((d.image.width, d.image.height), (2, 2));
        for px in d.image.pixels.chunks(4) {
            assert_eq!(px, &[255 - (i as u8 + 1), 155, 5, 77][..]);
        }
    }
}
