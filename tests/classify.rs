use dice_mosaic::{map_intensity_to_dice_side, DiceSides};

fn face_number(side: DiceSides) -> u32 {
    match side {
        DiceSides::One => 1,
        DiceSides::Two => 2,
        DiceSides::Three => 3,
        DiceSides::Four => 4,
        DiceSides::Five => 5,
        DiceSides::Six => 6,
    }
}

#[test]
fn band_edges_pick_the_lower_band() {
    let cases: [(u8, DiceSides); 12] = [
        (0, DiceSides::One),
        (42, DiceSides::One),
        (43, DiceSides::Two),
        (85, DiceSides::Two),
        (86, DiceSides::Three),
        (128, DiceSides::Three),
        (129, DiceSides::Four),
        (171, DiceSides::Four),
        (172, DiceSides::Five),
        (214, DiceSides::Five),
        (215, DiceSides::Six),
        (255, DiceSides::Six),
    ];
    for (v, side) in cases {
        assert_eq!(map_intensity_to_dice_side(v), side, "value {}", v);
    }
}

#[test]
fn every_byte_value_gets_one_face_in_rising_order() {
    let mut counts = [0u32; 6];
    let mut last = 1;
    for v in 0..=255u8 {
        let f = face_number(map_intensity_to_dice_side(v));
        assert!((1..=6).contains(&f));
        assert!(f == last || f == last + 1, "faces must rise without gaps at {}", v);
        last = f;
        counts[(f - 1) as usize] += 1;
    }
    assert_eq!(counts, [43, 43, 43, 43, 43, 41]);
    assert_eq!(counts.iter().sum::<u32>(), 256);
}

#[test]
fn mid_gray_two_hundred_is_face_five() {
    assert_eq!(map_intensity_to_dice_side(200), DiceSides::Five);
}

#[test]
fn side_index_round_trips() {
    for i in 0..6usize {
        assert_eq!(DiceSides::from_index(i).index(), i);
    }
    assert_eq!(DiceSides::Six.index(), 5);
}
