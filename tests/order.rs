use dice_mosaic::{name_le, tile_file_order};

fn names(list: &[&str]) -> Vec<Vec<u8>> {
    list.iter().map(|s| s.as_bytes().to_vec()).collect()
}

#[test]
fn files_are_ordered_by_name() {
    let n = names(&["dice/6side.png", "dice/2side.png", "dice/1side.png", "dice/5side.png", "dice/3side.png", "dice/4side.png"]);
    let order = tile_file_order(&n);
    assert_eq!(order, vec![2, 1, 4, 5, 3, 0]);
}

#[test]
fn ordering_is_byte_lexicographic() {
    let n = names(&["b", "ab", "a", "B", "", "a"]);
    let order = tile_file_order(&n);
    let sorted: Vec<&[u8]> = order.iter().map(|&i| n[i].as_slice()).collect();
    assert_eq!(sorted, vec![&b""[..], b"B", b"a", b"a", b"ab", b"b"]);
    let mut seen = order.clone();
    seen.sort();
    assert_eq!(seen, vec![0, 1, 2, 3, 4, 5]);
    assert!(tile_file_order(&Vec::new()).is_empty());
}

#[test]
fn name_comparison() {
    assert!(name_le(&b"a".to_vec(), &b"ab".to_vec()));
    assert!(!name_le(&b"ab".to_vec(), &b"a".to_vec()));
    assert!(name_le(&b"10".to_vec(), &b"9".to_vec()));
    assert!(name_le(&b"x".to_vec(), &b"x".to_vec()));
    assert!(!name_le(&b"y".to_vec(), &b"x".to_vec()));
}
