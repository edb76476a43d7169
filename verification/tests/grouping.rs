use led_display::bit_matrix::BitMatrix;

#[test]
fn uniform_display_groups_into_one_group() {
    let bm = BitMatrix::from_bits(0x3f);
    let groups = bm.bits_to_indexes().unwrap();
    assert_eq!(groups.len(), 1);
    assert_eq!(groups.get(&0x3f).unwrap().as_slice(), &[0, 1, 2, 3]);
}

#[test]
fn all_blank_display_groups_into_nothing() {
    let bm = BitMatrix::from_bits(0);
    let groups = bm.bits_to_indexes().unwrap();
    assert_eq!(groups.len(), 0);
}

#[test]
fn groups_follow_cell_masks() {
    let bm = BitMatrix::new([0x06, 0x00, 0x06, 0x5b]);
    let groups = bm.bits_to_indexes().unwrap();
    assert_eq!(groups.len(), 2);
    assert_eq!(groups.get(&0x06).unwrap().as_slice(), &[0, 2]);
    assert_eq!(groups.get(&0x5b).unwrap().as_slice(), &[3]);
    assert!(groups.get(&0x00).is_none());
}

#[test]
fn four_distinct_masks_fit_exactly() {
    let bm = BitMatrix::new([1, 2, 3, 4]);
    let groups = bm.bits_to_indexes().unwrap();
    assert_eq!(groups.len(), 4);
    assert_eq!(groups.get(&1).unwrap().as_slice(), &[0]);
    assert_eq!(groups.get(&2).unwrap().as_slice(), &[1]);
    assert_eq!(groups.get(&3).unwrap().as_slice(), &[2]);
    assert_eq!(groups.get(&4).unwrap().as_slice(), &[3]);
}

#[test]
fn grouping_a_rendered_string() {
    let bm = BitMatrix::from_str("11  ");
    let groups = bm.bits_to_indexes().unwrap();
    assert_eq!(groups.len(), 1);
    assert_eq!(groups.get(&0x06).unwrap().as_slice(), &[0, 1]);
}
