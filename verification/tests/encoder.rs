use led_display::bit_matrix::BitMatrix;

#[test]
fn new_and_get_keep_cells() {
    let bm = BitMatrix::new([1, 2, 3, 4]);
    assert_eq!(bm.get(0), 1);
    assert_eq!(bm.get(1), 2);
    assert_eq!(bm.get(2), 3);
    assert_eq!(bm.get(3), 4);
    assert_eq!(bm.iter(), vec![1, 2, 3, 4]);
}

#[test]
fn from_bits_fills_every_cell() {
    let bm = BitMatrix::from_bits(0x5b);
    assert_eq!(bm.iter(), vec![0x5b, 0x5b, 0x5b, 0x5b]);
}

#[test]
fn default_is_all_blank() {
    let bm = BitMatrix::default();
    assert_eq!(bm.iter(), vec![0, 0, 0, 0]);
}

#[test]
fn set_replaces_one_cell() {
    let mut bm = BitMatrix::from_bits(0);
    bm.set(2, 0x40);
    assert_eq!(bm.iter(), vec![0, 0, 0x40, 0]);
}

#[test]
fn from_str_short_keeps_order_and_blanks_tail() {
    let bm = BitMatrix::from_str("AB");
    assert_eq!(bm.iter(), vec![0x77, 0x7c, 0x00, 0x00]);
}

#[test]
fn from_str_exact_fit() {
    let bm = BitMatrix::from_str("1234");
    assert_eq!(bm.iter(), vec![0x06, 0x5b, 0x4f, 0x66]);
}

#[test]
fn from_str_empty_is_blank() {
    let bm = BitMatrix::from_str("");
    assert_eq!(bm.iter(), vec![0, 0, 0, 0]);
}

#[test]
fn from_str_too_long_lights_every_decimal_point() {
    let bm = BitMatrix::from_str("12345");
    assert_eq!(
        bm.iter(),
        vec![0x06 | 0x80, 0x5b | 0x80, 0x4f | 0x80, 0x66 | 0x80]
    );
}

#[test]
fn from_str_unknown_chars_are_blank() {
    let bm = BitMatrix::from_str("A!z");
    assert_eq!(bm.iter(), vec![0x77, 0x00, 0x00, 0x00]);
}

#[test]
fn from_chars_maps_each_cell() {
    let bm = BitMatrix::from_chars(&['0', '-', ' ', '9']);
    assert_eq!(bm.iter(), vec![0x3f, 0x40, 0x00, 0x6f]);
}

#[test]
fn from_number_right_aligns_and_pads() {
    let bm = BitMatrix::from_number(42, 0);
    assert_eq!(bm.iter(), vec![0x00, 0x00, 0x66, 0x5b]);
}

#[test]
fn from_number_zero_shows_one_digit() {
    let bm = BitMatrix::from_number(0, 0);
    assert_eq!(bm.iter(), vec![0x00, 0x00, 0x00, 0x3f]);
}

#[test]
fn from_number_uses_caller_padding() {
    let bm = BitMatrix::from_number(7, 0x40);
    assert_eq!(bm.iter(), vec![0x40, 0x40, 0x40, 0x07]);
}

#[test]
fn from_number_exact_fit() {
    let bm = BitMatrix::from_number(1987, 0);
    assert_eq!(bm.iter(), vec![0x06, 0x6f, 0x7f, 0x07]);
}

#[test]
fn from_number_reads_back_its_digits() {
    let digit_masks = [0x3f, 0x06, 0x5b, 0x4f, 0x66, 0x6d, 0x7d, 0x07, 0x7f, 0x6f];
    let n: u16 = 3072;
    let bm = BitMatrix::from_number(n, 0);
    let mut read_back: u16 = 0;
    for i in 0..4 {
        let mask = bm.get(i);
        let digit = digit_masks.iter().position(|&m| m == mask).unwrap() as u16;
        read_back = read_back * 10 + digit;
    }
    assert_eq!(read_back, n);
}

#[test]
fn from_number_too_wide_lights_every_decimal_point() {
    let bm = BitMatrix::from_number(65535, 0);
    assert_eq!(
        bm.iter(),
        vec![0x6d | 0x80, 0x6d | 0x80, 0x4f | 0x80, 0x6d | 0x80]
    );
}

#[test]
fn overlay_ors_into_every_cell() {
    let mut bm = BitMatrix::new([0x01, 0x02, 0x04, 0x08]);
    bm.overlay(0x80);
    assert_eq!(bm.iter(), vec![0x81, 0x82, 0x84, 0x88]);
}

#[test]
fn overlay_twice_equals_once() {
    let mut once = BitMatrix::new([0x01, 0x02, 0x04, 0x08]);
    once.overlay(0x43);
    let mut twice = BitMatrix::new([0x01, 0x02, 0x04, 0x08]);
    twice.overlay(0x43);
    twice.overlay(0x43);
    assert_eq!(once.iter(), twice.iter());
}
