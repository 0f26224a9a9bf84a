use lazyhex::config::Endian;
use lazyhex::input::hex_digit;
use lazyhex::layout::{bit_changes, convert, read_number, slice};

#[test]
fn cells_of_the_hex_grid() {
    assert_eq!(convert(0), (0, 0));
    assert_eq!(convert(7), (0, 14));
    assert_eq!(convert(8), (0, 17));
    assert_eq!(convert(9), (0, 19));
    assert_eq!(convert(35), (2, 6));
}

#[test]
fn slice_pads_with_zeros() {
    let data = [1u8, 2, 3];
    assert_eq!(slice(&data, 1, 4), vec![2, 3, 0, 0]);
    assert_eq!(slice(&data, 5, 2), vec![0, 0]);
    assert_eq!(slice(&data, 0, 0), Vec::<u8>::new());
}

#[test]
fn numbers_in_both_orders() {
    let data = [0x01u8, 0x02, 0x03, 0x04, 0x05, 0x06, 0x07, 0x08];
    assert_eq!(read_number(&data, 2, Endian::Big), 0x0102);
    assert_eq!(read_number(&data, 2, Endian::Little), 0x0201);
    assert_eq!(read_number(&data, 4, Endian::Big), 0x01020304);
    assert_eq!(read_number(&data, 8, Endian::Little), 0x0807060504030201);
    assert_eq!(read_number(&data[6..], 4, Endian::Big), 0x07080000);
    assert_eq!(read_number(&data[6..], 4, Endian::Little), 0x0807);
}

#[test]
fn changed_bits() {
    let r = bit_changes(0b1010_0000, 0b0110_0001);
    assert_eq!(r, vec![Some(false), Some(true), None, None, None, None, None, Some(true)]);
    assert_eq!(bit_changes(5, 5), vec![None; 8]);
}

#[test]
fn hex_digits() {
    assert_eq!(hex_digit('0'), Some(0));
    assert_eq!(hex_digit('9'), Some(9));
    assert_eq!(hex_digit('a'), Some(10));
    assert_eq!(hex_digit('F'), Some(15));
    assert_eq!(hex_digit('g'), None);
}
