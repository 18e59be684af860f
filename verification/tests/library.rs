use riptorrent::bytes::{push_all, push_be_u32, push_be_usize, read_be_u16, read_be_u32, tail};
use riptorrent::text::{decimal_string, signed_decimal_string};

#[test]
fn load_torrent_file() {
    assert!(true);
}

#[test]
fn numbers_are_written_most_significant_byte_first() {
    let mut out = vec![9u8];
    push_be_u32(&mut out, 0x01020304);
    assert_eq!(out, vec![9, 1, 2, 3, 4]);

    let mut word = vec![];
    push_be_usize(&mut word, 258);
    assert_eq!(word, 258usize.to_be_bytes().to_vec());
}

#[test]
fn numbers_read_back() {
    for n in [0u32, 1, 255, 256, 65535, 16777216, u32::MAX] {
        let mut out = vec![];
        push_be_u32(&mut out, n);
        assert_eq!(read_be_u32(&out, 0), n);
    }
    assert_eq!(read_be_u32(&[7, 0, 0, 1, 2], 1), 258);
    assert_eq!(read_be_u16(&[0x1A, 0xE1], 0), 6881);
}

#[test]
fn parts_of_byte_strings() {
    assert_eq!(tail(&[1, 2, 3], 1), vec![2, 3]);
    assert_eq!(tail(&[1, 2, 3], 3), Vec::<u8>::new());
    let mut out = vec![1];
    push_all(&mut out, &[2, 3]);
    assert_eq!(out, vec![1, 2, 3]);
}

#[test]
fn numbers_in_decimal() {
    assert_eq!(decimal_string(0), "0");
    assert_eq!(decimal_string(10), "10");
    assert_eq!(decimal_string(u64::MAX), "18446744073709551615");
    assert_eq!(signed_decimal_string(1), "1");
    assert_eq!(signed_decimal_string(-40), "-40");
    assert_eq!(signed_decimal_string(i32::MIN), "-2147483648");
}
