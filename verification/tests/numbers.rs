use raft_node::digits::{digit_value, push_numeral, read_number};

fn numeral(value: u32, hex: bool) -> String {
    let mut out = b"x".to_vec();
    push_numeral(&mut out, value, hex);
    String::from_utf8(out).unwrap()
}

#[test]
fn digits_have_their_values() {
    assert_eq!(digit_value(b'0', false), Some(0));
    assert_eq!(digit_value(b'9', false), Some(9));
    assert_eq!(digit_value(b'a', false), None);
    assert_eq!(digit_value(b'a', true), Some(10));
    assert_eq!(digit_value(b'F', true), Some(15));
    assert_eq!(digit_value(b'g', true), None);
    assert_eq!(digit_value(b'G', true), None);
    assert_eq!(digit_value(b'/', true), None);
    assert_eq!(digit_value(b':', true), None);
    assert_eq!(digit_value(b'@', true), None);
    assert_eq!(digit_value(b'`', true), None);
}

#[test]
fn a_number_is_the_longest_run_of_digits() {
    assert_eq!(read_number(b"123.4", 0, false, Some(3), false, 255), Some((123, 3)));
    assert_eq!(read_number(b"x255", 1, false, Some(3), false, 255), Some((255, 4)));
    assert_eq!(read_number(b"256", 0, false, Some(3), false, 255), None);
    assert_eq!(read_number(b"1234", 0, false, Some(3), false, 9999), None);
    assert_eq!(read_number(b"0", 0, false, Some(3), false, 255), Some((0, 1)));
    assert_eq!(read_number(b"00", 0, false, Some(3), false, 255), None);
    assert_eq!(read_number(b"00", 0, false, Some(3), true, 255), Some((0, 2)));
    assert_eq!(read_number(b"", 0, false, None, true, 255), None);
    assert_eq!(read_number(b"12", 2, false, None, true, 255), None);
    assert_eq!(read_number(b"12", 3, false, None, true, 255), None);
    assert_eq!(read_number(b"12", usize::MAX, false, None, true, 255), None);
    assert_eq!(read_number(b"a1", 0, false, None, true, 255), None);
    assert_eq!(read_number(b"a1", 0, true, None, true, 255), Some((0xa1, 2)));
    assert_eq!(read_number(b"FfFf:", 0, true, Some(4), true, 0xffff), Some((0xffff, 4)));
    assert_eq!(read_number(b"4294967295", 0, false, None, true, u32::MAX), Some((u32::MAX, 10)));
    assert_eq!(read_number(b"4294967296", 0, false, None, true, u32::MAX), None);
    assert_eq!(
        read_number(b"000000000000000000000000000000065535]", 0, false, None, true, 65535),
        Some((65535, 36))
    );
    assert_eq!(read_number(b"99999999999999999999999999", 0, false, None, true, u32::MAX), None);
}

#[test]
fn a_numeral_is_the_shortest_spelling() {
    assert_eq!(numeral(0, false), "x0");
    assert_eq!(numeral(7, false), "x7");
    assert_eq!(numeral(10, false), "x10");
    assert_eq!(numeral(65535, false), "x65535");
    assert_eq!(numeral(u32::MAX, false), "x4294967295");
    assert_eq!(numeral(0, true), "x0");
    assert_eq!(numeral(15, true), "xf");
    assert_eq!(numeral(16, true), "x10");
    assert_eq!(numeral(0xdb8, true), "xdb8");
    assert_eq!(numeral(0xffff, true), "xffff");
    assert_eq!(numeral(u32::MAX, true), "xffffffff");
}
