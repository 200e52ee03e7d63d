use battleship::input::{parse_field, parse_target};

#[test]
fn plain_pair_is_read() {
    assert_eq!(parse_target(b"3,4"), Some((3, 4)));
    assert_eq!(parse_target(b"0,0"), Some((0, 0)));
    assert_eq!(parse_target(b"9,9"), Some((9, 9)));
    assert_eq!(parse_target(b"0,9"), Some((0, 9)));
}

#[test]
fn blanks_around_the_numbers_are_ignored() {
    assert_eq!(parse_target(b" 3 , 4 \n"), Some((3, 4)));
    assert_eq!(parse_target(b"\t7,\t2\r\n"), Some((7, 2)));
    assert_eq!(parse_target(b"1,2\n"), Some((1, 2)));
}

#[test]
fn plus_sign_and_leading_zeros_are_accepted() {
    assert_eq!(parse_target(b"+3,+4"), Some((3, 4)));
    assert_eq!(parse_target(b"03,004"), Some((3, 4)));
    assert_eq!(parse_target(b"3, +4"), Some((3, 4)));
    assert_eq!(parse_target(b"000000000000000000000000000000001,0"), Some((1, 0)));
}

#[test]
fn numbers_off_the_grid_are_refused() {
    assert_eq!(parse_target(b"10,0"), None);
    assert_eq!(parse_target(b"0,10"), None);
    assert_eq!(parse_target(b"99999999999999999999999999999999,1"), None);
    assert_eq!(parse_target(b"1,18446744073709551616"), None);
    assert_eq!(parse_target(b"-1,2"), None);
}

#[test]
fn wrong_number_of_fields_is_refused() {
    assert_eq!(parse_target(b""), None);
    assert_eq!(parse_target(b"\n"), None);
    assert_eq!(parse_target(b"3"), None);
    assert_eq!(parse_target(b"3 4"), None);
    assert_eq!(parse_target(b"3,4,5"), None);
    assert_eq!(parse_target(b"3,,4"), None);
    assert_eq!(parse_target(b","), None);
    assert_eq!(parse_target(b"3,"), None);
    assert_eq!(parse_target(b",4"), None);
}

#[test]
fn text_that_is_no_number_is_refused() {
    assert_eq!(parse_target(b"a,b"), None);
    assert_eq!(parse_target(b"3,x"), None);
    assert_eq!(parse_target(b"3,+ 4"), None);
    assert_eq!(parse_target(b"3,++4"), None);
    assert_eq!(parse_target(b"3,4+"), None);
    assert_eq!(parse_target(b"3,+"), None);
    assert_eq!(parse_target(b"3,1 2"), None);
    assert_eq!(parse_target(b"3.0,4"), None);
    assert_eq!(parse_target(b"0x3,4"), None);
}

#[test]
fn field_is_read_between_its_bounds() {
    let line = b"12, 7 ,x";
    assert_eq!(parse_field(line, 0, 1), Some(1));
    assert_eq!(parse_field(line, 1, 2), Some(2));
    assert_eq!(parse_field(line, 0, 2), None);
    assert_eq!(parse_field(line, 3, 6), Some(7));
    assert_eq!(parse_field(line, 3, 4), None);
    assert_eq!(parse_field(line, 7, 8), None);
    assert_eq!(parse_field(line, 2, 2), None);
    assert_eq!(parse_field(line, 0, 8), None);
}
