use battleship::input::parse_move;

#[test]
fn parses_plain_pair() {
    assert_eq!(parse_move("3,4"), Some((3, 4)));
}

#[test]
fn parses_with_spaces_around_fields() {
    assert_eq!(parse_move(" 3 , 4 "), Some((3, 4)));
    assert_eq!(parse_move("3, 4"), Some((3, 4)));
    assert_eq!(parse_move("3, 4\n"), Some((3, 4)));
    assert_eq!(parse_move("\t0,\u{a0}9\r\n"), Some((0, 9)));
}

#[test]
fn parses_plus_sign_and_leading_zeros() {
    assert_eq!(parse_move("+3,04"), Some((3, 4)));
    assert_eq!(parse_move("0000009,0"), Some((9, 0)));
}

#[test]
fn rejects_out_of_range() {
    assert_eq!(parse_move("10,0"), None);
    assert_eq!(parse_move("0,10"), None);
    assert_eq!(parse_move("99999999999999999999999999,1"), None);
}

#[test]
fn rejects_non_numbers() {
    assert_eq!(parse_move("a,b"), None);
    assert_eq!(parse_move("-3,4"), None);
    assert_eq!(parse_move("+,4"), None);
    assert_eq!(parse_move("3 3,4"), None);
    assert_eq!(parse_move(",4"), None);
    assert_eq!(parse_move("3,"), None);
}

#[test]
fn rejects_wrong_field_count() {
    assert_eq!(parse_move("3"), None);
    assert_eq!(parse_move("3,4,5"), None);
    assert_eq!(parse_move(""), None);
    assert_eq!(parse_move("3,,4"), None);
}
