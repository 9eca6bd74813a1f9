use battleship::input::parse_coordinates;

#[test]
fn plain_pair_parses() {
    assert_eq!(parse_coordinates("3,4"), Some((3, 4)));
    assert_eq!(parse_coordinates("0,9"), Some((0, 9)));
    assert_eq!(parse_coordinates("9,0"), Some((9, 0)));
}

#[test]
fn surrounding_whitespace_is_accepted() {
    assert_eq!(parse_coordinates(" 7 , 9 \n"), Some((7, 9)));
    assert_eq!(parse_coordinates("\t5,5\r\n"), Some((5, 5)));
}

#[test]
fn leading_zeroes_are_accepted() {
    assert_eq!(parse_coordinates("03,004"), Some((3, 4)));
    assert_eq!(parse_coordinates("000,0"), Some((0, 0)));
}

#[test]
fn out_of_range_values_are_rejected() {
    assert_eq!(parse_coordinates("10,3"), None);
    assert_eq!(parse_coordinates("3,10"), None);
    assert_eq!(parse_coordinates("123456789123456789123456789,3"), None);
}

#[test]
fn malformed_lines_are_rejected() {
    assert_eq!(parse_coordinates(""), None);
    assert_eq!(parse_coordinates("5"), None);
    assert_eq!(parse_coordinates(","), None);
    assert_eq!(parse_coordinates(",3"), None);
    assert_eq!(parse_coordinates("3,"), None);
    assert_eq!(parse_coordinates("a,4"), None);
    assert_eq!(parse_coordinates("3,4,5"), None);
    assert_eq!(parse_coordinates("3,,4"), None);
    assert_eq!(parse_coordinates("3 4"), None);
    assert_eq!(parse_coordinates("3 3,4"), None);
}
