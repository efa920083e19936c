use hn_buffer::ids::{char_delimited_string_to_array, parse_range, IdListError, UNREADABLE_ID};

fn read(s: &str) -> Result<Vec<i32>, IdListError> {
    char_delimited_string_to_array(&String::from(s))
}

#[test]
fn reads_a_json_array_of_ids() {
    assert_eq!(read("[8863,121003,2921983]"), Ok(vec![8863, 121003, 2921983]));
}

#[test]
fn reads_plain_and_signed_numbers() {
    assert_eq!(read("12,-5,+7"), Ok(vec![12, -5, 7]));
    assert_eq!(read("2147483647,-2147483648"), Ok(vec![2147483647, -2147483648]));
}

#[test]
fn single_number_and_bracketed_single_number() {
    assert_eq!(read("42"), Ok(vec![42]));
    assert_eq!(read("[42]"), Ok(vec![UNREADABLE_ID]));
    assert_eq!(read("[5"), Ok(vec![5]));
    assert_eq!(read("5]"), Ok(vec![5]));
}

#[test]
fn piece_without_digits_at_its_ends_stands_for_the_marker() {
    assert_eq!(read("abc,3"), Ok(vec![UNREADABLE_ID, 3]));
    assert_eq!(UNREADABLE_ID, 9999999);
}

#[test]
fn empty_piece_is_an_error() {
    assert_eq!(read(""), Err(IdListError { piece: 0 }));
    assert_eq!(read("1,,2"), Err(IdListError { piece: 1 }));
    assert_eq!(read("1,2,"), Err(IdListError { piece: 2 }));
}

#[test]
fn unreadable_rest_is_an_error() {
    assert_eq!(read("1,2x3"), Err(IdListError { piece: 1 }));
    assert_eq!(read("99999999999"), Err(IdListError { piece: 0 }));
    assert_eq!(read("7\u{e9}"), Err(IdListError { piece: 0 }));
}

#[test]
fn non_ascii_numeric_character_counts_as_numeric() {
    // U+0663 is an Arabic-Indic digit: numeric, but not a decimal digit for parse.
    assert_eq!(read("x\u{663}"), Err(IdListError { piece: 0 }));
    assert_eq!(read("x\u{663}y"), Ok(vec![UNREADABLE_ID]));
}

#[test]
fn parse_range_follows_str_parse() {
    let v: Vec<char> = "+-12a34".chars().collect();
    assert_eq!(parse_range(&v, 2, 4), Some(12));
    assert_eq!(parse_range(&v, 1, 4), Some(-12));
    assert_eq!(parse_range(&v, 0, 1), None);
    assert_eq!(parse_range(&v, 0, 2), None);
    assert_eq!(parse_range(&v, 2, 2), None);
    assert_eq!(parse_range(&v, 2, 5), None);
    assert_eq!(parse_range(&v, 5, 7), Some(34));
}
