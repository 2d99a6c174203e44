use fgbgg::file_name::{parse_file_name, result_name, try_parse_file_name, FileNameError};
use fgbgg::position::ROIPosition;
use fgbgg::text::{decimal_string, split_at_alphabetic};

#[test]
fn result_name_format() {
    assert_eq!(result_name("12", "3", &ROIPosition::Top), "b12f3p3");
    assert_eq!(result_name("0", "0", &ROIPosition::Center), "b0f0p0");
    assert_eq!(result_name("7", "41", &ROIPosition::BottomRight), "b7f41p8");
}

#[test]
fn parse_generated_name() {
    assert_eq!(parse_file_name(&"b5f9p0".to_string()), Some((5, 9, ROIPosition::Center)));
    assert_eq!(parse_file_name(&"b12f3p4".to_string()), Some((12, 3, ROIPosition::Bottom)));
}

#[test]
fn parse_name_with_too_few_pieces() {
    assert_eq!(parse_file_name(&"".to_string()), None);
    assert_eq!(parse_file_name(&"12".to_string()), None);
    assert_eq!(parse_file_name(&"b12".to_string()), None);
    assert_eq!(parse_file_name(&"b12f3".to_string()), None);
}

#[test]
fn parse_name_large_code_is_center() {
    assert_eq!(parse_file_name(&"b1f2p200".to_string()), Some((1, 2, ROIPosition::Center)));
}

#[test]
fn parse_name_accepts_plus_sign() {
    assert_eq!(parse_file_name(&"b+1f2p+3".to_string()), Some((1, 2, ROIPosition::Top)));
}

#[test]
fn parse_name_ignores_fifth_piece() {
    assert_eq!(parse_file_name(&"b1f2p3x9".to_string()), Some((1, 2, ROIPosition::Top)));
    assert_eq!(parse_file_name(&"b1f2p3xyz".to_string()), Some((1, 2, ROIPosition::Top)));
}

#[test]
fn parse_name_splits_at_any_letter() {
    // Unicode letters separate pieces too.
    assert_eq!(parse_file_name(&"x4é5ж6".to_string()), Some((4, 5, ROIPosition::TopRight)));
}

#[test]
fn malformed_names_are_errors() {
    assert_eq!(try_parse_file_name(&"bf1p2".to_string()), Err(FileNameError::MalformedNumber));
    assert_eq!(try_parse_file_name(&"b1-f2p3".to_string()), Err(FileNameError::MalformedNumber));
    assert_eq!(try_parse_file_name(&"b1f2p256".to_string()), Err(FileNameError::MalformedNumber));
    assert_eq!(try_parse_file_name(&"b1f2p".to_string()), Err(FileNameError::MalformedNumber));
    assert_eq!(
        try_parse_file_name(&"b99999999999999999999999f1p1".to_string()),
        Err(FileNameError::MalformedNumber)
    );
    assert_eq!(try_parse_file_name(&"b+f1p1".to_string()), Err(FileNameError::MalformedNumber));
    assert_eq!(try_parse_file_name(&"b1 f1p1".to_string()), Err(FileNameError::MalformedNumber));
}

#[test]
fn readable_names_are_not_errors() {
    assert_eq!(try_parse_file_name(&"b3f4p5".to_string()), Ok(Some((3, 4, ROIPosition::TopLeft))));
    assert_eq!(try_parse_file_name(&"12".to_string()), Ok(None));
    assert_eq!(try_parse_file_name(&"".to_string()), Ok(None));
    assert_eq!(try_parse_file_name(&"plain".to_string()), Err(FileNameError::MalformedNumber));
    assert_eq!(try_parse_file_name(&"b3".to_string()), Ok(None));
}

#[test]
fn result_names_round_trip() {
    let positions = [
        ROIPosition::Left,
        ROIPosition::Right,
        ROIPosition::Top,
        ROIPosition::Bottom,
        ROIPosition::TopLeft,
        ROIPosition::TopRight,
        ROIPosition::BottomLeft,
        ROIPosition::BottomRight,
        ROIPosition::Center,
    ];
    for b in [0usize, 1, 9, 10, 123, usize::MAX].iter() {
        for f in [0usize, 7, 4096].iter() {
            for p in positions.iter() {
                let name = result_name(&decimal_string(*b), &decimal_string(*f), p);
                assert_eq!(parse_file_name(&name), Some((*b, *f, *p)));
            }
        }
    }
}

#[test]
fn decimal_strings() {
    assert_eq!(decimal_string(0), "0");
    assert_eq!(decimal_string(7), "7");
    assert_eq!(decimal_string(10), "10");
    assert_eq!(decimal_string(1234567890), "1234567890");
    assert_eq!(decimal_string(usize::MAX), usize::MAX.to_string());
}

#[test]
fn split_pieces() {
    let pieces = split_at_alphabetic("b12f3p4");
    assert_eq!(pieces, vec![vec![], vec!['1', '2'], vec!['3'], vec!['4']]);
    let pieces = split_at_alphabetic("");
    assert_eq!(pieces, vec![Vec::<char>::new()]);
    let pieces = split_at_alphabetic("ab");
    assert_eq!(pieces, vec![vec![], vec![], Vec::<char>::new()]);
    let expected: Vec<Vec<char>> =
        "b12f3p4".split(char::is_alphabetic).map(|s| s.chars().collect()).collect();
    assert_eq!(split_at_alphabetic("b12f3p4"), expected);
}
