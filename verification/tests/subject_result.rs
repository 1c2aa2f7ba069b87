use gpa_tracker::subject_result::{SubjectResult, SubjectResultError};

#[test]
fn new_keeps_both_fields() {
    let r = SubjectResult::new(90, 3);
    assert_eq!(r.points, 90);
    assert_eq!(r.credit, 3);
}

#[test]
fn to_string_is_points_space_credit() {
    assert_eq!(SubjectResult::new(90, 3).to_string(), "90 3");
    assert_eq!(SubjectResult::new(0, 0).to_string(), "0 0");
    assert_eq!(SubjectResult::new(7, 10).to_string(), "7 10");
    assert_eq!(
        SubjectResult::new(u32::MAX, u32::MAX).to_string(),
        "4294967295 4294967295"
    );
}

#[test]
fn from_string_reads_two_numerals() {
    assert_eq!(SubjectResult::from_string("70 4"), Ok(SubjectResult::new(70, 4)));
    assert_eq!(SubjectResult::from_string("0 0"), Ok(SubjectResult::new(0, 0)));
    assert_eq!(SubjectResult::from_string("007 +4"), Ok(SubjectResult::new(7, 4)));
    assert_eq!(
        SubjectResult::from_string("4294967295 1"),
        Ok(SubjectResult::new(u32::MAX, 1))
    );
}

#[test]
fn from_string_counts_fields() {
    assert_eq!(
        SubjectResult::from_string("70"),
        Err(SubjectResultError::IncorrectNumberOfArguments { expected: 2, actual: 1 })
    );
    assert_eq!(
        SubjectResult::from_string(""),
        Err(SubjectResultError::IncorrectNumberOfArguments { expected: 2, actual: 1 })
    );
    assert_eq!(
        SubjectResult::from_string("70 4 1"),
        Err(SubjectResultError::IncorrectNumberOfArguments { expected: 2, actual: 3 })
    );
    assert_eq!(
        SubjectResult::from_string("70  4"),
        Err(SubjectResultError::IncorrectNumberOfArguments { expected: 2, actual: 3 })
    );
    assert_eq!(
        SubjectResult::from_string("70 4 "),
        Err(SubjectResultError::IncorrectNumberOfArguments { expected: 2, actual: 3 })
    );
}

#[test]
fn from_string_names_the_bad_field() {
    assert_eq!(
        SubjectResult::from_string("x 4"),
        Err(SubjectResultError::CouldNotParse { value: "x".to_string() })
    );
    assert_eq!(
        SubjectResult::from_string("70 y"),
        Err(SubjectResultError::CouldNotParse { value: "y".to_string() })
    );
    assert_eq!(
        SubjectResult::from_string("x y"),
        Err(SubjectResultError::CouldNotParse { value: "x".to_string() })
    );
    assert_eq!(
        SubjectResult::from_string("-1 4"),
        Err(SubjectResultError::CouldNotParse { value: "-1".to_string() })
    );
    assert_eq!(
        SubjectResult::from_string("4294967296 4"),
        Err(SubjectResultError::CouldNotParse { value: "4294967296".to_string() })
    );
    assert_eq!(
        SubjectResult::from_string(" 4"),
        Err(SubjectResultError::CouldNotParse { value: "".to_string() })
    );
    assert_eq!(
        SubjectResult::from_string("1.5 4"),
        Err(SubjectResultError::CouldNotParse { value: "1.5".to_string() })
    );
    assert_eq!(
        SubjectResult::from_string("70\t4"),
        Err(SubjectResultError::IncorrectNumberOfArguments { expected: 2, actual: 1 })
    );
}

#[test]
fn decoding_an_encoding_gives_the_result_back() {
    let samples = [
        (0u32, 0u32),
        (1, 1),
        (9, 10),
        (10, 9),
        (99, 100),
        (86, 5),
        (1_000_000_000, 999_999_999),
        (u32::MAX, 0),
        (0, u32::MAX),
        (u32::MAX, u32::MAX),
    ];
    for (points, credit) in samples {
        let r = SubjectResult::new(points, credit);
        assert_eq!(SubjectResult::from_string(&r.to_string()), Ok(r));
    }
}

#[test]
fn from_str_to_int_reads_one_numeral() {
    let digits: Vec<char> = "123".chars().collect();
    assert_eq!(SubjectResult::from_str_to_int(&digits), Ok(123));
    let bad: Vec<char> = "12a".chars().collect();
    assert_eq!(
        SubjectResult::from_str_to_int(&bad),
        Err(SubjectResultError::CouldNotParse { value: "12a".to_string() })
    );
}

#[test]
fn write_to_appends() {
    let mut out = String::from("> ");
    SubjectResult::new(70, 4).write_to(&mut out);
    assert_eq!(out, "> 70 4");
}
