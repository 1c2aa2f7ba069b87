use gpa_tracker::fraction::Fraction;
use gpa_tracker::results::{Results, ResultsError};
use gpa_tracker::subject_result::{SubjectResult, SubjectResultError};

fn set_of(entries: &[(u32, u32)]) -> Results {
    let mut set = Results::new();
    for &(points, credit) in entries {
        set.add_result(SubjectResult::new(points, credit));
    }
    set
}

fn target(numerator: u32, denominator: u32) -> Fraction {
    Fraction { negative: false, numerator, denominator }
}

fn mean(set: &Results) -> f64 {
    let (numerator, denominator) = set.gpa();
    numerator as f64 / denominator as f64
}

#[test]
fn new_set_is_empty() {
    let set = Results::new();
    assert_eq!(set.len(), 0);
    assert_eq!(set.total_credits(), 0);
    assert_eq!(set.weighted_points(), 0);
    assert_eq!(set.gpa(), (0, 1));
    assert!(set.subject_results().is_empty());
    assert_eq!(set.to_string(), "");
    assert!(set.show_results().is_empty());
}

#[test]
fn add_result_updates_totals() {
    let mut set = Results::new();
    set.add_result(SubjectResult::new(90, 3));
    assert_eq!(set.total_credits(), 3);
    assert_eq!(set.weighted_points(), 270);
    assert_eq!(set.gpa(), (270, 3));
    set.add_result(SubjectResult::new(80, 2));
    assert_eq!(set.len(), 2);
    assert_eq!(set.total_credits(), 5);
    assert_eq!(set.weighted_points(), 430);
    assert_eq!(set.gpa(), (430, 5));
    assert_eq!(mean(&set), 86.0);
    assert_eq!(
        set.subject_results(),
        &vec![SubjectResult::new(90, 3), SubjectResult::new(80, 2)]
    );
}

#[test]
fn entries_without_credit_leave_the_average_at_zero() {
    let set = set_of(&[(90, 0), (80, 0)]);
    assert_eq!(set.len(), 2);
    assert_eq!(set.total_credits(), 0);
    assert_eq!(set.gpa(), (0, 1));
    assert_eq!(mean(&set), 0.0);
}

#[test]
fn totals_do_not_overflow_on_largest_entries() {
    let set = set_of(&[(u32::MAX, u32::MAX), (u32::MAX, u32::MAX), (u32::MAX, u32::MAX)]);
    let max = u32::MAX as u128;
    assert_eq!(set.total_credits(), 3 * max);
    assert_eq!(set.weighted_points(), 3 * max * max);
}

#[test]
fn remove_result_shifts_and_recomputes() {
    let mut set = set_of(&[(90, 3), (80, 2), (70, 4)]);
    assert_eq!(set.remove_result(1), Ok(()));
    assert_eq!(set.len(), 2);
    assert_eq!(
        set.subject_results(),
        &vec![SubjectResult::new(90, 3), SubjectResult::new(70, 4)]
    );
    assert_eq!(set.total_credits(), 7);
    assert_eq!(set.weighted_points(), 90 * 3 + 70 * 4);
    assert_eq!(set.remove_result(0), Ok(()));
    assert_eq!(set.gpa(), (280, 4));
    assert_eq!(set.remove_result(0), Ok(()));
    assert_eq!(set.len(), 0);
    assert_eq!(set.gpa(), (0, 1));
}

#[test]
fn remove_result_out_of_bounds_changes_nothing() {
    let mut set = set_of(&[(90, 3), (80, 2)]);
    assert_eq!(set.remove_result(5), Err(ResultsError::OutOfBounds { idx: 5 }));
    assert_eq!(set.remove_result(2), Err(ResultsError::OutOfBounds { idx: 2 }));
    assert_eq!(set.len(), 2);
    assert_eq!(set.total_credits(), 5);
    assert_eq!(set.weighted_points(), 430);
    assert_eq!(set.to_string(), "90 3\n80 2\n");
    let mut empty = Results::new();
    assert_eq!(empty.remove_result(0), Err(ResultsError::OutOfBounds { idx: 0 }));
}

#[test]
fn recalculate_gpa_keeps_well_formed_totals() {
    let mut set = set_of(&[(90, 3), (80, 2)]);
    set.recalculate_gpa();
    assert_eq!(set.total_credits(), 5);
    assert_eq!(set.weighted_points(), 430);
    assert_eq!(set.len(), 2);
}

#[test]
fn from_string_decodes_lines_in_order() {
    let set = Results::from_string("70 4\n90 2\n").unwrap();
    assert_eq!(
        set.subject_results(),
        &vec![SubjectResult::new(70, 4), SubjectResult::new(90, 2)]
    );
    assert_eq!(set.total_credits(), 6);
    assert_eq!(set.weighted_points(), 460);
    assert!((mean(&set) - 76.67).abs() < 0.01);
}

#[test]
fn from_string_passes_over_empty_lines() {
    let set = Results::from_string("\n70 4\n\n\n90 2").unwrap();
    assert_eq!(set.len(), 2);
    assert_eq!(set.to_string(), "70 4\n90 2\n");
    assert_eq!(Results::from_string("").unwrap().len(), 0);
    assert_eq!(Results::from_string("\n\n").unwrap().len(), 0);
}

#[test]
fn from_string_reports_the_first_bad_line() {
    assert_eq!(
        Results::from_string("70 4\nx 2\n90\n").err(),
        Some(SubjectResultError::CouldNotParse { value: "x".to_string() })
    );
    assert_eq!(
        Results::from_string("70 4\n90\nx 2\n").err(),
        Some(SubjectResultError::IncorrectNumberOfArguments { expected: 2, actual: 1 })
    );
    assert_eq!(
        Results::from_string("70 4\r\n").err(),
        Some(SubjectResultError::CouldNotParse { value: "4\r".to_string() })
    );
    assert_eq!(
        Results::from_string(" \n").err(),
        Some(SubjectResultError::CouldNotParse { value: "".to_string() })
    );
}

#[test]
fn to_string_ends_every_line() {
    assert_eq!(set_of(&[(70, 4)]).to_string(), "70 4\n");
    assert_eq!(set_of(&[(70, 4), (90, 2)]).to_string(), "70 4\n90 2\n");
}

#[test]
fn decoding_the_stored_text_gives_the_set_back() {
    let set = set_of(&[(70, 4), (90, 2), (0, 0), (u32::MAX, u32::MAX), (5, 10)]);
    let back = Results::from_string(&set.to_string()).unwrap();
    assert_eq!(back.subject_results(), set.subject_results());
    assert_eq!(back.total_credits(), set.total_credits());
    assert_eq!(back.weighted_points(), set.weighted_points());
    assert_eq!(back.gpa(), set.gpa());
}

#[test]
fn adding_one_by_one_matches_decoding() {
    let entries = [(70, 4), (90, 2), (55, 7), (100, 1)];
    let added = set_of(&entries);
    let decoded = Results::from_string("70 4\n90 2\n55 7\n100 1\n").unwrap();
    assert_eq!(decoded.subject_results(), added.subject_results());
    assert_eq!(decoded.total_credits(), added.total_credits());
    assert_eq!(decoded.weighted_points(), added.weighted_points());
    assert_eq!(decoded.gpa(), added.gpa());
}

#[test]
fn show_results_numbers_the_entries() {
    let set = set_of(&[(70, 4), (90, 2)]);
    assert_eq!(set.show_results(), vec!["  [0] 70 4", "  [1] 90 2"]);
    let many = set_of(&[(1, 1); 11]);
    let lines = many.show_results();
    assert_eq!(lines.len(), 11);
    assert_eq!(lines[9], "  [9] 1 1");
    assert_eq!(lines[10], "  [10] 1 1");
}

#[test]
fn expect_points_rounds_up() {
    let set = set_of(&[(3, 5)]);
    assert_eq!(set.gpa(), (15, 5));
    assert_eq!(set.expect_points(target(40, 10), 3), Ok(6));
    assert_eq!(set.expect_points(target(4, 1), 3), Ok(6));
    assert_eq!(set.len(), 1);
    assert_eq!(set.total_credits(), 5);
}

#[test]
fn expect_points_exact_quotient_is_not_rounded() {
    let set = set_of(&[(3, 5)]);
    // (4 * 10 - 15) / 5 = 5
    assert_eq!(set.expect_points(target(4, 1), 5), Ok(5));
    // (3.5 * 7 - 15) / 2 = 4.75
    assert_eq!(set.expect_points(target(35, 10), 2), Ok(5));
    // (3.3 * 10 - 15) / 5 = 3.6
    assert_eq!(set.expect_points(target(33, 10), 5), Ok(4));
    // (3 * 6 - 15) / 1 = 3
    assert_eq!(set.expect_points(target(3, 1), 1), Ok(3));
}

#[test]
fn expect_points_on_empty_set_is_the_target_rounded_up() {
    let set = Results::new();
    assert_eq!(set.expect_points(target(40, 10), 3), Ok(4));
    assert_eq!(set.expect_points(target(41, 10), 3), Ok(5));
    assert_eq!(set.expect_points(target(0, 1), 3), Ok(0));
}

#[test]
fn expect_points_never_goes_below_zero() {
    let set = set_of(&[(90, 3)]);
    assert_eq!(set.expect_points(target(10, 1), 1), Ok(0));
    assert_eq!(set.expect_points(target(675, 10), 1), Ok(0));
    assert_eq!(set.expect_points(target(676, 10), 1), Ok(1));
    let below = Fraction { negative: true, numerator: 40, denominator: 10 };
    assert_eq!(set.expect_points(below, 3), Ok(0));
    assert_eq!(Results::new().expect_points(below, 3), Ok(0));
}

#[test]
fn expect_points_stops_at_the_largest_number() {
    let set = set_of(&[(0, u32::MAX)]);
    assert_eq!(set.expect_points(target(u32::MAX, 1), 1), Ok(u32::MAX));
    assert_eq!(Results::new().expect_points(target(u32::MAX, 1), 1), Ok(u32::MAX));
    assert_eq!(
        Results::new().expect_points(target(u32::MAX - 1, 1), 1),
        Ok(u32::MAX - 1)
    );
}

#[test]
fn expect_points_refuses_zero_divisors() {
    let set = set_of(&[(3, 5)]);
    assert_eq!(set.expect_points(target(40, 10), 0), Err(ResultsError::InvalidArgument));
    assert_eq!(set.expect_points(target(40, 0), 3), Err(ResultsError::InvalidArgument));
}

#[test]
fn expect_points_agrees_with_the_formula_in_floating_point() {
    let set = set_of(&[(70, 4), (90, 2), (55, 7)]);
    let (numerator, denominator) = set.gpa();
    let gpa = numerator as f64 / denominator as f64;
    let total = set.total_credits() as f64;
    for (n, d, credit) in [(80u32, 1u32, 3u32), (65, 1, 5), (725, 10, 2), (9999, 100, 1)] {
        let goal = n as f64 / d as f64;
        let formula = ((goal * (total + credit as f64) - gpa * total) / credit as f64).ceil();
        let got = set.expect_points(target(n, d), credit).unwrap();
        assert!((got as f64 - formula).abs() <= 1.0);
        // exact: the result reaches the target, and one point less does not
        let reach = |p: u128| {
            (numerator + p * credit as u128) * d as u128
                >= n as u128 * (set.total_credits() + credit as u128)
        };
        assert!(reach(got as u128));
        assert!(got == 0 || !reach(got as u128 - 1));
    }
}
