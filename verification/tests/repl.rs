use gpa_tracker::command::{Command, CommandAdd, CommandDrop, CommandError, CommandGpa};
use gpa_tracker::repl::{Repl, Reply, Written};
use gpa_tracker::results::ResultsError;
use gpa_tracker::subject_result::{SubjectResult, SubjectResultError};

fn lines(list: &[&str]) -> Reply {
    Reply::Lines(list.iter().map(|s| s.to_string()).collect())
}

#[test]
fn new_session_is_running_and_empty() {
    let s = Repl::new();
    assert!(!s.is_terminated());
    assert!(s.history().is_empty());
    assert_eq!(s.results().len(), 0);
    assert_eq!(s.results().gpa(), (0, 1));
}

#[test]
fn two_adds_then_gpa() {
    let mut s = Repl::new();
    assert_eq!(s.submit("add 90 3"), Reply::Done);
    assert_eq!(s.submit("add 80 2"), Reply::Done);
    let reply = s.submit("gpa");
    assert_eq!(reply, Reply::Gpa { numerator: 430, denominator: 5 });
    if let Reply::Gpa { numerator, denominator } = reply {
        assert_eq!(numerator as f64 / denominator as f64, 86.0);
    }
    assert_eq!(s.results().total_credits(), 5);
}

#[test]
fn import_then_show_and_gpa() {
    let mut s = Repl::new();
    assert_eq!(s.submit("add 1 1"), Reply::Done);
    assert_eq!(
        s.submit("import results.txt"),
        Reply::Import { filename: "results.txt".to_string() }
    );
    assert_eq!(s.results().len(), 1);
    assert_eq!(s.finish_import("results.txt", Some("70 4\n90 2\n")), Reply::Done);
    assert_eq!(s.submit("show"), lines(&["  [0] 70 4", "  [1] 90 2"]));
    let reply = s.submit("gpa");
    assert_eq!(reply, Reply::Gpa { numerator: 460, denominator: 6 });
    if let Reply::Gpa { numerator, denominator } = reply {
        assert!((numerator as f64 / denominator as f64 - 76.67).abs() < 0.01);
    }
}

#[test]
fn import_of_bad_text_keeps_the_entries() {
    let mut s = Repl::new();
    s.submit("add 90 3");
    assert_eq!(
        s.finish_import("results.txt", Some("70 4\nninety 2\n")),
        Reply::Invalid(SubjectResultError::CouldNotParse { value: "ninety".to_string() })
    );
    assert_eq!(s.results().subject_results(), &vec![SubjectResult::new(90, 3)]);
    assert_eq!(s.results().total_credits(), 3);
    assert_eq!(s.history().len(), 1);
}

#[test]
fn remove_out_of_bounds_is_reported() {
    let mut s = Repl::new();
    s.submit("add 90 3");
    s.submit("add 80 2");
    assert_eq!(s.submit("remove 5"), Reply::Failed(ResultsError::OutOfBounds { idx: 5 }));
    assert_eq!(
        s.results().subject_results(),
        &vec![SubjectResult::new(90, 3), SubjectResult::new(80, 2)]
    );
    assert_eq!(s.results().gpa(), (430, 5));
    assert!(!s.is_terminated());
}

#[test]
fn remove_takes_the_entry_out() {
    let mut s = Repl::new();
    s.submit("add 90 3");
    s.submit("add 80 2");
    assert_eq!(s.submit("remove 0"), Reply::Done);
    assert_eq!(s.results().subject_results(), &vec![SubjectResult::new(80, 2)]);
    assert_eq!(s.results().gpa(), (160, 2));
}

#[test]
fn unknown_command_is_rejected_and_recorded() {
    let mut s = Repl::new();
    s.submit("add 90 3");
    assert_eq!(
        s.submit("foo bar"),
        Reply::Rejected(CommandError::UnknownCommand { value: "foo bar".to_string() })
    );
    assert_eq!(s.history(), &vec!["add 90 3".to_string(), "foo bar".to_string()]);
    assert_eq!(s.results().len(), 1);
    assert!(!s.is_terminated());
}

#[test]
fn rejected_lines_change_no_entry() {
    let mut s = Repl::new();
    s.submit("add 90 3");
    assert_eq!(s.submit(""), Reply::Rejected(CommandError::NoCommandProvided));
    assert_eq!(
        s.submit("add 1"),
        Reply::Rejected(CommandError::IncorrectNumberOfArguments { expected: 2, actual: 1 })
    );
    assert_eq!(
        s.submit("add x 1"),
        Reply::Rejected(CommandError::ParseError { value: "x".to_string() })
    );
    assert_eq!(s.results().len(), 1);
    assert_eq!(s.history().len(), 4);
}

#[test]
fn expect_reports_the_points() {
    let mut s = Repl::new();
    s.submit("add 3 5");
    assert_eq!(s.results().gpa(), (15, 5));
    assert_eq!(s.submit("expect 4.0 3"), Reply::Points(6));
    assert_eq!(s.results().len(), 1);
    assert_eq!(s.submit("expect 4.0 0"), Reply::Failed(ResultsError::InvalidArgument));
    assert_eq!(s.submit("expect -1 3"), Reply::Points(0));
}

#[test]
fn drop_forgets_everything() {
    let mut s = Repl::new();
    s.submit("add 90 3");
    s.submit("add 80 2");
    assert_eq!(s.submit("drop"), Reply::Done);
    assert_eq!(s.results().len(), 0);
    assert_eq!(s.results().total_credits(), 0);
    assert_eq!(s.results().weighted_points(), 0);
    assert_eq!(s.results().gpa(), (0, 1));
    assert_eq!(s.submit("gpa"), Reply::Gpa { numerator: 0, denominator: 1 });
    assert_eq!(s.submit("drop"), Reply::Done);
    assert_eq!(s.results().len(), 0);
    assert_eq!(s.history().len(), 5);
}

#[test]
fn save_hands_out_the_text() {
    let mut s = Repl::new();
    s.submit("add 70 4");
    s.submit("add 90 2");
    assert_eq!(
        s.submit("save out.txt"),
        Reply::Save { filename: "out.txt".to_string(), contents: "70 4\n90 2\n".to_string() }
    );
    assert_eq!(s.results().len(), 2);
    let mut t = Repl::new();
    assert_eq!(
        t.submit("save empty.txt"),
        Reply::Save { filename: "empty.txt".to_string(), contents: String::new() }
    );
}

#[test]
fn history_lists_every_line_in_order() {
    let mut s = Repl::new();
    s.submit("add 90 3");
    s.submit("nonsense");
    s.submit("gpa");
    assert_eq!(s.submit("history"), lines(&["add 90 3", "nonsense", "gpa", "history"]));
    assert_eq!(s.submit("h"), lines(&["add 90 3", "nonsense", "gpa", "history", "h"]));
}

#[test]
fn show_on_empty_session_has_no_lines() {
    let mut s = Repl::new();
    assert_eq!(s.submit("show"), lines(&[]));
}

#[test]
fn quit_terminates_for_good() {
    let mut s = Repl::new();
    s.submit("add 90 3");
    assert_eq!(s.submit("quit"), Reply::Quit);
    assert!(s.is_terminated());
    assert_eq!(s.history(), &vec!["add 90 3".to_string(), "quit".to_string()]);
    assert_eq!(s.submit("add 80 2"), Reply::Quit);
    assert_eq!(s.submit("drop"), Reply::Quit);
    assert!(s.is_terminated());
    assert_eq!(s.history().len(), 2);
    assert_eq!(s.results().len(), 1);
}

#[test]
fn errors_do_not_terminate() {
    let mut s = Repl::new();
    s.submit("remove 0");
    s.submit("bogus");
    s.submit("expect 1 0");
    assert!(!s.is_terminated());
    assert_eq!(s.submit("q"), Reply::Quit);
    assert!(s.is_terminated());
}

#[test]
fn execute_command_skips_the_history() {
    let mut s = Repl::new();
    assert_eq!(
        s.execute_command(Command::Add(CommandAdd { points: 90, credit: 3 })),
        Reply::Done
    );
    assert_eq!(
        s.execute_command(Command::Gpa(CommandGpa {})),
        Reply::Gpa { numerator: 270, denominator: 3 }
    );
    assert_eq!(s.execute_command(Command::History), lines(&[]));
    assert_eq!(s.execute_command(Command::Drop(CommandDrop {})), Reply::Done);
    assert_eq!(s.results().len(), 0);
    assert_eq!(s.execute_command(Command::Quit), Reply::Quit);
    assert!(s.is_terminated());
    assert!(s.history().is_empty());
}

#[test]
fn import_of_unreadable_file_keeps_the_entries() {
    let mut s = Repl::new();
    s.submit("add 90 3");
    assert_eq!(
        s.finish_import("missing.txt", None),
        Reply::Failed(ResultsError::CouldNotReadFile { filename: "missing.txt".to_string() })
    );
    assert_eq!(s.results().subject_results(), &vec![SubjectResult::new(90, 3)]);
    assert_eq!(s.results().gpa(), (270, 3));
    assert!(!s.is_terminated());
}

#[test]
fn import_of_empty_file_empties_the_session() {
    let mut s = Repl::new();
    s.submit("add 90 3");
    assert_eq!(s.finish_import("empty.txt", Some("")), Reply::Done);
    assert_eq!(s.results().len(), 0);
    assert_eq!(s.results().gpa(), (0, 1));
}

#[test]
fn save_outcomes_are_reported() {
    let mut s = Repl::new();
    s.submit("add 90 3");
    assert_eq!(s.finish_save("out.txt", Written::Whole), Reply::Done);
    assert_eq!(
        s.finish_save("out.txt", Written::NotCreated),
        Reply::Failed(ResultsError::FailedToCreateFile { filename: "out.txt".to_string() })
    );
    assert_eq!(
        s.finish_save("out.txt", Written::NotWritten),
        Reply::Failed(ResultsError::FailedToWriteToFile { filename: "out.txt".to_string() })
    );
    assert_eq!(s.results().len(), 1);
    assert_eq!(s.history().len(), 1);
}
