use monkeyc_fmt::cli::{
    check_usage, check_writable, exit_status, same_file_version, Action, Event, FileVersion, Mode,
    RunOutcome, Tally, UsageError, WriteRefusal,
};

#[test]
fn one_input_prints_to_standard_output() {
    assert_eq!(check_usage(1, 1, false, false), Ok(Mode::Print));
    assert_eq!(check_usage(1, 0, false, false), Ok(Mode::Print));
}

#[test]
fn several_inputs_need_check_or_write() {
    assert_eq!(check_usage(2, 0, false, false), Err(UsageError::SeveralInputsToPrint));
    assert_eq!(check_usage(2, 0, true, false), Ok(Mode::Check));
    assert_eq!(check_usage(2, 0, false, true), Ok(Mode::Write));
    assert_eq!(
        UsageError::SeveralInputsToPrint.message(),
        "multiple inputs require --check or --write"
    );
}

#[test]
fn standard_input_must_be_alone_and_cannot_be_written() {
    assert_eq!(check_usage(1, 1, false, true), Err(UsageError::WriteWithStandardInput));
    assert_eq!(check_usage(2, 1, true, false), Err(UsageError::StandardInputNotAlone));
    assert_eq!(check_usage(2, 2, true, false), Err(UsageError::StandardInputNotAlone));
    assert_eq!(check_usage(1, 1, true, false), Ok(Mode::Check));
    assert_eq!(
        UsageError::WriteWithStandardInput.message(),
        "--write cannot be used with standard input"
    );
    assert_eq!(
        UsageError::StandardInputNotAlone.message(),
        "standard input ('-') must be the only input"
    );
}

#[test]
fn check_reports_changed_inputs_and_exits_one() {
    let t = Tally::new();
    let (t, a) = t.step(Mode::Check, Event::Formatted { changed: false });
    assert_eq!(a, Action::Nothing);
    let (t, a) = t.step(Mode::Check, Event::Formatted { changed: true });
    assert_eq!(a, Action::ReportNeedsFormatting);
    assert_eq!(t.outcome(), RunOutcome::ChangesNeeded);
    assert_eq!(exit_status(t.outcome()), 1);
}

#[test]
fn an_error_outweighs_changes_and_exits_two() {
    let t = Tally::new();
    let (t, _) = t.step(Mode::Check, Event::Formatted { changed: true });
    let (t, a) = t.step(Mode::Check, Event::Failed);
    assert_eq!(a, Action::Nothing);
    assert_eq!(t.outcome(), RunOutcome::Error);
    assert_eq!(exit_status(t.outcome()), 2);
}

#[test]
fn write_replaces_only_changed_files_and_never_prints() {
    let t = Tally::new();
    let (t, a) = t.step(Mode::Write, Event::Formatted { changed: true });
    assert_eq!(a, Action::ReplaceFile);
    let (t, a) = t.step(Mode::Write, Event::Formatted { changed: false });
    assert_eq!(a, Action::Nothing);
    assert_eq!(t.outcome(), RunOutcome::Success);
    assert_eq!(exit_status(t.outcome()), 0);
}

#[test]
fn print_mode_always_prints() {
    let (t, a) = Tally::new().step(Mode::Print, Event::Formatted { changed: true });
    assert_eq!(a, Action::PrintOutput);
    assert_eq!(t.outcome(), RunOutcome::Success);
    let (_, a) = Tally::new().step(Mode::Print, Event::Formatted { changed: false });
    assert_eq!(a, Action::PrintOutput);
}

#[test]
fn only_regular_files_that_are_not_links_are_overwritten() {
    assert_eq!(check_writable(false, true), Ok(()));
    assert_eq!(check_writable(true, false), Err(WriteRefusal::SymbolicLink));
    assert_eq!(check_writable(true, true), Err(WriteRefusal::SymbolicLink));
    assert_eq!(check_writable(false, false), Err(WriteRefusal::NotRegular));
    assert_eq!(WriteRefusal::SymbolicLink.message(), "refusing to overwrite a symbolic link");
    assert_eq!(WriteRefusal::NotRegular.message(), "refusing to overwrite a non-regular file");
}

#[test]
fn a_file_is_the_same_version_only_if_nothing_identifying_it_changed() {
    let read = FileVersion { dev: 1, ino: 2, len: 30, mtime: 400, mtime_nsec: 5 };
    assert!(same_file_version(&read, &read));
    assert!(!same_file_version(&read, &FileVersion { dev: 9, ..read }));
    assert!(!same_file_version(&read, &FileVersion { ino: 9, ..read }));
    assert!(!same_file_version(&read, &FileVersion { len: 31, ..read }));
    assert!(!same_file_version(&read, &FileVersion { mtime: 401, ..read }));
    assert!(!same_file_version(&read, &FileVersion { mtime_nsec: 6, ..read }));
}
