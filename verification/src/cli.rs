//! The command line's decisions: which inputs and modes go together, what
//! each formatted input calls for, and the exit status of a run.
use vstd::prelude::*;

verus! {

/// What the command does with each formatted input.
#[derive(Clone, Copy, Debug, PartialEq, Eq, Structural)]
pub enum Mode {
    /// Write the formatted source to standard output.
    Print,
    /// Report inputs that would change; change nothing.
    Check,
    /// Replace each input file that would change.
    Write,
}

/// A combination of inputs and modes that the command refuses.
#[derive(Clone, Copy, Debug, PartialEq, Eq, Structural)]
pub enum UsageError {
    WriteWithStandardInput,
    StandardInputNotAlone,
    SeveralInputsToPrint,
}

/// Which mode, if any, `inputs` inputs (of which `stdin_inputs` name standard
/// input) are used in, with the `--check` and `--write` flags as given.
pub open spec fn usage(inputs: nat, stdin_inputs: nat, check: bool, write: bool) -> Result<Mode, UsageError> {
    if write && stdin_inputs != 0 {
        Err(UsageError::WriteWithStandardInput)
    } else if stdin_inputs > 1 || (stdin_inputs == 1 && inputs > 1) {
        Err(UsageError::StandardInputNotAlone)
    } else if !check && !write && inputs != 1 {
        Err(UsageError::SeveralInputsToPrint)
    } else if check {
        Ok(Mode::Check)
    } else if write {
        Ok(Mode::Write)
    } else {
        Ok(Mode::Print)
    }
}

/// Decide the mode of a run from its inputs and flags: `--write` cannot take
/// standard input, standard input must be the only input, and printing to
/// standard output takes exactly one input.
pub fn check_usage(inputs: usize, stdin_inputs: usize, check: bool, write: bool) -> (r: Result<Mode, UsageError>)
    ensures
        r == usage(inputs as nat, stdin_inputs as nat, check, write),
{
    if write && stdin_inputs != 0 {
        return Err(UsageError::WriteWithStandardInput);
    }
    if stdin_inputs > 1 || (stdin_inputs == 1 && inputs > 1) {
        return Err(UsageError::StandardInputNotAlone);
    }
    if !check && !write && inputs != 1 {
        return Err(UsageError::SeveralInputsToPrint);
    }
    if check {
        Ok(Mode::Check)
    } else if write {
        Ok(Mode::Write)
    } else {
        Ok(Mode::Print)
    }
}

/// A run that is let through prints one input, or takes standard input alone
/// and never writes it.
pub proof fn usage_law(inputs: nat, stdin_inputs: nat, check: bool, write: bool)
    requires
        stdin_inputs <= inputs,
    ensures
        usage(inputs, stdin_inputs, check, write) == Ok::<Mode, UsageError>(Mode::Print) ==> inputs == 1
            && !check && !write,
        usage(inputs, stdin_inputs, check, write) is Ok && stdin_inputs > 0 ==> inputs == 1 && stdin_inputs
            == 1 && !write,
        usage(inputs, stdin_inputs, check, write) is Ok && write ==> stdin_inputs == 0,
{
}

pub open spec fn usage_message(e: UsageError) -> Seq<char> {
    match e {
        UsageError::WriteWithStandardInput => "--write cannot be used with standard input"@,
        UsageError::StandardInputNotAlone => "standard input ('-') must be the only input"@,
        UsageError::SeveralInputsToPrint => "multiple inputs require --check or --write"@,
    }
}

impl UsageError {
    /// The diagnostic for the refused usage.
    pub fn message(&self) -> (m: &'static str)
        ensures
            m@ == usage_message(*self),
    {
        match self {
            UsageError::WriteWithStandardInput => "--write cannot be used with standard input",
            UsageError::StandardInputNotAlone => "standard input ('-') must be the only input",
            UsageError::SeveralInputsToPrint => "multiple inputs require --check or --write",
        }
    }
}

/// What happened to one input.
#[derive(Clone, Copy, Debug, PartialEq, Eq, Structural)]
pub enum Event {
    /// It could not be inspected, read, formatted or written.
    Failed,
    /// It was formatted; `changed` tells whether the output differs from it.
    Formatted { changed: bool },
}

/// What to do with a formatted input.
#[derive(Clone, Copy, Debug, PartialEq, Eq, Structural)]
pub enum Action {
    Nothing,
    ReportNeedsFormatting,
    ReplaceFile,
    PrintOutput,
}

/// What a run has seen so far.
#[derive(Clone, Copy, Debug, PartialEq, Eq, Structural)]
pub struct Tally {
    pub had_error: bool,
    pub needs_formatting: bool,
}

/// How a run ends.
#[derive(Clone, Copy, Debug, PartialEq, Eq, Structural)]
pub enum RunOutcome {
    Success,
    ChangesNeeded,
    Error,
}

pub open spec fn next(t: Tally, mode: Mode, e: Event) -> (Tally, Action) {
    match e {
        Event::Failed => (Tally { had_error: true, needs_formatting: t.needs_formatting }, Action::Nothing),
        Event::Formatted { changed } => match mode {
            Mode::Check => if changed {
                (Tally { had_error: t.had_error, needs_formatting: true }, Action::ReportNeedsFormatting)
            } else {
                (t, Action::Nothing)
            },
            Mode::Write => if changed {
                (t, Action::ReplaceFile)
            } else {
                (t, Action::Nothing)
            },
            Mode::Print => (t, Action::PrintOutput),
        },
    }
}

impl Tally {
    /// A run that has seen nothing yet.
    pub fn new() -> (t: Tally)
        ensures
            !t.had_error && !t.needs_formatting,
    {
        Tally { had_error: false, needs_formatting: false }
    }

    /// Take in what happened to one input, and say what to do about it:
    /// a failure is remembered; in check mode a changed input is reported;
    /// in write mode a changed input is replaced; in print mode the output
    /// is printed.
    pub fn step(self, mode: Mode, e: Event) -> (r: (Tally, Action))
        ensures
            r == next(self, mode, e),
    {
        match e {
            Event::Failed => (Tally { had_error: true, needs_formatting: self.needs_formatting }, Action::Nothing),
            Event::Formatted { changed } => match mode {
                Mode::Check => if changed {
                    (Tally { had_error: self.had_error, needs_formatting: true }, Action::ReportNeedsFormatting)
                } else {
                    (self, Action::Nothing)
                },
                Mode::Write => if changed {
                    (self, Action::ReplaceFile)
                } else {
                    (self, Action::Nothing)
                },
                Mode::Print => (self, Action::PrintOutput),
            },
        }
    }

    /// How the run ends: an error outweighs inputs that need formatting.
    pub fn outcome(self) -> (o: RunOutcome)
        ensures
            o == outcome_of(self),
    {
        if self.had_error {
            RunOutcome::Error
        } else if self.needs_formatting {
            RunOutcome::ChangesNeeded
        } else {
            RunOutcome::Success
        }
    }
}

pub open spec fn outcome_of(t: Tally) -> RunOutcome {
    if t.had_error {
        RunOutcome::Error
    } else if t.needs_formatting {
        RunOutcome::ChangesNeeded
    } else {
        RunOutcome::Success
    }
}

/// The exit status of a run: 0 on success, 1 where `--check` found input
/// that needs formatting, 2 on an error.
pub fn exit_status(o: RunOutcome) -> (code: u8)
    ensures
        code == (match o {
            RunOutcome::Success => 0u8,
            RunOutcome::ChangesNeeded => 1u8,
            RunOutcome::Error => 2u8,
        }),
{
    match o {
        RunOutcome::Success => 0,
        RunOutcome::ChangesNeeded => 1,
        RunOutcome::Error => 2,
    }
}

/// The tally after a run's events, from a fresh one.
pub open spec fn tally_of(mode: Mode, events: Seq<Event>) -> Tally
    decreases events.len(),
{
    if events.len() == 0 {
        Tally { had_error: false, needs_formatting: false }
    } else {
        next(tally_of(mode, events.drop_last()), mode, events.last()).0
    }
}

/// A run ends in an error exactly when some input failed; otherwise it ends
/// with changes needed exactly when it checks and some input would change.
pub proof fn run_outcome_law(mode: Mode, events: Seq<Event>)
    ensures
        (outcome_of(tally_of(mode, events)) == RunOutcome::Error) <==> (exists|i: int|
            0 <= i < events.len() && #[trigger] events[i] == Event::Failed),
        (outcome_of(tally_of(mode, events)) == RunOutcome::ChangesNeeded) <==> (!(exists|i: int|
            0 <= i < events.len() && #[trigger] events[i] == Event::Failed) && mode == Mode::Check
            && exists|j: int| 0 <= j < events.len() && #[trigger] events[j] == (Event::Formatted { changed: true })),
    decreases events.len(),
{
    if events.len() > 0 {
        let init = events.drop_last();
        run_outcome_law(mode, init);
        assert forall|i: int| 0 <= i < init.len() implies #[trigger] init[i] == events[i] by {}
        if exists|i: int| 0 <= i < init.len() && #[trigger] init[i] == Event::Failed {
            let i = choose|i: int| 0 <= i < init.len() && #[trigger] init[i] == Event::Failed;
            assert(events[i] == Event::Failed);
        }
        if exists|j: int| 0 <= j < init.len() && #[trigger] init[j] == (Event::Formatted { changed: true }) {
            let j = choose|j: int| 0 <= j < init.len() && #[trigger] init[j] == (Event::Formatted { changed: true });
            assert(events[j] == (Event::Formatted { changed: true }));
        }
        assert(events[events.len() - 1] == events.last());
        if exists|i: int| 0 <= i < events.len() && #[trigger] events[i] == Event::Failed {
            let i = choose|i: int| 0 <= i < events.len() && #[trigger] events[i] == Event::Failed;
            if i < init.len() {
                assert(init[i] == Event::Failed);
            }
        }
        if exists|j: int| 0 <= j < events.len() && #[trigger] events[j] == (Event::Formatted { changed: true }) {
            let j = choose|j: int| 0 <= j < events.len() && #[trigger] events[j] == (Event::Formatted { changed: true });
            if j < init.len() {
                assert(init[j] == (Event::Formatted { changed: true }));
            }
        }
    }
}


/// Why a file is not overwritten in place.
#[derive(Clone, Copy, Debug, PartialEq, Eq, Structural)]
pub enum WriteRefusal {
    /// The path is a symbolic link.
    SymbolicLink,
    /// The path is not a regular file.
    NotRegular,
}

/// A file may be overwritten in place only where its path is a regular
/// file and not a symbolic link (a link is refused first).
pub open spec fn writability(is_symlink: bool, is_file: bool) -> Result<(), WriteRefusal> {
    if is_symlink {
        Err(WriteRefusal::SymbolicLink)
    } else if !is_file {
        Err(WriteRefusal::NotRegular)
    } else {
        Ok(())
    }
}

/// Whether a path with this file type may be overwritten in place.
pub fn check_writable(is_symlink: bool, is_file: bool) -> (r: Result<(), WriteRefusal>)
    ensures
        r == writability(is_symlink, is_file),
{
    if is_symlink {
        Err(WriteRefusal::SymbolicLink)
    } else if !is_file {
        Err(WriteRefusal::NotRegular)
    } else {
        Ok(())
    }
}

/// The diagnostic for each refusal.
pub open spec fn refusal_message(e: WriteRefusal) -> Seq<char> {
    match e {
        WriteRefusal::SymbolicLink => "refusing to overwrite a symbolic link"@,
        WriteRefusal::NotRegular => "refusing to overwrite a non-regular file"@,
    }
}

impl WriteRefusal {
    /// The diagnostic for the refusal.
    pub fn message(&self) -> (m: &'static str)
        ensures
            m@ == refusal_message(*self),
    {
        match self {
            WriteRefusal::SymbolicLink => "refusing to overwrite a symbolic link",
            WriteRefusal::NotRegular => "refusing to overwrite a non-regular file",
        }
    }
}

/// What identifies one version of a file: its device and inode, its length
/// in bytes, and its modification time in seconds and nanoseconds.
#[derive(Clone, Copy, Debug, PartialEq, Eq, Structural)]
pub struct FileVersion {
    pub dev: u64,
    pub ino: u64,
    pub len: u64,
    pub mtime: i64,
    pub mtime_nsec: i64,
}

/// Whether a file is still the version it was when it was read: the same
/// file, with the same length and modification time.
pub fn same_file_version(original: &FileVersion, current: &FileVersion) -> (r: bool)
    ensures
        r == (*original == *current),
{
    original.dev == current.dev && original.ino == current.ino && original.len == current.len
        && original.mtime == current.mtime && original.mtime_nsec == current.mtime_nsec
}


/// The mode follows the flags: `--check` checks (with or without
/// `--write`), `--write` alone writes, and neither prints. A run is let
/// through exactly when `--write` is not given standard input, standard
/// input is at most one input and then the only one, and printing has
/// exactly one input (the standard-input inputs being among the inputs).
pub proof fn mode_follows_the_flags(inputs: nat, stdin_inputs: nat, check: bool, write: bool)
    requires
        stdin_inputs <= inputs,
    ensures
        usage(inputs, stdin_inputs, check, write) is Ok <==> {
            &&& !(write && stdin_inputs > 0)
            &&& stdin_inputs <= 1
            &&& (stdin_inputs == 1 ==> inputs == 1)
            &&& (check || write || inputs == 1)
        },
        usage(inputs, stdin_inputs, check, write) matches Ok(m) ==> {
            &&& (m == Mode::Check) == check
            &&& (m == Mode::Write) == (write && !check)
            &&& (m == Mode::Print) == (!check && !write)
        },
{
}

/// What is done with an input depends only on the mode and on what
/// happened to that input, never on the inputs before it: in check mode
/// every changed input is reported, in write mode every changed input is
/// replaced, in print mode every formatted input is printed, and nothing is
/// done with a failed input, nor with an unchanged one when checking or
/// writing.
pub proof fn each_input_is_acted_on_by_itself(t: Tally, u: Tally, mode: Mode, e: Event)
    ensures
        next(t, mode, e).1 == next(u, mode, e).1,
        mode == Mode::Check && e == (Event::Formatted { changed: true }) ==> next(t, mode, e).1
            == Action::ReportNeedsFormatting,
        mode == Mode::Write && e == (Event::Formatted { changed: true }) ==> next(t, mode, e).1
            == Action::ReplaceFile,
        mode == Mode::Print && e is Formatted ==> next(t, mode, e).1 == Action::PrintOutput,
        e is Failed ==> next(t, mode, e).1 == Action::Nothing,
        mode != Mode::Print && e == (Event::Formatted { changed: false }) ==> next(t, mode, e).1
            == Action::Nothing,
{
}

/// A run remembers an error once any input failed, and input that needs
/// formatting once checking found any changed input; nothing else sets or
/// clears either.
pub proof fn the_tally_remembers(t: Tally, mode: Mode, e: Event)
    ensures
        next(t, mode, e).0.had_error == (t.had_error || e is Failed),
        next(t, mode, e).0.needs_formatting == (t.needs_formatting || (mode == Mode::Check && e == (
        Event::Formatted { changed: true }))),
{
}

}
