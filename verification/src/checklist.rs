//! Checklist processing: reading a line, counting what it came to, and the
//! messages of a run.
//!
//! A line of a checklist is an integrity string, white space, and the name
//! of a target. The caller reads the lines and the targets; the functions
//! here decide what each line means, what is counted and what is said.

use crate::algorithm::Algorithm;
use crate::errors::SrisumError;
use crate::integrity::{parsed, HashView, Integrity};
use crate::text::{
    chars_of, decimal, leading_word, push_decimal, string_of, trim, trimmed, word_len,
};
use crate::CliArgs;
use vstd::prelude::*;

verus! {

/// Counters of one checklist run. Each only ever grows.
#[derive(Debug, Clone, Copy, PartialEq, Eq, Structural)]
pub struct Stats {
    /// Lines that are no `<integrity> <target>`.
    pub bad_lines: u64,
    /// Targets whose content did not match the digests claimed.
    pub bad_checksums: u64,
    /// Targets that do not exist.
    pub missing_files: u64,
}

/// What a line of a checklist came to.
#[derive(Debug, Clone, Copy, PartialEq, Eq, Structural)]
pub enum LineOutcome {
    /// The line is empty but for white space.
    Blank,
    /// The line is no `<integrity> <target>`.
    Malformed,
    /// The target has a digest claimed under this algorithm.
    Passed(Algorithm),
    /// The target has none of the digests claimed.
    Failed,
    /// The target does not exist.
    Missing,
}

/// The counters of a run as numbers without a limit.
pub struct Tally {
    pub bad_lines: nat,
    pub bad_checksums: nat,
    pub missing_files: nat,
}

impl Tally {
    /// The counters of a run that has seen nothing yet.
    pub open spec fn zero() -> Tally {
        Tally { bad_lines: 0, bad_checksums: 0, missing_files: 0 }
    }

    /// The counters after one more line that came to `outcome`: a bad
    /// line, a target that did not match and a missing target each add one
    /// to their counter, a blank line and a target that passed add nothing.
    pub open spec fn counted(self, outcome: LineOutcome) -> Tally {
        match outcome {
            LineOutcome::Malformed => Tally { bad_lines: self.bad_lines + 1, ..self },
            LineOutcome::Failed => Tally { bad_checksums: self.bad_checksums + 1, ..self },
            LineOutcome::Missing => Tally { missing_files: self.missing_files + 1, ..self },
            _ => self,
        }
    }

    /// The counters of two runs taken together.
    pub open spec fn plus(self, other: Tally) -> Tally {
        Tally {
            bad_lines: self.bad_lines + other.bad_lines,
            bad_checksums: self.bad_checksums + other.bad_checksums,
            missing_files: self.missing_files + other.missing_files,
        }
    }

    /// Whether no counter of `self` is above that of `other`.
    pub open spec fn le(self, other: Tally) -> bool {
        &&& self.bad_lines <= other.bad_lines
        &&& self.bad_checksums <= other.bad_checksums
        &&& self.missing_files <= other.missing_files
    }

    /// Whether the run has failed: a line was bad, a target did not match
    /// or a target was missing.
    pub open spec fn failed(self) -> bool {
        self.bad_lines > 0 || self.bad_checksums > 0 || self.missing_files > 0
    }
}

impl View for Stats {
    type V = Tally;

    open spec fn view(&self) -> Tally {
        Tally {
            bad_lines: self.bad_lines as nat,
            bad_checksums: self.bad_checksums as nat,
            missing_files: self.missing_files as nat,
        }
    }
}

impl Stats {
    /// Whether a line that came to `outcome` can still be counted.
    pub open spec fn has_room(self, outcome: LineOutcome) -> bool {
        match outcome {
            LineOutcome::Malformed => self.bad_lines < u64::MAX,
            LineOutcome::Failed => self.bad_checksums < u64::MAX,
            LineOutcome::Missing => self.missing_files < u64::MAX,
            _ => true,
        }
    }

    /// Counters of a run that has seen nothing yet.
    pub fn new() -> (stats: Stats)
        ensures
            stats@ == Tally::zero(),
    {
        Stats { bad_lines: 0, bad_checksums: 0, missing_files: 0 }
    }

    /// Counts one more line that came to `outcome`.
    pub fn count(&mut self, outcome: LineOutcome)
        requires
            old(self).has_room(outcome),
        ensures
            final(self)@ == old(self)@.counted(outcome),
    {
        match outcome {
            LineOutcome::Malformed => {
                self.bad_lines += 1;
            },
            LineOutcome::Failed => {
                self.bad_checksums += 1;
            },
            LineOutcome::Missing => {
                self.missing_files += 1;
            },
            _ => {},
        }
    }

    /// Whether the run has failed: a line was bad, a target did not match
    /// or a target was missing.
    pub fn failed(&self) -> (failed: bool)
        ensures
            failed == self@.failed(),
    {
        self.bad_lines > 0 || self.bad_checksums > 0 || self.missing_files > 0
    }
}

/// A line of a checklist that names a target: the digests claimed for it
/// and its name.
#[derive(Debug, PartialEq, Eq)]
pub struct ChecklistLine {
    pub claimed: Integrity,
    pub target: String,
}

/// What a [`ChecklistLine`] holds.
pub struct LineView {
    pub claimed: Seq<HashView>,
    pub target: Seq<char>,
}

impl View for ChecklistLine {
    type V = LineView;

    open spec fn view(&self) -> LineView {
        LineView { claimed: self.claimed@, target: self.target@ }
    }
}

/// Whether `name` stands for the standard input: it does where it is `-`.
pub open spec fn is_stdin(name: Seq<u8>) -> bool {
    name == seq![0x2Du8]
}

/// Whether `name` stands for the standard input.
pub fn names_stdin(name: &[u8]) -> (stdin: bool)
    ensures
        stdin == is_stdin(name@),
{
    let stdin = name.len() == 1 && name[0] == 0x2D;
    assert(stdin ==> name@ =~= seq![0x2Du8]);
    stdin
}

/// What the line `line` says. Without the white space around it, it is
/// empty and says nothing, or it is an integrity string up to its first
/// white space, and after that white space the name of the target.
pub open spec fn read_line(line: Seq<char>) -> Result<Option<LineView>, SrisumError> {
    let t = trim(line);
    let n = word_len(t) as int;
    if t.len() == 0 {
        Ok(None)
    } else if n >= t.len() {
        Err(SrisumError::MalformedLine)
    } else {
        match parsed(t.take(n)) {
            Ok(claimed) => Ok(Some(LineView { claimed, target: trim(t.skip(n)) })),
            Err(_) => Err(SrisumError::MalformedLine),
        }
    }
}

/// What the line `line` says: nothing where it is blank, the digests
/// claimed and the target where it is well formed, and an error where it
/// is not.
pub fn parse_line(line: &str) -> (entry: Result<Option<ChecklistLine>, SrisumError>)
    ensures
        match entry {
            Ok(Some(e)) => read_line(line@) == Ok::<Option<LineView>, SrisumError>(Some(e@))
                && e.claimed.wf() && e.claimed@.len() > 0,
            Ok(None) => read_line(line@) == Ok::<Option<LineView>, SrisumError>(None),
            Err(e) => read_line(line@) == Err::<Option<LineView>, SrisumError>(e),
        },
{
    let chars = chars_of(line);
    let t = trimmed(chars.as_slice());
    if t.len() == 0 {
        return Ok(None);
    }
    let n = leading_word(t);
    if n >= t.len() {
        return Err(SrisumError::MalformedLine);
    }
    let left = &t[0..n];
    assert(left@ =~= t@.take(n as int));
    let right = &t[n..t.len()];
    assert(right@ =~= t@.skip(n as int));
    match Integrity::parse_chars(left) {
        Ok(claimed) => Ok(Some(ChecklistLine { claimed, target: string_of(trimmed(right)) })),
        Err(_) => Err(SrisumError::MalformedLine),
    }
}

/// Whether a line that was read is counted as bad: it is where it could
/// not be decoded as text, for which `None` stands, and where it is not
/// well formed.
pub open spec fn is_bad_line(line: Option<&str>) -> bool {
    match line {
        None => true,
        Some(l) => read_line(l@) is Err,
    }
}

/// Takes one line of a checklist; `None` stands for a line that could not
/// be decoded as text. A line that is not well formed is counted as bad,
/// a blank line changes nothing, and both give nothing to check. A well
/// formed line changes nothing and gives the digests claimed and the
/// target, which the caller is to check. Only a line that is counted needs
/// room in its counter.
pub fn handle_line(stats: &mut Stats, line: Option<&str>) -> (entry: Option<ChecklistLine>)
    requires
        is_bad_line(line) ==> old(stats).bad_lines < u64::MAX,
    ensures
        match line {
            None => entry is None && final(stats)@ == old(stats)@.counted(LineOutcome::Malformed),
            Some(l) => match read_line(l@) {
                Ok(None) => entry is None && *final(stats) == *old(stats),
                Ok(Some(v)) => *final(stats) == *old(stats) && (entry matches Some(e) && e@ == v
                    && e.claimed.wf() && e.claimed@.len() > 0),
                Err(_) => entry is None && final(stats)@ == old(stats)@.counted(
                    LineOutcome::Malformed,
                ),
            },
        },
{
    match line {
        None => {
            stats.count(LineOutcome::Malformed);
            None
        },
        Some(l) => match parse_line(l) {
            Ok(entry) => entry,
            Err(_) => {
                stats.count(LineOutcome::Malformed);
                None
            },
        },
    }
}

/// The line that says that `target` passed under `algorithm`.
pub open spec fn passed_text(target: Seq<char>, algorithm: Algorithm) -> Seq<char> {
    target + ": OK ("@ + algorithm.token() + ")"@
}

/// The line that says that `target` did not match.
pub open spec fn failed_text(target: Seq<char>) -> Seq<char> {
    target + ": FAILED"@
}

/// The line that says that `target` is missing.
pub open spec fn missing_text(target: Seq<char>) -> Seq<char> {
    target + ": FAILED open or read"@
}

/// What checking a target came to, if the run goes on after it: it does
/// not after an error that ends the run.
pub open spec fn outcome_of(result: Result<Algorithm, SrisumError>) -> Option<LineOutcome> {
    match result {
        Ok(algorithm) => Some(LineOutcome::Passed(algorithm)),
        Err(SrisumError::MalformedLine) => Some(LineOutcome::Malformed),
        Err(SrisumError::TargetNotFound) => Some(LineOutcome::Missing),
        Err(SrisumError::IntegrityMismatch) => Some(LineOutcome::Failed),
        Err(SrisumError::UnexpectedIo(_)) => None,
        Err(SrisumError::ChecklistSourceUnavailable(_)) => None,
    }
}

/// Whether there is room to count what checking a target came to.
pub fn has_room_for(stats: &Stats, result: &Result<Algorithm, SrisumError>) -> (room: bool)
    ensures
        room == (outcome_of(*result) matches Some(outcome) ==> stats.has_room(outcome)),
{
    match result {
        Err(SrisumError::MalformedLine) => stats.bad_lines < u64::MAX,
        Err(SrisumError::TargetNotFound) => stats.missing_files < u64::MAX,
        Err(SrisumError::IntegrityMismatch) => stats.bad_checksums < u64::MAX,
        _ => true,
    }
}

/// The notice that `program` gives on the error stream of a missing
/// `target`.
pub open spec fn missing_notice(program: Seq<char>, target: Seq<char>) -> Seq<char> {
    program + ": "@ + target + ": No such file or directory"@
}

/// The line to print for `target` after it came to `outcome`, if any.
/// Nothing is printed where `status` is set. A target that passed or did
/// not match is reported unless `quiet` is set, a missing one unless
/// `ignore_missing` is set.
pub open spec fn report(args: CliArgs, target: Seq<char>, outcome: LineOutcome) -> Option<
    Seq<char>,
> {
    match outcome {
        LineOutcome::Passed(algorithm) => if !args.status && !args.quiet {
            Some(passed_text(target, algorithm))
        } else {
            None
        },
        LineOutcome::Failed => if !args.status && !args.quiet {
            Some(failed_text(target))
        } else {
            None
        },
        LineOutcome::Missing => if !args.status && !args.ignore_missing {
            Some(missing_text(target))
        } else {
            None
        },
        _ => None,
    }
}

/// The notice to write to the error stream for `target` after it came to
/// `outcome`, if any: there is one for a missing target, where its line is
/// printed too.
pub open spec fn notice(
    args: CliArgs,
    program: Seq<char>,
    target: Seq<char>,
    outcome: LineOutcome,
) -> Option<Seq<char>> {
    match outcome {
        LineOutcome::Missing => if !args.status && !args.ignore_missing {
            Some(missing_notice(program, target))
        } else {
            None
        },
        _ => None,
    }
}

/// What is said of one target: a line for the standard output and a notice
/// for the error stream, each if there is one.
#[derive(Debug, PartialEq, Eq)]
pub struct Messages {
    pub line: Option<String>,
    pub notice: Option<String>,
}

/// What [`Messages`] hold.
pub struct MessagesView {
    pub line: Option<Seq<char>>,
    pub notice: Option<Seq<char>>,
}

/// What an optional text holds.
pub open spec fn text_of(message: Option<String>) -> Option<Seq<char>> {
    match message {
        Some(m) => Some(m@),
        None => None,
    }
}

impl View for Messages {
    type V = MessagesView;

    open spec fn view(&self) -> MessagesView {
        MessagesView { line: text_of(self.line), notice: text_of(self.notice) }
    }
}

/// What `program` says of `target` after it came to `outcome`.
pub open spec fn said(
    args: CliArgs,
    program: Seq<char>,
    target: Seq<char>,
    outcome: LineOutcome,
) -> MessagesView {
    MessagesView {
        line: report(args, target, outcome),
        notice: notice(args, program, target, outcome),
    }
}

/// Takes the error `cause` that checking the target `filename` ended with.
/// A missing target, a mismatch and a bad line are counted, and what
/// `program` is to say of it is returned. Any other error is handed back
/// and nothing is counted: the run is to end.
pub fn print_messages(
    cause: SrisumError,
    stats: &mut Stats,
    args: &CliArgs,
    program: &str,
    filename: &str,
) -> (messages: Result<Messages, SrisumError>)
    requires
        outcome_of(Err(cause)) matches Some(outcome) ==> old(stats).has_room(outcome),
    ensures
        match outcome_of(Err(cause)) {
            Some(outcome) => final(stats)@ == old(stats)@.counted(outcome) && (messages matches Ok(
                m,
            ) && m@ == said(*args, program@, filename@, outcome)),
            None => *final(stats) == *old(stats) && messages == Err::<Messages, SrisumError>(
                cause,
            ),
        },
{
    match cause {
        SrisumError::TargetNotFound => {
            stats.count(LineOutcome::Missing);
            if !args.status && !args.ignore_missing {
                let mut notice = String::from_str(program);
                notice.append(": ");
                notice.append(filename);
                notice.append(": No such file or directory");
                let line = String::from_str(filename).concat(": FAILED open or read");
                Ok(Messages { line: Some(line), notice: Some(notice) })
            } else {
                Ok(Messages { line: None, notice: None })
            }
        },
        SrisumError::IntegrityMismatch => {
            stats.count(LineOutcome::Failed);
            if !args.status && !args.quiet {
                let line = String::from_str(filename).concat(": FAILED");
                Ok(Messages { line: Some(line), notice: None })
            } else {
                Ok(Messages { line: None, notice: None })
            }
        },
        SrisumError::MalformedLine => {
            stats.count(LineOutcome::Malformed);
            Ok(Messages { line: None, notice: None })
        },
        other => Err(other),
    }
}

/// Takes what checking the target `filename` came to. A target that passed
/// changes no counter; the line that says so is returned unless `quiet` or
/// `status` is set. An error is dealt with as [`print_messages`] says.
/// Nothing is returned to say where `status` is set.
pub fn handle_result(
    result: Result<Algorithm, SrisumError>,
    stats: &mut Stats,
    args: &CliArgs,
    program: &str,
    filename: &str,
) -> (messages: Result<Messages, SrisumError>)
    requires
        outcome_of(result) matches Some(outcome) ==> old(stats).has_room(outcome),
    ensures
        match outcome_of(result) {
            Some(outcome) => final(stats)@ == old(stats)@.counted(outcome) && (messages matches Ok(
                m,
            ) && m@ == said(*args, program@, filename@, outcome)),
            None => *final(stats) == *old(stats) && (result matches Err(cause) && messages == Err::<
                Messages,
                SrisumError,
            >(cause)),
        },
{
    match result {
        Ok(algorithm) => {
            if !args.status && !args.quiet {
                let mut line = String::from_str(filename);
                line.append(": OK (");
                line.append(algorithm.name());
                line.append(")");
                Ok(Messages { line: Some(line), notice: None })
            } else {
                Ok(Messages { line: None, notice: None })
            }
        },
        Err(cause) => print_messages(cause, stats, args, program, filename),
    }
}

/// The warning that `bad_lines` lines were not well formed.
pub open spec fn bad_lines_warning(bad_lines: nat) -> Seq<char> {
    "srisum: WARNING: "@ + decimal(bad_lines) + " file(s) could not be read"@
}

/// The warning that `missing_files` targets were missing.
pub open spec fn missing_files_warning(missing_files: nat) -> Seq<char> {
    "srisum: WARNING: "@ + decimal(missing_files) + " listed file(s) could not be read"@
}

/// The warning that `bad_checksums` targets did not match.
pub open spec fn bad_checksums_warning(bad_checksums: nat) -> Seq<char> {
    "srisum: WARNING: "@ + decimal(bad_checksums) + " computed checksum(s) did NOT match"@
}

/// The warnings at the end of a run, in order: none where `status` is set;
/// else one for bad lines where `warn` is set and there were any, one for
/// missing targets unless `ignore_missing` is set or there were none, and
/// one for targets that did not match where there were any.
pub open spec fn warnings(stats: Tally, args: CliArgs) -> Seq<Seq<char>> {
    if args.status {
        Seq::empty()
    } else {
        let lines = if args.warn && stats.bad_lines > 0 {
            seq![bad_lines_warning(stats.bad_lines)]
        } else {
            Seq::empty()
        };
        let missing = if !args.ignore_missing && stats.missing_files > 0 {
            seq![missing_files_warning(stats.missing_files)]
        } else {
            Seq::empty()
        };
        let checksums = if stats.bad_checksums > 0 {
            seq![bad_checksums_warning(stats.bad_checksums)]
        } else {
            Seq::empty()
        };
        lines + missing + checksums
    }
}

/// What each of `lines` holds.
pub open spec fn texts(lines: Seq<String>) -> Seq<Seq<char>> {
    Seq::new(lines.len(), |i: int| lines[i]@)
}

/// A warning: the count `n` between the words before and after it.
fn warning(n: u64, what: &str) -> (line: String)
    ensures
        line@ == "srisum: WARNING: "@ + decimal(n as nat) + what@,
{
    let mut line = String::from_str("srisum: WARNING: ");
    push_decimal(&mut line, n);
    line.append(what);
    line
}

/// The warnings at the end of a run.
pub fn print_warnings(stats: &Stats, args: &CliArgs) -> (lines: Vec<String>)
    ensures
        texts(lines@) == warnings(stats@, *args),
{
    let mut lines: Vec<String> = Vec::new();
    if args.status {
        assert(texts(lines@) =~= warnings(stats@, *args));
        return lines;
    }
    if args.warn && stats.bad_lines > 0 {
        lines.push(warning(stats.bad_lines, " file(s) could not be read"));
    }
    if !args.ignore_missing && stats.missing_files > 0 {
        lines.push(warning(stats.missing_files, " listed file(s) could not be read"));
    }
    if stats.bad_checksums > 0 {
        lines.push(warning(stats.bad_checksums, " computed checksum(s) did NOT match"));
    }
    assert(texts(lines@) =~= warnings(stats@, *args));
    lines
}

} // verus!
