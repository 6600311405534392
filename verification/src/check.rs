//! A whole checklist run over lines and targets that were read beforehand.

use crate::checker::{check_file, verdict};
use crate::checklist::{
    handle_line, handle_result, notice, outcome_of, print_warnings, read_line, report, texts,
    warnings, LineOutcome, LineView, Stats, Tally,
};
use crate::errors::SrisumError;
use crate::CliArgs;
use vstd::prelude::*;

verus! {

/// A target as it was found: its name, and what it holds or why it could
/// not be read.
#[derive(Debug, PartialEq, Eq)]
pub struct Target {
    pub name: String,
    pub content: Result<Vec<u8>, SrisumError>,
}

/// What a [`Target`] holds.
pub struct TargetView {
    pub name: Seq<char>,
    pub content: Result<Seq<u8>, SrisumError>,
}

impl View for Target {
    type V = TargetView;

    open spec fn view(&self) -> TargetView {
        TargetView {
            name: self.name@,
            content: match self.content {
                Ok(bytes) => Ok(bytes@),
                Err(cause) => Err(cause),
            },
        }
    }
}

/// What each of `targets` holds.
pub open spec fn target_views(targets: Seq<Target>) -> Seq<TargetView> {
    Seq::new(targets.len(), |i: int| targets[i]@)
}

/// What each of `lines` holds; `None` stands for a line that could not be
/// decoded as text.
pub open spec fn line_texts(lines: Seq<Option<String>>) -> Seq<Option<Seq<char>>> {
    Seq::new(
        lines.len(),
        |i: int|
            match lines[i] {
                Some(line) => Some(line@),
                None => None,
            },
    )
}

/// What reading the target named `name` comes to: what the first of
/// `targets` with that name holds, and that it was not found where there
/// is none.
pub open spec fn find_target(targets: Seq<TargetView>, name: Seq<char>) -> Result<
    Seq<u8>,
    SrisumError,
>
    decreases targets.len(),
{
    if targets.len() == 0 {
        Err(SrisumError::TargetNotFound)
    } else if targets.first().name == name {
        targets.first().content
    } else {
        find_target(targets.drop_first(), name)
    }
}

/// What checking the target of `entry` comes to.
pub open spec fn check_entry(targets: Seq<TargetView>, entry: LineView) -> Result<
    crate::algorithm::Algorithm,
    SrisumError,
> {
    match find_target(targets, entry.target) {
        Ok(content) => verdict(entry.claimed, content),
        Err(cause) => Err(cause),
    }
}

/// A run so far: the counters, the lines printed, the notices written to
/// the error stream, and the error that ended it, if one did.
pub struct RunView {
    pub stats: Tally,
    pub lines: Seq<Seq<char>>,
    pub notices: Seq<Seq<char>>,
    pub fatal: Option<SrisumError>,
}

/// `texts` with `text` after them, where there is one.
pub open spec fn with(texts: Seq<Seq<char>>, text: Option<Seq<char>>) -> Seq<Seq<char>> {
    match text {
        Some(t) => texts.push(t),
        None => texts,
    }
}

/// The run `state` after one more line. A run that has ended stays as it
/// is. A line that could not be decoded or is not well formed is counted as
/// bad; a blank line changes nothing. The target of a well formed line is
/// checked: it is counted and reported by what that came to, or the run
/// ends with the error.
pub open spec fn step(
    args: CliArgs,
    program: Seq<char>,
    targets: Seq<TargetView>,
    state: RunView,
    line: Option<Seq<char>>,
) -> RunView {
    if state.fatal is Some {
        state
    } else {
        match line {
            None => RunView { stats: state.stats.counted(LineOutcome::Malformed), ..state },
            Some(l) => match read_line(l) {
                Ok(None) => state,
                Err(_) => RunView { stats: state.stats.counted(LineOutcome::Malformed), ..state },
                Ok(Some(entry)) => match outcome_of(check_entry(targets, entry)) {
                    Some(outcome) => RunView {
                        stats: state.stats.counted(outcome),
                        lines: with(state.lines, report(args, entry.target, outcome)),
                        notices: with(
                            state.notices,
                            notice(args, program, entry.target, outcome),
                        ),
                        fatal: None,
                    },
                    None => RunView { fatal: Some(check_entry(targets, entry)->Err_0), ..state },
                },
            },
        }
    }
}

/// The run of `program` over `lines`, from the first to the last.
pub open spec fn run(
    args: CliArgs,
    program: Seq<char>,
    targets: Seq<TargetView>,
    lines: Seq<Option<Seq<char>>>,
) -> RunView
    decreases lines.len(),
{
    if lines.len() == 0 {
        RunView { stats: Tally::zero(), lines: Seq::empty(), notices: Seq::empty(), fatal: None }
    } else {
        step(args, program, targets, run(args, program, targets, lines.drop_last()), lines.last())
    }
}

/// How a run ended.
#[derive(Debug, Clone, Copy, PartialEq, Eq, Structural)]
pub enum Exit {
    /// Every target passed and every line was well formed.
    Success,
    /// A line was bad, a target did not match or a target was missing.
    Failure,
    /// An error ended the run.
    Fatal,
}

/// A run that is over: the counters, the lines to print, the notices to
/// write to the error stream, the warnings to write there after them, and
/// the error that ended the run, if one did.
#[derive(Debug, PartialEq, Eq)]
pub struct Report {
    pub stats: Stats,
    pub lines: Vec<String>,
    pub notices: Vec<String>,
    pub warnings: Vec<String>,
    pub fatal: Option<SrisumError>,
}

impl Report {
    /// Whether the report is that of the run `run`: the same counters,
    /// lines, notices and error, and the warnings of the counters, or none
    /// where an error ended the run.
    pub open spec fn is_of(self, args: CliArgs, run: RunView) -> bool {
        &&& self.stats@ == run.stats
        &&& texts(self.lines@) == run.lines
        &&& texts(self.notices@) == run.notices
        &&& self.fatal == run.fatal
        &&& texts(self.warnings@) == if run.fatal is Some {
            Seq::empty()
        } else {
            warnings(run.stats, args)
        }
    }

    /// How the run ended.
    pub open spec fn spec_exit(&self) -> Exit {
        if self.fatal is Some {
            Exit::Fatal
        } else if self.stats@.failed() {
            Exit::Failure
        } else {
            Exit::Success
        }
    }

    /// How the run ended.
    #[verifier::when_used_as_spec(spec_exit)]
    pub fn exit(&self) -> (exit: Exit)
        ensures
            exit == self.spec_exit(),
    {
        if self.fatal.is_some() {
            Exit::Fatal
        } else if self.stats.failed() {
            Exit::Failure
        } else {
            Exit::Success
        }
    }
}

/// What reading the target named `name` comes to.
pub fn read_target<'a>(targets: &'a [Target], name: &str) -> (content: Result<
    &'a Vec<u8>,
    SrisumError,
>)
    ensures
        match content {
            Ok(bytes) => find_target(target_views(targets@), name@) == Ok::<Seq<u8>, SrisumError>(
                bytes@,
            ),
            Err(cause) => find_target(target_views(targets@), name@) == Err::<
                Seq<u8>,
                SrisumError,
            >(cause),
        },
{
    let ghost all = target_views(targets@);
    let wanted = String::from_str(name);
    let mut i: usize = 0;
    assert(all.skip(0) =~= all);
    while i < targets.len()
        invariant
            i <= targets@.len(),
            wanted@ == name@,
            all == target_views(targets@),
            find_target(all, name@) == find_target(all.skip(i as int), name@),
        decreases targets@.len() - i,
    {
        assert(all.skip(i as int).drop_first() =~= all.skip(i + 1));
        assert(all.skip(i as int).first() == targets@[i as int]@);
        if targets[i].name == wanted {
            return match &targets[i].content {
                Ok(bytes) => Ok(bytes),
                Err(cause) => Err(cause.clone()),
            };
        }
        i += 1;
    }
    Err(SrisumError::TargetNotFound)
}

/// Runs the checklist `lines` against `targets` for `program`; `None`
/// among the lines stands for one that could not be decoded as text.
pub fn check(
    args: &CliArgs,
    program: &str,
    lines: &[Option<String>],
    targets: &[Target],
) -> (report: Report)
    ensures
        report.is_of(*args, run(*args, program@, target_views(targets@), line_texts(lines@))),
{
    let ghost all = line_texts(lines@);
    let ghost found = target_views(targets@);
    let mut stats = Stats::new();
    let mut out: Vec<String> = Vec::new();
    let mut err: Vec<String> = Vec::new();
    let mut i: usize = 0;
    assert(all.take(0) =~= Seq::empty());
    assert(texts(out@) =~= Seq::empty());
    assert(texts(err@) =~= Seq::empty());
    while i < lines.len()
        invariant
            i <= lines@.len(),
            all == line_texts(lines@),
            found == target_views(targets@),
            stats@ == run(*args, program@, found, all.take(i as int)).stats,
            texts(out@) == run(*args, program@, found, all.take(i as int)).lines,
            texts(err@) == run(*args, program@, found, all.take(i as int)).notices,
            run(*args, program@, found, all.take(i as int)).fatal is None,
            stats.bad_lines + stats.bad_checksums + stats.missing_files <= i,
        decreases lines@.len() - i,
    {
        let ghost before = run(*args, program@, found, all.take(i as int));
        let ghost printed = texts(out@);
        let ghost noticed = texts(err@);
        proof {
            assert(all.take(i + 1).drop_last() =~= all.take(i as int));
            assert(all.take(i + 1).last() == all[i as int]);
        }
        let line: Option<&str> = match &lines[i] {
            Some(l) => Some(l.as_str()),
            None => None,
        };
        if let Some(entry) = handle_line(&mut stats, line) {
            let result = match read_target(targets, entry.target.as_str()) {
                Ok(content) => check_file(content.as_slice(), entry.claimed),
                Err(cause) => Err(cause),
            };
            match handle_result(result, &mut stats, args, program, entry.target.as_str()) {
                Ok(messages) => {
                    if let Some(text) = messages.line {
                        out.push(text);
                        assert(texts(out@) =~= printed.push(text@));
                    }
                    if let Some(text) = messages.notice {
                        err.push(text);
                        assert(texts(err@) =~= noticed.push(text@));
                    }
                },
                Err(cause) => {
                    let warnings: Vec<String> = Vec::new();
                    proof {
                        let after = run(*args, program@, found, all.take(i + 1));
                        assert(after == step(*args, program@, found, before, all[i as int]));
                        assert(after.fatal == Some(cause));
                        assert(after.stats == before.stats);
                        assert(after.lines == before.lines);
                        assert(after.notices == before.notices);
                        lemma_run_ended(*args, program@, found, all, i + 1);
                        assert(texts(warnings@) =~= Seq::empty());
                    }
                    return Report { stats, lines: out, notices: err, warnings, fatal: Some(cause) };
                },
            }
        }
        i += 1;
    }
    assert(all.take(i as int) =~= all);
    let warnings = print_warnings(&stats, args);
    Report { stats, lines: out, notices: err, warnings, fatal: None }
}

/// The counters of a run, and the error that ends it, depend on the lines
/// and the targets alone, not on what the run was told to print nor on the
/// name of the program.
pub proof fn lemma_counters_ignore_policy(
    first: CliArgs,
    first_program: Seq<char>,
    second: CliArgs,
    second_program: Seq<char>,
    targets: Seq<TargetView>,
    lines: Seq<Option<Seq<char>>>,
)
    ensures
        run(first, first_program, targets, lines).stats == run(
            second,
            second_program,
            targets,
            lines,
        ).stats,
        run(first, first_program, targets, lines).fatal == run(
            second,
            second_program,
            targets,
            lines,
        ).fatal,
    decreases lines.len(),
{
    if lines.len() > 0 {
        lemma_counters_ignore_policy(
            first,
            first_program,
            second,
            second_program,
            targets,
            lines.drop_last(),
        );
    }
}

/// Two runs of the same checklist against the same targets end with the
/// same counters and in the same way.
pub proof fn lemma_same_checklist_same_counters(
    first: Report,
    second: Report,
    first_args: CliArgs,
    first_program: Seq<char>,
    second_args: CliArgs,
    second_program: Seq<char>,
    targets: Seq<TargetView>,
    lines: Seq<Option<Seq<char>>>,
)
    requires
        first.is_of(first_args, run(first_args, first_program, targets, lines)),
        second.is_of(second_args, run(second_args, second_program, targets, lines)),
    ensures
        first.stats == second.stats,
        first.exit() == second.exit(),
{
    lemma_counters_ignore_policy(
        first_args,
        first_program,
        second_args,
        second_program,
        targets,
        lines,
    );
}

/// Nothing is said where `status` is set: a run prints no line and writes
/// no notice.
pub proof fn lemma_status_is_silent(
    args: CliArgs,
    program: Seq<char>,
    targets: Seq<TargetView>,
    lines: Seq<Option<Seq<char>>>,
)
    requires
        args.status,
    ensures
        run(args, program, targets, lines).lines == Seq::<Seq<char>>::empty(),
        run(args, program, targets, lines).notices == Seq::<Seq<char>>::empty(),
        warnings(run(args, program, targets, lines).stats, args) == Seq::<Seq<char>>::empty(),
    decreases lines.len(),
{
    if lines.len() > 0 {
        lemma_status_is_silent(args, program, targets, lines.drop_last());
    }
}

/// Counters never go down: those of a run are at least those of the run
/// over fewer of its lines.
pub proof fn lemma_counters_grow(
    args: CliArgs,
    program: Seq<char>,
    targets: Seq<TargetView>,
    lines: Seq<Option<Seq<char>>>,
    n: int,
)
    requires
        0 <= n <= lines.len(),
    ensures
        run(args, program, targets, lines.take(n)).stats.le(
            run(args, program, targets, lines).stats,
        ),
    decreases lines.len() - n,
{
    if n == lines.len() {
        assert(lines.take(n) =~= lines);
    } else {
        assert(lines.drop_last().take(n) =~= lines.take(n));
        lemma_counters_grow(args, program, targets, lines.drop_last(), n);
    }
}

/// The run `first` followed by the run `second`, which starts where the
/// first has not ended.
pub open spec fn followed_by(first: RunView, second: RunView) -> RunView {
    if first.fatal is Some {
        first
    } else {
        RunView {
            stats: first.stats.plus(second.stats),
            lines: first.lines + second.lines,
            notices: first.notices + second.notices,
            fatal: second.fatal,
        }
    }
}

/// A checklist can be run in parts: the run over two lists of lines, one
/// after the other, is the run over the first followed by the run over the
/// second. Where no error ends the first, the counters of the whole are the
/// sums of those of the parts.
pub proof fn lemma_run_in_parts(
    args: CliArgs,
    program: Seq<char>,
    targets: Seq<TargetView>,
    first: Seq<Option<Seq<char>>>,
    second: Seq<Option<Seq<char>>>,
)
    ensures
        run(args, program, targets, first + second) == followed_by(
            run(args, program, targets, first),
            run(args, program, targets, second),
        ),
    decreases second.len(),
{
    let whole = run(args, program, targets, first + second);
    let parts = followed_by(
        run(args, program, targets, first),
        run(args, program, targets, second),
    );
    if second.len() == 0 {
        assert(first + second =~= first);
    } else {
        assert((first + second).drop_last() =~= first + second.drop_last());
        lemma_run_in_parts(args, program, targets, first, second.drop_last());
    }
    assert(parts.lines =~= whole.lines);
    assert(parts.notices =~= whole.notices);
}

/// Counters of two runs are taken together in any order.
pub proof fn lemma_plus(a: Tally, b: Tally, c: Tally)
    ensures
        a.plus(b) == b.plus(a),
        a.plus(b).plus(c) == a.plus(b.plus(c)),
        a.plus(Tally::zero()) == a,
{
}

/// A run that has ended stays as it is, whatever lines follow.
pub proof fn lemma_run_ended(
    args: CliArgs,
    program: Seq<char>,
    targets: Seq<TargetView>,
    lines: Seq<Option<Seq<char>>>,
    n: int,
)
    requires
        0 <= n <= lines.len(),
        run(args, program, targets, lines.take(n)).fatal is Some,
    ensures
        run(args, program, targets, lines) == run(args, program, targets, lines.take(n)),
    decreases lines.len() - n,
{
    if n == lines.len() {
        assert(lines.take(n) =~= lines);
    } else {
        assert(lines.take(n + 1).drop_last() =~= lines.take(n));
        lemma_run_ended(args, program, targets, lines, n + 1);
    }
}

} // verus!
