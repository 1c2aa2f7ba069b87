//! The session: a result set and the history of the lines it was given.
//! It decides what each line does; reading lines, printing replies and
//! touching files are left to the caller.

use vstd::prelude::*;
use crate::command::{spec_command, Command, CommandError, CommandErrorView, CommandView};
use crate::results::{
    spec_decode, spec_encode, spec_expect_points, spec_show_line, sum_credits, sum_weighted,
    Results, ResultsError, ResultsErrorView,
};
use crate::subject_result::{SubjectResult, SubjectResultError, SubjectResultErrorView};

verus! {

/// A session. It is running until it is told to quit, and terminated
/// from then on.
#[derive(Debug)]
pub struct Repl {
    history: Vec<String>,
    results: Results,
    terminated: bool,
}

/// What a session answers to a line or a command.
#[derive(Debug, PartialEq, Eq)]
pub enum Reply {
    /// The command was carried out and reports nothing.
    Done,
    /// Lines to show, in order.
    Lines(Vec<String>),
    /// The grade-point average, as a fraction with a positive denominator.
    Gpa { numerator: u128, denominator: u128 },
    /// The points that a projection asks for.
    Points(u32),
    /// The caller is to read the file `filename` and to hand what came of
    /// it to `Repl::finish_import`.
    Import { filename: String },
    /// The caller is to write `contents` to the file `filename` and to
    /// hand what came of it to `Repl::finish_save`.
    Save { filename: String, contents: String },
    /// The line is no command; nothing was carried out.
    Rejected(CommandError),
    /// The command could not be carried out; the entries are as before.
    Failed(ResultsError),
    /// The file of an import does not decode; the entries are as before.
    Invalid(SubjectResultError),
    /// The session is terminated.
    Quit,
}

/// A `Reply` with its texts as sequences of characters.
pub enum ReplyView {
    Done,
    Lines(Seq<Seq<char>>),
    Gpa { numerator: u128, denominator: u128 },
    Points(u32),
    Import { filename: Seq<char> },
    Save { filename: Seq<char>, contents: Seq<char> },
    Rejected(CommandErrorView),
    Failed(ResultsErrorView),
    Invalid(SubjectResultErrorView),
    Quit,
}

/// What came of writing a file: it was written, or it could not be
/// created, or it was created and could not be written.
#[derive(Debug, Clone, Copy, PartialEq, Eq)]
pub enum Written {
    Whole,
    NotCreated,
    NotWritten,
}

/// The text of `s`, if there is one.
pub open spec fn view_of(s: Option<&str>) -> Option<Seq<char>> {
    match s {
        Some(text) => Some(text@),
        None => None,
    }
}

/// The texts that the strings of `v` hold, in order.
pub open spec fn string_views(v: Seq<String>) -> Seq<Seq<char>> {
    v.map_values(|s: String| s@)
}

impl View for Reply {
    type V = ReplyView;

    open spec fn view(&self) -> ReplyView {
        match *self {
            Reply::Done => ReplyView::Done,
            Reply::Lines(lines) => ReplyView::Lines(string_views(lines@)),
            Reply::Gpa { numerator, denominator } => ReplyView::Gpa { numerator, denominator },
            Reply::Points(p) => ReplyView::Points(p),
            Reply::Import { filename } => ReplyView::Import { filename: filename@ },
            Reply::Save { filename, contents } => ReplyView::Save {
                filename: filename@,
                contents: contents@,
            },
            Reply::Rejected(e) => ReplyView::Rejected(e@),
            Reply::Failed(e) => ReplyView::Failed(e@),
            Reply::Invalid(e) => ReplyView::Invalid(e@),
            Reply::Quit => ReplyView::Quit,
        }
    }
}

/// The state of a session: the lines it was given, its entries, and
/// whether it is terminated.
pub struct ReplView {
    pub history: Seq<Seq<char>>,
    pub results: Seq<SubjectResult>,
    pub terminated: bool,
}

/// The lines that show the entries `rs`.
pub open spec fn spec_show(rs: Seq<SubjectResult>) -> Seq<Seq<char>> {
    Seq::new(rs.len(), |i: int| spec_show_line(i as nat, rs[i]))
}

/// The grade-point average over `rs`, as a fraction: the weighted mean of
/// the points, and `0 / 1` where there are no credits.
pub open spec fn spec_gpa(rs: Seq<SubjectResult>) -> (int, int) {
    if sum_credits(rs) > 0 {
        (sum_weighted(rs) as int, sum_credits(rs) as int)
    } else {
        (0, 1)
    }
}

/// What a command does to a session, and what the session answers.
pub open spec fn spec_execute(s: ReplView, command: CommandView) -> (ReplView, ReplyView) {
    match command {
        CommandView::Add(c) => (
            ReplView {
                results: s.results.push(SubjectResult { points: c.points, credit: c.credit }),
                ..s
            },
            ReplyView::Done,
        ),
        CommandView::Show => (s, ReplyView::Lines(spec_show(s.results))),
        CommandView::Remove(c) => if c.index < s.results.len() {
            (ReplView { results: s.results.remove(c.index as int), ..s }, ReplyView::Done)
        } else {
            (s, ReplyView::Failed(ResultsErrorView::OutOfBounds { idx: c.index }))
        },
        CommandView::Import { filename } => (s, ReplyView::Import { filename }),
        CommandView::Gpa => (
            s,
            ReplyView::Gpa {
                numerator: spec_gpa(s.results).0 as u128,
                denominator: spec_gpa(s.results).1 as u128,
            },
        ),
        CommandView::Drop => (ReplView { results: Seq::empty(), ..s }, ReplyView::Done),
        CommandView::Save { filename } => (
            s,
            ReplyView::Save { filename, contents: spec_encode(s.results) },
        ),
        CommandView::Expect(c) => (
            s,
            match spec_expect_points(s.results, c.expected_gpa, c.credit) {
                Ok(points) => ReplyView::Points(points),
                Err(e) => ReplyView::Failed(e),
            },
        ),
        CommandView::Quit => (ReplView { terminated: true, ..s }, ReplyView::Quit),
        CommandView::History => (s, ReplyView::Lines(s.history)),
    }
}

/// What a line does to a session, and what the session answers. A
/// terminated session takes no line. A running one records the line,
/// then carries out the command that it gives, if it gives one.
pub open spec fn spec_submit(s: ReplView, line: Seq<char>) -> (ReplView, ReplyView) {
    if s.terminated {
        (s, ReplyView::Quit)
    } else {
        let recorded = ReplView { history: s.history.push(line), ..s };
        match spec_command(line) {
            Err(e) => (recorded, ReplyView::Rejected(e)),
            Ok(command) => spec_execute(recorded, command),
        }
    }
}

/// What the outcome of reading the file `filename` does to a session
/// that asked for it, and what the session answers. Without a text the
/// read has failed. A text that decodes replaces the entries; otherwise
/// they stay as they are.
pub open spec fn spec_finish_import(s: ReplView, filename: Seq<char>, contents: Option<Seq<char>>) -> (
    ReplView,
    ReplyView,
) {
    match contents {
        None => (s, ReplyView::Failed(ResultsErrorView::CouldNotReadFile { filename })),
        Some(text) => match spec_decode(text) {
            Ok(decoded) => (ReplView { results: decoded, ..s }, ReplyView::Done),
            Err(e) => (s, ReplyView::Invalid(e)),
        },
    }
}

/// What a session answers to the outcome of writing the file `filename`.
pub open spec fn spec_finish_save(filename: Seq<char>, outcome: Written) -> ReplyView {
    match outcome {
        Written::Whole => ReplyView::Done,
        Written::NotCreated => ReplyView::Failed(
            ResultsErrorView::FailedToCreateFile { filename },
        ),
        Written::NotWritten => ReplyView::Failed(
            ResultsErrorView::FailedToWriteToFile { filename },
        ),
    }
}

impl View for Repl {
    type V = ReplView;

    closed spec fn view(&self) -> ReplView {
        ReplView {
            history: string_views(self.history@),
            results: self.results@,
            terminated: self.terminated,
        }
    }
}

impl Repl {
    /// The result set of the session.
    pub closed spec fn spec_results(&self) -> Results {
        self.results
    }

    /// The result set of the session is well formed, and the entries of
    /// the session are its entries.
    pub open spec fn well_formed(&self) -> bool {
        &&& self.spec_results().well_formed()
        &&& self.spec_results()@ == self@.results
    }

    /// A running session without entries or history.
    pub fn new() -> (r: Self)
        ensures
            r.well_formed(),
            r@.history == Seq::<Seq<char>>::empty(),
            r@.results == Seq::<SubjectResult>::empty(),
            !r@.terminated,
    {
        let r = Self { history: Vec::new(), results: Results::new(), terminated: false };
        assert(string_views(r.history@) =~= Seq::<Seq<char>>::empty());
        r
    }

    /// The result set.
    pub fn results(&self) -> (r: &Results)
        ensures
            *r == self.spec_results(),
    {
        &self.results
    }

    /// The lines that the session was given, in order.
    pub fn history(&self) -> (h: &Vec<String>)
        ensures
            string_views(h@) == self@.history,
    {
        &self.history
    }

    /// Carries out `command` and answers. `Import` and `Save` touch no
    /// file: the answer tells the caller what to read or to write. After
    /// `Drop` the session holds no entry, and both totals are zero.
    pub fn execute_command(&mut self, command: Command) -> (reply: Reply)
        requires
            old(self).well_formed(),
        ensures
            final(self).well_formed(),
            final(self)@ == spec_execute(old(self)@, command@).0,
            reply@ == spec_execute(old(self)@, command@).1,
            command@ is Drop ==> {
                &&& final(self)@.results.len() == 0
                &&& final(self).spec_results().spec_total_credits() == 0
                &&& final(self).spec_results().spec_weighted_points() == 0
            },
    {
        match command {
            Command::Add(value) => {
                self.results.add_result(SubjectResult::new(value.points, value.credit));
                Reply::Done
            },
            Command::Show(_) => {
                let lines = self.results.show_results();
                assert(string_views(lines@) =~= spec_show(self@.results));
                Reply::Lines(lines)
            },
            Command::Remove(c) => match self.results.remove_result(c.index) {
                Ok(_) => Reply::Done,
                Err(e) => Reply::Failed(e),
            },
            Command::Import(c) => Reply::Import { filename: c.filename },
            Command::Gpa(_) => {
                let g = self.results.gpa();
                Reply::Gpa { numerator: g.0, denominator: g.1 }
            },
            Command::Drop(_) => {
                self.results = Results::new();
                Reply::Done
            },
            Command::Save(c) => Reply::Save {
                filename: c.filename,
                contents: self.results.to_string(),
            },
            Command::Expect(c) => match self.results.expect_points(c.expected_gpa, c.credit) {
                Ok(points) => Reply::Points(points),
                Err(e) => Reply::Failed(e),
            },
            Command::Quit => {
                self.terminated = true;
                Reply::Quit
            },
            Command::History => Reply::Lines(copy_lines(&self.history)),
        }
    }

    /// Takes one line of input. A running session records the line, then
    /// carries out the command that it gives; a line that gives none is
    /// recorded and rejected. A terminated session does nothing.
    pub fn submit(&mut self, input: &str) -> (reply: Reply)
        requires
            old(self).well_formed(),
        ensures
            final(self).well_formed(),
            final(self)@ == spec_submit(old(self)@, input@).0,
            reply@ == spec_submit(old(self)@, input@).1,
    {
        if self.terminated {
            return Reply::Quit;
        }
        let command = Command::new(input);
        self.history.push(input.to_owned());
        assert(string_views(self.history@) =~= old(self)@.history.push(input@));
        match command {
            Err(e) => Reply::Rejected(e),
            Ok(c) => self.execute_command(c),
        }
    }

    /// Takes what came of reading the file `filename` for an `Import`
    /// reply: its text, or nothing where it could not be read.
    pub fn finish_import(&mut self, filename: &str, contents: Option<&str>) -> (reply: Reply)
        requires
            old(self).well_formed(),
        ensures
            final(self).well_formed(),
            final(self)@ == spec_finish_import(old(self)@, filename@, view_of(contents)).0,
            reply@ == spec_finish_import(old(self)@, filename@, view_of(contents)).1,
    {
        match contents {
            None => Reply::Failed(ResultsError::CouldNotReadFile { filename: filename.to_owned() }),
            Some(text) => match Results::from_string(text) {
                Ok(results) => {
                    self.results = results;
                    Reply::Done
                },
                Err(e) => Reply::Invalid(e),
            },
        }
    }

    /// Takes what came of writing the file `filename` for a `Save` reply.
    /// The session stays as it is, whatever came of it.
    pub fn finish_save(&self, filename: &str, outcome: Written) -> (reply: Reply)
        ensures
            reply@ == spec_finish_save(filename@, outcome),
    {
        match outcome {
            Written::Whole => Reply::Done,
            Written::NotCreated => Reply::Failed(
                ResultsError::FailedToCreateFile { filename: filename.to_owned() },
            ),
            Written::NotWritten => Reply::Failed(
                ResultsError::FailedToWriteToFile { filename: filename.to_owned() },
            ),
        }
    }

    /// Whether the session is terminated.
    pub fn is_terminated(&self) -> (b: bool)
        ensures
            b == self@.terminated,
    {
        self.terminated
    }
}

/// A running session records every line that it takes, and is terminated
/// by a line exactly where the line gives the command `Quit`. A line that
/// gives no command leaves the entries as they are.
pub proof fn lemma_only_quit_terminates(s: ReplView, line: Seq<char>)
    requires
        !s.terminated,
    ensures
        spec_submit(s, line).0.history == s.history.push(line),
        spec_submit(s, line).0.terminated <==> spec_command(line) == Ok::<
            CommandView,
            CommandErrorView,
        >(CommandView::Quit),
        spec_command(line) is Err ==> spec_submit(s, line).0.results == s.results,
{
}

/// A terminated session stays as it is, whatever line it is given.
pub proof fn lemma_terminated_is_final(s: ReplView, line: Seq<char>)
    requires
        s.terminated,
    ensures
        spec_submit(s, line) == (s, ReplyView::Quit),
{
}

/// A copy of the strings of `v`.
fn copy_lines(v: &Vec<String>) -> (out: Vec<String>)
    ensures
        string_views(out@) == string_views(v@),
{
    let mut out: Vec<String> = Vec::new();
    let mut i: usize = 0;
    while i < v.len()
        invariant
            i <= v@.len(),
            out@.len() == i,
            forall|j: int| 0 <= j < i ==> (#[trigger] out@[j])@ == v@[j]@,
        decreases v@.len() - i,
    {
        out.push(v[i].clone());
        i += 1;
    }
    assert(string_views(out@) =~= string_views(v@));
    out
}

} // verus!
