//! The result set: subject results in entry order, with the exact totals
//! from which the grade-point average is read.

use vstd::prelude::*;
use crate::fraction::{ceil_div, div_ceil, lemma_ceil_div_bounds, lemma_ceil_div_nested, Fraction};
use crate::subject_result::{
    lemma_decode_encode, lemma_encoding_is_one_line, spec_from_string, spec_to_string, SubjectResult,
    SubjectResultError, SubjectResultErrorView,
};
use crate::text::{
    decimal, lemma_split_cons, push_decimal, spec_split, split, texts, to_chars,
};

verus! {

/// An ordered collection of subject results. It keeps the sum of the
/// credits and the sum of the points weighted by credit, so that the
/// grade-point average is the quotient of the two, exactly.
#[derive(Debug)]
pub struct Results {
    weighted_points: u128,
    total_credits: u128,
    subject_results: Vec<SubjectResult>,
}

/// Why an operation on a result set, or on the file that stores one, failed.
#[derive(Debug, PartialEq, Eq)]
pub enum ResultsError {
    /// The file `filename` could not be read.
    CouldNotReadFile { filename: String },
    /// A line does not consist of exactly `expected` fields.
    IncorrectNumberOfArguments { expected: usize, actual: usize },
    /// The field `literal` is no number.
    ParseErorr { literal: String },
    /// There is no entry at position `idx`.
    OutOfBounds { idx: usize },
    /// The file `filename` could not be created.
    FailedToCreateFile { filename: String },
    /// The file `filename` was created and could not be written.
    FailedToWriteToFile { filename: String },
    /// A projection was asked over zero credits or with a target that is
    /// no number.
    InvalidArgument,
}

/// A `ResultsError` with its texts as sequences of characters.
pub enum ResultsErrorView {
    CouldNotReadFile { filename: Seq<char> },
    IncorrectNumberOfArguments { expected: usize, actual: usize },
    ParseErorr { literal: Seq<char> },
    OutOfBounds { idx: usize },
    FailedToCreateFile { filename: Seq<char> },
    FailedToWriteToFile { filename: Seq<char> },
    InvalidArgument,
}

impl View for ResultsError {
    type V = ResultsErrorView;

    open spec fn view(&self) -> ResultsErrorView {
        match *self {
            ResultsError::CouldNotReadFile { filename } => ResultsErrorView::CouldNotReadFile {
                filename: filename@,
            },
            ResultsError::IncorrectNumberOfArguments { expected, actual } => {
                ResultsErrorView::IncorrectNumberOfArguments { expected, actual }
            },
            ResultsError::ParseErorr { literal } => ResultsErrorView::ParseErorr {
                literal: literal@,
            },
            ResultsError::OutOfBounds { idx } => ResultsErrorView::OutOfBounds { idx },
            ResultsError::FailedToCreateFile { filename } => ResultsErrorView::FailedToCreateFile {
                filename: filename@,
            },
            ResultsError::FailedToWriteToFile { filename } => {
                ResultsErrorView::FailedToWriteToFile { filename: filename@ }
            },
            ResultsError::InvalidArgument => ResultsErrorView::InvalidArgument,
        }
    }
}

/// The sum of the credits of `rs`.
pub open spec fn sum_credits(rs: Seq<SubjectResult>) -> nat
    decreases rs.len(),
{
    if rs.len() == 0 {
        0
    } else {
        sum_credits(rs.drop_last()) + rs.last().credit as nat
    }
}

/// The sum over `rs` of points times credit.
pub open spec fn sum_weighted(rs: Seq<SubjectResult>) -> nat
    decreases rs.len(),
{
    if rs.len() == 0 {
        0
    } else {
        sum_weighted(rs.drop_last()) + rs.last().points as nat * rs.last().credit as nat
    }
}

/// Neither sum grows faster than its largest possible term.
pub proof fn lemma_sums_bounded(rs: Seq<SubjectResult>)
    ensures
        sum_credits(rs) <= rs.len() * 0xffff_ffff,
        sum_weighted(rs) <= rs.len() * 0xffff_fffe_0000_0001,
    decreases rs.len(),
{
    if rs.len() > 0 {
        lemma_sums_bounded(rs.drop_last());
        let p = rs.last().points as nat;
        let c = rs.last().credit as nat;
        assert(p * c <= 0xffff_fffe_0000_0001) by (nonlinear_arith)
            requires
                p <= 0xffff_ffff,
                c <= 0xffff_ffff,
        ;
    }
}

/// The results that the lines `lines` encode, in order. Empty lines are
/// passed over; the first line that is no subject result gives its error.
pub open spec fn spec_decode_lines(lines: Seq<Seq<char>>) -> Result<
    Seq<SubjectResult>,
    SubjectResultErrorView,
>
    decreases lines.len(),
{
    if lines.len() == 0 {
        Ok(Seq::empty())
    } else {
        match spec_decode_lines(lines.drop_last()) {
            Err(e) => Err(e),
            Ok(rs) => if lines.last().len() == 0 {
                Ok(rs)
            } else {
                match spec_from_string(lines.last()) {
                    Ok(r) => Ok(rs.push(r)),
                    Err(e) => Err(e),
                }
            },
        }
    }
}

/// The results that the text of a file encodes: one per line.
pub open spec fn spec_decode(text: Seq<char>) -> Result<Seq<SubjectResult>, SubjectResultErrorView> {
    spec_decode_lines(spec_split(text, '\n'))
}

/// The text of the file that stores `rs`: the encoding of each result in
/// order, each followed by a line end.
pub open spec fn spec_encode(rs: Seq<SubjectResult>) -> Seq<char>
    decreases rs.len(),
{
    if rs.len() == 0 {
        Seq::empty()
    } else {
        spec_encode(rs.drop_last()) + spec_to_string(rs.last()) + seq!['\n']
    }
}

/// The line that shows the entry `r` at position `index`.
pub open spec fn spec_show_line(index: nat, r: SubjectResult) -> Seq<char> {
    seq![' ', ' ', '['] + decimal(index) + seq![']', ' '] + spec_to_string(r)
}

/// `x` brought into the range of 32 bits.
pub open spec fn clamp_u32(x: int) -> u32 {
    if x < 0 {
        0
    } else if x > u32::MAX {
        u32::MAX
    } else {
        x as u32
    }
}

/// The least whole number of points that one more subject of `credit`
/// credits must bring for the average over `rs` and that subject to reach
/// `target`: the quotient `(target * (credits + credit) - weighted) /
/// credit` rounded up, here with the denominator of `target` cleared.
pub open spec fn spec_points_needed(rs: Seq<SubjectResult>, target: Fraction, credit: u32) -> int
    recommends
        credit > 0,
        target.denominator > 0,
{
    ceil_div(
        target.signed_numerator() * (sum_credits(rs) + credit) - sum_weighted(rs)
            * target.denominator,
        credit * target.denominator,
    )
}

/// What a projection over `rs` reports: the points needed, brought into
/// the range of 32 bits, or the refusal of zero credits and of a target
/// that is no number.
pub open spec fn spec_expect_points(rs: Seq<SubjectResult>, target: Fraction, credit: u32) -> Result<
    u32,
    ResultsErrorView,
> {
    if credit == 0 || target.denominator == 0 {
        Err(ResultsErrorView::InvalidArgument)
    } else {
        Ok(clamp_u32(spec_points_needed(rs, target, credit)))
    }
}

/// What a fallible result is, with the error taken by its view.
pub open spec fn reported<T>(r: Result<T, ResultsError>) -> Result<T, ResultsErrorView> {
    match r {
        Ok(v) => Ok(v),
        Err(e) => Err(e@),
    }
}

/// A failure among the first `k` lines is the failure of them all.
pub proof fn lemma_decode_lines_failure(lines: Seq<Seq<char>>, k: int)
    requires
        0 <= k <= lines.len(),
        spec_decode_lines(lines.take(k)) is Err,
    ensures
        spec_decode_lines(lines) == spec_decode_lines(lines.take(k)),
    decreases lines.len(),
{
    if k == lines.len() {
        assert(lines.take(k) =~= lines);
    } else {
        assert(lines.drop_last().take(k) =~= lines.take(k));
        lemma_decode_lines_failure(lines.drop_last(), k);
    }
}

impl View for Results {
    type V = Seq<SubjectResult>;

    /// The entries, in order.
    closed spec fn view(&self) -> Seq<SubjectResult> {
        self.subject_results@
    }
}

impl Results {
    /// The sum of credits that the set has on record.
    pub closed spec fn spec_total_credits(&self) -> nat {
        self.total_credits as nat
    }

    /// The sum of weighted points that the set has on record.
    pub closed spec fn spec_weighted_points(&self) -> nat {
        self.weighted_points as nat
    }

    /// What is on record agrees with the entries: the two totals are the
    /// sums over them. The grade-point average is then their weighted
    /// mean, `spec_weighted_points() / spec_total_credits()`, and zero
    /// where there are no credits.
    pub open spec fn well_formed(&self) -> bool {
        &&& self.spec_total_credits() == sum_credits(self@)
        &&& self.spec_weighted_points() == sum_weighted(self@)
    }

    /// The empty set.
    pub fn new() -> (r: Self)
        ensures
            r@ == Seq::<SubjectResult>::empty(),
            r.spec_total_credits() == 0,
            r.spec_weighted_points() == 0,
            r.well_formed(),
    {
        Self { weighted_points: 0, total_credits: 0, subject_results: Vec::new() }
    }

    /// The number of entries.
    pub fn len(&self) -> (n: usize)
        ensures
            n == self@.len(),
    {
        self.subject_results.len()
    }

    /// The entries, in order.
    pub fn subject_results(&self) -> (entries: &Vec<SubjectResult>)
        ensures
            entries@ == self@,
    {
        &self.subject_results
    }

    /// The sum of the credits of all entries.
    pub fn total_credits(&self) -> (t: u128)
        ensures
            t == self.spec_total_credits(),
    {
        self.total_credits
    }

    /// The sum over all entries of points times credit.
    pub fn weighted_points(&self) -> (w: u128)
        ensures
            w == self.spec_weighted_points(),
    {
        self.weighted_points
    }

    /// The grade-point average as a fraction, numerator first: the
    /// weighted points over the total credits, and `0 / 1` where there
    /// are no credits.
    pub fn gpa(&self) -> (g: (u128, u128))
        ensures
            g.1 > 0,
            self.spec_total_credits() > 0 ==> g == (
                self.spec_weighted_points() as u128,
                self.spec_total_credits() as u128,
            ),
            self.spec_total_credits() == 0 ==> g == (0u128, 1u128),
    {
        if self.total_credits > 0 {
            (self.weighted_points, self.total_credits)
        } else {
            (0, 1)
        }
    }

    /// Decodes the text of a file. The totals are computed from the
    /// decoded entries alone.
    pub fn from_string(text: &str) -> (r: Result<Self, SubjectResultError>)
        ensures
            match r {
                Ok(set) => set.well_formed() && spec_decode(text@) == Ok::<
                    Seq<SubjectResult>,
                    SubjectResultErrorView,
                >(set@),
                Err(e) => spec_decode(text@) == Err::<Seq<SubjectResult>, SubjectResultErrorView>(
                    e@,
                ),
            },
    {
        let chars = to_chars(text);
        let lines = split(chars.as_slice(), '\n');
        let ghost all = texts(lines@);
        let mut entries: Vec<SubjectResult> = Vec::new();
        let mut i: usize = 0;
        assert(all.take(0) =~= Seq::<Seq<char>>::empty());
        while i < lines.len()
            invariant
                i <= lines@.len(),
                all == texts(lines@),
                all == spec_split(text@, '\n'),
                spec_decode_lines(all.take(i as int)) == Ok::<
                    Seq<SubjectResult>,
                    SubjectResultErrorView,
                >(entries@),
            decreases lines@.len() - i,
        {
            let line = lines[i].as_slice();
            proof {
                assert(all.take(i + 1).drop_last() =~= all.take(i as int));
                assert(all.take(i + 1).last() == line@);
            }
            if line.len() != 0 {
                match SubjectResult::from_chars(line) {
                    Ok(result) => {
                        entries.push(result);
                    },
                    Err(e) => {
                        proof {
                            lemma_decode_lines_failure(all, i + 1);
                        }
                        return Err(e);
                    },
                }
            }
            i += 1;
        }
        assert(all.take(i as int) =~= all);
        let mut set = Self { weighted_points: 0, total_credits: 0, subject_results: entries };
        set.recalculate_gpa();
        Ok(set)
    }

    /// The text of the file that stores this set.
    pub fn to_string(&self) -> (text: String)
        ensures
            text@ == spec_encode(self@),
    {
        let mut text = String::new();
        let n = self.subject_results.len();
        let mut i: usize = 0;
        assert(self@.take(0) =~= Seq::<SubjectResult>::empty());
        while i < n
            invariant
                i <= n,
                n == self@.len(),
                text@ == spec_encode(self@.take(i as int)),
            decreases n - i,
        {
            let ghost before = text@;
            self.subject_results[i].write_to(&mut text);
            text.push('\n');
            proof {
                assert(self@.take(i + 1).drop_last() =~= self@.take(i as int));
                assert(text@ =~= before + spec_to_string(self@[i as int]) + seq!['\n']);
            }
            i += 1;
        }
        assert(self@.take(i as int) =~= self@);
        text
    }

    /// One line for each entry, in order: its position in brackets, then
    /// its encoding.
    pub fn show_results(&self) -> (lines: Vec<String>)
        ensures
            lines@.len() == self@.len(),
            forall|i: int|
                0 <= i < self@.len() ==> (#[trigger] lines@[i])@ == spec_show_line(
                    i as nat,
                    self@[i],
                ),
    {
        let mut lines: Vec<String> = Vec::new();
        let n = self.subject_results.len();
        let mut i: usize = 0;
        while i < n
            invariant
                i <= n,
                n == self@.len(),
                lines@.len() == i,
                forall|j: int|
                    0 <= j < i ==> (#[trigger] lines@[j])@ == spec_show_line(j as nat, self@[j]),
            decreases n - i,
        {
            let mut line = String::new();
            line.push(' ');
            line.push(' ');
            line.push('[');
            push_decimal(&mut line, i as u64);
            line.push(']');
            line.push(' ');
            self.subject_results[i].write_to(&mut line);
            assert(line@ =~= spec_show_line(i as nat, self@[i as int]));
            lines.push(line);
            i += 1;
        }
        lines
    }

    /// The points that one more subject of `credit` credits must bring
    /// for the average to reach `target_gpa`. The set is not changed.
    pub fn expect_points(&self, target_gpa: Fraction, credit: u32) -> (r: Result<u32, ResultsError>)
        requires
            self.well_formed(),
        ensures
            reported(r) == spec_expect_points(self@, target_gpa, credit),
    {
        if credit == 0 || target_gpa.denominator == 0 {
            return Err(ResultsError::InvalidArgument);
        }
        let count = self.subject_results.len();
        let ghost t = sum_credits(self@) as int;
        let ghost w = sum_weighted(self@) as int;
        let ghost c = credit as int;
        let ghost d = target_gpa.denominator as int;
        let ghost m = target_gpa.numerator as int;
        proof {
            lemma_sums_bounded(self@);
            lemma_weighted_fits(count as nat, target_gpa.numerator as nat, credit as nat);
            assert(c * d > 0) by (nonlinear_arith)
                requires
                    c > 0,
                    d > 0,
            ;
            lemma_ceil_div_bounds(target_gpa.signed_numerator() * (t + c) - w * d, c * d);
        }
        if target_gpa.negative {
            proof {
                let top = -m * (t + c) - w * d;
                let q = ceil_div(top, c * d);
                assert(top <= 0) by (nonlinear_arith)
                    requires
                        m >= 0,
                        t >= 0,
                        c > 0,
                        w >= 0,
                        d > 0,
                        top == -m * (t + c) - w * d,
                ;
                assert(q <= 0) by (nonlinear_arith)
                    requires
                        (q - 1) * (c * d) < top,
                        top <= 0,
                        c * d > 0,
                ;
            }
            return Ok(0);
        }
        let base: u128 = self.total_credits + credit as u128;
        proof {
            assert(m * (t + c) <= 0xffff_ffff * (0x1_0000_0000_0000_0000 * 0xffff_ffff))
                by (nonlinear_arith)
                requires
                    0 <= m <= 0xffff_ffff,
                    0 <= t + c <= 0x1_0000_0000_0000_0000 * 0xffff_ffff,
            ;
        }
        let reach = div_ceil(target_gpa.numerator as u128 * base, target_gpa.denominator as u128);
        proof {
            lemma_ceil_div_nested(m * (t + c), w, c, d);
            lemma_ceil_div_bounds(reach - w, c);
        }
        if reach <= self.weighted_points {
            proof {
                let q = ceil_div(reach - w, c);
                assert(q <= 0) by (nonlinear_arith)
                    requires
                        (q - 1) * c < reach - w,
                        reach - w <= 0,
                        c > 0,
                ;
            }
            return Ok(0);
        }
        let need = div_ceil(reach - self.weighted_points, credit as u128);
        proof {
            let q = ceil_div(reach - w, c);
            assert(q >= 0) by (nonlinear_arith)
                requires
                    reach - w <= q * c,
                    reach - w > 0,
                    c > 0,
            ;
        }
        if need > u32::MAX as u128 {
            Ok(u32::MAX)
        } else {
            Ok(need as u32)
        }
    }

    /// Adds `result` behind the entries. The totals are brought up to
    /// date from their old values and the new entry alone.
    pub fn add_result(&mut self, result: SubjectResult)
        requires
            old(self).well_formed(),
        ensures
            final(self)@ == old(self)@.push(result),
            final(self).well_formed(),
    {
        let count = self.subject_results.len();
        proof {
            lemma_sums_bounded(self@);
            lemma_weighted_fits(count as nat, result.points as nat, result.credit as nat);
            assert(self@.push(result).drop_last() =~= self@);
        }
        self.total_credits = self.total_credits + result.credit as u128;
        self.weighted_points = self.weighted_points + result.points as u128 * result.credit as u128;
        self.subject_results.push(result);
    }

    /// Computes both totals again from the entries alone.
    pub fn recalculate_gpa(&mut self)
        ensures
            final(self)@ == old(self)@,
            final(self).well_formed(),
    {
        self.total_credits = 0;
        self.weighted_points = 0;
        let n = self.subject_results.len();
        let mut i: usize = 0;
        while i < n
            invariant
                i <= n,
                n == self.subject_results@.len(),
                self.subject_results@ == old(self).subject_results@,
                self.total_credits == sum_credits(self.subject_results@.take(i as int)),
                self.weighted_points == sum_weighted(self.subject_results@.take(i as int)),
            decreases n - i,
        {
            let s = self.subject_results[i];
            proof {
                let before = self.subject_results@.take(i as int);
                let after = self.subject_results@.take(i + 1);
                assert(after.drop_last() =~= before);
                lemma_sums_bounded(before);
                lemma_weighted_fits(before.len(), s.points as nat, s.credit as nat);
            }
            self.total_credits = self.total_credits + s.credit as u128;
            self.weighted_points = self.weighted_points + s.points as u128 * s.credit as u128;
            i += 1;
        }
        assert(self.subject_results@.take(i as int) =~= self.subject_results@);
    }

    /// Removes the entry at `index`; the entries behind it move down by
    /// one, and both totals are computed again from what is left. Where
    /// there is no such entry nothing changes.
    pub fn remove_result(&mut self, index: usize) -> (r: Result<(), ResultsError>)
        ensures
            index < old(self)@.len() ==> r is Ok && final(self)@ == old(self)@.remove(index as int)
                && final(self)@.len() == old(self)@.len() - 1 && final(self).well_formed(),
            index >= old(self)@.len() ==> r is Err && r->Err_0@ == (ResultsErrorView::OutOfBounds {
                idx: index,
            }) && *final(self) == *old(self),
    {
        if self.subject_results.len() <= index {
            return Err(ResultsError::OutOfBounds { idx: index });
        }
        self.subject_results.remove(index);
        self.recalculate_gpa();
        Ok(())
    }
}

/// The encodings of `rs`, one line each.
pub open spec fn spec_lines(rs: Seq<SubjectResult>) -> Seq<Seq<char>> {
    rs.map_values(|r: SubjectResult| spec_to_string(r))
}

/// The text of a file begins with the line of its first result.
pub proof fn lemma_encode_first(r: SubjectResult, rest: Seq<SubjectResult>)
    ensures
        spec_encode(seq![r] + rest) == spec_to_string(r) + seq!['\n'] + spec_encode(rest),
    decreases rest.len(),
{
    let all = seq![r] + rest;
    if rest.len() == 0 {
        assert(all.drop_last() =~= Seq::<SubjectResult>::empty());
        assert(spec_encode(all.drop_last()) =~= Seq::<char>::empty());
        assert(all.last() == r);
        assert(spec_encode(all) =~= spec_to_string(r) + seq!['\n'] + spec_encode(rest));
    } else {
        assert(all.drop_last() =~= seq![r] + rest.drop_last());
        lemma_encode_first(r, rest.drop_last());
        assert(spec_encode(all) =~= spec_to_string(r) + seq!['\n'] + spec_encode(rest));
    }
}

/// The text of a file splits into the lines of its results, and one
/// empty piece behind the last line end.
pub proof fn lemma_split_encode(rs: Seq<SubjectResult>)
    ensures
        spec_split(spec_encode(rs), '\n') == spec_lines(rs).push(Seq::empty()),
    decreases rs.len(),
{
    if rs.len() == 0 {
        assert(spec_split(spec_encode(rs), '\n') =~= spec_lines(rs).push(Seq::empty()));
    } else {
        let rest = rs.skip(1);
        assert(rs =~= seq![rs[0]] + rest);
        lemma_encode_first(rs[0], rest);
        lemma_encoding_is_one_line(rs[0]);
        lemma_split_cons(spec_to_string(rs[0]), spec_encode(rest), '\n');
        lemma_split_encode(rest);
        assert(seq![spec_to_string(rs[0])] + spec_lines(rest).push(Seq::empty()) =~= spec_lines(
            rs,
        ).push(Seq::empty()));
    }
}

/// The lines of `rs` decode to `rs`.
pub proof fn lemma_decode_lines_encoded(rs: Seq<SubjectResult>)
    ensures
        spec_decode_lines(spec_lines(rs)) == Ok::<Seq<SubjectResult>, SubjectResultErrorView>(rs),
    decreases rs.len(),
{
    if rs.len() == 0 {
        assert(rs =~= Seq::<SubjectResult>::empty());
    } else {
        lemma_decode_lines_encoded(rs.drop_last());
        assert(spec_lines(rs).drop_last() =~= spec_lines(rs.drop_last()));
        lemma_encoding_is_one_line(rs.last());
        lemma_decode_encode(rs.last());
        assert(rs.drop_last().push(rs.last()) =~= rs);
    }
}

/// Decoding the text of the file that stores `rs` gives `rs` back.
pub proof fn lemma_decode_encode_file(rs: Seq<SubjectResult>)
    ensures
        spec_decode(spec_encode(rs)) == Ok::<Seq<SubjectResult>, SubjectResultErrorView>(rs),
{
    lemma_split_encode(rs);
    lemma_decode_lines_encoded(rs);
    assert(spec_lines(rs).push(Seq::empty()).drop_last() =~= spec_lines(rs));
}

/// A set that was filled by adding the results `rs` one by one, and a set
/// that was decoded from the file that lists `rs`, hold the same entries,
/// the same total of credits and the same weighted points, and so the
/// same grade-point average.
pub proof fn lemma_adding_matches_decoding(
    rs: Seq<SubjectResult>,
    added: Results,
    decoded_from_file: Results,
)
    requires
        added.well_formed(),
        added@ == rs,
        decoded_from_file.well_formed(),
        spec_decode(spec_encode(rs)) == Ok::<Seq<SubjectResult>, SubjectResultErrorView>(
            decoded_from_file@,
        ),
    ensures
        decoded_from_file@ == added@,
        decoded_from_file.spec_total_credits() == added.spec_total_credits(),
        decoded_from_file.spec_weighted_points() == added.spec_weighted_points(),
{
    lemma_decode_encode_file(rs);
}

/// One more subject of `credit` credits that brings `p` points lifts the
/// average over `rs` and that subject to `target` or above exactly where
/// `p` is at least the points needed: the points needed are the least
/// that reach the target.
pub proof fn lemma_points_needed_is_least(
    rs: Seq<SubjectResult>,
    target: Fraction,
    credit: u32,
    p: int,
)
    requires
        credit > 0,
        target.denominator > 0,
    ensures
        (sum_weighted(rs) + p * credit) * target.denominator >= target.signed_numerator() * (
            sum_credits(rs) + credit) <==> p >= spec_points_needed(rs, target, credit),
{
    let w = sum_weighted(rs) as int;
    let t = sum_credits(rs) as int;
    let c = credit as int;
    let d = target.denominator as int;
    let m = target.signed_numerator();
    let top = m * (t + c) - w * d;
    let q = ceil_div(top, c * d);
    assert(c * d > 0) by (nonlinear_arith)
        requires
            c > 0,
            d > 0,
    ;
    lemma_ceil_div_bounds(top, c * d);
    assert((w + p * c) * d == w * d + p * (c * d)) by (nonlinear_arith);
    if p >= q {
        assert(p * (c * d) >= q * (c * d)) by (nonlinear_arith)
            requires
                p >= q,
                c * d > 0,
        ;
    } else {
        assert(p * (c * d) <= (q - 1) * (c * d)) by (nonlinear_arith)
            requires
                p <= q - 1,
                c * d > 0,
        ;
    }
}

/// One more term keeps both sums within 128 bits, however many there are.
proof fn lemma_weighted_fits(len: nat, p: nat, c: nat)
    requires
        len <= usize::MAX,
        p <= u32::MAX,
        c <= u32::MAX,
    ensures
        len * 0xffff_ffff + c <= u128::MAX,
        len * 0xffff_fffe_0000_0001 + p * c <= u128::MAX,
{
    assert(p * c <= 0xffff_fffe_0000_0001) by (nonlinear_arith)
        requires
            p <= 0xffff_ffff,
            c <= 0xffff_ffff,
    ;
    assert(len * 0xffff_fffe_0000_0001 <= 0xffff_ffff_ffff_ffff * 0xffff_fffe_0000_0001)
        by (nonlinear_arith)
        requires
            len <= 0xffff_ffff_ffff_ffff,
    ;
    assert(len * 0xffff_ffff <= 0xffff_ffff_ffff_ffff * 0xffff_ffff) by (nonlinear_arith)
        requires
            len <= 0xffff_ffff_ffff_ffff,
    ;
}

} // verus!
