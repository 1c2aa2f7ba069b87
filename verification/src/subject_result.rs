//! One subject's outcome and its one-line text form, `"<points> <credit>"`.

use vstd::prelude::*;
use crate::text::{
    decimal, free_of, lemma_decimal_reads_back, lemma_split_pair, parse_u32, push_decimal,
    spec_parse_u32, spec_split, split, string_of, texts, to_chars, unsigned_digits,
};

verus! {

/// The grade points earned in a subject and the credit hours it weighs.
#[derive(Debug, Clone, Copy, PartialEq, Eq, Structural)]
pub struct SubjectResult {
    pub points: u32,
    pub credit: u32,
}

/// Why a line of text is not a subject result.
#[derive(Debug, PartialEq, Eq)]
pub enum SubjectResultError {
    /// The line does not consist of exactly `expected` fields.
    IncorrectNumberOfArguments { expected: usize, actual: usize },
    /// The field `value` is not an unsigned 32-bit numeral.
    CouldNotParse { value: String },
}

/// A `SubjectResultError` with its text as a sequence of characters.
pub enum SubjectResultErrorView {
    IncorrectNumberOfArguments { expected: usize, actual: usize },
    CouldNotParse { value: Seq<char> },
}

impl View for SubjectResultError {
    type V = SubjectResultErrorView;

    open spec fn view(&self) -> SubjectResultErrorView {
        match *self {
            SubjectResultError::IncorrectNumberOfArguments { expected, actual } => {
                SubjectResultErrorView::IncorrectNumberOfArguments { expected, actual }
            },
            SubjectResultError::CouldNotParse { value } => SubjectResultErrorView::CouldNotParse {
                value: value@,
            },
        }
    }
}

/// What a numeral field holds, or the complaint that names the field.
pub open spec fn spec_from_str_to_int(field: Seq<char>) -> Result<u32, SubjectResultErrorView> {
    match spec_parse_u32(field) {
        Some(n) => Ok(n),
        None => Err(SubjectResultErrorView::CouldNotParse { value: field }),
    }
}

/// The subject result that `line` encodes. The line is split at every
/// single space and must give exactly two fields, both unsigned 32-bit
/// numerals: the points, then the credit. A bad count is reported before
/// a bad field, and the points before the credit.
pub open spec fn spec_from_string(line: Seq<char>) -> Result<SubjectResult, SubjectResultErrorView> {
    let fields = spec_split(line, ' ');
    if fields.len() != 2 {
        Err(
            SubjectResultErrorView::IncorrectNumberOfArguments {
                expected: 2,
                actual: fields.len() as usize,
            },
        )
    } else {
        match spec_from_str_to_int(fields[0]) {
            Err(e) => Err(e),
            Ok(points) => match spec_from_str_to_int(fields[1]) {
                Err(e) => Err(e),
                Ok(credit) => Ok(SubjectResult { points, credit }),
            },
        }
    }
}

/// The line that encodes `r`: both numerals in decimal, one space between.
pub open spec fn spec_to_string(r: SubjectResult) -> Seq<char> {
    decimal(r.points as nat) + seq![' '] + decimal(r.credit as nat)
}

/// What a fallible result is, with the error taken by its view.
pub open spec fn decoded<T>(r: Result<T, SubjectResultError>) -> Result<T, SubjectResultErrorView> {
    match r {
        Ok(v) => Ok(v),
        Err(e) => Err(e@),
    }
}

impl SubjectResult {
    /// A result of `points` grade points on `credit` credit hours.
    pub fn new(points: u32, credit: u32) -> (r: Self)
        ensures
            r == (SubjectResult { points, credit }),
    {
        Self { points, credit }
    }

    /// Reads one numeral field.
    pub fn from_str_to_int(field: &[char]) -> (r: Result<u32, SubjectResultError>)
        ensures
            decoded(r) == spec_from_str_to_int(field@),
    {
        match parse_u32(field) {
            Some(value) => Ok(value),
            None => Err(SubjectResultError::CouldNotParse { value: string_of(field) }),
        }
    }

    /// Decodes a line whose characters are `line`.
    pub fn from_chars(line: &[char]) -> (r: Result<Self, SubjectResultError>)
        ensures
            decoded(r) == spec_from_string(line@),
    {
        let data = split(line, ' ');
        assert(texts(data@).len() == data@.len());
        if data.len() != 2 {
            return Err(
                SubjectResultError::IncorrectNumberOfArguments { expected: 2, actual: data.len() },
            );
        }
        assert(texts(data@)[0] == data@[0]@);
        assert(texts(data@)[1] == data@[1]@);
        let points = match SubjectResult::from_str_to_int(data[0].as_slice()) {
            Ok(v) => v,
            Err(e) => { return Err(e); },
        };
        let credit = match SubjectResult::from_str_to_int(data[1].as_slice()) {
            Ok(v) => v,
            Err(e) => { return Err(e); },
        };
        Ok(Self { points, credit })
    }

    /// Decodes one line of text.
    pub fn from_string(line: &str) -> (r: Result<Self, SubjectResultError>)
        ensures
            decoded(r) == spec_from_string(line@),
    {
        let chars = to_chars(line);
        SubjectResult::from_chars(chars.as_slice())
    }

    /// Appends the encoding of this result to `out`.
    pub fn write_to(&self, out: &mut String)
        ensures
            final(out)@ == old(out)@ + spec_to_string(*self),
    {
        push_decimal(out, self.points as u64);
        out.push(' ');
        push_decimal(out, self.credit as u64);
        assert(out@ =~= old(out)@ + spec_to_string(*self));
    }

    /// Encodes this result as one line of text, without a line end.
    pub fn to_string(&self) -> (line: String)
        ensures
            line@ == spec_to_string(*self),
    {
        let mut line = String::new();
        self.write_to(&mut line);
        assert(line@ =~= spec_to_string(*self));
        line
    }
}

/// A decimal numeral holds no `sep` unless `sep` is a digit.
pub proof fn lemma_decimal_free_of(n: nat, sep: char)
    requires
        !crate::text::is_digit(sep),
    ensures
        free_of(decimal(n), sep),
{
    lemma_decimal_reads_back(n);
}

/// A decimal numeral of a number that fits reads back as that number.
pub proof fn lemma_parse_decimal(n: u32)
    ensures
        spec_parse_u32(decimal(n as nat)) == Some(n),
{
    lemma_decimal_reads_back(n as nat);
    let s = decimal(n as nat);
    assert(crate::text::is_digit(s[0]));
    assert(unsigned_digits(s) == s);
}

/// The encoding of a subject result is not empty and holds no line end.
pub proof fn lemma_encoding_is_one_line(r: SubjectResult)
    ensures
        spec_to_string(r).len() > 0,
        free_of(spec_to_string(r), '\n'),
{
    lemma_decimal_free_of(r.points as nat, '\n');
    lemma_decimal_free_of(r.credit as nat, '\n');
}

/// Decoding the encoding of a subject result gives that result back.
pub proof fn lemma_decode_encode(r: SubjectResult)
    ensures
        spec_from_string(spec_to_string(r)) == Ok::<SubjectResult, SubjectResultErrorView>(r),
{
    let a = decimal(r.points as nat);
    let b = decimal(r.credit as nat);
    lemma_decimal_free_of(r.points as nat, ' ');
    lemma_decimal_free_of(r.credit as nat, ' ');
    lemma_split_pair(a, b, ' ');
    lemma_parse_decimal(r.points);
    lemma_parse_decimal(r.credit);
}

} // verus!
