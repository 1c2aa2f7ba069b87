//! Text primitives shared by the record format and the command language:
//! decimal numerals and splitting on a separator character.

use vstd::prelude::*;
use vstd::slice::slice_subrange;

verus! {

/// Whether `c` is one of the ten ASCII digits.
pub open spec fn is_digit(c: char) -> bool {
    '0' <= c && c <= '9'
}

/// The number that the digit `c` stands for.
pub open spec fn digit_value(c: char) -> nat
    recommends
        is_digit(c),
{
    (c as u32 - '0' as u32) as nat
}

/// The digit that stands for `d`.
pub open spec fn digit_char(d: nat) -> char
    recommends
        d < 10,
{
    (d + '0' as u32) as char
}

/// Whether every character of `s` is a digit.
pub open spec fn all_digits(s: Seq<char>) -> bool {
    forall|i: int| 0 <= i < s.len() ==> is_digit(#[trigger] s[i])
}

/// The number written by the digits `s`, most significant first.
pub open spec fn digits_value(s: Seq<char>) -> nat
    decreases s.len(),
{
    if s.len() == 0 {
        0
    } else {
        10 * digits_value(s.drop_last()) + digit_value(s.last())
    }
}

/// The decimal numeral of `n`, without leading zeros.
pub open spec fn decimal(n: nat) -> Seq<char>
    decreases n,
{
    if n < 10 {
        seq![digit_char(n)]
    } else {
        decimal(n / 10).push(digit_char(n % 10))
    }
}

/// A digit and its value determine each other.
pub proof fn lemma_digit_char_value(d: nat)
    requires
        d < 10,
    ensures
        is_digit(digit_char(d)),
        digit_value(digit_char(d)) == d,
{
}

/// Whether `c` is a digit.
fn is_digit_char(c: char) -> (b: bool)
    ensures
        b == is_digit(c),
{
    c >= '0' && c <= '9'
}

/// The number that the digit `c` stands for.
fn value_of_digit(c: char) -> (d: u8)
    requires
        is_digit(c),
    ensures
        d == digit_value(c),
        d < 10,
{
    (c as u32 - '0' as u32) as u8
}

/// The digit that stands for `d`.
fn char_of_digit(d: u8) -> (c: char)
    requires
        d < 10,
    ensures
        c == digit_char(d as nat),
{
    (d + 48u8) as char
}

/// The numeral of a number is made of digits and reads back as that number.
pub proof fn lemma_decimal_reads_back(n: nat)
    ensures
        decimal(n).len() > 0,
        all_digits(decimal(n)),
        digits_value(decimal(n)) == n,
    decreases n,
{
    let s = decimal(n);
    if n < 10 {
        lemma_digit_char_value(n);
        assert(s.drop_last() =~= Seq::<char>::empty());
        assert(digits_value(s.drop_last()) == 0);
    } else {
        lemma_decimal_reads_back(n / 10);
        lemma_digit_char_value(n % 10);
        assert(s.drop_last() =~= decimal(n / 10));
    }
}

/// A prefix of a digit string never writes a larger number than the whole.
pub proof fn lemma_digits_value_prefix(s: Seq<char>, k: int)
    requires
        0 <= k <= s.len(),
    ensures
        digits_value(s.take(k)) <= digits_value(s),
    decreases s.len(),
{
    if k == s.len() {
        assert(s.take(k) =~= s);
    } else {
        lemma_digits_value_prefix(s.drop_last(), k);
        assert(s.drop_last().take(k) =~= s.take(k));
    }
}

/// The number that `d` writes, where `d` is one digit or more and nothing
/// else, and the number fits in 32 bits.
pub open spec fn spec_parse_digits(d: Seq<char>) -> Option<u32> {
    if d.len() > 0 && all_digits(d) && digits_value(d) <= u32::MAX {
        Some(digits_value(d) as u32)
    } else {
        None
    }
}

/// The digits of an unsigned numeral: the text without one leading `+`.
pub open spec fn unsigned_digits(s: Seq<char>) -> Seq<char> {
    if s.len() > 0 && s[0] == '+' {
        s.skip(1)
    } else {
        s
    }
}

/// The value of `s` read as an unsigned 32-bit numeral: an optional `+`,
/// then at least one digit and nothing else, writing a number that fits.
pub open spec fn spec_parse_u32(s: Seq<char>) -> Option<u32> {
    spec_parse_digits(unsigned_digits(s))
}

/// Reads a run of digits as a number of 32 bits.
pub fn parse_digits(d: &[char]) -> (r: Option<u32>)
    ensures
        r == spec_parse_digits(d@),
{
    let n = d.len();
    if n == 0 {
        return None;
    }
    let mut i: usize = 0;
    let mut acc: u64 = 0;
    while i < n
        invariant
            i <= n,
            n == d@.len(),
            all_digits(d@.take(i as int)),
            acc == digits_value(d@.take(i as int)),
            acc <= u32::MAX,
        decreases n - i,
    {
        let c = d[i];
        if !is_digit_char(c) {
            assert(!is_digit(d@[i as int]));
            return None;
        }
        let v = value_of_digit(c);
        proof {
            let next = d@.take(i + 1);
            assert(next.drop_last() =~= d@.take(i as int));
            assert(next.last() == c);
            lemma_digits_value_prefix(d@, i + 1);
        }
        acc = acc * 10 + v as u64;
        if acc > u32::MAX as u64 {
            return None;
        }
        i += 1;
    }
    assert(d@.take(i as int) =~= d@);
    Some(acc as u32)
}

/// Reads `s` as an unsigned 32-bit numeral.
pub fn parse_u32(s: &[char]) -> (r: Option<u32>)
    ensures
        r == spec_parse_u32(s@),
{
    let n = s.len();
    let start: usize = if n > 0 && s[0] == '+' { 1 } else { 0 };
    assert(s@.skip(start as int) =~= s@.subrange(start as int, n as int));
    assert(s@.skip(0) =~= s@);
    parse_digits(slice_subrange(s, start, n))
}

/// The position of the first `sep` in `s`, or the length of `s` where
/// there is none.
pub open spec fn first_index(s: Seq<char>, sep: char) -> int
    decreases s.len(),
{
    if s.len() == 0 || s[0] == sep {
        0
    } else {
        1 + first_index(s.skip(1), sep)
    }
}

/// The pieces of `s` between occurrences of `sep`, in order. A text
/// without `sep` is one piece, so there is always at least one; two
/// separators in a row have an empty piece between them.
pub open spec fn spec_split(s: Seq<char>, sep: char) -> Seq<Seq<char>>
    decreases s.len(),
{
    let i = first_index(s, sep);
    if 0 <= i < s.len() {
        seq![s.take(i)] + spec_split(s.skip(i + 1), sep)
    } else {
        seq![s]
    }
}

/// Splitting always gives at least one piece.
pub proof fn lemma_split_nonempty(s: Seq<char>, sep: char)
    ensures
        spec_split(s, sep).len() >= 1,
{
}

/// Whether `sep` occurs nowhere in `s`.
pub open spec fn free_of(s: Seq<char>, sep: char) -> bool {
    forall|i: int| 0 <= i < s.len() ==> #[trigger] s[i] != sep
}

/// Where the first `k` characters hold no `sep`, the first `sep` comes at
/// `k` if one stands there, and nowhere if `k` is the end.
pub proof fn lemma_first_index(s: Seq<char>, sep: char, k: int)
    requires
        0 <= k <= s.len(),
        free_of(s.take(k), sep),
        k < s.len() ==> s[k] == sep,
    ensures
        first_index(s, sep) == k,
    decreases k,
{
    if k == 0 {
    } else {
        assert(s.take(k)[0] != sep);
        let t = s.skip(1);
        assert(t.take(k - 1) =~= s.take(k).skip(1));
        assert(free_of(t.take(k - 1), sep)) by {
            assert forall|i: int| 0 <= i < t.take(k - 1).len() implies #[trigger] t.take(k - 1)[i]
                != sep by {
                assert(t.take(k - 1)[i] == s.take(k)[i + 1]);
            }
        }
        lemma_first_index(t, sep, k - 1);
    }
}

/// A text without the separator splits into itself alone.
pub proof fn lemma_split_single(s: Seq<char>, sep: char)
    requires
        free_of(s, sep),
    ensures
        spec_split(s, sep) == seq![s],
{
    assert(s.take(s.len() as int) =~= s);
    lemma_first_index(s, sep, s.len() as int);
}

/// A text without the separator, then the separator, then any text:
/// the first is the first piece, and the rest splits on its own.
pub proof fn lemma_split_cons(a: Seq<char>, rest: Seq<char>, sep: char)
    requires
        free_of(a, sep),
    ensures
        spec_split(a + seq![sep] + rest, sep) == seq![a] + spec_split(rest, sep),
{
    let s = a + seq![sep] + rest;
    let k = a.len() as int;
    assert(s.take(k) =~= a);
    assert(s[k] == sep);
    lemma_first_index(s, sep, k);
    assert(s.skip(k + 1) =~= rest);
}

/// Two texts without the separator, joined by it, split into the two.
pub proof fn lemma_split_pair(a: Seq<char>, b: Seq<char>, sep: char)
    requires
        free_of(a, sep),
        free_of(b, sep),
    ensures
        spec_split(a + seq![sep] + b, sep) == seq![a, b],
{
    lemma_split_cons(a, b, sep);
    lemma_split_single(b, sep);
    assert(seq![a] + seq![b] =~= seq![a, b]);
}

/// The texts that the vectors of `v` hold, in order.
pub open spec fn texts(v: Seq<Vec<char>>) -> Seq<Seq<char>> {
    v.map_values(|t: Vec<char>| t@)
}

/// Splits `s` at every `sep`.
pub fn split(s: &[char], sep: char) -> (out: Vec<Vec<char>>)
    ensures
        texts(out@) == spec_split(s@, sep),
{
    let n = s.len();
    let mut out: Vec<Vec<char>> = Vec::new();
    let mut piece: Vec<char> = Vec::new();
    let ghost mut start: int = 0;
    let mut i: usize = 0;
    proof {
        assert(s@.skip(0) =~= s@);
        assert(texts(out@) + spec_split(s@, sep) =~= spec_split(s@, sep));
    }
    while i < n
        invariant
            n == s@.len(),
            0 <= start <= i <= n,
            piece@ == s@.subrange(start, i as int),
            free_of(piece@, sep),
            spec_split(s@, sep) == texts(out@) + spec_split(s@.skip(start), sep),
        decreases n - i,
    {
        let c = s[i];
        if c == sep {
            proof {
                let rest = s@.skip(start);
                assert(rest.take(i - start) =~= piece@);
                lemma_first_index(rest, sep, i - start);
                assert(rest.skip(i - start + 1) =~= s@.skip(i + 1));
                assert(texts(out@.push(piece)) =~= texts(out@) + seq![piece@]);
                start = i + 1;
            }
            out.push(piece);
            piece = Vec::new();
            assert(piece@ =~= s@.subrange(start, i + 1));
        } else {
            piece.push(c);
            assert(piece@ =~= s@.subrange(start, i + 1));
        }
        i += 1;
    }
    proof {
        let rest = s@.skip(start);
        assert(rest =~= piece@);
        lemma_split_single(rest, sep);
        assert(texts(out@.push(piece)) =~= texts(out@) + seq![piece@]);
    }
    out.push(piece);
    out
}

/// `String::push` of the standard library: the character is added at the
/// end and nothing else changes.
pub assume_specification[ String::push ](s: &mut String, ch: char)
    ensures
        final(s)@ == old(s)@.push(ch),
;

/// Appends the decimal numeral of `n` to `out`.
pub fn push_decimal(out: &mut String, n: u64)
    ensures
        final(out)@ == old(out)@ + decimal(n as nat),
    decreases n,
{
    if n >= 10 {
        push_decimal(out, n / 10);
    }
    out.push(char_of_digit((n % 10) as u8));
    assert(out@ =~= old(out)@ + decimal(n as nat));
}

/// The characters of `s`, in order.
pub fn to_chars(s: &str) -> (out: Vec<char>)
    ensures
        out@ == s@,
{
    let mut out: Vec<char> = Vec::new();
    for c in it: s.chars()
        invariant
            it.seq() == s@,
            out@ =~= s@.take(it.index()),
    {
        out.push(c);
    }
    assert(out@ =~= s@);
    out
}

/// Appends the characters of `s` to `out`.
pub fn push_chars(out: &mut String, s: &[char])
    ensures
        final(out)@ == old(out)@ + s@,
{
    let mut i: usize = 0;
    while i < s.len()
        invariant
            i <= s@.len(),
            out@ == old(out)@ + s@.take(i as int),
        decreases s@.len() - i,
    {
        out.push(s[i]);
        assert(out@ =~= old(out)@ + s@.take(i + 1));
        i += 1;
    }
    assert(s@.take(i as int) =~= s@);
}

/// The string made of the characters `s`.
pub fn string_of(s: &[char]) -> (out: String)
    ensures
        out@ == s@,
{
    let mut out = String::new();
    push_chars(&mut out, s);
    assert(out@ =~= s@);
    out
}

} // verus!
