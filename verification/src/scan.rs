//! Scanning of text: the small recognisers that parsing is built from.
//!
//! Input is held as a sequence of characters and a position in it. Where a recogniser
//! measures the rest of the input by its length in UTF-8 bytes, so do these.

use vstd::prelude::*;
use crate::weekday::{Weekday, spec_num_days_from_monday};

verus! {

/// Why a text could not be parsed.
#[derive(Clone, Copy, Debug, PartialEq, Eq, Structural)]
pub enum ParseError {
    /// A field was given a value outside its range.
    OutOfRange,
    /// Two fields contradict each other.
    Impossible,
    /// Not enough fields were given to build the value.
    NotEnough,
    /// The text does not match the expected form.
    Invalid,
    /// The text ended before the expected form did.
    TooShort,
    /// The text goes on after the expected form.
    TooLong,
    /// The format itself is malformed.
    BadFormat,
}

/// Number of bytes in the UTF-8 encoding of `c`.
pub open spec fn utf8_len(c: char) -> int {
    if (c as u32) < 0x80 {
        1
    } else if (c as u32) < 0x800 {
        2
    } else if (c as u32) < 0x10000 {
        3
    } else {
        4
    }
}

/// Number of bytes in the UTF-8 encoding of `s`.
pub open spec fn utf8_bytes(s: Seq<char>) -> int
    decreases s.len(),
{
    if s.len() == 0 {
        0
    } else {
        utf8_bytes(s.drop_last()) + utf8_len(s.last())
    }
}

/// The characters of `s` from `pos` to the end.
pub open spec fn rest(s: Seq<char>, pos: int) -> Seq<char> {
    s.subrange(pos, s.len() as int)
}

pub proof fn lemma_utf8_bytes_concat(a: Seq<char>, b: Seq<char>)
    ensures
        utf8_bytes(a + b) == utf8_bytes(a) + utf8_bytes(b),
    decreases b.len(),
{
    if b.len() > 0 {
        lemma_utf8_bytes_concat(a, b.drop_last());
        assert((a + b).drop_last() =~= a + b.drop_last());
    } else {
        assert(a + b =~= a);
    }
}

pub proof fn lemma_utf8_bytes_at_least_len(s: Seq<char>)
    ensures
        utf8_bytes(s) >= s.len(),
    decreases s.len(),
{
    if s.len() > 0 {
        lemma_utf8_bytes_at_least_len(s.drop_last());
    }
}

/// The number of bytes in the UTF-8 encoding of `c`.
pub fn utf8_len_exec(c: char) -> (w: u128)
    ensures
        w == utf8_len(c),
{
    let code = c as u32;
    if code < 0x80 {
        1
    } else if code < 0x800 {
        2
    } else if code < 0x10000 {
        3
    } else {
        4
    }
}

/// Whether the rest of the input from `pos` holds at least `n` bytes.
pub fn bytes_at_least(s: &Vec<char>, pos: usize, n: u128) -> (r: bool)
    requires
        pos <= s.len(),
    ensures
        r == (utf8_bytes(rest(s@, pos as int)) >= n),
{
    let mut i = pos;
    let mut acc: u128 = 0;
    while i < s.len() && acc < n
        invariant
            pos <= i <= s.len(),
            acc <= 4 * (i - pos),
            acc == utf8_bytes(s@.subrange(pos as int, i as int)),
        decreases s.len() - i,
    {
        let c = s[i];
        let w = utf8_len_exec(c);
        proof {
            let next = s@.subrange(pos as int, i + 1);
            assert(next.drop_last() =~= s@.subrange(pos as int, i as int));
            assert(next.last() == c);
        }
        acc = acc + w;
        i = i + 1;
    }
    proof {
        let whole = rest(s@, pos as int);
        let front = s@.subrange(pos as int, i as int);
        let back = s@.subrange(i as int, s@.len() as int);
        assert(whole =~= front + back);
        lemma_utf8_bytes_concat(front, back);
        lemma_utf8_bytes_at_least_len(back);
    }
    acc >= n
}

/// `c` is the ASCII letter `lower` in either case.
pub open spec fn ascii_ci_eq(c: char, lower: char) -> bool {
    c == lower || c as u32 + 32 == lower as u32
}

/// `ascii_ci_eq` for a lowercase ASCII letter `lower`.
pub fn ascii_ci_eq_exec(c: char, lower: char) -> (r: bool)
    requires
        'a' <= lower <= 'z',
    ensures
        r == ascii_ci_eq(c, lower),
{
    c == lower || (c as u32) + 32 == lower as u32
}

/// The weekday whose three-letter abbreviation is `a b c`, in any case.
pub open spec fn weekday_from_abbrev(a: char, b: char, c: char) -> Option<Weekday> {
    if ascii_ci_eq(a, 'm') && ascii_ci_eq(b, 'o') && ascii_ci_eq(c, 'n') {
        Some(Weekday::Mon)
    } else if ascii_ci_eq(a, 't') && ascii_ci_eq(b, 'u') && ascii_ci_eq(c, 'e') {
        Some(Weekday::Tue)
    } else if ascii_ci_eq(a, 'w') && ascii_ci_eq(b, 'e') && ascii_ci_eq(c, 'd') {
        Some(Weekday::Wed)
    } else if ascii_ci_eq(a, 't') && ascii_ci_eq(b, 'h') && ascii_ci_eq(c, 'u') {
        Some(Weekday::Thu)
    } else if ascii_ci_eq(a, 'f') && ascii_ci_eq(b, 'r') && ascii_ci_eq(c, 'i') {
        Some(Weekday::Fri)
    } else if ascii_ci_eq(a, 's') && ascii_ci_eq(b, 'a') && ascii_ci_eq(c, 't') {
        Some(Weekday::Sat)
    } else if ascii_ci_eq(a, 's') && ascii_ci_eq(b, 'u') && ascii_ci_eq(c, 'n') {
        Some(Weekday::Sun)
    } else {
        None
    }
}

/// What follows the three-letter abbreviation in the full name of `w`, in lowercase.
pub open spec fn long_weekday_suffix(w: Weekday) -> Seq<char> {
    match w {
        Weekday::Mon => seq!['d', 'a', 'y'],
        Weekday::Tue => seq!['s', 'd', 'a', 'y'],
        Weekday::Wed => seq!['n', 'e', 's', 'd', 'a', 'y'],
        Weekday::Thu => seq!['r', 's', 'd', 'a', 'y'],
        Weekday::Fri => seq!['d', 'a', 'y'],
        Weekday::Sat => seq!['u', 'r', 'd', 'a', 'y'],
        Weekday::Sun => seq!['d', 'a', 'y'],
    }
}

/// The input at `pos` starts with `pat`, ignoring ASCII case.
pub open spec fn starts_with_ci(s: Seq<char>, pos: int, pat: Seq<char>) -> bool {
    &&& 0 <= pos
    &&& pos + pat.len() <= s.len()
    &&& forall|i: int| 0 <= i < pat.len() ==> ascii_ci_eq(#[trigger] s[pos + i], pat[i])
}

/// A three-letter weekday abbreviation at `pos`: the position after it and the weekday.
pub open spec fn spec_short_weekday(s: Seq<char>, pos: int) -> Result<(int, Weekday), ParseError> {
    if utf8_bytes(rest(s, pos)) < 3 {
        Err(ParseError::TooShort)
    } else if pos + 3 <= s.len() && weekday_from_abbrev(s[pos], s[pos + 1], s[pos + 2]) is Some {
        Ok((pos + 3, weekday_from_abbrev(s[pos], s[pos + 1], s[pos + 2])->0))
    } else {
        Err(ParseError::Invalid)
    }
}

/// A weekday abbreviation at `pos`, followed if present by the rest of its full name.
pub open spec fn spec_short_or_long_weekday(s: Seq<char>, pos: int) -> Result<(int, Weekday), ParseError> {
    match spec_short_weekday(s, pos) {
        Ok((p, w)) => if starts_with_ci(s, p, long_weekday_suffix(w)) {
            Ok((p + long_weekday_suffix(w).len(), w))
        } else {
            Ok((p, w))
        },
        Err(e) => Err(e),
    }
}

/// Reads a three-letter weekday abbreviation, in any case.
pub fn short_weekday(s: &Vec<char>, pos: usize) -> (r: Result<(usize, Weekday), ParseError>)
    requires
        pos <= s.len(),
    ensures
        r matches Ok((p, w)) ==> spec_short_weekday(s@, pos as int) == Ok::<(int, Weekday), ParseError>((p as int, w)),
        r matches Err(e) ==> spec_short_weekday(s@, pos as int) == Err::<(int, Weekday), ParseError>(e),
{
    if !bytes_at_least(s, pos, 3) {
        return Err(ParseError::TooShort);
    }
    if s.len() - pos < 3 {
        return Err(ParseError::Invalid);
    }
    let a = s[pos];
    let b = s[pos + 1];
    let c = s[pos + 2];
    let w = if ascii_ci_eq_exec(a, 'm') && ascii_ci_eq_exec(b, 'o') && ascii_ci_eq_exec(c, 'n') {
        Weekday::Mon
    } else if ascii_ci_eq_exec(a, 't') && ascii_ci_eq_exec(b, 'u') && ascii_ci_eq_exec(c, 'e') {
        Weekday::Tue
    } else if ascii_ci_eq_exec(a, 'w') && ascii_ci_eq_exec(b, 'e') && ascii_ci_eq_exec(c, 'd') {
        Weekday::Wed
    } else if ascii_ci_eq_exec(a, 't') && ascii_ci_eq_exec(b, 'h') && ascii_ci_eq_exec(c, 'u') {
        Weekday::Thu
    } else if ascii_ci_eq_exec(a, 'f') && ascii_ci_eq_exec(b, 'r') && ascii_ci_eq_exec(c, 'i') {
        Weekday::Fri
    } else if ascii_ci_eq_exec(a, 's') && ascii_ci_eq_exec(b, 'a') && ascii_ci_eq_exec(c, 't') {
        Weekday::Sat
    } else if ascii_ci_eq_exec(a, 's') && ascii_ci_eq_exec(b, 'u') && ascii_ci_eq_exec(c, 'n') {
        Weekday::Sun
    } else {
        return Err(ParseError::Invalid);
    };
    Ok((pos + 3, w))
}

/// Whether the input at `pos` starts with the lowercase ASCII text `pat`, ignoring case.
pub fn starts_with_ci_exec(s: &Vec<char>, pos: usize, pat: &Vec<char>) -> (r: bool)
    requires
        pos <= s.len(),
        forall|i: int| 0 <= i < pat.len() ==> 'a' <= #[trigger] pat[i] <= 'z',
    ensures
        r == starts_with_ci(s@, pos as int, pat@),
{
    if s.len() - pos < pat.len() {
        return false;
    }
    let mut i: usize = 0;
    while i < pat.len()
        invariant
            i <= pat.len(),
            pos + pat.len() <= s.len(),
            forall|j: int| 0 <= j < pat.len() ==> 'a' <= #[trigger] pat[j] <= 'z',
            forall|j: int| 0 <= j < i ==> ascii_ci_eq(#[trigger] s@[pos + j], pat@[j]),
        decreases pat.len() - i,
    {
        if !ascii_ci_eq_exec(s[pos + i], pat[i]) {
            return false;
        }
        i = i + 1;
    }
    true
}

/// The lowercase rest of the full name of `w`, as a vector.
fn long_weekday_suffix_exec(w: Weekday) -> (v: Vec<char>)
    ensures
        v@ == long_weekday_suffix(w),
        forall|i: int| 0 <= i < v.len() ==> 'a' <= #[trigger] v[i] <= 'z',
{
    let v = match w {
        Weekday::Mon => vec!['d', 'a', 'y'],
        Weekday::Tue => vec!['s', 'd', 'a', 'y'],
        Weekday::Wed => vec!['n', 'e', 's', 'd', 'a', 'y'],
        Weekday::Thu => vec!['r', 's', 'd', 'a', 'y'],
        Weekday::Fri => vec!['d', 'a', 'y'],
        Weekday::Sat => vec!['u', 'r', 'd', 'a', 'y'],
        Weekday::Sun => vec!['d', 'a', 'y'],
    };
    assert(v@ =~= long_weekday_suffix(w));
    v
}

/// Reads a weekday abbreviation and, where it follows, the rest of the full name.
pub fn short_or_long_weekday(s: &Vec<char>, pos: usize) -> (r: Result<(usize, Weekday), ParseError>)
    requires
        pos <= s.len(),
    ensures
        r matches Ok((p, w)) ==> spec_short_or_long_weekday(s@, pos as int) == Ok::<(int, Weekday), ParseError>((p as int, w)) && p <= s.len(),
        r matches Err(e) ==> spec_short_or_long_weekday(s@, pos as int) == Err::<(int, Weekday), ParseError>(e),
{
    let (p, w) = short_weekday(s, pos)?;
    let suffix = long_weekday_suffix_exec(w);
    if starts_with_ci_exec(s, p, &suffix) {
        Ok((p + suffix.len(), w))
    } else {
        Ok((p, w))
    }
}

/// The month (1 to 12) whose three-letter English abbreviation is `a b c`, in any case.
pub open spec fn month_from_abbrev(a: char, b: char, c: char) -> Option<int> {
    if ascii_ci_eq(a, 'j') && ascii_ci_eq(b, 'a') && ascii_ci_eq(c, 'n') {
        Some(1)
    } else if ascii_ci_eq(a, 'f') && ascii_ci_eq(b, 'e') && ascii_ci_eq(c, 'b') {
        Some(2)
    } else if ascii_ci_eq(a, 'm') && ascii_ci_eq(b, 'a') && ascii_ci_eq(c, 'r') {
        Some(3)
    } else if ascii_ci_eq(a, 'a') && ascii_ci_eq(b, 'p') && ascii_ci_eq(c, 'r') {
        Some(4)
    } else if ascii_ci_eq(a, 'm') && ascii_ci_eq(b, 'a') && ascii_ci_eq(c, 'y') {
        Some(5)
    } else if ascii_ci_eq(a, 'j') && ascii_ci_eq(b, 'u') && ascii_ci_eq(c, 'n') {
        Some(6)
    } else if ascii_ci_eq(a, 'j') && ascii_ci_eq(b, 'u') && ascii_ci_eq(c, 'l') {
        Some(7)
    } else if ascii_ci_eq(a, 'a') && ascii_ci_eq(b, 'u') && ascii_ci_eq(c, 'g') {
        Some(8)
    } else if ascii_ci_eq(a, 's') && ascii_ci_eq(b, 'e') && ascii_ci_eq(c, 'p') {
        Some(9)
    } else if ascii_ci_eq(a, 'o') && ascii_ci_eq(b, 'c') && ascii_ci_eq(c, 't') {
        Some(10)
    } else if ascii_ci_eq(a, 'n') && ascii_ci_eq(b, 'o') && ascii_ci_eq(c, 'v') {
        Some(11)
    } else if ascii_ci_eq(a, 'd') && ascii_ci_eq(b, 'e') && ascii_ci_eq(c, 'c') {
        Some(12)
    } else {
        None
    }
}

/// What follows the three-letter abbreviation in the full English name of month `m`, in
/// lowercase.
pub open spec fn long_month_suffix(m: int) -> Seq<char> {
    if m == 1 {
        seq!['u', 'a', 'r', 'y']
    } else if m == 2 {
        seq!['r', 'u', 'a', 'r', 'y']
    } else if m == 3 {
        seq!['c', 'h']
    } else if m == 4 {
        seq!['i', 'l']
    } else if m == 5 {
        Seq::empty()
    } else if m == 6 {
        seq!['e']
    } else if m == 7 {
        seq!['y']
    } else if m == 8 {
        seq!['u', 's', 't']
    } else if m == 9 {
        seq!['t', 'e', 'm', 'b', 'e', 'r']
    } else if m == 10 {
        seq!['o', 'b', 'e', 'r']
    } else {
        seq!['e', 'm', 'b', 'e', 'r']
    }
}

/// A three-letter month abbreviation at `pos`: the position after it and the month.
pub open spec fn spec_short_month(s: Seq<char>, pos: int) -> Result<(int, int), ParseError> {
    if utf8_bytes(rest(s, pos)) < 3 {
        Err(ParseError::TooShort)
    } else if pos + 3 <= s.len() && month_from_abbrev(s[pos], s[pos + 1], s[pos + 2]) is Some {
        Ok((pos + 3, month_from_abbrev(s[pos], s[pos + 1], s[pos + 2])->0))
    } else {
        Err(ParseError::Invalid)
    }
}

/// A month abbreviation at `pos`, followed if present by the rest of its full name.
pub open spec fn spec_short_or_long_month(s: Seq<char>, pos: int) -> Result<(int, int), ParseError> {
    match spec_short_month(s, pos) {
        Ok((p, m)) => if starts_with_ci(s, p, long_month_suffix(m)) {
            Ok((p + long_month_suffix(m).len(), m))
        } else {
            Ok((p, m))
        },
        Err(e) => Err(e),
    }
}

/// Reads a three-letter month abbreviation, in any case.
pub fn short_month(s: &Vec<char>, pos: usize) -> (r: Result<(usize, i64), ParseError>)
    requires
        pos <= s.len(),
    ensures
        r matches Ok((p, m)) ==> spec_short_month(s@, pos as int) == Ok::<(int, int), ParseError>((p as int, m as int)) && p <= s.len(),
        r matches Err(e) ==> spec_short_month(s@, pos as int) == Err::<(int, int), ParseError>(e),
{
    if !bytes_at_least(s, pos, 3) {
        return Err(ParseError::TooShort);
    }
    if s.len() - pos < 3 {
        return Err(ParseError::Invalid);
    }
    let a = s[pos];
    let b = s[pos + 1];
    let c = s[pos + 2];
    let m: i64 = if ascii_ci_eq_exec(a, 'j') && ascii_ci_eq_exec(b, 'a') && ascii_ci_eq_exec(c, 'n') {
        1
    } else if ascii_ci_eq_exec(a, 'f') && ascii_ci_eq_exec(b, 'e') && ascii_ci_eq_exec(c, 'b') {
        2
    } else if ascii_ci_eq_exec(a, 'm') && ascii_ci_eq_exec(b, 'a') && ascii_ci_eq_exec(c, 'r') {
        3
    } else if ascii_ci_eq_exec(a, 'a') && ascii_ci_eq_exec(b, 'p') && ascii_ci_eq_exec(c, 'r') {
        4
    } else if ascii_ci_eq_exec(a, 'm') && ascii_ci_eq_exec(b, 'a') && ascii_ci_eq_exec(c, 'y') {
        5
    } else if ascii_ci_eq_exec(a, 'j') && ascii_ci_eq_exec(b, 'u') && ascii_ci_eq_exec(c, 'n') {
        6
    } else if ascii_ci_eq_exec(a, 'j') && ascii_ci_eq_exec(b, 'u') && ascii_ci_eq_exec(c, 'l') {
        7
    } else if ascii_ci_eq_exec(a, 'a') && ascii_ci_eq_exec(b, 'u') && ascii_ci_eq_exec(c, 'g') {
        8
    } else if ascii_ci_eq_exec(a, 's') && ascii_ci_eq_exec(b, 'e') && ascii_ci_eq_exec(c, 'p') {
        9
    } else if ascii_ci_eq_exec(a, 'o') && ascii_ci_eq_exec(b, 'c') && ascii_ci_eq_exec(c, 't') {
        10
    } else if ascii_ci_eq_exec(a, 'n') && ascii_ci_eq_exec(b, 'o') && ascii_ci_eq_exec(c, 'v') {
        11
    } else if ascii_ci_eq_exec(a, 'd') && ascii_ci_eq_exec(b, 'e') && ascii_ci_eq_exec(c, 'c') {
        12
    } else {
        return Err(ParseError::Invalid);
    };
    Ok((pos + 3, m))
}

/// The lowercase rest of the full name of month `m`, as a vector.
fn long_month_suffix_exec(m: i64) -> (v: Vec<char>)
    ensures
        v@ == long_month_suffix(m as int),
        forall|i: int| 0 <= i < v.len() ==> 'a' <= #[trigger] v[i] <= 'z',
{
    let v = if m == 1 {
        vec!['u', 'a', 'r', 'y']
    } else if m == 2 {
        vec!['r', 'u', 'a', 'r', 'y']
    } else if m == 3 {
        vec!['c', 'h']
    } else if m == 4 {
        vec!['i', 'l']
    } else if m == 5 {
        Vec::new()
    } else if m == 6 {
        vec!['e']
    } else if m == 7 {
        vec!['y']
    } else if m == 8 {
        vec!['u', 's', 't']
    } else if m == 9 {
        vec!['t', 'e', 'm', 'b', 'e', 'r']
    } else if m == 10 {
        vec!['o', 'b', 'e', 'r']
    } else {
        vec!['e', 'm', 'b', 'e', 'r']
    };
    assert(v@ =~= long_month_suffix(m as int));
    v
}

/// Reads a month abbreviation and, where it follows, the rest of the full name.
pub fn short_or_long_month(s: &Vec<char>, pos: usize) -> (r: Result<(usize, i64), ParseError>)
    requires
        pos <= s.len(),
    ensures
        r matches Ok((p, m)) ==> spec_short_or_long_month(s@, pos as int) == Ok::<(int, int), ParseError>((p as int, m as int)) && p <= s.len(),
        r matches Err(e) ==> spec_short_or_long_month(s@, pos as int) == Err::<(int, int), ParseError>(e),
{
    let (p, m) = short_month(s, pos)?;
    let suffix = long_month_suffix_exec(m);
    if starts_with_ci_exec(s, p, &suffix) {
        Ok((p + suffix.len(), m))
    } else {
        Ok((p, m))
    }
}

/// `am` or `pm` at `pos`, in any case: the position after it and whether it is `pm`.
pub open spec fn spec_ampm(s: Seq<char>, pos: int) -> Result<(int, bool), ParseError> {
    if utf8_bytes(rest(s, pos)) < 2 {
        Err(ParseError::TooShort)
    } else if pos + 2 <= s.len() && ascii_ci_eq(s[pos + 1], 'm') && (ascii_ci_eq(s[pos], 'a')
        || ascii_ci_eq(s[pos], 'p')) {
        Ok((pos + 2, ascii_ci_eq(s[pos], 'p')))
    } else {
        Err(ParseError::Invalid)
    }
}

/// Reads `am` or `pm`, in any case.
pub fn ampm(s: &Vec<char>, pos: usize) -> (r: Result<(usize, bool), ParseError>)
    requires
        pos <= s.len(),
    ensures
        r matches Ok((p, pm)) ==> spec_ampm(s@, pos as int) == Ok::<(int, bool), ParseError>((p as int, pm)) && p <= s.len(),
        r matches Err(e) ==> spec_ampm(s@, pos as int) == Err::<(int, bool), ParseError>(e),
{
    if !bytes_at_least(s, pos, 2) {
        return Err(ParseError::TooShort);
    }
    if s.len() - pos < 2 {
        return Err(ParseError::Invalid);
    }
    let a = s[pos];
    if ascii_ci_eq_exec(s[pos + 1], 'm') && (ascii_ci_eq_exec(a, 'a') || ascii_ci_eq_exec(a, 'p')) {
        Ok((pos + 2, ascii_ci_eq_exec(a, 'p')))
    } else {
        Err(ParseError::Invalid)
    }
}

/// `char::is_whitespace`: the characters with the Unicode White_Space property.
pub open spec fn is_whitespace(c: char) -> bool {
    let u = c as u32;
    (0x09 <= u <= 0x0d) || u == 0x20 || u == 0x85 || u == 0xa0 || u == 0x1680 || (0x2000 <= u
        <= 0x200a) || u == 0x2028 || u == 0x2029 || u == 0x202f || u == 0x205f || u == 0x3000
}

/// `is_whitespace` on a character.
pub fn is_whitespace_exec(c: char) -> (r: bool)
    ensures
        r == is_whitespace(c),
{
    let u = c as u32;
    (0x09 <= u && u <= 0x0d) || u == 0x20 || u == 0x85 || u == 0xa0 || u == 0x1680 || (0x2000 <= u
        && u <= 0x200a) || u == 0x2028 || u == 0x2029 || u == 0x202f || u == 0x205f || u == 0x3000
}

/// The position after the run of non-whitespace characters that starts at `pos`.
pub open spec fn skip_non_whitespace(s: Seq<char>, pos: int) -> int
    decreases s.len() - pos,
{
    if 0 <= pos < s.len() && !is_whitespace(s[pos]) {
        skip_non_whitespace(s, pos + 1)
    } else {
        pos
    }
}

/// `skip_non_whitespace` on a vector of characters.
pub fn skip_non_whitespace_exec(s: &Vec<char>, pos: usize) -> (p: usize)
    requires
        pos <= s.len(),
    ensures
        p == skip_non_whitespace(s@, pos as int),
        pos <= p <= s.len(),
{
    let mut i = pos;
    while i < s.len() && !is_whitespace_exec(s[i])
        invariant
            pos <= i <= s.len(),
            skip_non_whitespace(s@, i as int) == skip_non_whitespace(s@, pos as int),
        decreases s.len() - i,
    {
        i = i + 1;
    }
    i
}

/// The position after the whitespace that starts at `pos`.
pub open spec fn skip_whitespace(s: Seq<char>, pos: int) -> int
    decreases s.len() - pos,
{
    if 0 <= pos < s.len() && is_whitespace(s[pos]) {
        skip_whitespace(s, pos + 1)
    } else {
        pos
    }
}

proof fn lemma_skip_whitespace_bounds(s: Seq<char>, pos: int)
    requires
        0 <= pos <= s.len(),
    ensures
        pos <= skip_whitespace(s, pos) <= s.len(),
    decreases s.len() - pos,
{
    if pos < s.len() && is_whitespace(s[pos]) {
        lemma_skip_whitespace_bounds(s, pos + 1);
    }
}

/// Skips whitespace from `pos`.
pub fn skip_whitespace_exec(s: &Vec<char>, pos: usize) -> (p: usize)
    requires
        pos <= s.len(),
    ensures
        p == skip_whitespace(s@, pos as int),
        pos <= p <= s.len(),
{
    let mut i = pos;
    while i < s.len() && is_whitespace_exec(s[i])
        invariant
            pos <= i <= s.len(),
            skip_whitespace(s@, i as int) == skip_whitespace(s@, pos as int),
        decreases s.len() - i,
    {
        i = i + 1;
    }
    proof {
        lemma_skip_whitespace_bounds(s@, pos as int);
    }
    i
}

/// `c` is an ASCII decimal digit.
pub open spec fn is_digit(c: char) -> bool {
    '0' <= c <= '9'
}

/// The value of the ASCII decimal digit `c`.
pub open spec fn digit_value(c: char) -> int {
    (c as u32) as int - 48
}

/// The number of ASCII digits at `pos`, counting at most `max` of them.
pub open spec fn digit_run(s: Seq<char>, pos: int, max: int) -> int
    decreases s.len() - pos,
{
    if max <= 0 || pos < 0 || pos >= s.len() || !is_digit(s[pos]) {
        0
    } else {
        1 + digit_run(s, pos + 1, max - 1)
    }
}

/// The number that the decimal digits `d` write.
pub open spec fn digits_value(d: Seq<char>) -> int
    decreases d.len(),
{
    if d.len() == 0 {
        0
    } else {
        digits_value(d.drop_last()) * 10 + digit_value(d.last())
    }
}

/// A decimal number of one to `max` digits at `pos`: the position after it and its value.
/// A value past `i64::MAX` is `OutOfRange`.
pub open spec fn spec_number(s: Seq<char>, pos: int, max: int) -> Result<(int, int), ParseError> {
    if pos >= s.len() {
        Err(ParseError::TooShort)
    } else if digit_run(s, pos, max) == 0 {
        Err(ParseError::Invalid)
    } else {
        let k = digit_run(s, pos, max);
        let v = digits_value(s.subrange(pos, pos + k));
        if v > i64::MAX {
            Err(ParseError::OutOfRange)
        } else {
            Ok((pos + k, v))
        }
    }
}

proof fn lemma_digit_run_bounds(s: Seq<char>, pos: int, max: int)
    requires
        0 <= pos <= s.len(),
    ensures
        0 <= digit_run(s, pos, max),
        pos + digit_run(s, pos, max) <= s.len(),
        max >= 0 ==> digit_run(s, pos, max) <= max,
        forall|i: int| pos <= i < pos + digit_run(s, pos, max) ==> is_digit(#[trigger] s[i]),
    decreases s.len() - pos,
{
    if !(max <= 0 || pos >= s.len() || !is_digit(s[pos])) {
        lemma_digit_run_bounds(s, pos + 1, max - 1);
    }
}

proof fn lemma_digits_value_nonneg(d: Seq<char>)
    requires
        forall|i: int| 0 <= i < d.len() ==> is_digit(#[trigger] d[i]),
    ensures
        0 <= digits_value(d),
    decreases d.len(),
{
    if d.len() > 0 {
        lemma_digits_value_nonneg(d.drop_last());
    }
}

/// Digits written after others never make the number smaller.
proof fn lemma_digits_value_grows(s: Seq<char>, a: int, i: int, j: int)
    requires
        0 <= a <= i <= j <= s.len(),
        forall|k: int| a <= k < j ==> is_digit(#[trigger] s[k]),
    ensures
        digits_value(s.subrange(a, i)) <= digits_value(s.subrange(a, j)),
    decreases j - i,
{
    if i < j {
        lemma_digits_value_grows(s, a, i, j - 1);
        let d = s.subrange(a, j);
        assert(d.drop_last() =~= s.subrange(a, j - 1));
        lemma_digits_value_nonneg(s.subrange(a, j - 1));
    }
}

/// Reads a decimal number of one to `max` digits at `pos`.
pub fn number(s: &Vec<char>, pos: usize, max: usize) -> (r: Result<(usize, i64), ParseError>)
    requires
        pos <= s.len(),
    ensures
        r matches Ok((q, v)) ==> spec_number(s@, pos as int, max as int) == Ok::<(int, int), ParseError>((q as int, v as int)) && q <= s.len() && 0 <= v,
        r matches Err(e) ==> spec_number(s@, pos as int, max as int) == Err::<(int, int), ParseError>(e),
{
    if pos >= s.len() {
        return Err(ParseError::TooShort);
    }
    proof {
        lemma_digit_run_bounds(s@, pos as int, max as int);
    }
    let mut i = pos;
    let mut n: i64 = 0;
    while i < s.len() && i - pos < max && '0' <= s[i] && s[i] <= '9'
        invariant
            pos <= i <= s.len(),
            i - pos <= max,
            digit_run(s@, pos as int, max as int) == (i - pos) + digit_run(s@, i as int, max - (i - pos)),
            n == digits_value(s@.subrange(pos as int, i as int)),
            0 <= n,
            forall|k: int| pos <= k < i ==> is_digit(#[trigger] s@[k]),
        decreases s.len() - i,
    {
        let d: i64 = (s[i] as u32 - 48) as i64;
        assert(is_digit(s@[i as int]));
        assert(max - (i - pos) > 0);
        proof {
            lemma_digit_run_bounds(s@, i + 1, max - (i - pos) - 1);
        }
        assert(digit_run(s@, i as int, max - (i - pos)) >= 1);
        let ghost next = s@.subrange(pos as int, i + 1);
        proof {
            assert(next.drop_last() =~= s@.subrange(pos as int, i as int));
            assert(next.last() == s@[i as int]);
        }
        match n.checked_mul(10) {
            Some(m) => match m.checked_add(d) {
                Some(v) => {
                    n = v;
                },
                None => {
                    proof {
                        lemma_digit_run_bounds(s@, i + 1, max - (i + 1 - pos));
                        lemma_digit_run_bounds(s@, i as int, max - (i - pos));
                        lemma_digits_value_grows(s@, pos as int, i + 1, pos + digit_run(s@, pos as int, max as int));
                    }
                    return Err(ParseError::OutOfRange);
                },
            },
            None => {
                proof {
                    lemma_digit_run_bounds(s@, i as int, max - (i - pos));
                    lemma_digits_value_grows(s@, pos as int, i + 1, pos + digit_run(s@, pos as int, max as int));
                }
                return Err(ParseError::OutOfRange);
            },
        }
        i = i + 1;
    }
    if i == pos {
        return Err(ParseError::Invalid);
    }
    Ok((i, n))
}

/// The position after all the ASCII digits that start at `pos`.
pub open spec fn skip_digits(s: Seq<char>, pos: int) -> int {
    pos + digit_run(s, pos, s.len() - pos)
}

/// `10` to the power `e`.
pub open spec fn pow10(e: nat) -> int
    decreases e,
{
    if e == 0 {
        1
    } else {
        10 * pow10((e - 1) as nat)
    }
}

/// A fraction of a second written with one to nine digits at `pos`, and any further digits:
/// the position after them all and the fraction in nanoseconds.
pub open spec fn spec_nanosecond(s: Seq<char>, pos: int) -> Result<(int, int), ParseError> {
    match spec_number(s, pos, 9) {
        Ok((q, v)) => Ok((skip_digits(s, q), v * pow10((9 - (q - pos)) as nat))),
        Err(e) => Err(e),
    }
}

/// Skips ASCII digits from `pos`.
fn skip_digits_exec(s: &Vec<char>, pos: usize) -> (q: usize)
    requires
        pos <= s.len(),
    ensures
        q == skip_digits(s@, pos as int),
        q <= s.len(),
{
    let mut i = pos;
    while i < s.len() && '0' <= s[i] && s[i] <= '9'
        invariant
            pos <= i <= s.len(),
            skip_digits(s@, pos as int) == i + digit_run(s@, i as int, s.len() - i),
        decreases s.len() - i,
    {
        i = i + 1;
    }
    i
}

proof fn lemma_digits_value_below(d: Seq<char>)
    requires
        forall|i: int| 0 <= i < d.len() ==> is_digit(#[trigger] d[i]),
    ensures
        0 <= digits_value(d) < pow10(d.len()),
    decreases d.len(),
{
    if d.len() > 0 {
        lemma_digits_value_below(d.drop_last());
        assert(pow10(d.len()) == 10 * pow10((d.len() - 1) as nat));
    }
}

proof fn lemma_pow10_split(k: nat)
    requires
        k <= 9,
    ensures
        pow10(k) * pow10((9 - k) as nat) == 1_000_000_000,
{
    reveal_with_fuel(pow10, 10);
    assert(pow10(0) == 1);
    assert(pow10(1) == 10);
    assert(pow10(2) == 100);
    assert(pow10(3) == 1000);
    assert(pow10(4) == 10000);
    assert(pow10(5) == 100000);
    assert(pow10(6) == 1000000);
    assert(pow10(7) == 10000000);
    assert(pow10(8) == 100000000);
    assert(pow10(9) == 1000000000);
    if k == 0 {
    } else if k == 1 {
    } else if k == 2 {
    } else if k == 3 {
    } else if k == 4 {
    } else if k == 5 {
    } else if k == 6 {
    } else if k == 7 {
    } else if k == 8 {
    } else {
        assert(k == 9);
    }
}

/// A fraction of a second written with exactly `k` digits at `pos`: the position after them
/// and the fraction in nanoseconds. Text of fewer than `k` bytes is `TooShort`, and fewer
/// than `k` digits `Invalid`.
pub open spec fn spec_nanosecond_fixed(s: Seq<char>, pos: int, k: int) -> Result<(int, int), ParseError> {
    if utf8_bytes(rest(s, pos)) < k {
        Err(ParseError::TooShort)
    } else if digit_run(s, pos, k) < k {
        Err(ParseError::Invalid)
    } else {
        Ok((pos + k, digits_value(s.subrange(pos, pos + k)) * pow10((9 - k) as nat)))
    }
}

/// Reads a fraction of a second of exactly `k` digits (3, 6 or 9) at `pos`, in nanoseconds.
pub fn nanosecond_fixed(s: &Vec<char>, pos: usize, k: usize) -> (r: Result<(usize, i64), ParseError>)
    requires
        pos <= s.len(),
        k == 3 || k == 6 || k == 9,
    ensures
        r matches Ok((q, v)) ==> spec_nanosecond_fixed(s@, pos as int, k as int) == Ok::<(int, int), ParseError>((q as int, v as int)) && q <= s.len() && 0 <= v < 1_000_000_000,
        r matches Err(e) ==> spec_nanosecond_fixed(s@, pos as int, k as int) == Err::<(int, int), ParseError>(e),
{
    if !bytes_at_least(s, pos, k as u128) {
        return Err(ParseError::TooShort);
    }
    proof {
        if pos == s.len() {
            assert(rest(s@, pos as int) =~= Seq::<char>::empty());
        }
        lemma_digit_run_bounds(s@, pos as int, k as int);
        let run = digit_run(s@, pos as int, k as int);
        lemma_digits_value_below(s@.subrange(pos as int, pos + run));
        reveal_with_fuel(pow10, 10);
        assert(pow10(9) == 1_000_000_000);
    }
    let (q, v) = match number(s, pos, k) {
        Ok(x) => x,
        Err(_) => return Err(ParseError::Invalid),
    };
    if q - pos < k {
        return Err(ParseError::Invalid);
    }
    let scale: i64 = if k == 3 {
        1_000_000
    } else if k == 6 {
        1_000
    } else {
        1
    };
    proof {
        reveal_with_fuel(pow10, 10);
        assert(pow10(0) == 1);
        assert(pow10(3) == 1000);
        assert(pow10(6) == 1_000_000);
        assert(scale == pow10((9 - k) as nat));
        assert(v * scale < 1_000_000_000) by (nonlinear_arith)
            requires
                0 <= v < pow10(k as nat),
                scale == pow10((9 - k) as nat),
                k == 3 || k == 6 || k == 9,
                pow10(3) == 1000,
                pow10(6) == 1_000_000,
                pow10(9) == 1_000_000_000,
                pow10(0) == 1,
        ;
    }
    Ok((q, v * scale))
}

/// The nanoseconds that a decimal fraction of a second with the digits `d` after the point
/// stands for, rounded down: the first digit counts tenths of a second (100,000,000
/// nanoseconds), and each further digit tenths of the one before.
pub open spec fn fraction_nanos(d: Seq<char>) -> int
    decreases d.len(),
{
    if d.len() == 0 {
        0
    } else {
        digit_value(d[0]) * 100_000_000 + fraction_nanos(d.skip(1)) / 10
    }
}

proof fn lemma_pow10_add(a: nat, b: nat)
    ensures
        pow10(a + b) == pow10(a) * pow10(b),
    decreases a,
{
    if a > 0 {
        lemma_pow10_add((a - 1) as nat, b);
        assert(pow10(a + b) == 10 * pow10((a + b - 1) as nat));
        assert(pow10(a) == 10 * pow10((a - 1) as nat));
        assert(10 * (pow10((a - 1) as nat) * pow10(b)) == (10 * pow10((a - 1) as nat)) * pow10(b)) by (nonlinear_arith);
    }
}

proof fn lemma_digits_value_prepend(c: char, t: Seq<char>)
    ensures
        digits_value(seq![c] + t) == digit_value(c) * pow10(t.len()) + digits_value(t),
    decreases t.len(),
{
    let d = seq![c] + t;
    if t.len() == 0 {
        assert(d =~= seq![c]);
        assert(d.drop_last() =~= Seq::<char>::empty());
        assert(digits_value(Seq::<char>::empty()) == 0);
        assert(digits_value(d) == digits_value(d.drop_last()) * 10 + digit_value(d.last()));
        assert(pow10(0) == 1);
    } else {
        let u = t.drop_last();
        assert(d.drop_last() =~= seq![c] + u);
        assert(d.last() == t.last());
        lemma_digits_value_prepend(c, u);
        let pu = pow10(u.len());
        assert(pow10(t.len()) == 10 * pu);
        assert(digits_value(d) == digits_value(seq![c] + u) * 10 + digit_value(t.last()));
        assert(digits_value(t) == digits_value(u) * 10 + digit_value(t.last()));
        assert((digit_value(c) * pu + digits_value(u)) * 10 == digit_value(c) * (10 * pu) + digits_value(u) * 10) by (nonlinear_arith);
    }
}

proof fn lemma_fraction_nanos_value(d: Seq<char>)
    requires
        d.len() <= 9,
        forall|i: int| 0 <= i < d.len() ==> is_digit(#[trigger] d[i]),
    ensures
        fraction_nanos(d) == digits_value(d) * pow10((9 - d.len()) as nat),
    decreases d.len(),
{
    if d.len() == 0 {
        assert(digits_value(d) == 0);
    } else {
        let t = d.skip(1);
        assert forall|i: int| 0 <= i < t.len() implies is_digit(#[trigger] t[i]) by {
            assert(t[i] == d[i + 1]);
        }
        lemma_fraction_nanos_value(t);
        assert(d =~= seq![d[0]] + t);
        lemma_digits_value_prepend(d[0], t);
        let k = d.len();
        lemma_pow10_add((k - 1) as nat, (9 - k) as nat);
        lemma_pow10_add(1, (9 - k) as nat);
        reveal_with_fuel(pow10, 10);
        assert(pow10(8) == 100_000_000);
        assert(pow10(1) == 10);
        let e = pow10((9 - k) as nat);
        assert(pow10((10 - k) as nat) == 10 * e);
        assert(fraction_nanos(t) == digits_value(t) * (10 * e));
        assert((digits_value(t) * (10 * e)) / 10 == digits_value(t) * e) by (nonlinear_arith);
        assert(pow10((k - 1) as nat) * e == 100_000_000);
        assert(digits_value(d) * e == digit_value(d[0]) * 100_000_000 + digits_value(t) * e) by (nonlinear_arith)
            requires
                digits_value(d) == digit_value(d[0]) * pow10((k - 1) as nat) + digits_value(t),
                pow10((k - 1) as nat) * e == 100_000_000,
        ;
    }
}

/// A fraction of up to nine digits stands for less than one second.
pub proof fn lemma_fraction_nanos_bounds(d: Seq<char>)
    requires
        d.len() <= 9,
        forall|i: int| 0 <= i < d.len() ==> is_digit(#[trigger] d[i]),
    ensures
        0 <= fraction_nanos(d) < 1_000_000_000,
{
    lemma_fraction_nanos_value(d);
    lemma_digits_value_below(d);
    lemma_pow10_add(d.len(), (9 - d.len()) as nat);
    lemma_pow10_positive((9 - d.len()) as nat);
    reveal_with_fuel(pow10, 10);
    assert(pow10(9) == 1_000_000_000);
    assert(digits_value(d) * pow10((9 - d.len()) as nat) < 1_000_000_000) by (nonlinear_arith)
        requires
            0 <= digits_value(d) < pow10(d.len()),
            pow10(d.len()) * pow10((9 - d.len()) as nat) == 1_000_000_000,
            pow10((9 - d.len()) as nat) >= 1,
    ;
    assert(digits_value(d) * pow10((9 - d.len()) as nat) >= 0) by (nonlinear_arith)
        requires
            0 <= digits_value(d),
            pow10((9 - d.len()) as nat) >= 1,
    ;
}

proof fn lemma_digit_run_exact(s: Seq<char>, pos: int, k: int, max: int)
    requires
        0 <= pos,
        0 <= k <= max,
        pos + k <= s.len(),
        forall|i: int| pos <= i < pos + k ==> is_digit(#[trigger] s[i]),
        pos + k == s.len() || !is_digit(s[pos + k]),
    ensures
        digit_run(s, pos, max) == k,
    decreases k,
{
    if k > 0 {
        lemma_digit_run_exact(s, pos + 1, k - 1, max - 1);
    }
}

/// A fraction of one to nine digits is read as its value in seconds: the digits
/// `d1 d2 ... dk` give `d1` tenths, `d2` hundredths and so on of a second, in nanoseconds;
/// the reading ends after the last digit.
pub proof fn law_fraction_is_seconds(s: Seq<char>, pos: int, k: int)
    requires
        0 <= pos,
        1 <= k <= 9,
        pos + k <= s.len(),
        forall|i: int| pos <= i < pos + k ==> is_digit(#[trigger] s[i]),
        pos + k == s.len() || !is_digit(s[pos + k]),
    ensures
        spec_nanosecond(s, pos) == Ok::<(int, int), ParseError>((pos + k, fraction_nanos(s.subrange(pos, pos + k)))),
{
    let d = s.subrange(pos, pos + k);
    lemma_digit_run_exact(s, pos, k, 9);
    assert forall|i: int| 0 <= i < d.len() implies is_digit(#[trigger] d[i]) by {
        assert(d[i] == s[pos + i]);
    }
    lemma_digits_value_below(d);
    lemma_fraction_nanos_value(d);
    reveal_with_fuel(pow10, 10);
    assert(pow10(9) == 1_000_000_000);
    assert(pow10(k as nat) <= 1_000_000_000) by {
        lemma_pow10_add(k as nat, (9 - k) as nat);
        assert(pow10((9 - k) as nat) >= 1) by {
            lemma_pow10_positive((9 - k) as nat);
        }
        assert(pow10(k as nat) * pow10((9 - k) as nat) == 1_000_000_000);
        assert(pow10(k as nat) >= 0) by {
            lemma_pow10_positive(k as nat);
        }
        assert(pow10(k as nat) <= pow10(k as nat) * pow10((9 - k) as nat)) by (nonlinear_arith)
            requires
                pow10((9 - k) as nat) >= 1,
                pow10(k as nat) >= 0,
        ;
    }
    assert(spec_number(s, pos, 9) == Ok::<(int, int), ParseError>((pos + k, digits_value(d))));
    lemma_digit_run_exact(s, pos + k, 0, s.len() - (pos + k));
    assert(skip_digits(s, pos + k) == pos + k);
}

/// A fraction of exactly three, six or nine digits written without a point is read as its
/// value in seconds, the first digit counting tenths.
pub proof fn law_fixed_fraction_is_seconds(s: Seq<char>, pos: int, k: int)
    requires
        0 <= pos,
        k == 3 || k == 6 || k == 9,
        pos + k <= s.len(),
        forall|i: int| pos <= i < pos + k ==> is_digit(#[trigger] s[i]),
    ensures
        spec_nanosecond_fixed(s, pos, k) == Ok::<(int, int), ParseError>((pos + k, fraction_nanos(s.subrange(pos, pos + k)))),
{
    let d = s.subrange(pos, pos + k);
    assert forall|i: int| 0 <= i < d.len() implies is_digit(#[trigger] d[i]) by {
        assert(d[i] == s[pos + i]);
    }
    lemma_fraction_nanos_value(d);
    lemma_utf8_bytes_at_least_len(rest(s, pos));
    lemma_digit_run_bounds(s, pos, k);
    assert(digit_run(s, pos, k) >= k) by {
        lemma_digit_run_at_least(s, pos, k, k);
    }
    assert(rest(s, pos).len() >= k);
    assert(utf8_bytes(rest(s, pos)) >= k);
    assert(digit_run(s, pos, k) == k);
    assert(d.len() == k);
    assert(fraction_nanos(d) == digits_value(d) * pow10((9 - k) as nat));
}

proof fn lemma_digit_run_at_least(s: Seq<char>, pos: int, k: int, max: int)
    requires
        0 <= pos,
        0 <= k <= max,
        pos + k <= s.len(),
        forall|i: int| pos <= i < pos + k ==> is_digit(#[trigger] s[i]),
    ensures
        digit_run(s, pos, max) >= k,
    decreases k,
{
    if k > 0 {
        assert(is_digit(s[pos]));
        lemma_digit_run_at_least(s, pos + 1, k - 1, max - 1);
    } else {
        lemma_digit_run_bounds(s, pos, max);
    }
}

proof fn lemma_pow10_positive(e: nat)
    ensures
        pow10(e) >= 1,
    decreases e,
{
    if e > 0 {
        lemma_pow10_positive((e - 1) as nat);
    }
}

/// Reads a fraction of a second at `pos`, in nanoseconds.
pub fn nanosecond(s: &Vec<char>, pos: usize) -> (r: Result<(usize, i64), ParseError>)
    requires
        pos <= s.len(),
    ensures
        r matches Ok((q, v)) ==> spec_nanosecond(s@, pos as int) == Ok::<(int, int), ParseError>((q as int, v as int)) && q <= s.len() && 0 <= v < 1_000_000_000,
        r matches Err(e) ==> spec_nanosecond(s@, pos as int) == Err::<(int, int), ParseError>(e),
{
    let (q, v) = number(s, pos, 9)?;
    proof {
        lemma_digit_run_bounds(s@, pos as int, 9);
        lemma_digits_value_below(s@.subrange(pos as int, q as int));
        lemma_pow10_split((q - pos) as nat);
    }
    let consumed = q - pos;
    let scale: i64 = if consumed == 1 {
        100_000_000
    } else if consumed == 2 {
        10_000_000
    } else if consumed == 3 {
        1_000_000
    } else if consumed == 4 {
        100_000
    } else if consumed == 5 {
        10_000
    } else if consumed == 6 {
        1_000
    } else if consumed == 7 {
        100
    } else if consumed == 8 {
        10
    } else {
        1
    };
    proof {
        reveal_with_fuel(pow10, 10);
        assert(scale == pow10((9 - consumed) as nat));
        assert(v * scale < 1_000_000_000) by (nonlinear_arith)
            requires
                v < pow10(consumed as nat),
                scale == pow10((9 - consumed) as nat),
                1 <= consumed <= 9,
                pow10(consumed as nat) * pow10((9 - consumed) as nat) == 1_000_000_000,
                0 <= v,
        ;
    }
    let nano = v * scale;
    let rest_pos = skip_digits_exec(s, q);
    Ok((rest_pos, nano))
}

/// The position after the colons and whitespace that start at `pos`.
pub open spec fn skip_colon_or_space(s: Seq<char>, pos: int) -> int
    decreases s.len() - pos,
{
    if 0 <= pos < s.len() && (s[pos] == ':' || is_whitespace(s[pos])) {
        skip_colon_or_space(s, pos + 1)
    } else {
        pos
    }
}

/// Skips colons and whitespace from `pos`.
fn skip_colon_or_space_exec(s: &Vec<char>, pos: usize) -> (q: usize)
    requires
        pos <= s.len(),
    ensures
        q == skip_colon_or_space(s@, pos as int),
        pos <= q <= s.len(),
{
    let mut i = pos;
    while i < s.len() && (s[i] == ':' || is_whitespace_exec(s[i]))
        invariant
            pos <= i <= s.len(),
            skip_colon_or_space(s@, i as int) == skip_colon_or_space(s@, pos as int),
        decreases s.len() - i,
    {
        i = i + 1;
    }
    i
}

/// A UTC offset at `pos`: `Z` (either case), or a sign (`+`, `-` or U+2212 MINUS SIGN), two
/// digits of hours, any colons and whitespace, and two digits of minutes below 60.
/// Gives the position after it and the offset in seconds, east positive.
pub open spec fn spec_timezone_offset(s: Seq<char>, pos: int) -> Result<(int, int), ParseError> {
    spec_timezone_offset_with(s, pos, true, false)
}

/// An offset at `pos` as `spec_timezone_offset` reads it, where `Z` is taken only when
/// `allow_zulu`, and the minutes may be left out at the end of the text only when
/// `allow_missing_minutes`.
pub open spec fn spec_timezone_offset_with(
    s: Seq<char>,
    pos: int,
    allow_zulu: bool,
    allow_missing_minutes: bool,
) -> Result<(int, int), ParseError> {
    if allow_zulu && 0 <= pos < s.len() && (s[pos] == 'Z' || s[pos] == 'z') {
        Ok((pos + 1, 0))
    } else if pos >= s.len() {
        Err(ParseError::TooShort)
    } else if !(s[pos] == '+' || s[pos] == '-' || s[pos] == '\u{2212}') {
        Err(ParseError::Invalid)
    } else {
        let negative = s[pos] != '+';
        let h = pos + 1;
        if utf8_bytes(rest(s, h)) < 2 {
            Err(ParseError::TooShort)
        } else if !(h + 2 <= s.len() && is_digit(s[h]) && is_digit(s[h + 1])) {
            Err(ParseError::Invalid)
        } else {
            let hours = digit_value(s[h]) * 10 + digit_value(s[h + 1]);
            let m = skip_colon_or_space(s, h + 2);
            if allow_missing_minutes && m >= s.len() {
                Ok((m, if negative { -hours * 3600 } else { hours * 3600 }))
            } else if utf8_bytes(rest(s, m)) < 2 {
                Err(ParseError::TooShort)
            } else if m + 2 <= s.len() && '0' <= s[m] <= '5' && is_digit(s[m + 1]) {
                let secs = hours * 3600 + (digit_value(s[m]) * 10 + digit_value(s[m + 1])) * 60;
                Ok((m + 2, if negative { -secs } else { secs }))
            } else if m + 2 <= s.len() && '6' <= s[m] <= '9' && is_digit(s[m + 1]) {
                Err(ParseError::OutOfRange)
            } else {
                Err(ParseError::Invalid)
            }
        }
    }
}

proof fn lemma_skip_colon_or_space_bounds(s: Seq<char>, pos: int)
    requires
        0 <= pos <= s.len(),
    ensures
        pos <= skip_colon_or_space(s, pos) <= s.len(),
    decreases s.len() - pos,
{
    if pos < s.len() && (s[pos] == ':' || is_whitespace(s[pos])) {
        lemma_skip_colon_or_space_bounds(s, pos + 1);
    }
}

/// Reads a UTC offset at `pos`, in seconds east.
pub fn timezone_offset(s: &Vec<char>, pos: usize) -> (r: Result<(usize, i32), ParseError>)
    requires
        pos <= s.len(),
    ensures
        r matches Ok((q, v)) ==> spec_timezone_offset(s@, pos as int) == Ok::<(int, int), ParseError>((q as int, v as int)) && q <= s.len() && -360_000 < v < 360_000 && v % 60 == 0,
        r matches Err(e) ==> spec_timezone_offset(s@, pos as int) == Err::<(int, int), ParseError>(e),
{
    timezone_offset_with(s, pos, true, false)
}

/// Reads an offset as `spec_timezone_offset_with` says.
pub fn timezone_offset_with(s: &Vec<char>, pos: usize, allow_zulu: bool, allow_missing_minutes: bool) -> (r: Result<(usize, i32), ParseError>)
    requires
        pos <= s.len(),
    ensures
        r matches Ok((q, v)) ==> spec_timezone_offset_with(s@, pos as int, allow_zulu, allow_missing_minutes) == Ok::<(int, int), ParseError>((q as int, v as int)) && q <= s.len() && -360_000 < v < 360_000 && v % 60 == 0,
        r matches Err(e) ==> spec_timezone_offset_with(s@, pos as int, allow_zulu, allow_missing_minutes) == Err::<(int, int), ParseError>(e),
{
    if allow_zulu && pos < s.len() && (s[pos] == 'Z' || s[pos] == 'z') {
        return Ok((pos + 1, 0));
    }
    if pos >= s.len() {
        return Err(ParseError::TooShort);
    }
    let sign = s[pos];
    if !(sign == '+' || sign == '-' || sign == '\u{2212}') {
        return Err(ParseError::Invalid);
    }
    let negative = sign != '+';
    let h = pos + 1;
    if !bytes_at_least(s, h, 2) {
        return Err(ParseError::TooShort);
    }
    if !(s.len() - h >= 2 && '0' <= s[h] && s[h] <= '9' && '0' <= s[h + 1] && s[h + 1] <= '9') {
        return Err(ParseError::Invalid);
    }
    let hours: i32 = ((s[h] as u32 - 48) * 10 + (s[h + 1] as u32 - 48)) as i32;
    let m = skip_colon_or_space_exec(s, h + 2);
    if allow_missing_minutes && m >= s.len() {
        let secs = hours * 3600;
        proof {
            assert(hours == digit_value(s@[h as int]) * 10 + digit_value(s@[h + 1]));
            assert(secs == 60 * (hours * 60));
            assert((60 * (hours * 60)) % 60 == 0);
            assert((-(60 * (hours * 60))) % 60 == 0);
        }
        return Ok((m, if negative { 0 - secs } else { secs }));
    }
    if !bytes_at_least(s, m, 2) {
        return Err(ParseError::TooShort);
    }
    if s.len() - m >= 2 && '0' <= s[m] && s[m] <= '5' && '0' <= s[m + 1] && s[m + 1] <= '9' {
        let minutes: i32 = ((s[m] as u32 - 48) * 10 + (s[m + 1] as u32 - 48)) as i32;
        let secs = hours * 3600 + minutes * 60;
        proof {
            lemma_skip_colon_or_space_bounds(s@, h + 2);
            assert(hours == digit_value(s@[h as int]) * 10 + digit_value(s@[h + 1]));
            assert(minutes == digit_value(s@[m as int]) * 10 + digit_value(s@[m + 1]));
            assert(secs == 60 * (hours * 60 + minutes));
            assert((60 * (hours * 60 + minutes)) % 60 == 0);
            assert((-(60 * (hours * 60 + minutes))) % 60 == 0);
        }
        Ok((m + 2, if negative { 0 - secs } else { secs }))
    } else if s.len() - m >= 2 && '6' <= s[m] && s[m] <= '9' && '0' <= s[m + 1] && s[m + 1] <= '9' {
        Err(ParseError::OutOfRange)
    } else {
        Err(ParseError::Invalid)
    }
}

} // verus!
