//! Release dates as the retailer writes them ("November 10, 2024") and as
//! they are stored ("2024-11-10").
use vstd::prelude::*;
use crate::text::{chars_of, string_of, drop_comma, drop_comma_chars, split_words, words};

verus! {

pub open spec fn is_digit(c: char) -> bool {
    '0' <= c && c <= '9'
}

pub open spec fn all_digits(s: Seq<char>) -> bool {
    forall|i: int| 0 <= i < s.len() ==> is_digit(#[trigger] s[i])
}

pub open spec fn digit_value(c: char) -> nat {
    (c as u32 - '0' as u32) as nat
}

/// The number that the decimal digits `s` write.
pub open spec fn dec_value(s: Seq<char>) -> nat
    decreases s.len(),
{
    if s.len() == 0 {
        0
    } else {
        dec_value(s.drop_last()) * 10 + digit_value(s.last())
    }
}

/// `s` without one leading `+`.
pub open spec fn unsigned_digits(s: Seq<char>) -> Seq<char> {
    if s.len() > 0 && s[0] == '+' {
        s.drop_first()
    } else {
        s
    }
}

/// What `str::parse::<u32>` gives: an optional `+`, then one or more decimal
/// digits whose value fits in a `u32`.
pub open spec fn u32_of(s: Seq<char>) -> Option<u32> {
    let t = unsigned_digits(s);
    if t.len() > 0 && all_digits(t) && dec_value(t) <= u32::MAX {
        Some(dec_value(t) as u32)
    } else {
        None
    }
}

proof fn lemma_dec_value_prefix(s: Seq<char>, k: int)
    requires
        0 <= k <= s.len(),
        all_digits(s),
    ensures
        dec_value(s) >= dec_value(s.take(k)),
    decreases s.len(),
{
    if k < s.len() {
        let d = s.drop_last();
        assert(d.take(k) =~= s.take(k));
        lemma_dec_value_prefix(d, k);
    } else {
        assert(s.take(k) =~= s);
    }
}

/// Reads a `u32` written in decimal, as `str::parse::<u32>` does.
pub fn parse_u32(v: &[char]) -> (r: Option<u32>)
    ensures
        r == u32_of(v@),
{
    let n = v.len();
    let start: usize = if n > 0 && v[0] == '+' { 1 } else { 0 };
    let ghost t = unsigned_digits(v@);
    assert(t =~= v@.subrange(start as int, n as int));
    if start == n {
        return None;
    }
    let mut val: u64 = 0;
    let mut i: usize = start;
    while i < n
        invariant
            start <= i <= n == v@.len(),
            t =~= v@.subrange(start as int, n as int),
            t == unsigned_digits(v@),
            all_digits(t.take(i - start)),
            val as nat == dec_value(t.take(i - start)),
            val <= u32::MAX,
        decreases n - i,
    {
        let c = v[i];
        if !('0' <= c && c <= '9') {
            assert(!is_digit(t[i - start]));
            assert(!all_digits(t));
            return None;
        }
        let d = (c as u32 - '0' as u32) as u64;
        let ghost p = t.take(i + 1 - start);
        assert(p.drop_last() =~= t.take(i - start));
        assert(p.last() == c);
        assert(all_digits(p));
        assert(dec_value(p) == val * 10 + d);
        if val * 10 + d > u32::MAX as u64 {
            proof {
                if all_digits(t) {
                    lemma_dec_value_prefix(t, i + 1 - start);
                    assert(dec_value(t) > u32::MAX);
                }
            }
            return None;
        }
        val = val * 10 + d;
        i = i + 1;
    }
    assert(t.take(n - start) =~= t);
    Some(val as u32)
}

/// The lower-case ASCII letter `b`, or its capital.
pub open spec fn same_letter(a: char, b: char) -> bool {
    a == b || ('a' <= b && b <= 'z' && a as u32 + 32 == b as u32)
}

/// `s` spells `t` (lower-case ASCII letters), ignoring ASCII case.
pub open spec fn spells(s: Seq<char>, t: Seq<char>) -> bool {
    s.len() == t.len() && forall|i: int| 0 <= i < s.len() ==> same_letter(#[trigger] s[i], t[i])
}

/// English name of the month numbered `i + 1`, in lower case.
pub open spec fn month_name(i: int) -> Seq<char> {
    if i == 0 { "january"@ }
    else if i == 1 { "february"@ }
    else if i == 2 { "march"@ }
    else if i == 3 { "april"@ }
    else if i == 4 { "may"@ }
    else if i == 5 { "june"@ }
    else if i == 6 { "july"@ }
    else if i == 7 { "august"@ }
    else if i == 8 { "september"@ }
    else if i == 9 { "october"@ }
    else if i == 10 { "november"@ }
    else { "december"@ }
}

pub open spec fn month_from(s: Seq<char>, i: int) -> Option<u32>
    decreases 12 - i,
{
    if i < 0 || i >= 12 {
        None
    } else if spells(s, month_name(i)) || spells(s, month_name(i).take(3)) {
        Some((i + 1) as u32)
    } else {
        month_from(s, i + 1)
    }
}

/// Number (1 to 12) of the month that `s` names in full or by its first
/// three letters, in any ASCII case.
pub open spec fn month_number_of(s: Seq<char>) -> Option<u32> {
    month_from(s, 0)
}

/// Relies on `chrono::Month`'s `FromStr` and `Month::number_from_month`: the
/// full English name or its three-letter abbreviation, ASCII case ignored,
/// and nothing else, gives the month's number.
#[verifier::external_body]
fn month_number(name: &str) -> (r: Option<u32>)
    ensures
        r == month_number_of(name@),
{
    name.parse::<chrono::Month>().ok().map(|m| m.number_from_month())
}

pub open spec fn digit_char(d: nat) -> char {
    if d == 0 { '0' }
    else if d == 1 { '1' }
    else if d == 2 { '2' }
    else if d == 3 { '3' }
    else if d == 4 { '4' }
    else if d == 5 { '5' }
    else if d == 6 { '6' }
    else if d == 7 { '7' }
    else if d == 8 { '8' }
    else { '9' }
}

/// `n` in decimal, without leading zeros.
pub open spec fn dec_text(n: nat) -> Seq<char>
    decreases n,
{
    if n < 10 {
        seq![digit_char(n)]
    } else {
        dec_text(n / 10) + seq![digit_char(n % 10)]
    }
}

/// `n` in decimal, at least two characters wide, padded with a zero.
pub open spec fn two_digits(n: nat) -> Seq<char> {
    if n < 10 {
        seq!['0'] + dec_text(n)
    } else {
        dec_text(n)
    }
}

/// A date as stored: year, month and day joined by `-`.
pub open spec fn date_text(year: nat, month: nat, day: nat) -> Seq<char> {
    dec_text(year) + seq!['-'] + two_digits(month) + seq!['-'] + two_digits(day)
}

fn digit_of(d: u32) -> (c: char)
    requires
        d < 10,
    ensures
        c == digit_char(d as nat),
{
    if d == 0 { '0' }
    else if d == 1 { '1' }
    else if d == 2 { '2' }
    else if d == 3 { '3' }
    else if d == 4 { '4' }
    else if d == 5 { '5' }
    else if d == 6 { '6' }
    else if d == 7 { '7' }
    else if d == 8 { '8' }
    else { '9' }
}

/// Appends `n` in decimal to `out`.
pub fn push_decimal(out: &mut Vec<char>, n: u32)
    ensures
        final(out)@ == old(out)@ + dec_text(n as nat),
    decreases n,
{
    if n >= 10 {
        push_decimal(out, n / 10);
    }
    out.push(digit_of(n % 10));
    assert(final(out)@ =~= old(out)@ + dec_text(n as nat));
}

/// Appends `n` in decimal, padded to two characters, to `out`.
fn push_two_digits(out: &mut Vec<char>, n: u32)
    ensures
        final(out)@ == old(out)@ + two_digits(n as nat),
{
    if n < 10 {
        out.push('0');
    }
    push_decimal(out, n);
    assert(final(out)@ =~= old(out)@ + two_digits(n as nat));
}

/// Why a release date could not be read.
#[derive(PartialEq, Eq, Structural, Clone, Copy, Debug)]
pub enum DateError {
    /// The text is not three words separated by white space.
    WrongShape,
    /// The first word names no month.
    UnknownMonth,
    /// The day or the year is not a number.
    NotANumber,
    /// The day is over 31 or the year over 2100.
    OutOfRange,
}

/// The release date that `s` ("Month Day, Year") gives, as stored, or why it gives none.
/// The bounds guard against garbled markup; no calendar is consulted, so
/// "February 31, 2023" is accepted.
pub open spec fn date_of(s: Seq<char>) -> Result<Seq<char>, DateError> {
    let w = words(s);
    if w.len() != 3 {
        Err(DateError::WrongShape)
    } else {
        match month_number_of(w[0]) {
            None => Err(DateError::UnknownMonth),
            Some(month) => match u32_of(drop_comma(w[1])) {
                None => Err(DateError::NotANumber),
                Some(day) => match u32_of(w[2]) {
                    None => Err(DateError::NotANumber),
                    Some(year) => if day > 31 || year > 2100 {
                        Err(DateError::OutOfRange)
                    } else {
                        Ok(date_text(year as nat, month as nat, day as nat))
                    },
                },
            },
        }
    }
}

/// Turns a release date as the retailer writes it, "November 10, 2024", into
/// "2024-11-10".
pub fn parse_date(string: String) -> (r: Result<String, DateError>)
    ensures
        match (r, date_of(string@)) {
            (Ok(t), Ok(u)) => t@ == u,
            (Err(e), Err(f)) => e == f,
            _ => false,
        },
{
    let v = chars_of(string.as_str());
    let w = split_words(v.as_slice());
    if w.len() != 3 {
        return Err(DateError::WrongShape);
    }
    assert(w@[0]@ == words(v@)[0]);
    assert(w@[1]@ == words(v@)[1]);
    assert(w@[2]@ == words(v@)[2]);
    let month_word = string_of(w[0].as_slice());
    let month = match month_number(month_word.as_str()) {
        Some(m) => m,
        None => return Err(DateError::UnknownMonth),
    };
    let day_word = drop_comma_chars(w[1].as_slice());
    let day = match parse_u32(day_word.as_slice()) {
        Some(d) => d,
        None => return Err(DateError::NotANumber),
    };
    let year = match parse_u32(w[2].as_slice()) {
        Some(y) => y,
        None => return Err(DateError::NotANumber),
    };
    if day > 31 || year > 2100 {
        return Err(DateError::OutOfRange);
    }
    let mut out: Vec<char> = Vec::new();
    push_decimal(&mut out, year);
    out.push('-');
    push_two_digits(&mut out, month);
    out.push('-');
    push_two_digits(&mut out, day);
    assert(out@ =~= date_text(year as nat, month as nat, day as nat));
    Ok(string_of(out.as_slice()))
}

} // verus!
