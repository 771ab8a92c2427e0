//! What a job is asked to do, and the text under which the queue stores it.
//!
//! The stored text is the JSON object that an internally tagged encoding
//! gives: `{"variant":"Series","asin":"B0..."}` or
//! `{"variant":"Book","asin":"B0...","parent":7}`. Two jobs ask for the same
//! work exactly when their texts are equal.
use vstd::prelude::*;
use crate::date::{dec_text, push_decimal};
use crate::text::{chars_of, string_of};

verus! {

/// The work of one job.
pub enum JobParams {
    /// Read one book's product page for its release date; `parent` is the id
    /// of the series job that asked for it.
    Book { asin: String, parent: i32 },
    /// Read a series' landing page for its name and books.
    Series { asin: String },
}

pub open spec fn hex_char(d: nat) -> char {
    if d < 10 {
        crate::date::digit_char(d)
    } else if d == 10 { 'a' }
    else if d == 11 { 'b' }
    else if d == 12 { 'c' }
    else if d == 13 { 'd' }
    else if d == 14 { 'e' }
    else { 'f' }
}

/// How a JSON string writes `c`: quote and backslash escaped, the control
/// characters by their short escapes or as `\u00XX`, the rest as they are.
pub open spec fn json_char(c: char) -> Seq<char> {
    if c == '"' {
        seq!['\\', '"']
    } else if c == '\\' {
        seq!['\\', '\\']
    } else if c == '\u{8}' {
        seq!['\\', 'b']
    } else if c == '\t' {
        seq!['\\', 't']
    } else if c == '\n' {
        seq!['\\', 'n']
    } else if c == '\u{c}' {
        seq!['\\', 'f']
    } else if c == '\r' {
        seq!['\\', 'r']
    } else if (c as u32) < 0x20 {
        seq!['\\', 'u', '0', '0', hex_char((c as u32 / 16) as nat), hex_char((c as u32 % 16) as nat)]
    } else {
        seq![c]
    }
}

/// The characters of `s` as written inside a JSON string.
pub open spec fn json_escaped(s: Seq<char>) -> Seq<char>
    decreases s.len(),
{
    if s.len() == 0 {
        Seq::empty()
    } else {
        json_escaped(s.drop_last()) + json_char(s.last())
    }
}

/// `s` as a JSON string, quotes included.
pub open spec fn json_string(s: Seq<char>) -> Seq<char> {
    seq!['"'] + json_escaped(s) + seq!['"']
}

/// `n` in decimal, with a minus sign when negative.
pub open spec fn int_text(n: int) -> Seq<char> {
    if n < 0 {
        seq!['-'] + dec_text((-n) as nat)
    } else {
        dec_text(n as nat)
    }
}

/// The stored text of a book job's work.
pub open spec fn book_params_text(asin: Seq<char>, parent: i32) -> Seq<char> {
    "{\"variant\":\"Book\",\"asin\":"@ + json_string(asin) + ",\"parent\":"@ + int_text(parent as int)
        + "}"@
}

/// The stored text of a series job's work.
pub open spec fn series_params_text(asin: Seq<char>) -> Seq<char> {
    "{\"variant\":\"Series\",\"asin\":"@ + json_string(asin) + "}"@
}

/// The stored text of a job's work.
pub open spec fn params_text(p: JobParams) -> Seq<char> {
    match p {
        JobParams::Book { asin, parent } => book_params_text(asin@, parent),
        JobParams::Series { asin } => series_params_text(asin@),
    }
}

/// Appends the characters of `s` to `out`.
pub fn push_str(out: &mut Vec<char>, s: &str)
    ensures
        final(out)@ == old(out)@ + s@,
{
    let v = chars_of(s);
    let mut i: usize = 0;
    while i < v.len()
        invariant
            i <= v@.len(),
            v@ == s@,
            out@ == old(out)@ + v@.take(i as int),
        decreases v@.len() - i,
    {
        out.push(v[i]);
        assert(v@.take(i + 1) =~= v@.take(i as int).push(v@[i as int]));
        i = i + 1;
    }
    assert(v@.take(i as int) =~= v@);
}

/// Relies on `serde_json::to_string` on a `&str`: the JSON string literal of
/// `s`, quotes included, escaped by serde_json's table (quote, backslash and
/// the control characters; see `json_char`). Writing a string into a `Vec`
/// cannot fail.
#[verifier::external_body]
fn json_quoted(s: &str) -> (r: String)
    ensures
        r@ == json_string(s@),
{
    match serde_json::to_string(s) {
        Ok(t) => t,
        Err(_) => String::new(),
    }
}

/// Appends `s` as a JSON string to `out`.
fn push_json_string(out: &mut Vec<char>, s: &str)
    ensures
        final(out)@ == old(out)@ + json_string(s@),
{
    let quoted = json_quoted(s);
    push_str(out, quoted.as_str());
}

/// The text under which the queue stores `job_params`.
pub fn params_string(job_params: &JobParams) -> (r: String)
    ensures
        r@ == params_text(*job_params),
{
    let mut out: Vec<char> = Vec::new();
    match job_params {
        JobParams::Book { asin, parent } => {
            push_str(&mut out, "{\"variant\":\"Book\",\"asin\":");
            push_json_string(&mut out, asin.as_str());
            push_str(&mut out, ",\"parent\":");
            if *parent < 0 {
                out.push('-');
                push_decimal(&mut out, (0i64 - *parent as i64) as u32);
            } else {
                push_decimal(&mut out, *parent as u32);
            }
            push_str(&mut out, "}");
        },
        JobParams::Series { asin } => {
            push_str(&mut out, "{\"variant\":\"Series\",\"asin\":");
            push_json_string(&mut out, asin.as_str());
            push_str(&mut out, "}");
        },
    }
    assert(out@ =~= params_text(*job_params));
    string_of(out.as_slice())
}

} // verus!
