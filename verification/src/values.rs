//! Scalar values as they are written in WQL: numbers, precise decimals,
//! identifiers, booleans, `nil`, characters, dates and quoted strings.

use vstd::prelude::*;
use crate::numbers::{float_syntax, float_syntax_exec, parse_isize, parse_isize_exec};
use crate::text::{chars_of, chars_eq, concat2, lower, slice_chars, string_of, take_run, take_while, to_lowercase, CharClass, Step};
use crate::types::{Types, TypesV};

verus! {

/// What `uuid::Uuid::parse_str` gives for the string of these characters, as
/// the 128-bit value of the identifier.
pub uninterp spec fn uuid_of(s: Seq<char>) -> Option<u128>;

/// What parsing the string of these characters as a
/// `chrono::DateTime<chrono::Utc>` gives, as seconds since the Unix epoch and
/// nanoseconds within the second.
pub uninterp spec fn utc_of(s: Seq<char>) -> Option<(i64, u32)>;

/// Calls `uuid::Uuid::parse_str` on the string of `s`: the identifier, as a
/// `u128`, is named `uuid_of(s@)`; where uuid refuses the text, the `Debug`
/// text of its error, of which nothing is stated here.
#[verifier::external_body]
pub(crate) fn parse_uuid(s: &Vec<char>) -> (r: Result<u128, String>)
    ensures
        match uuid_of(s@) {
            Some(u) => r == Ok::<u128, String>(u),
            None => r is Err,
        },
{
    let text: String = s.iter().collect();
    match uuid::Uuid::parse_str(&text) {
        Ok(u) => Ok(u.as_u128()),
        Err(e) => Err(format!("{:?}", e)),
    }
}

/// Calls `str::parse::<chrono::DateTime<chrono::Utc>>` on the string of `s`:
/// the instant, as seconds and nanoseconds, is named `utc_of(s@)`; where
/// chrono refuses the text, the `Debug` text of its error, of which nothing
/// is stated here.
#[verifier::external_body]
pub(crate) fn parse_utc(s: &Vec<char>) -> (r: Result<(i64, u32), String>)
    ensures
        match utc_of(s@) {
            Some(d) => r == Ok::<(i64, u32), String>(d),
            None => r is Err,
        },
{
    let text: String = s.iter().collect();
    match text.parse::<chrono::DateTime<chrono::Utc>>() {
        Ok(d) => Ok((d.timestamp(), d.timestamp_subsec_nanos())),
        Err(e) => Err(format!("{:?}", e)),
    }
}

/// The value that an unquoted token stands for, tried in this order: a
/// precise decimal (a float literal followed by `P`), an `isize`, a float
/// literal, a UUID, `true`/`false`, `nil` in any case, a quoted ASCII
/// character, a UTC date; anything else is an error.
pub open spec fn scalar_of(v: Seq<char>) -> Result<TypesV, Seq<char>> {
    if v.len() > 0 && v.last() == 'P' && float_syntax(v.drop_last()) {
        Ok(TypesV::Precise(v.drop_last()))
    } else if parse_isize(v) is Some {
        Ok(TypesV::Integer(parse_isize(v)->0))
    } else if float_syntax(v) {
        Ok(TypesV::Float(v, None))
    } else if uuid_of(v) is Some {
        Ok(TypesV::Uuid(uuid_of(v)->0))
    } else if v == "true"@ {
        Ok(TypesV::Boolean(true))
    } else if v == "false"@ {
        Ok(TypesV::Boolean(false))
    } else if lower(v) == "nil"@ {
        Ok(TypesV::Nil)
    } else if v.len() == 3 && v[0] == '\'' && v[2] == '\'' && v[1] <= '\u{7f}' {
        Ok(TypesV::Char(v[1]))
    } else if utc_of(v) is Some {
        Ok(TypesV::DateTime((utc_of(v)->0).0, (utc_of(v)->0).1))
    } else {
        Err("Value Type could not be created from "@ + v)
    }
}

/// Executes `scalar_of`.
pub fn scalar_exec(v: &Vec<char>) -> (r: Result<Types, String>)
    ensures
        match r {
            Ok(t) => scalar_of(v@) == Ok::<TypesV, Seq<char>>(t@),
            Err(e) => scalar_of(v@) == Err::<TypesV, Seq<char>>(e@),
        },
{
    if v.len() > 0 && v[v.len() - 1] == 'P' {
        let body = slice_chars(v, 0, v.len() - 1);
        assert(body@ =~= v@.drop_last());
        if float_syntax_exec(&body) {
            return Ok(Types::Precise(string_of(&body)));
        }
    }
    match parse_isize_exec(v) {
        Some(n) => {
            return Ok(Types::Integer(n));
        },
        None => {},
    }
    if float_syntax_exec(v) {
        return Ok(Types::Float(string_of(v), None));
    }
    match parse_uuid(v) {
        Ok(u) => {
            return Ok(Types::Uuid(u));
        },
        Err(_) => {},
    }
    let t = chars_of("true");
    if chars_eq(v, &t) {
        return Ok(Types::Boolean(true));
    }
    let f = chars_of("false");
    if chars_eq(v, &f) {
        return Ok(Types::Boolean(false));
    }
    let low = to_lowercase(v);
    let nil = chars_of("nil");
    if chars_eq(&low, &nil) {
        return Ok(Types::Nil);
    }
    if v.len() == 3 && v[0] == '\'' && v[2] == '\'' && v[1] <= '\u{7f}' {
        let ch = v[1];
        let res = Types::Char(ch);
        proof {
            crate::types::lemma_char_view(ch);
        }
        return Ok(res);
    }
    match parse_utc(v) {
        Ok((secs, nanos)) => {
            return Ok(Types::DateTime(secs, nanos));
        },
        Err(_) => {},
    }
    Err(concat2("Value Type could not be created from ", v))
}

/// The rest of a quoted string from position `p`, with `esc` telling whether
/// the previous character was a backslash and `acc` the characters so far:
/// the string ends at an unescaped `"`; `\t`, `\r`, `\n`, `\\` and `\"` are
/// the escapes allowed.
pub open spec fn read_str_from(s: Seq<char>, p: int, esc: bool, acc: Seq<char>) -> Step<
    Seq<char>,
>
    decreases s.len() - p,
{
    if p < 0 || p >= s.len() {
        Step::Fail("Unterminated string"@)
    } else {
        let c = s[p];
        if esc {
            if c == 't' {
                read_str_from(s, p + 1, false, acc.push('\t'))
            } else if c == 'r' {
                read_str_from(s, p + 1, false, acc.push('\r'))
            } else if c == 'n' {
                read_str_from(s, p + 1, false, acc.push('\n'))
            } else if c == '\\' {
                read_str_from(s, p + 1, false, acc.push('\\'))
            } else if c == '"' {
                read_str_from(s, p + 1, false, acc.push('"'))
            } else {
                Step::Fail("Invalid escape sequence \\"@ + seq![c])
            }
        } else if c == '"' {
            Step::Done(acc, p + 1)
        } else if c == '\\' {
            read_str_from(s, p + 1, true, acc)
        } else {
            read_str_from(s, p + 1, false, acc.push(c))
        }
    }
}

/// `read_str`: a quoted string whose opening `"` was consumed.
pub open spec fn read_str(s: Seq<char>, p: int) -> Step<TypesV> {
    match read_str_from(s, p, false, Seq::empty()) {
        Step::Done(t, q) => Step::Done(TypesV::String(t), q),
        Step::Fail(e) => Step::Fail(e),
    }
}

/// Executes `read_str`.
pub fn read_str_exec(s: &Vec<char>, p: usize) -> (r: Result<(Types, usize), String>)
    requires
        p <= s.len(),
    ensures
        crate::text::step_of(r) == read_str(s@, p as int),
        r matches Ok((_, q)) ==> p < q <= s.len(),
{
    let mut acc: Vec<char> = Vec::new();
    let mut esc = false;
    let mut i = p;
    while i < s.len()
        invariant
            p <= i <= s.len(),
            esc ==> i > p,
            read_str_from(s@, p as int, false, Seq::empty()) == read_str_from(
                s@,
                i as int,
                esc,
                acc@,
            ),
        decreases s.len() - i,
    {
        let c = s[i];
        if esc {
            if c == 't' {
                acc.push('\t');
            } else if c == 'r' {
                acc.push('\r');
            } else if c == 'n' {
                acc.push('\n');
            } else if c == '\\' {
                acc.push('\\');
            } else if c == '"' {
                acc.push('"');
            } else {
                let cv = vec![c];
                assert(cv@ =~= seq![c]);
                return Err(concat2("Invalid escape sequence \\", &cv));
            }
            esc = false;
        } else if c == '"' {
            return Ok((Types::String(string_of(&acc)), i + 1));
        } else if c == '\\' {
            esc = true;
        } else {
            acc.push(c);
        }
        i = i + 1;
    }
    Err("Unterminated string".to_owned())
}

/// `parse_value`: the value that starts with the character `c` just read;
/// an unquoted value runs to the next whitespace or `,`, which is consumed.
pub open spec fn parse_value(s: Seq<char>, p: int, c: char) -> Step<TypesV> {
    if c == '"' {
        read_str(s, p)
    } else {
        let (rest, q) = take_while(s, p, CharClass::ValueChar);
        match scalar_of(seq![c] + rest) {
            Ok(t) => Step::Done(t, q),
            Err(e) => Step::Fail(e),
        }
    }
}

/// Executes `parse_value`.
pub fn parse_value_exec(s: &Vec<char>, p: usize, c: char) -> (r: Result<(Types, usize), String>)
    requires
        p <= s.len(),
    ensures
        crate::text::step_of(r) == parse_value(s@, p as int, c),
        r matches Ok((_, q)) ==> p <= q <= s.len(),
{
    if c == '"' {
        return read_str_exec(s, p);
    }
    let (rest, q) = take_run(s, p, CharClass::ValueChar);
    let mut v = vec![c];
    let mut i: usize = 0;
    while i < rest.len()
        invariant
            i <= rest.len(),
            v@ == seq![c] + rest@.subrange(0, i as int),
        decreases rest.len() - i,
    {
        v.push(rest[i]);
        i = i + 1;
        assert(v@ =~= seq![c] + rest@.subrange(0, i as int));
    }
    assert(rest@.subrange(0, rest@.len() as int) =~= rest@);
    match scalar_exec(&v) {
        Ok(t) => Ok((t, q)),
        Err(e) => Err(e),
    }
}

} // verus!
