//! The daily task over the log files: which of them it compresses, and the
//! name under which a compressed file is written.

use vstd::prelude::*;
use chrono::TimeZone;
use crate::text::{append_chars, chars_of, concat_after, string_of};

verus! {

/// `s` with each occurrence of `pat`, found from the left, replaced by `by`,
/// as `str::replace` does with a pattern that is not empty.
pub open spec fn replace_all(s: Seq<char>, pat: Seq<char>, by: Seq<char>) -> Seq<char>
    decreases s.len(),
{
    if s.len() == 0 {
        s
    } else if 0 < pat.len() <= s.len() && s.take(pat.len() as int) == pat {
        by + replace_all(s.skip(pat.len() as int), pat, by)
    } else {
        seq![s[0]] + replace_all(s.skip(1), pat, by)
    }
}

/// Whether `pat` occurs in `s` at position `i`.
fn occurs_at(s: &Vec<char>, i: usize, pat: &Vec<char>) -> (r: bool)
    requires
        i <= s.len(),
    ensures
        r == (pat@.len() <= s@.len() - i && s@.skip(i as int).take(pat@.len() as int) == pat@),
{
    if pat.len() > s.len() - i {
        return false;
    }
    let mut j: usize = 0;
    while j < pat.len()
        invariant
            i <= s.len(),
            pat.len() <= s.len() - i,
            j <= pat.len(),
            forall|q: int| 0 <= q < j ==> s@[i + q] == pat@[q],
        decreases pat.len() - j,
    {
        if s[i + j] != pat[j] {
            assert(s@.skip(i as int).take(pat@.len() as int)[j as int] != pat@[j as int]);
            return false;
        }
        j = j + 1;
    }
    assert(s@.skip(i as int).take(pat@.len() as int) =~= pat@);
    true
}

/// `str::replace` with a pattern that is not empty.
pub fn replace_str(s: &str, pat: &str, by: &str) -> (r: String)
    requires
        pat@.len() > 0,
    ensures
        r@ == replace_all(s@, pat@, by@),
{
    let cs = chars_of(s);
    let ps = chars_of(pat);
    let bs = chars_of(by);
    let mut out: Vec<char> = Vec::new();
    let mut i: usize = 0;
    assert(cs@.skip(0) =~= cs@);
    assert(out@ + replace_all(cs@.skip(0), ps@, bs@) =~= replace_all(cs@, ps@, bs@));
    while i < cs.len()
        invariant
            i <= cs.len(),
            cs@ == s@,
            ps@ == pat@,
            bs@ == by@,
            ps@.len() > 0,
            out@ + replace_all(cs@.skip(i as int), ps@, bs@) == replace_all(cs@, ps@, bs@),
        decreases cs.len() - i,
    {
        let ghost rest = cs@.skip(i as int);
        let ghost before = out@;
        if occurs_at(&cs, i, &ps) {
            assert(rest.skip(ps@.len() as int) =~= cs@.skip(i + ps@.len()));
            append_chars(&mut out, &bs);
            i = i + ps.len();
            assert(out@ + replace_all(cs@.skip(i as int), ps@, bs@) =~= before + replace_all(
                rest,
                ps@,
                bs@,
            ));
        } else {
            assert(rest.skip(1) =~= cs@.skip(i + 1));
            out.push(cs[i]);
            i = i + 1;
            assert(out@ + replace_all(cs@.skip(i as int), ps@, bs@) =~= before + replace_all(
                rest,
                ps@,
                bs@,
            ));
        }
    }
    assert(cs@.skip(i as int) =~= Seq::<char>::empty());
    assert(out@ =~= replace_all(cs@, ps@, bs@));
    string_of(&out)
}

/// What chrono's `Utc.datetime_from_str(text, format)` gives, as the seconds
/// since the epoch and the nanoseconds of the instant: `None` where the text
/// does not follow the format.
pub uninterp spec fn utc_from_format(text: Seq<char>, format: Seq<char>) -> Option<(i64, u32)>;

/// Calls chrono's `TimeZone::datetime_from_str` on `Utc` and gives the
/// instant's `timestamp()` and `timestamp_subsec_nanos()`, or `None` where
/// chrono answers with an error. The result is named
/// `utc_from_format(text, format)`.
#[verifier::external_body]
#[allow(deprecated)]
fn parse_utc_format(text: &str, format: &str) -> (r: Option<(i64, u32)>)
    ensures
        r == utc_from_format(text@, format@),
{
    match chrono::Utc.datetime_from_str(text, format) {
        Ok(d) => Some((d.timestamp(), d.timestamp_subsec_nanos())),
        Err(_) => None,
    }
}

/// How far ahead of the present the daily task looks: ten days, in seconds.
pub open spec fn horizon_seconds() -> int {
    864000
}

/// Whether the instant `a` comes before the instant `b`.
pub open spec fn before(a: (i64, u32), b: (i64, u32)) -> bool {
    a.0 < b.0 || (a.0 == b.0 && a.1 < b.1)
}

/// The text that a log file's name is read from as a date: the name without
/// `.log`, at midnight.
pub open spec fn log_date_text(file_name: Seq<char>) -> Seq<char> {
    replace_all(file_name, ".log"@, ""@) + " 00:00:00"@
}

/// The format of that text: year, month and day, joined by `_`, then the time.
pub open spec fn log_date_format() -> Seq<char> {
    "%Y_%m_%d %H:%M:%S"@
}

/// Whether a file whose name reads as the date `file_date` (`None` where it
/// does not read as a date) is compressed at `now`: it is where its date
/// comes before ten days after `now`.
pub fn compress_decision(file_date: Option<(i64, u32)>, now: (i64, u32)) -> (r: bool)
    requires
        now.0 <= i64::MAX - 864000,
    ensures
        r == (file_date matches Some(d) && before(d, ((now.0 + horizon_seconds()) as i64, now.1))),
{
    match file_date {
        Some(d) => {
            let limit: (i64, u32) = (now.0 + 864000, now.1);
            d.0 < limit.0 || (d.0 == limit.0 && d.1 < limit.1)
        },
        None => false,
    }
}

/// Whether the daily task compresses the file named `file_name` at `now`:
/// the name is read as a date (see `log_date_text` and `log_date_format`)
/// and `compress_decision` decides.
pub fn should_compress(file_name: &str, now: (i64, u32)) -> (r: bool)
    requires
        now.0 <= i64::MAX - 864000,
    ensures
        r == (utc_from_format(log_date_text(file_name@), log_date_format()) matches Some(d)
            && before(d, ((now.0 + horizon_seconds()) as i64, now.1))),
{
    proof {
        reveal_strlit(".log");
    }
    let base = replace_str(file_name, ".log", "");
    let text = concat_after(&chars_of(base.as_str()), " 00:00:00");
    let date = parse_utc_format(text.as_str(), "%Y_%m_%d %H:%M:%S");
    compress_decision(date, now)
}

/// The name of the compressed copy of a log file: `.log` replaced by `.zst`.
pub fn zipped_name(file_name: &str) -> (r: String)
    ensures
        r@ == replace_all(file_name@, ".log"@, ".zst"@),
{
    proof {
        reveal_strlit(".log");
    }
    replace_str(file_name, ".log", ".zst")
}

} // verus!
