//! The date of `SELECT ... WHEN`: the instant its text names, the log file
//! of that day, and the state of each registry at the end of the day.

use vstd::prelude::*;
use std::fmt::Write;
use crate::error::Error;
use crate::log::{uuid_text, uuid_to_string};
use crate::text::{chars_of, str_eq};
use crate::values::{parse_utc, utc_of};
use crate::when::records_view;

verus! {

/// The text that chrono writes for the UTC date with these seconds and
/// nanoseconds since the Unix epoch, by the `strftime` format `format`:
/// empty where chrono has no such date or cannot write the format.
pub uninterp spec fn utc_formatted(secs: i64, nanos: u32, format: Seq<char>) -> Seq<char>;

/// Calls `chrono::DateTime::<Utc>::from_timestamp(secs, nanos)` and writes
/// the date by `format` (`DateTime::format`); where chrono gives no date or
/// an error in writing, the result is empty. The result is named
/// `utc_formatted(secs, nanos, format)`.
#[verifier::external_body]
fn format_utc(secs: i64, nanos: u32, format: &str) -> (r: String)
    ensures
        r@ == utc_formatted(secs, nanos, format@),
{
    let mut text = String::new();
    match chrono::DateTime::<chrono::Utc>::from_timestamp(secs, nanos) {
        Some(d) => match write!(text, "{}", d.format(format)) {
            Ok(_) => text,
            Err(_) => String::new(),
        },
        None => text,
    }
}

/// The file that holds the log of the day of an instant.
pub open spec fn day_file(instant: (i64, u32)) -> Seq<char> {
    utc_formatted(instant.0, instant.1, "data/%Y_%m_%d.log"@)
}

/// The name of the log file of the day of `instant`:
/// `data/<year>_<month>_<day>.log`.
pub fn day_log_file(instant: (i64, u32)) -> (r: String)
    ensures
        r@ == day_file(instant),
{
    format_utc(instant.0, instant.1, "data/%Y_%m_%d.log")
}

/// The instant that the date text of `WHEN` names: chrono's reading of it as
/// a UTC date (see `utc_of`); `DateTimeParse` where chrono refuses it.
pub fn when_instant(date: &str) -> (r: Result<(i64, u32), Error>)
    ensures
        match utc_of(date@) {
            Some(d) => r == Ok::<(i64, u32), Error>(d),
            None => r matches Err(Error::DateTimeParse(_)),
        },
{
    match parse_utc(&chars_of(date)) {
        Ok(d) => Ok(d),
        Err(e) => Err(Error::DateTimeParse(e)),
    }
}

/// The instant that the date text of `WHEN` names, and the log file of its
/// day, that the states are read from.
pub fn when_day(date: &str) -> (r: Result<((i64, u32), String), Error>)
    ensures
        match utc_of(date@) {
            Some(d) => r matches Ok((i, f)) && i == d && f@ == day_file(d),
            None => r matches Err(Error::DateTimeParse(_)),
        },
{
    match when_instant(date) {
        Ok(d) => Ok((d, day_log_file(d))),
        Err(e) => Err(e),
    }
}

/// The record is of the registry `id`, where one is given.
pub open spec fn of_registry(registry: Seq<char>, id: Option<u128>) -> bool {
    match id {
        Some(u) => registry == uuid_text(u),
        None => true,
    }
}

/// The record at `j` is of the registry `id` (where one is given) and is the
/// last record of its registry.
pub open spec fn last_record(rv: Seq<(Seq<char>, Seq<char>, Seq<char>)>, id: Option<u128>, j: int) -> bool {
    &&& 0 <= j < rv.len()
    &&& of_registry(rv[j].0, id)
    &&& forall|k: int| j < k < rv.len() ==> #[trigger] rv[k].0 != rv[j].0
}

/// The registry and state `entry` are those of the last record of that
/// registry.
pub open spec fn from_last_record(
    rv: Seq<(Seq<char>, Seq<char>, Seq<char>)>,
    id: Option<u128>,
    entry: (Seq<char>, Seq<char>),
) -> bool {
    exists|j: int| #[trigger] last_record(rv, id, j) && rv[j].0 == entry.0 && rv[j].2 == entry.1
}

/// The position of the state of the registry `key` among `r`, if any.
fn position_of(r: &Vec<(String, String)>, key: &str) -> (p: Option<usize>)
    ensures
        p matches Some(i) ==> i < r@.len() && r@[i as int].0@ == key@,
        p is None ==> forall|i: int| 0 <= i < r@.len() ==> #[trigger] r@[i].0@ != key@,
{
    let mut i: usize = 0;
    while i < r.len()
        invariant
            i <= r.len(),
            forall|j: int| 0 <= j < i ==> #[trigger] r@[j].0@ != key@,
        decreases r.len() - i,
    {
        if str_eq(r[i].0.as_str(), key) {
            return Some(i);
        }
        i = i + 1;
    }
    None
}

/// The state of each registry at the end of a day, from the records of that
/// day (see `read_day_log`) of the registry `id` where one is given: each
/// registry once, with the state that its last record wrote. With an `id`
/// there is at most one.
pub fn state_when(records: &Vec<(String, String, String)>, id: Option<u128>) -> (r: Vec<(String, String)>)
    ensures
        forall|i: int, j: int| 0 <= i < j < r@.len() ==> r@[i].0@ != r@[j].0@,
        forall|i: int| 0 <= i < r@.len() ==> from_last_record(
            records_view(records@),
            id,
            (#[trigger] r@[i].0@, r@[i].1@),
        ),
        forall|j: int| 0 <= j < records@.len() && of_registry(#[trigger] records@[j].0@, id)
            ==> exists|i: int| 0 <= i < r@.len() && r@[i].0@ == records@[j].0@,
        id is Some ==> r@.len() <= 1,
{
    let ghost rv = records_view(records@);
    let wanted: Option<String> = match id {
        Some(u) => Some(uuid_to_string(u)),
        None => None,
    };
    let mut r: Vec<(String, String)> = Vec::new();
    let ghost mut from: Seq<int> = Seq::empty();
    let mut j: usize = records.len();
    while j > 0
        invariant
            j <= records@.len(),
            rv == records_view(records@),
            rv.len() == records@.len(),
            wanted matches Some(w) ==> id matches Some(u) && w@ == uuid_text(u),
            wanted is None ==> id is None,
            from.len() == r@.len(),
            forall|a: int, b: int| 0 <= a < b < r@.len() ==> r@[a].0@ != r@[b].0@,
            forall|i: int| #![trigger from[i]] 0 <= i < r@.len() ==> {
                &&& j <= from[i]
                &&& last_record(rv, id, from[i])
                &&& rv[from[i]].0 == r@[i].0@
                &&& rv[from[i]].2 == r@[i].1@
            },
            forall|k: int| j <= k < records@.len() && of_registry(#[trigger] rv[k].0, id)
                ==> exists|i: int| 0 <= i < r@.len() && r@[i].0@ == rv[k].0,
        decreases j,
    {
        j = j - 1;
        assert(rv[j as int] == (records@[j as int].0@, records@[j as int].1@, records@[j as int].2@));
        let take = match &wanted {
            Some(w) => str_eq(records[j].0.as_str(), w.as_str()),
            None => true,
        };
        assert(take == of_registry(rv[j as int].0, id));
        if take {
            match position_of(&r, records[j].0.as_str()) {
                Some(p) => {
                    assert(r@[p as int].0@ == rv[j as int].0);
                    assert(forall|i: int| #![trigger from[i]] 0 <= i < r@.len() ==> {
                &&& j <= from[i]
                &&& last_record(rv, id, from[i])
                &&& rv[from[i]].0 == r@[i].0@
                &&& rv[from[i]].2 == r@[i].1@
            });
                },
                None => {
                    proof {
                        assert forall|k: int| j < k < rv.len() implies #[trigger] rv[k].0 != rv[j as int].0 by {
                            if rv[k].0 == rv[j as int].0 {
                                let i = choose|i: int| 0 <= i < r@.len() && r@[i].0@ == rv[k].0;
                                assert(r@[i].0@ != records@[j as int].0@);
                            }
                        }
                        assert(last_record(rv, id, j as int));
                    }
                    let ghost before = r@;
                    let ghost from_before = from;
                    let key = records[j].0.clone();
                    let content = records[j].2.clone();
                    r.push((key, content));
                    proof {
                        from = from.push(j as int);
                        let n = before.len() as int;
                        assert(r@[n].0@ == rv[j as int].0);
                        assert forall|i: int| #![trigger from[i]] 0 <= i < r@.len() implies {
                            &&& j <= from[i]
                            &&& last_record(rv, id, from[i])
                            &&& rv[from[i]].0 == r@[i].0@
                            &&& rv[from[i]].2 == r@[i].1@
                        } by {
                            if i < n {
                                assert(r@[i] == before[i]);
                                assert(from[i] == from_before[i]);
                                let x = before[i];
                            }
                        }
                        assert forall|k: int| j <= k < records@.len() && of_registry(#[trigger] rv[k].0, id)
                            implies exists|i: int| 0 <= i < r@.len() && r@[i].0@ == rv[k].0 by {
                            if k == j {
                                assert(r@[n].0@ == rv[k].0);
                            } else {
                                let i = choose|i: int| 0 <= i < before.len() && before[i].0@ == rv[k].0;
                                assert(r@[i] == before[i]);
                            }
                        }
                        assert forall|a: int, b: int| 0 <= a < b < r@.len() implies r@[a].0@ != r@[b].0@ by {
                            if b == n {
                                assert(r@[a] == before[a]);
                            } else {
                                assert(r@[a] == before[a]);
                                assert(r@[b] == before[b]);
                            }
                        }
                    }
                },
            }
        }
    }
    proof {
        assert forall|i: int| 0 <= i < r@.len() implies from_last_record(
            records_view(records@),
            id,
            (#[trigger] r@[i].0@, r@[i].1@),
        ) by {
            let x = r@[i];
            let f = from[i];
            assert(rv[f] == (records@[f].0@, records@[f].1@, records@[f].2@));
            assert(last_record(records_view(records@), id, f));
        }
        assert forall|j: int| 0 <= j < records@.len() && of_registry(#[trigger] records@[j].0@, id)
            implies exists|i: int| 0 <= i < r@.len() && r@[i].0@ == records@[j].0@ by {
            assert(rv[j] == (records@[j].0@, records@[j].1@, records@[j].2@));
            assert(of_registry(rv[j].0, id));
        }
        if id is Some && r@.len() > 1 {
            let x0 = r@[0];
            let x1 = r@[1];
            assert(r@[0].0@ != r@[1].0@);
            assert(rv[from[0]].0 == r@[0].0@);
            assert(rv[from[1]].0 == r@[1].0@);
        }
    }
    r
}

} // verus!
