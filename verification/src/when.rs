//! `SELECT ... WHEN AT` and `WHEN START ... END ...`: the states that the log
//! of a day records for an entity.

use vstd::prelude::*;
use crate::controllers::not_later;
use crate::log::{fields_text, log_line};
use crate::model::{Action, action_text};
use crate::state::{free_of, lemma_fields_split, lemma_split_concat, lemma_split_free};
use crate::log::{uuid_text, uuid_to_string};
use crate::text::{chars_eq, chars_of, is_text, lemma_split_on_nonempty, split_chars, split_on, string_of};

verus! {

/// The lines of a day's log (the text between `;`), each cut into its
/// `|`-separated fields.
pub open spec fn day_lines(log: Seq<char>) -> Seq<Seq<Seq<char>>> {
    split_on(log, ';').map_values(|l: Seq<char>| split_on(l, '|'))
}

/// The line records the state of a registry: an insertion or an update.
pub open spec fn records_state(fs: Seq<Seq<char>>) -> bool {
    fs[0] == "INSERT"@ || fs[0] == "UPDATE_SET"@ || fs[0] == "UPDATE_CONTENT"@
}

/// Every line that records a state has the fields that are read of it: the
/// date, the identifier and the entity.
pub open spec fn day_log_wf(log: Seq<char>) -> bool {
    forall|i: int|
        0 <= i < day_lines(log).len() && records_state(#[trigger] day_lines(log)[i])
            ==> day_lines(log)[i].len() >= 4
}

/// The state that a line records: the last field of an insertion, the one
/// before the last of an update.
pub open spec fn recorded_state(fs: Seq<Seq<char>>) -> Seq<char> {
    if fs[0] == "INSERT"@ {
        fs.last()
    } else {
        fs[fs.len() - 2]
    }
}

/// The line records a state of the entity, of the registry `id` where one is
/// given.
pub open spec fn picked(fs: Seq<Seq<char>>, entity: Seq<char>, id: Option<u128>) -> bool {
    &&& records_state(fs)
    &&& fs[3] == entity
    &&& match id {
        Some(u) => fs[2] == uuid_text(u),
        None => true,
    }
}

/// Of each line picked, in order: the identifier, the date and the state, as
/// written.
pub open spec fn day_records(lines: Seq<Seq<Seq<char>>>, entity: Seq<char>, id: Option<u128>) -> Seq<
    (Seq<char>, Seq<char>, Seq<char>),
>
    decreases lines.len(),
{
    if lines.len() == 0 {
        Seq::empty()
    } else {
        let rest = day_records(lines.drop_last(), entity, id);
        let fs = lines.last();
        if picked(fs, entity, id) {
            rest.push((fs[2], fs[1], recorded_state(fs)))
        } else {
            rest
        }
    }
}

pub open spec fn records_view(r: Seq<(String, String, String)>) -> Seq<
    (Seq<char>, Seq<char>, Seq<char>),
> {
    r.map_values(|t: (String, String, String)| (t.0@, t.1@, t.2@))
}

fn records_state_exec(fs: &Vec<Vec<char>>) -> (r: bool)
    requires
        fs.len() >= 1,
    ensures
        r == records_state(fs@.map_values(|f: Vec<char>| f@)),
{
    let ghost fv = fs@.map_values(|f: Vec<char>| f@);
    assert(fs@[0]@ == fv[0]);
    is_text(&fs[0], "INSERT") || is_text(&fs[0], "UPDATE_SET") || is_text(&fs[0], "UPDATE_CONTENT")
}

fn day_fields(log: &str) -> (r: Vec<Vec<Vec<char>>>)
    ensures
        r@.map_values(|l: Vec<Vec<char>>| l@.map_values(|f: Vec<char>| f@)) == day_lines(log@),
        forall|i: int| 0 <= i < r@.len() ==> #[trigger] r@[i]@.len() >= 1,
{
    let c = chars_of(log);
    let lines = split_chars(&c, ';');
    let ghost lv = lines@.map_values(|x: Vec<char>| x@);
    let mut r: Vec<Vec<Vec<char>>> = Vec::new();
    let mut i: usize = 0;
    while i < lines.len()
        invariant
            i <= lines.len(),
            lv == lines@.map_values(|x: Vec<char>| x@),
            lv == split_on(log@, ';'),
            r@.map_values(|l: Vec<Vec<char>>| l@.map_values(|f: Vec<char>| f@)) == day_lines(
                log@,
            ).subrange(0, i as int),
            forall|j: int| 0 <= j < r@.len() ==> #[trigger] r@[j]@.len() >= 1,
        decreases lines.len() - i,
    {
        let ghost before = r@;
        let fs = split_chars(&lines[i], '|');
        proof {
            lemma_split_on_nonempty(lines@[i as int]@, '|');
            assert(lines@[i as int]@ == lv[i as int]);
        }
        let ghost fsv = fs@.map_values(|f: Vec<char>| f@);
        r.push(fs);
        assert(r@.map_values(|l: Vec<Vec<char>>| l@.map_values(|f: Vec<char>| f@)) =~= before.map_values(
            |l: Vec<Vec<char>>| l@.map_values(|f: Vec<char>| f@),
        ).push(fsv));
        assert(r@.map_values(|l: Vec<Vec<char>>| l@.map_values(|f: Vec<char>| f@)) =~= day_lines(
            log@,
        ).subrange(0, i + 1));
        i = i + 1;
    }
    assert(day_lines(log@).subrange(0, lines.len() as int) =~= day_lines(log@));
    r
}

/// Whether `read_day_log` may be asked of the log (see `day_log_wf`).
pub fn day_log_ok(log: &str) -> (r: bool)
    ensures
        r == day_log_wf(log@),
{
    let lines = day_fields(log);
    let ghost lv = lines@.map_values(|l: Vec<Vec<char>>| l@.map_values(|f: Vec<char>| f@));
    let mut i: usize = 0;
    while i < lines.len()
        invariant
            i <= lines.len(),
            lv == lines@.map_values(|l: Vec<Vec<char>>| l@.map_values(|f: Vec<char>| f@)),
            lv == day_lines(log@),
            forall|j: int| 0 <= j < lines@.len() ==> #[trigger] lines@[j]@.len() >= 1,
            forall|j: int| 0 <= j < i && records_state(#[trigger] lv[j]) ==> lv[j].len() >= 4,
        decreases lines.len() - i,
    {
        assert(lv[i as int] == lines@[i as int]@.map_values(|f: Vec<char>| f@));
        if records_state_exec(&lines[i]) && lines[i].len() < 4 {
            return false;
        }
        i = i + 1;
    }
    true
}

/// The states that a day's log records for `entity` (for the registry `id`
/// where one is given): of each insertion or update of it, in the order of
/// the log, the identifier, the date and the state as written.
pub fn read_day_log(log: &str, entity: &str, id: Option<u128>) -> (r: Vec<(String, String, String)>)
    requires
        day_log_wf(log@),
    ensures
        records_view(r@) == day_records(day_lines(log@), entity@, id),
{
    let lines = day_fields(log);
    let ghost lv = lines@.map_values(|l: Vec<Vec<char>>| l@.map_values(|f: Vec<char>| f@));
    let e = chars_of(entity);
    let u = match id {
        Some(x) => Some(chars_of(uuid_to_string(x).as_str())),
        None => None,
    };
    let mut r: Vec<(String, String, String)> = Vec::new();
    let mut i: usize = 0;
    while i < lines.len()
        invariant
            i <= lines.len(),
            lv == lines@.map_values(|l: Vec<Vec<char>>| l@.map_values(|f: Vec<char>| f@)),
            lv == day_lines(log@),
            day_log_wf(log@),
            forall|j: int| 0 <= j < lines@.len() ==> #[trigger] lines@[j]@.len() >= 1,
            e@ == entity@,
            match id {
                Some(x) => u matches Some(t) && t@ == uuid_text(x),
                None => u is None,
            },
            records_view(r@) == day_records(lv.subrange(0, i as int), entity@, id),
        decreases lines.len() - i,
    {
        let fs = &lines[i];
        let ghost fv = lv[i as int];
        assert(fv == fs@.map_values(|f: Vec<char>| f@));
        assert(lv.subrange(0, i + 1).drop_last() =~= lv.subrange(0, i as int));
        assert(lv.subrange(0, i + 1).last() == fv);
        if records_state_exec(fs) {
            assert(fs.len() >= 4);
            assert(fs@[3]@ == fv[3]);
            assert(fs@[2]@ == fv[2]);
            assert(fs@[1]@ == fv[1]);
            let id_ok = match &u {
                Some(t) => chars_eq(&fs[2], t),
                None => true,
            };
            if chars_eq(&fs[3], &e) && id_ok {
                let st = if is_text(&fs[0], "INSERT") {
                    assert(fs@[0]@ == fv[0]);
                    assert(fs@[fs.len() - 1]@ == fv.last());
                    string_of(&fs[fs.len() - 1])
                } else {
                    assert(fs@[0]@ == fv[0]);
                    assert(fs@[fs.len() - 2]@ == fv[fv.len() - 2]);
                    string_of(&fs[fs.len() - 2])
                };
                let ghost before = r@;
                let item = (string_of(&fs[2]), string_of(&fs[1]), st);
                let ghost iv = (item.0@, item.1@, item.2@);
                r.push(item);
                assert(records_view(r@) =~= records_view(before).push(iv));
            }
        }
        i = i + 1;
    }
    assert(lv.subrange(0, lines.len() as int) =~= lv);
    r
}

/// Instant `d` lies strictly between `start` and `end`.
pub open spec fn strictly_between(d: (i64, u32), start: (i64, u32), end: (i64, u32)) -> bool {
    !not_later(d, start) && !not_later(end, d)
}

/// Whether a state dated `d` is within the range `WHEN START ... END ...`
/// asks for (both bounds excluded).
pub fn within_range(d: (i64, u32), start: (i64, u32), end: (i64, u32)) -> (r: bool)
    ensures
        r == strictly_between(d, start, end),
{
    let after_start = start.0 < d.0 || (start.0 == d.0 && start.1 < d.1);
    let before_end = d.0 < end.0 || (d.0 == end.0 && d.1 < end.1);
    after_start && before_end
}

proof fn lemma_fields_text_free(fields: Seq<Seq<char>>, c: char)
    requires
        c != '|',
        forall|j: int| 0 <= j < fields.len() ==> free_of(#[trigger] fields[j], c),
    ensures
        free_of(fields_text(fields), c),
    decreases fields.len(),
{
    if fields.len() > 0 {
        let pre = fields.drop_last();
        assert forall|j: int| 0 <= j < pre.len() implies free_of(#[trigger] pre[j], c) by {
            assert(pre[j] == fields[j]);
        }
        lemma_fields_text_free(pre, c);
        assert(free_of(fields[fields.len() - 1], c));
        let t = fields_text(fields);
        assert(t =~= fields_text(pre) + seq!['|'] + fields.last());
        assert forall|i: int| 0 <= i < t.len() implies t[i] != c by {
            let a = fields_text(pre).len();
            if i < a {
                assert(t[i] == fields_text(pre)[i]);
            } else if i > a {
                assert(t[i] == fields.last()[i - a - 1]);
            }
        }
    }
}

/// What a day's log keeps of an insertion is read back at that day: reading
/// the line of the insertion for its entity and registry gives its
/// identifier, its date and the content written.
pub proof fn law_insert_read_at_day(date: Seq<char>, id: u128, name: Seq<char>, content: Seq<char>)
    requires
        free_of(date, '|') && free_of(date, ';'),
        free_of(name, '|') && free_of(name, ';'),
        free_of(content, '|') && free_of(content, ';'),
    ensures
        day_log_wf(log_line(Action::Insert, seq![date, uuid_text(id), name, content])),
        day_records(
            day_lines(log_line(Action::Insert, seq![date, uuid_text(id), name, content])),
            name,
            Some(id),
        ) == seq![(uuid_text(id), date, content)],
{
    crate::log::lemma_uuid_text_plain(id);
    assert(free_of(uuid_text(id), '|') && free_of(uuid_text(id), ';'));
    reveal_strlit("INSERT");
    let fields = seq![date, uuid_text(id), name, content];
    assert forall|j: int| 0 <= j < fields.len() implies free_of(#[trigger] fields[j], '|') by {}
    assert forall|j: int| 0 <= j < fields.len() implies free_of(#[trigger] fields[j], ';') by {}
    let u = action_text(Action::Insert) + fields_text(fields);
    assert(free_of(action_text(Action::Insert), '|'));
    assert(free_of(action_text(Action::Insert), ';'));
    lemma_fields_text_free(fields, ';');
    assert(free_of(u, ';')) by {
        let a = action_text(Action::Insert);
        assert forall|i: int| 0 <= i < u.len() implies u[i] != ';' by {
            if i < a.len() {
                assert(u[i] == a[i]);
            } else {
                assert(u[i] == fields_text(fields)[i - a.len()]);
            }
        }
    }
    let line = log_line(Action::Insert, fields);
    assert(line =~= u.push(';'));
    assert(line.drop_last() =~= u);
    lemma_split_free(u, ';');
    assert(split_on(line, ';') =~= seq![u, Seq::<char>::empty()]);
    lemma_fields_split(Action::Insert, fields);
    let fs = split_on(u, '|');
    assert(fs == seq![action_text(Action::Insert)] + fields);
    let empty_fs = split_on(Seq::<char>::empty(), '|');
    assert(empty_fs =~= seq![Seq::<char>::empty()]);
    let lines = day_lines(line);
    assert(lines =~= seq![fs, empty_fs]);
    assert(fs[0] == "INSERT"@);
    assert(empty_fs[0] != "INSERT"@);
    assert(!records_state(empty_fs)) by {
        reveal_strlit("UPDATE_SET");
        reveal_strlit("UPDATE_CONTENT");
    }
    assert(lines.drop_last() =~= seq![fs]);
    assert(lines.drop_last().drop_last() =~= Seq::<Seq<Seq<char>>>::empty());
    assert(fs.len() == 5);
    assert(fs[1] == date && fs[2] == uuid_text(id) && fs[3] == name && fs.last() == content);
    assert(picked(fs, name, Some(id)));
    assert(recorded_state(fs) == content);
    assert(!picked(empty_fs, name, Some(id)));
    let first = lines.drop_last();
    assert(first.last() == fs);
    assert(day_records(first.drop_last(), name, Some(id)) == Seq::<(Seq<char>, Seq<char>, Seq<char>)>::empty());
    assert(day_records(first, name, Some(id)) =~= seq![(uuid_text(id), date, content)]);
    assert(lines.last() == empty_fs);
    assert forall|i: int|
        0 <= i < lines.len() && records_state(#[trigger] lines[i]) implies lines[i].len() >= 4 by {
        if i == 1 {
            assert(lines[1] == empty_fs);
        }
    }
}

proof fn lemma_records_concat(
    l1: Seq<Seq<Seq<char>>>,
    l2: Seq<Seq<Seq<char>>>,
    entity: Seq<char>,
    id: Option<u128>,
)
    ensures
        day_records(l1 + l2, entity, id) == day_records(l1, entity, id) + day_records(
            l2,
            entity,
            id,
        ),
    decreases l2.len(),
{
    if l2.len() == 0 {
        assert(l1 + l2 =~= l1);
        assert(day_records(l1, entity, id) + day_records(l2, entity, id) =~= day_records(
            l1,
            entity,
            id,
        ));
    } else {
        lemma_records_concat(l1, l2.drop_last(), entity, id);
        assert((l1 + l2).drop_last() =~= l1 + l2.drop_last());
        assert((l1 + l2).last() == l2.last());
        let a = day_records(l1, entity, id);
        let b = day_records(l2.drop_last(), entity, id);
        let fs = l2.last();
        if picked(fs, entity, id) {
            assert((a + b).push((fs[2], fs[1], recorded_state(fs))) =~= a + b.push(
                (fs[2], fs[1], recorded_state(fs)),
            ));
        }
    }
}

/// Lines appended to a day's log add their records after those already
/// there: reading `a` followed by `b`, where `a` ends a line, gives the
/// records of `a`, then those of `b`.
pub proof fn law_day_records_append(a: Seq<char>, b: Seq<char>, entity: Seq<char>, id: Option<u128>)
    requires
        a.len() > 0,
        a.last() == ';',
    ensures
        day_records(day_lines(a + b), entity, id) == day_records(day_lines(a), entity, id)
            + day_records(day_lines(b), entity, id),
{
    reveal_strlit("INSERT");
    reveal_strlit("UPDATE_SET");
    reveal_strlit("UPDATE_CONTENT");
    let a0 = a.drop_last();
    assert(a =~= a0 + seq![';'] + Seq::<char>::empty());
    assert(a + b =~= a0 + seq![';'] + b);
    lemma_split_concat(a0, b, ';');
    lemma_split_concat(a0, Seq::<char>::empty(), ';');
    let f = |l: Seq<char>| split_on(l, '|');
    let p0 = split_on(a0, ';');
    let pb = split_on(b, ';');
    let pe = split_on(Seq::<char>::empty(), ';');
    assert(pe =~= seq![Seq::<char>::empty()]);
    assert(day_lines(a + b) =~= p0.map_values(f) + pb.map_values(f));
    assert(day_lines(a) =~= p0.map_values(f) + pe.map_values(f));
    assert(day_lines(b) =~= pb.map_values(f));
    lemma_records_concat(p0.map_values(f), pb.map_values(f), entity, id);
    lemma_records_concat(p0.map_values(f), pe.map_values(f), entity, id);
    let empty_fs = split_on(Seq::<char>::empty(), '|');
    assert(empty_fs =~= seq![Seq::<char>::empty()]);
    assert(pe.map_values(f) =~= seq![empty_fs]);
    assert(!records_state(empty_fs));
    let single = pe.map_values(f);
    assert(single.len() == 1);
    assert(single.last() == empty_fs);
    assert(!picked(empty_fs, entity, id));
    assert(single.drop_last() =~= Seq::<Seq<Seq<char>>>::empty());
    assert(day_records(single.drop_last(), entity, id) == Seq::<(Seq<char>, Seq<char>, Seq<char>)>::empty());
    assert(day_records(pe.map_values(f), entity, id) =~= Seq::<(Seq<char>, Seq<char>, Seq<char>)>::empty());
    assert(day_records(day_lines(a), entity, id) =~= day_records(p0.map_values(f), entity, id));
}

} // verus!
