//! The lines of the transaction log: an action name, then `|`-separated
//! fields, then `;`.

use vstd::prelude::*;
use crate::model::{Action, action_text};
use crate::text::{append_str, string_of};

verus! {

/// The lower-case hexadecimal digit of a value below 16.
pub open spec fn hex_digit(n: u128) -> char {
    if n < 10 {
        (('0' as int) + n) as char
    } else {
        (('a' as int) + n - 10) as char
    }
}

/// The hexadecimal digits `from` to `to` (counted from the most significant
/// of 32) of a 128-bit value.
pub open spec fn hex_run(id: u128, from: int, to: int) -> Seq<char> {
    Seq::new((to - from) as nat, |j: int| hex_digit((id >> ((4 * (31 - (from + j))) as u128)) & 0xf))
}

/// `Uuid::to_string`: the hyphenated lower-case hexadecimal form of the
/// identifier with this 128-bit value, grouped 8-4-4-4-12.
#[verifier::opaque]
pub open spec fn uuid_text(id: u128) -> Seq<char> {
    hex_run(id, 0, 8) + seq!['-'] + hex_run(id, 8, 12) + seq!['-'] + hex_run(id, 12, 16) + seq![
        '-',
    ] + hex_run(id, 16, 20) + seq!['-'] + hex_run(id, 20, 32)
}

/// The text of an identifier holds only hexadecimal digits and `-`: no
/// `|` or `;`, which separate the log.
pub proof fn lemma_uuid_text_plain(id: u128)
    ensures
        forall|i: int| 0 <= i < uuid_text(id).len() ==> uuid_text(id)[i] != '|' && uuid_text(
            id,
        )[i] != ';',
{
    reveal(uuid_text);
    assert forall|x: u128| #[trigger] (x & 0xf) < 16 by {
        assert((x & 0xf) < 16) by (bit_vector);
    }
    let t = uuid_text(id);
    assert forall|i: int| 0 <= i < t.len() implies t[i] != '|' && t[i] != ';' by {
        assert forall|a: int, b: int, j: int| 0 <= j < b - a implies #[trigger] hex_run(id, a, b)[j]
            != '|' && hex_run(id, a, b)[j] != ';' by {
            let n = (id >> ((4 * (31 - (a + j))) as u128)) & 0xf;
            assert(n < 16);
        }
        let r0 = hex_run(id, 0, 8);
        let r1 = hex_run(id, 8, 12);
        let r2 = hex_run(id, 12, 16);
        let r3 = hex_run(id, 16, 20);
        let r4 = hex_run(id, 20, 32);
        if i < 8 {
            assert(t[i] == r0[i]);
        } else if i == 8 {
        } else if i < 13 {
            assert(t[i] == r1[i - 9]);
        } else if i == 13 {
        } else if i < 18 {
            assert(t[i] == r2[i - 14]);
        } else if i == 18 {
        } else if i < 23 {
            assert(t[i] == r3[i - 19]);
        } else if i == 23 {
        } else {
            assert(t[i] == r4[i - 24]);
        }
    }
}

/// Calls `uuid::Uuid::from_u128(id).to_string()`; the characters of the result
/// are `uuid_text(id)`.
#[verifier::external_body]
pub(crate) fn uuid_to_string(id: u128) -> (r: String)
    ensures
        r@ == uuid_text(id),
{
    uuid::Uuid::from_u128(id).to_string()
}

/// Calls `uuid::Uuid::new_v4()`, which draws a random identifier; nothing is
/// promised of the value.
#[verifier::external_body]
pub(crate) fn new_uuid() -> (r: u128) {
    uuid::Uuid::new_v4().as_u128()
}

/// The fields, each preceded by `|`.
pub open spec fn fields_text(fields: Seq<Seq<char>>) -> Seq<char>
    decreases fields.len(),
{
    if fields.len() == 0 {
        Seq::empty()
    } else {
        fields_text(fields.drop_last()) + seq!['|'] + fields.last()
    }
}

/// The log line of an action with these fields.
pub open spec fn log_line(a: Action, fields: Seq<Seq<char>>) -> Seq<char> {
    action_text(a) + fields_text(fields) + seq![';']
}

/// Writes the log line of `a` with the given fields.
pub fn write_line(a: Action, fields: &Vec<String>) -> (r: String)
    ensures
        r@ == log_line(a, fields@.map_values(|f: String| f@)),
{
    let ghost fs = fields@.map_values(|f: String| f@);
    let name = a.to_string();
    let mut v: Vec<char> = Vec::new();
    append_str(&mut v, name.as_str());
    assert(v@ =~= action_text(a) + fields_text(fs.subrange(0, 0)));
    let mut i: usize = 0;
    while i < fields.len()
        invariant
            i <= fields.len(),
            fs == fields@.map_values(|f: String| f@),
            v@ == action_text(a) + fields_text(fs.subrange(0, i as int)),
        decreases fields.len() - i,
    {
        let ghost before = v@;
        v.push('|');
        append_str(&mut v, fields[i].as_str());
        assert(fs.subrange(0, i + 1).drop_last() =~= fs.subrange(0, i as int));
        assert(fs.subrange(0, i + 1).last() == fields@[i as int]@);
        assert(v@ =~= action_text(a) + fields_text(fs.subrange(0, i + 1)));
        i = i + 1;
    }
    v.push(';');
    assert(fs.subrange(0, fields.len() as int) =~= fs);
    string_of(&v)
}

/// The line that records the creation of an entity.
pub fn create_entity(entity: &str) -> (r: String)
    ensures
        r@ == log_line(Action::CreateEntity, seq![entity@]),
{
    let mut fields: Vec<String> = Vec::new();
    fields.push(String::from_str(entity));
    let r = write_line(Action::CreateEntity, &fields);
    assert(fields@.map_values(|f: String| f@) =~= seq![entity@]);
    r
}

/// The line that records the eviction of a whole entity, at the date written
/// as `date`.
pub fn evict_entity_content(date: &str, entity: &str) -> (r: String)
    ensures
        r@ == log_line(Action::EvictEntity, seq![date@, entity@]),
{
    let mut fields: Vec<String> = Vec::new();
    fields.push(String::from_str(date));
    fields.push(String::from_str(entity));
    let r = write_line(Action::EvictEntity, &fields);
    assert(fields@.map_values(|f: String| f@) =~= seq![date@, entity@]);
    r
}

/// The line that records the eviction of the registry `id` of an entity.
pub fn evict_entity_id_content(date: &str, id: u128, name: &str) -> (r: String)
    ensures
        r@ == log_line(Action::EvictEntityId, seq![date@, uuid_text(id), name@]),
{
    let mut fields: Vec<String> = Vec::new();
    fields.push(String::from_str(date));
    fields.push(uuid_to_string(id));
    fields.push(String::from_str(name));
    let r = write_line(Action::EvictEntityId, &fields);
    assert(fields@.map_values(|f: String| f@) =~= seq![date@, uuid_text(id), name@]);
    r
}

/// The line that records an insertion, and the identifier of the inserted
/// registry: the one given, or a fresh random one.
pub fn insert_entity_content(date: &str, uuid: Option<u128>, name: &str, content: &str) -> (r: (
    u128,
    String,
))
    ensures
        uuid is Some ==> r.0 == uuid->0,
        r.1@ == log_line(Action::Insert, seq![date@, uuid_text(r.0), name@, content@]),
{
    let id = match uuid {
        Some(u) => u,
        None => new_uuid(),
    };
    let mut fields: Vec<String> = Vec::new();
    fields.push(String::from_str(date));
    fields.push(uuid_to_string(id));
    fields.push(String::from_str(name));
    fields.push(String::from_str(content));
    let r = write_line(Action::Insert, &fields);
    assert(fields@.map_values(|f: String| f@) =~= seq![date@, uuid_text(id), name@, content@]);
    (id, r)
}

/// The line that records an `UPDATE SET` of the registry `id`.
pub fn update_set_entity_content(
    date: &str,
    id: u128,
    name: &str,
    content_log: &str,
    current_state: &str,
    previous_registry: &str,
) -> (r: String)
    ensures
        r@ == log_line(
            Action::UpdateSet,
            seq![date@, uuid_text(id), name@, content_log@, current_state@, previous_registry@],
        ),
{
    update_line(Action::UpdateSet, date, id, name, content_log, current_state, previous_registry)
}

/// The line that records an `UPDATE CONTENT` of the registry `id`.
pub fn update_content_entity_content(
    date: &str,
    id: u128,
    name: &str,
    content_log: &str,
    current_state: &str,
    previous_registry: &str,
) -> (r: String)
    ensures
        r@ == log_line(
            Action::UpdateContent,
            seq![date@, uuid_text(id), name@, content_log@, current_state@, previous_registry@],
        ),
{
    update_line(Action::UpdateContent, date, id, name, content_log, current_state, previous_registry)
}

fn update_line(
    a: Action,
    date: &str,
    id: u128,
    name: &str,
    content_log: &str,
    current_state: &str,
    previous_registry: &str,
) -> (r: String)
    ensures
        r@ == log_line(
            a,
            seq![date@, uuid_text(id), name@, content_log@, current_state@, previous_registry@],
        ),
{
    let mut fields: Vec<String> = Vec::new();
    fields.push(String::from_str(date));
    fields.push(uuid_to_string(id));
    fields.push(String::from_str(name));
    fields.push(String::from_str(content_log));
    fields.push(String::from_str(current_state));
    fields.push(String::from_str(previous_registry));
    let r = write_line(a, &fields);
    assert(fields@.map_values(|f: String| f@) =~= seq![
        date@,
        uuid_text(id),
        name@,
        content_log@,
        current_state@,
        previous_registry@,
    ]);
    r
}

/// The line that records the deletion of the last change of registry `id`.
pub fn delete_entity_content(
    date: &str,
    id: u128,
    name: &str,
    content_log: &str,
    previous_registry: &str,
) -> (r: String)
    ensures
        r@ == log_line(
            Action::Delete,
            seq![date@, uuid_text(id), name@, content_log@, previous_registry@],
        ),
{
    let mut fields: Vec<String> = Vec::new();
    fields.push(String::from_str(date));
    fields.push(uuid_to_string(id));
    fields.push(String::from_str(name));
    fields.push(String::from_str(content_log));
    fields.push(String::from_str(previous_registry));
    let r = write_line(Action::Delete, &fields);
    assert(fields@.map_values(|f: String| f@) =~= seq![
        date@,
        uuid_text(id),
        name@,
        content_log@,
        previous_registry@,
    ]);
    r
}

} // verus!
