//! The decisions of `UPDATE ... SET`, `UPDATE ... CONTENT`, `UPDATE ... SET
//! ... WHEN MATCH` and `DELETE`, between the reads and writes of the log:
//! which checks come first, which error answers, and which state is stored.

use vstd::prelude::*;
use crate::ast::MatchCondition;
use crate::context::{
    DataRegister, DataRegisterV, LocalContext, RegistryV, has_id, lemma_state_of, registry_of,
    state_of,
};
use crate::error::Error;
use crate::text::chars_of;
use crate::values::{parse_uuid, uuid_of};
use crate::state::{
    content_fold, content_fold_fits, float_keys, match_outcome, match_update, merge_entities,
    previous_registry_text, registry_of_log, registry_log_wf, update_content_entity,
};
use crate::types::{Entity, strings_view, types_seq_view};
use crate::uniques::{
    Encryption, Uniqueness, content_pairs, keys_in, unique_outcome,
    update_content_encryption_check,
};

verus! {

/// The copy of the state of registry `id` of `entity`, once the entity and
/// the registry are known to exist; else the error that says which is
/// missing.
fn previous_state(ctx: &LocalContext, entity: &str, id: u128) -> (r: Result<Entity, Error>)
    requires
        ctx.wf(),
    ensures
        !ctx@.contains_key(entity@) ==> (r matches Err(Error::EntityNotCreated(s)) && s@
            == entity@),
        ctx@.contains_key(entity@) && !has_id(ctx@[entity@], id) ==> (r matches Err(
            Error::UuidNotCreatedForEntity(s, u),
        ) && s@ == entity@ && u == id),
        ctx@.contains_key(entity@) && has_id(ctx@[entity@], id) ==> (r matches Ok(e) && e.wf()
            && e@ == state_of(ctx@[entity@], id)),
{
    match ctx.registry(entity, id) {
        Some(reg) => {
            proof {
                ctx.law_registries_in_id_order(entity@);
                lemma_state_of(
                    ctx@[entity@],
                    RegistryV { id: reg.id, register: reg.register@, state: reg.state@ },
                );
            }
            let empty = Entity::new();
            let e = merge_entities(&reg.state, &empty);
            assert(e@ =~= reg.state@);
            Ok(e)
        },
        None => match ctx.check_registry(entity, id) {
            Err(e) => Err(e),
            Ok(()) => Err(Error::UuidNotCreatedForEntity(String::from_str(entity), id)),
        },
    }
}

/// The unique keys checked against `content`, then the previous state with
/// the keys of `content` replaced: what `update_set_step` and
/// `match_update_step` do once the registry is found.
fn set_after_uniques(uniq: &mut Uniqueness, entity: &str, previous: &Entity, content: &Entity) -> (r:
    Result<Entity, Error>)
    requires
        content.wf(),
    ensures
        ({
            let (slots, dup) = unique_outcome(*old(uniq), entity@, *content);
            &&& crate::uniques::slots_view(final(uniq).slots@) == slots
            &&& final(uniq).entities == old(uniq).entities
            &&& dup is None ==> (r matches Ok(s) && s.wf() && s@ == previous@.union_prefer_right(
                content@,
            ))
            &&& dup matches Some(d) ==> (r matches Err(Error::DuplicatedUnique(e, k, t)) && e@
                == entity@ && k@ == content_pairs(*content)[d].0 && t@ == content_pairs(
                *content,
            )[d].1)
        }),
{
    match uniq.check_for_unique_keys(entity, content) {
        Err(e) => Err(e),
        Ok(()) => Ok(merge_entities(previous, content)),
    }
}

/// `UPDATE entity SET content INTO id`, with `content` as it is stored
/// (encrypted keys hashed, `tx_time` added): `EntityNotCreated` or
/// `UuidNotCreatedForEntity` where the registry is missing, with the unique
/// keys untouched; else the unique keys are checked against `content`
/// (`DuplicatedUnique` at the first duplicate); else the state to log and
/// store: the previous state with the keys of `content` replaced.
pub fn update_set_step(
    ctx: &LocalContext,
    uniq: &mut Uniqueness,
    entity: &str,
    id: u128,
    content: &Entity,
) -> (r: Result<Entity, Error>)
    requires
        ctx.wf(),
        content.wf(),
    ensures
        !ctx@.contains_key(entity@) ==> (r matches Err(Error::EntityNotCreated(s)) && s@
            == entity@) && *final(uniq) == *old(uniq),
        ctx@.contains_key(entity@) && !has_id(ctx@[entity@], id) ==> (r matches Err(
            Error::UuidNotCreatedForEntity(s, u),
        ) && s@ == entity@ && u == id) && *final(uniq) == *old(uniq),
        ctx@.contains_key(entity@) && has_id(ctx@[entity@], id) ==> {
            let (slots, dup) = unique_outcome(*old(uniq), entity@, *content);
            &&& crate::uniques::slots_view(final(uniq).slots@) == slots
            &&& final(uniq).entities == old(uniq).entities
            &&& dup is None ==> (r matches Ok(s) && s.wf() && s@ == state_of(
                ctx@[entity@],
                id,
            ).union_prefer_right(content@))
            &&& dup matches Some(d) ==> (r matches Err(Error::DuplicatedUnique(e, k, t)) && e@
                == entity@ && k@ == content_pairs(*content)[d].0 && t@ == content_pairs(
                *content,
            )[d].1)
        },
{
    let previous = match previous_state(ctx, entity, id) {
        Err(e) => {
            return Err(e);
        },
        Ok(p) => p,
    };
    set_after_uniques(uniq, entity, &previous, content)
}

/// `UPDATE entity SET content INTO id WHEN MATCH conditions`: as
/// `update_set_step`, with the conditions checked against the previous state
/// once the registry is found and before the unique keys (their failure
/// answers as `match_update` does, with the unique keys untouched).
pub fn match_update_step(
    ctx: &LocalContext,
    uniq: &mut Uniqueness,
    entity: &str,
    id: u128,
    content: &Entity,
    conditions: &MatchCondition,
) -> (r: Result<Entity, Error>)
    requires
        ctx.wf(),
        content.wf(),
    ensures
        !ctx@.contains_key(entity@) ==> (r matches Err(Error::EntityNotCreated(s)) && s@
            == entity@) && *final(uniq) == *old(uniq),
        ctx@.contains_key(entity@) && !has_id(ctx@[entity@], id) ==> (r matches Err(
            Error::UuidNotCreatedForEntity(s, u),
        ) && s@ == entity@ && u == id) && *final(uniq) == *old(uniq),
        ctx@.contains_key(entity@) && has_id(ctx@[entity@], id) && match_outcome(
            conditions@,
            state_of(ctx@[entity@], id),
        ) is Err ==> (r matches Err(e) && Err::<(), Error>(e) == match_outcome(
            conditions@,
            state_of(ctx@[entity@], id),
        )) && *final(uniq) == *old(uniq),
        ctx@.contains_key(entity@) && has_id(ctx@[entity@], id) && match_outcome(
            conditions@,
            state_of(ctx@[entity@], id),
        ) is Ok ==> {
            let (slots, dup) = unique_outcome(*old(uniq), entity@, *content);
            &&& crate::uniques::slots_view(final(uniq).slots@) == slots
            &&& final(uniq).entities == old(uniq).entities
            &&& dup is None ==> (r matches Ok(s) && s.wf() && s@ == state_of(
                ctx@[entity@],
                id,
            ).union_prefer_right(content@))
            &&& dup matches Some(d) ==> (r matches Err(Error::DuplicatedUnique(e, k, t)) && e@
                == entity@ && k@ == content_pairs(*content)[d].0 && t@ == content_pairs(
                *content,
            )[d].1)
        },
{
    let previous = match previous_state(ctx, entity, id) {
        Err(e) => {
            return Err(e);
        },
        Ok(p) => p,
    };
    match match_update(conditions, &previous) {
        Err(e) => {
            return Err(e);
        },
        Ok(()) => {},
    }
    set_after_uniques(uniq, entity, &previous, content)
}

/// `UPDATE entity CONTENT content INTO id`, with `tx_time` in `content`: an
/// entity created with `ENCRYPT` is `UpdateContentEncryptKeys` first; then
/// `EntityNotCreated` or `UuidNotCreatedForEntity` where the registry is
/// missing; then the unique keys are checked against `content`; else the
/// state after each pair of `content` is added in order (see
/// `update_content_entity`), and the keys whose sum is one of floating-point
/// numbers, left for the caller to add. The unique keys stay untouched on the
/// first two errors.
pub fn update_content_step(
    ctx: &LocalContext,
    uniq: &mut Uniqueness,
    encryption: &Encryption,
    entity: &str,
    id: u128,
    content: &Entity,
) -> (r: Result<(Entity, Vec<String>), Error>)
    requires
        ctx.wf(),
        content.wf(),
        ctx@.contains_key(entity@) && has_id(ctx@[entity@], id) ==> content_fold_fits(
            state_of(ctx@[entity@], id),
            strings_view(content.keys@),
            types_seq_view(content.values@),
            content.keys@.len() as nat,
        ),
    ensures
        encryption.keys_of(entity@) matches Some(ks) ==> (r matches Err(
            Error::UpdateContentEncryptKeys(found),
        ) && strings_view(found@) == keys_in(strings_view(content.keys@), ks, true))
            && *final(uniq) == *old(uniq),
        encryption.keys_of(entity@) is None && !ctx@.contains_key(entity@) ==> (r matches Err(
            Error::EntityNotCreated(s),
        ) && s@ == entity@) && *final(uniq) == *old(uniq),
        encryption.keys_of(entity@) is None && ctx@.contains_key(entity@) && !has_id(
            ctx@[entity@],
            id,
        ) ==> (r matches Err(Error::UuidNotCreatedForEntity(s, u)) && s@ == entity@ && u == id)
            && *final(uniq) == *old(uniq),
        encryption.keys_of(entity@) is None && ctx@.contains_key(entity@) && has_id(
            ctx@[entity@],
            id,
        ) ==> {
            let (slots, dup) = unique_outcome(*old(uniq), entity@, *content);
            let ks = strings_view(content.keys@);
            let vs = types_seq_view(content.values@);
            let n = content.keys@.len() as nat;
            let st = state_of(ctx@[entity@], id);
            &&& crate::uniques::slots_view(final(uniq).slots@) == slots
            &&& final(uniq).entities == old(uniq).entities
            &&& dup is None ==> (r matches Ok(p) && p.0.wf() && p.0@ == content_fold(
                st,
                ks,
                vs,
                n,
            ) && strings_view(p.1@) == float_keys(st, ks, vs, n))
            &&& dup matches Some(d) ==> (r matches Err(Error::DuplicatedUnique(e, k, t)) && e@
                == entity@ && k@ == content_pairs(*content)[d].0 && t@ == content_pairs(
                *content,
            )[d].1)
        },
{
    match update_content_encryption_check(encryption, entity, content) {
        Err(e) => {
            return Err(e);
        },
        Ok(()) => {},
    }
    let previous = match previous_state(ctx, entity, id) {
        Err(e) => {
            return Err(e);
        },
        Ok(p) => p,
    };
    match uniq.check_for_unique_keys(entity, content) {
        Err(e) => Err(e),
        Ok(()) => Ok(update_content_entity(&previous, content)),
    }
}

/// Where the state that a deleted change leaves comes from.
pub enum DeleteSource {
    /// The registry had no earlier change: it is left with an empty state,
    /// at the register it has now.
    Empty(DataRegister),
    /// The state recorded by the log line at this register (written as text).
    Earlier(String),
}

pub enum DeleteSourceV {
    Empty(DataRegisterV),
    Earlier(Seq<char>),
}

impl View for DeleteSource {
    type V = DeleteSourceV;

    open spec fn view(&self) -> DeleteSourceV {
        match self {
            DeleteSource::Empty(r) => DeleteSourceV::Empty(r@),
            DeleteSource::Earlier(t) => DeleteSourceV::Earlier(t@),
        }
    }
}

/// The registry that `DELETE` names by the text of its identifier:
/// `InvalidUuid` where uuid does not read the text as one.
pub fn delete_id(id_text: &str) -> (r: Result<u128, Error>)
    ensures
        match uuid_of(id_text@) {
            Some(u) => r == Ok::<u128, Error>(u),
            None => r matches Err(Error::InvalidUuid(_)),
        },
{
    match parse_uuid(&chars_of(id_text)) {
        Ok(u) => Ok(u),
        Err(e) => Err(Error::InvalidUuid(e)),
    }
}

/// The register of the line that records the last change of registry `id`
/// of `entity`, which `DELETE` reads; `EntityNotCreated` or
/// `UuidNotCreatedForEntity` where the registry is missing.
pub fn delete_check(ctx: &LocalContext, entity: &str, id: u128) -> (r: Result<DataRegister, Error>)
    requires
        ctx.wf(),
    ensures
        !ctx@.contains_key(entity@) ==> (r matches Err(Error::EntityNotCreated(s)) && s@
            == entity@),
        ctx@.contains_key(entity@) && !has_id(ctx@[entity@], id) ==> (r matches Err(
            Error::UuidNotCreatedForEntity(s, u),
        ) && s@ == entity@ && u == id),
        ctx@.contains_key(entity@) && has_id(ctx@[entity@], id) ==> (r matches Ok(g) && g@
            == registry_of(ctx@[entity@], id).register),
{
    match ctx.registry(entity, id) {
        Some(reg) => {
            proof {
                ctx.law_registries_in_id_order(entity@);
                lemma_state_of(
                    ctx@[entity@],
                    RegistryV { id: reg.id, register: reg.register@, state: reg.state@ },
                );
            }
            Ok(reg.register.clone_register())
        },
        None => match ctx.check_registry(entity, id) {
            Err(e) => Err(e),
            Ok(()) => Err(Error::UuidNotCreatedForEntity(String::from_str(entity), id)),
        },
    }
}

/// `DELETE`, once the last line of the registry (at `current`) is read: an
/// insertion leaves an empty state at `current`; an update gives back the
/// state recorded at the register it names; any other line is
/// `FailedToParseRegistry`.
pub fn delete_step(line: &str, current: DataRegister) -> (r: Result<DeleteSource, Error>)
    requires
        registry_log_wf(line@),
    ensures
        registry_of_log(line@) == Ok::<Option<Seq<char>>, Error>(None) ==> (r matches Ok(d)
            && d@ == DeleteSourceV::Empty(current@)),
        registry_of_log(line@) matches Ok(Some(t)) ==> (r matches Ok(d) && d@
            == DeleteSourceV::Earlier(t)),
        registry_of_log(line@) matches Err(e) ==> (r matches Err(f) && f == e),
{
    match previous_registry_text(line) {
        Err(e) => Err(e),
        Ok(None) => Ok(DeleteSource::Empty(current)),
        Ok(Some(t)) => Ok(DeleteSource::Earlier(t)),
    }
}

/// What an update stores is what a read of the registry gives back: once the
/// state that `update_set_step` returns is put under the registry's
/// identifier, the registry holds the previous state with the keys of the
/// content replaced, and every other registry keeps its state.
pub proof fn law_update_set_read_back(
    rs: Seq<RegistryV>,
    id: u128,
    register: DataRegisterV,
    content: crate::relation::StateV,
    other: u128,
)
    requires
        crate::context::sorted_ids(rs),
        has_id(rs, id),
    ensures
        ({
            let stored = state_of(rs, id).union_prefer_right(content);
            let after = crate::context::put(rs, RegistryV { id, register, state: stored });
            &&& has_id(after, id)
            &&& state_of(after, id) == stored
            &&& other != id && has_id(rs, other) ==> has_id(after, other) && state_of(after, other)
                == state_of(rs, other)
        }),
{
    let stored = state_of(rs, id).union_prefer_right(content);
    let r = RegistryV { id, register, state: stored };
    crate::context::law_put_then_read(rs, r);
    let after = crate::context::put(rs, r);
    lemma_state_of(after, r);
    if other != id && has_id(rs, other) {
        let j = choose|j: int| 0 <= j < rs.len() && #[trigger] rs[j].id == other;
        let g = rs[j];
        assert(rs.contains(g));
        lemma_state_of(rs, g);
        assert(after.contains(g));
        lemma_state_of(after, g);
    }
}

} // verus!
