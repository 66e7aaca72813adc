//! The decisions of the transactions: what each checks against the local
//! context before its log line is written, what it changes afterwards, and
//! the answer it gives.

use vstd::prelude::*;
use crate::context::{DataRegister, LocalContext, Registry, RegistryV, has_id, put, state_of, without};
use crate::error::Error;
use crate::log::{uuid_text, uuid_to_string};
use crate::relation::StateV;
use crate::state::merge_entities;
use crate::text::{append_str, string_of};
use crate::tx::{
    CreateEntityResponse, DeleteOrEvictEntityResponse, InsertEntityResponse, TxResponse, TxType,
    UpdateEntityResponse,
};
use crate::types::{Entity, Types, TypesV, clone_entity};
use crate::algebra::{QueryResult, QueryResultV, count_view, get_result_after_manipulation, manipulated};
use crate::options::{
    OptStatesV, get_result_after_manipulation_for_options, lift, lift_states, manipulated_options,
    opt_states_view, some_states, somes,
};
use crate::ast::{AlgebraFunctions, AlgebraV, Clause, ToSelect, ToSelectV, clause_seq_view};
use crate::clauses::{clauses_bounds_wf, states_view};
use crate::context::states_of_registries;
use crate::query::{
    dedup, dedup_key_wf, dedup_states, generate, generate_state, get_limit_offset_count,
    limit_offset_count, select_state, select_where, select_where_spec, selected, skip_take,
    skip_take_states,
};

verus! {

/// `Entity name created`.
pub open spec fn created_message(name: Seq<char>) -> Seq<char> {
    "Entity "@ + name + " created"@
}

/// `Entity name evicted`.
pub open spec fn evicted_message(name: Seq<char>) -> Seq<char> {
    "Entity "@ + name + " evicted"@
}

/// `Entity name with id ID evicted`.
pub open spec fn evicted_id_message(name: Seq<char>, id: u128) -> Seq<char> {
    "Entity "@ + name + " with id "@ + uuid_text(id) + " evicted"@
}

/// `Entity name inserted with Uuid ID`.
pub open spec fn inserted_message(name: Seq<char>, id: u128) -> Seq<char> {
    "Entity "@ + name + " inserted with Uuid "@ + uuid_text(id)
}

/// `Entity name with Uuid ID updated`.
pub open spec fn updated_message(name: Seq<char>, id: u128) -> Seq<char> {
    "Entity "@ + name + " with Uuid "@ + uuid_text(id) + " updated"@
}

/// `Entity name with Uuid id deleted`, the identifier as it was written.
pub open spec fn deleted_message(name: Seq<char>, id: Seq<char>) -> Seq<char> {
    "Entity "@ + name + " with Uuid "@ + id + " deleted"@
}

fn join(parts: &Vec<&str>) -> (r: String)
    ensures
        r@ == joined(parts@.map_values(|p: &str| p@)),
{
    let ghost ps = parts@.map_values(|p: &str| p@);
    let mut v: Vec<char> = Vec::new();
    let mut i: usize = 0;
    while i < parts.len()
        invariant
            i <= parts.len(),
            ps == parts@.map_values(|p: &str| p@),
            v@ == joined(ps.subrange(0, i as int)),
        decreases parts.len() - i,
    {
        append_str(&mut v, parts[i]);
        assert(ps.subrange(0, i + 1).drop_last() =~= ps.subrange(0, i as int));
        i = i + 1;
    }
    assert(ps.subrange(0, parts.len() as int) =~= ps);
    string_of(&v)
}

/// The texts one after the other.
pub open spec fn joined(ps: Seq<Seq<char>>) -> Seq<char>
    decreases ps.len(),
{
    if ps.len() == 0 {
        Seq::empty()
    } else {
        joined(ps.drop_last()) + ps.last()
    }
}

proof fn lemma_joined3(a: Seq<char>, b: Seq<char>, c: Seq<char>)
    ensures
        joined(seq![a, b, c]) == a + b + c,
{
    assert(seq![a, b, c].drop_last() =~= seq![a, b]);
    assert(seq![a, b].drop_last() =~= seq![a]);
    assert(seq![a].drop_last() =~= Seq::<Seq<char>>::empty());
    assert(joined(Seq::<Seq<char>>::empty()) == Seq::<char>::empty());
    assert(joined(seq![a]) =~= a);
    assert(joined(seq![a, b]) =~= a + b);
    assert(joined(seq![a, b, c]) =~= a + b + c);
}

proof fn lemma_joined4(a: Seq<char>, b: Seq<char>, c: Seq<char>, d: Seq<char>)
    ensures
        joined(seq![a, b, c, d]) == a + b + c + d,
{
    assert(seq![a, b, c, d].drop_last() =~= seq![a, b, c]);
    lemma_joined3(a, b, c);
}

proof fn lemma_joined5(a: Seq<char>, b: Seq<char>, c: Seq<char>, d: Seq<char>, e: Seq<char>)
    ensures
        joined(seq![a, b, c, d, e]) == a + b + c + d + e,
{
    assert(seq![a, b, c, d, e].drop_last() =~= seq![a, b, c, d]);
    lemma_joined4(a, b, c, d);
}

fn text3(a: &str, b: &str, c: &str) -> (r: String)
    ensures
        r@ == a@ + b@ + c@,
{
    let parts = vec![a, b, c];
    let r = join(&parts);
    proof {
        assert(parts@.map_values(|p: &str| p@) =~= seq![a@, b@, c@]);
        lemma_joined3(a@, b@, c@);
    }
    r
}

fn text4(a: &str, b: &str, c: &str, d: &str) -> (r: String)
    ensures
        r@ == a@ + b@ + c@ + d@,
{
    let parts = vec![a, b, c, d];
    let r = join(&parts);
    proof {
        assert(parts@.map_values(|p: &str| p@) =~= seq![a@, b@, c@, d@]);
        lemma_joined4(a@, b@, c@, d@);
    }
    r
}

fn text5(a: &str, b: &str, c: &str, d: &str, e: &str) -> (r: String)
    ensures
        r@ == a@ + b@ + c@ + d@ + e@,
{
    let parts = vec![a, b, c, d, e];
    let r = join(&parts);
    proof {
        assert(parts@.map_values(|p: &str| p@) =~= seq![a@, b@, c@, d@, e@]);
        lemma_joined5(a@, b@, c@, d@, e@);
    }
    r
}

/// `CREATE ENTITY`: the entity is added, with no registry; one that exists is
/// `EntityAlreadyCreated`.
pub fn create_controller(ctx: &mut LocalContext, entity: String) -> (r: Result<TxResponse, Error>)
    requires
        old(ctx).wf(),
    ensures
        final(ctx).wf(),
        old(ctx)@.contains_key(entity@) ==> (r matches Err(Error::EntityAlreadyCreated(s)) && s@
            == entity@) && final(ctx)@ == old(ctx)@,
        !old(ctx)@.contains_key(entity@) ==> final(ctx)@ == old(ctx)@.insert(entity@, Seq::empty())
            && (r matches Ok(t) && t.tx_type == TxType::Create && t.entity@ == entity@ && t.uuid
            is None && t.message@ == created_message(entity@)),
{
    match ctx.create_entity(entity.as_str()) {
        Err(e) => Err(e),
        Ok(()) => {
            let message = text3("Entity ", entity.as_str(), " created");
            Ok(TxResponse::from_create(CreateEntityResponse::new(entity, message)))
        },
    }
}

/// `EVICT entity`: the entity and its registries are dropped. `EVICT id FROM
/// entity`: the registry is dropped from the entity.
pub fn evict_controller(ctx: &mut LocalContext, entity: String, uuid: Option<u128>) -> (r:
    TxResponse)
    requires
        old(ctx).wf(),
    ensures
        final(ctx).wf(),
        uuid is None ==> final(ctx)@ == old(ctx)@.remove(entity@) && r.tx_type
            == TxType::EvictEntityTree && r.message@ == evicted_message(entity@),
        uuid matches Some(id) ==> (old(ctx)@.contains_key(entity@) ==> final(ctx)@ == old(
            ctx,
        )@.insert(entity@, without(old(ctx)@[entity@], id))) && (!old(ctx)@.contains_key(
            entity@,
        ) ==> final(ctx)@ == old(ctx)@) && r.tx_type == TxType::EvictEntity && r.message@
            == evicted_id_message(entity@, id),
        r.entity@ == entity@,
        r.uuid == uuid,
{
    match uuid {
        None => {
            ctx.evict_entity(entity.as_str());
            let message = text3("Entity ", entity.as_str(), " evicted");
            TxResponse::from_delete_or_evict(
                DeleteOrEvictEntityResponse::new(entity, None, message, TxType::EvictEntityTree),
            )
        },
        Some(id) => {
            ctx.evict_registry(entity.as_str(), id);
            let u = uuid_to_string(id);
            let message = text5("Entity ", entity.as_str(), " with id ", u.as_str(), " evicted");
            TxResponse::from_delete_or_evict(
                DeleteOrEvictEntityResponse::new(entity, uuid, message, TxType::EvictEntity),
            )
        },
    }
}

/// The check of an insertion before its line is written: the entity must
/// exist.
pub fn insert_check(ctx: &LocalContext, entity: &str) -> (r: Result<(), Error>)
    requires
        ctx.wf(),
    ensures
        ctx@.contains_key(entity@) <==> r is Ok,
        r matches Err(e) ==> (e matches Error::EntityNotCreated(s) && s@ == entity@),
{
    if ctx.contains_entity(entity) {
        Ok(())
    } else {
        Err(Error::EntityNotCreated(String::from_str(entity)))
    }
}

/// After the line of an insertion is written at `register`, the registry `id`
/// holds `content`.
pub fn insert_commit(
    ctx: &mut LocalContext,
    entity: String,
    id: u128,
    register: DataRegister,
    content: Entity,
) -> (r: TxResponse)
    requires
        old(ctx).wf(),
    ensures
        final(ctx).wf(),
        old(ctx)@.contains_key(entity@) ==> final(ctx)@ == old(ctx)@.insert(
            entity@,
            put(old(ctx)@[entity@], RegistryV { id, register: register@, state: content@ }),
        ),
        !old(ctx)@.contains_key(entity@) ==> final(ctx)@ == old(ctx)@,
        r.tx_type == TxType::Insert,
        r.entity@ == entity@,
        r.uuid == Some(id),
        r.message@ == inserted_message(entity@, id),
{
    ctx.put_registry(entity.as_str(), Registry { id, register, state: content });
    let u = uuid_to_string(id);
    let message = text4("Entity ", entity.as_str(), " inserted with Uuid ", u.as_str());
    TxResponse::from_insert(InsertEntityResponse::new(entity, id, message))
}

/// `UPDATE ... SET`: the state that the keys of `content` replace in the
/// previous state.
pub fn set_state(previous_state: &Entity, content: &Entity) -> (r: Entity)
    ensures
        r.wf(),
        r@ == previous_state@.union_prefer_right(content@),
{
    merge_entities(previous_state, content)
}

/// After the line of an update is written at `register`, the registry `id`
/// holds `stored`, and the answer carries the new state as written.
pub fn update_commit(
    ctx: &mut LocalContext,
    entity: String,
    id: u128,
    register: DataRegister,
    stored: Entity,
    state_log: String,
    tx_type: TxType,
) -> (r: TxResponse)
    requires
        old(ctx).wf(),
    ensures
        final(ctx).wf(),
        old(ctx)@.contains_key(entity@) ==> final(ctx)@ == old(ctx)@.insert(
            entity@,
            put(old(ctx)@[entity@], RegistryV { id, register: register@, state: stored@ }),
        ),
        !old(ctx)@.contains_key(entity@) ==> final(ctx)@ == old(ctx)@,
        r.tx_type == tx_type,
        r.entity@ == entity@,
        r.uuid == Some(id),
        r.state == state_log,
        r.message@ == updated_message(entity@, id),
{
    ctx.put_registry(entity.as_str(), Registry { id, register, state: stored });
    let u = uuid_to_string(id);
    let message = text5("Entity ", entity.as_str(), " with Uuid ", u.as_str(), " updated");
    TxResponse::from_update(UpdateEntityResponse::new(entity, id, state_log, message, tx_type))
}

/// After the line of a deletion is written at `register`, the registry `id`
/// holds the state it had before its last change.
pub fn delete_commit(
    ctx: &mut LocalContext,
    entity: String,
    id: u128,
    id_text: &str,
    register: DataRegister,
    state_to_be: Entity,
) -> (r: TxResponse)
    requires
        old(ctx).wf(),
    ensures
        final(ctx).wf(),
        old(ctx)@.contains_key(entity@) ==> final(ctx)@ == old(ctx)@.insert(
            entity@,
            put(old(ctx)@[entity@], RegistryV { id, register: register@, state: state_to_be@ }),
        ),
        !old(ctx)@.contains_key(entity@) ==> final(ctx)@ == old(ctx)@,
        r.tx_type == TxType::Delete,
        r.entity@ == entity@,
        r.uuid == Some(id),
        r.message@ == deleted_message(entity@, id_text@),
{
    ctx.put_registry(entity.as_str(), Registry { id, register, state: state_to_be });
    let message = text5("Entity ", entity.as_str(), " with Uuid ", id_text, " deleted");
    TxResponse::from_delete_or_evict(
        DeleteOrEvictEntityResponse::new(entity, Some(id), message, TxType::Delete),
    )
}

/// `SELECT keys FROM entity ID id`: the selected part of the registry's
/// state; `EntityNotCreated` or `UuidNotCreatedForEntity` where there is none.
pub fn select_with_id(ctx: &LocalContext, entity: &str, id: u128, to_select: &ToSelect) -> (r:
    Result<Entity, Error>)
    requires
        ctx.wf(),
    ensures
        !ctx@.contains_key(entity@) ==> (r matches Err(Error::EntityNotCreated(s)) && s@
            == entity@),
        ctx@.contains_key(entity@) && !has_id(ctx@[entity@], id) ==> (r matches Err(
            Error::UuidNotCreatedForEntity(s, u),
        ) && s@ == entity@ && u == id),
        ctx@.contains_key(entity@) && has_id(ctx@[entity@], id) ==> (r matches Ok(e) && e@
            == selected(state_of(ctx@[entity@], id), to_select@)),
{
    match ctx.registry(entity, id) {
        Some(reg) => {
            proof {
                ctx.law_registries_in_id_order(entity@);
                crate::context::lemma_state_of(
                    ctx@[entity@],
                    RegistryV { id: reg.id, register: reg.register@, state: reg.state@ },
                );
            }
            let e = select_state(&reg.state, to_select);
            Ok(e)
        },
        None => {
            match ctx.check_registry(entity, id) {
                Err(e) => Err(e),
                Ok(()) => Err(Error::UuidNotCreatedForEntity(String::from_str(entity), id)),
            }
        },
    }
}

/// The answer to `SELECT keys FROM entity` with its functions: the selected
/// part of each registry, after `OFFSET` and within `LIMIT`, then `DEDUP`,
/// `ORDER BY`, `GROUP BY` and `COUNT`.
pub open spec fn select_all_spec(rs: Seq<RegistryV>, to_select: ToSelectV, f: AlgebraV) -> (
    QueryResultV,
    Option<nat>,
) {
    let (limit, offset, count) = limit_offset_count(f);
    manipulated(
        dedup(skip_take(generate(states_of_registries(rs), to_select), offset as int, limit as int), f),
        f,
        count,
    )
}

pub fn select_all(
    ctx: &LocalContext,
    entity: &str,
    to_select: &ToSelect,
    functions: &AlgebraFunctions,
) -> (r: Result<(QueryResult, Option<usize>), Error>)
    requires
        ctx.wf(),
        dedup_key_wf(functions@),
    ensures
        !ctx@.contains_key(entity@) ==> (r matches Err(Error::EntityNotCreated(s)) && s@
            == entity@),
        ctx@.contains_key(entity@) ==> (r matches Ok(v) && v.0@ == select_all_spec(
            ctx@[entity@],
            to_select@,
            functions@,
        ).0 && count_view(v.1) == select_all_spec(ctx@[entity@], to_select@, functions@).1),
{
    let registries = match ctx.states(entity) {
        Err(e) => {
            return Err(e);
        },
        Ok(v) => v,
    };
    let (limit, offset, count) = get_limit_offset_count(functions);
    let states = generate_state(&registries, to_select);
    let states = skip_take_states(states, offset, limit);
    let states = dedup_states(states, functions);
    Ok(get_result_after_manipulation(states, functions, count))
}

/// The answer to `SELECT keys FROM entity WHERE {...}` with its functions.
pub fn select_where_controller(
    ctx: &LocalContext,
    entity: &str,
    to_select: &ToSelect,
    clauses: &Vec<Clause>,
    functions: &AlgebraFunctions,
) -> (r: Result<(QueryResult, Option<usize>), Error>)
    requires
        ctx.wf(),
        dedup_key_wf(functions@),
        clauses_bounds_wf(clause_seq_view(clauses@)),
    ensures
        !ctx@.contains_key(entity@) ==> (r matches Err(Error::EntityNotCreated(s)) && s@
            == entity@),
        ctx@.contains_key(entity@) ==> (r matches Ok(v) && {
            let m = manipulated(
                select_where_spec(
                    states_of_registries(ctx@[entity@]),
                    to_select@,
                    clause_seq_view(clauses@),
                    functions@,
                ),
                functions@,
                functions@.count,
            );
            v.0@ == m.0 && count_view(v.1) == m.1
        }),
{
    let registries = match ctx.states(entity) {
        Err(e) => {
            return Err(e);
        },
        Ok(v) => v,
    };
    let states = select_where(&registries, to_select, clauses, functions);
    Ok(get_result_after_manipulation(states, functions, functions.count))
}

/// The identifiers asked for that the entity has, in the order asked.
pub open spec fn found_ids(uuids: Seq<u128>, rs: Seq<RegistryV>) -> Seq<u128>
    decreases uuids.len(),
{
    if uuids.len() == 0 {
        Seq::empty()
    } else if has_id(rs, uuids.last()) {
        found_ids(uuids.drop_last(), rs).push(uuids.last())
    } else {
        found_ids(uuids.drop_last(), rs)
    }
}

/// `OFFSET` then `LIMIT` on a list of identifiers.
pub open spec fn window(ids: Seq<u128>, offset: int, limit: int) -> Seq<u128> {
    let start = if offset < ids.len() {
        offset
    } else {
        ids.len() as int
    };
    let end = if start + limit < ids.len() {
        start + limit
    } else {
        ids.len() as int
    };
    ids.subrange(start, end)
}

/// The registries, in the order of their identifiers, whose identifier is in
/// `ids`, each with the selected part of its state.
pub open spec fn pick(rs: Seq<RegistryV>, ids: Seq<u128>, to_select: ToSelectV) -> crate::clauses::StatesV
    decreases rs.len(),
{
    if rs.len() == 0 {
        Seq::empty()
    } else if ids.contains(rs.last().id) {
        pick(rs.drop_last(), ids, to_select).push((rs.last().id, selected(rs.last().state, to_select)))
    } else {
        pick(rs.drop_last(), ids, to_select)
    }
}

/// The registries that `SELECT keys FROM entity IDS IN #{...}` reads: of the
/// identifiers asked for that exist, those within `OFFSET` and `LIMIT`, in the
/// order of identifiers, each once.
pub open spec fn select_ids_states(rs: Seq<RegistryV>, uuids: Seq<u128>, to_select: ToSelectV, f: AlgebraV) -> crate::clauses::StatesV {
    let (limit, offset, _) = limit_offset_count(f);
    pick(rs, window(found_ids(uuids, rs), offset as int, limit as int), to_select)
}

fn contains_id(ids: &Vec<u128>, id: u128) -> (r: bool)
    ensures
        r == ids@.contains(id),
{
    let mut i: usize = 0;
    while i < ids.len()
        invariant
            i <= ids.len(),
            forall|j: int| 0 <= j < i ==> ids@[j] != id,
        decreases ids.len() - i,
    {
        if ids[i] == id {
            assert(ids@[i as int] == id);
            return true;
        }
        i = i + 1;
    }
    false
}

/// `SELECT keys FROM entity IDS IN #{...}` with its functions: the registries
/// of `select_ids_states`, then `DEDUP`, `ORDER BY`, `GROUP BY` and `COUNT`.
/// A `DEDUP NIL(key)` keeps every registry that holds a value other than
/// `Nil` under the key, and the first of those that hold none.
pub fn select_with_ids(
    ctx: &LocalContext,
    entity: &str,
    uuids: &Vec<u128>,
    to_select: &ToSelect,
    functions: &AlgebraFunctions,
) -> (r: Result<(QueryResult, Option<usize>), Error>)
    requires
        ctx.wf(),
        dedup_key_wf(functions@),
    ensures
        !ctx@.contains_key(entity@) ==> (r matches Err(Error::EntityNotCreated(s)) && s@
            == entity@),
        ctx@.contains_key(entity@) ==> (r matches Ok(v) && {
            let m = manipulated_options(
                dedup_options(
                    lift(select_ids_states(ctx@[entity@], uuids@, to_select@, functions@)),
                    functions@,
                ),
                functions@,
                functions@.count,
            );
            v.0@ == m.0 && count_view(v.1) == m.1
        }),
{
    let registries = match ctx.states(entity) {
        Err(e) => {
            return Err(e);
        },
        Ok(v) => v,
    };
    let ghost rs = ctx@[entity@];
    let mut found: Vec<u128> = Vec::new();
    let mut i: usize = 0;
    while i < uuids.len()
        invariant
            ctx.wf(),
            ctx@.contains_key(entity@),
            rs == ctx@[entity@],
            i <= uuids.len(),
            found@ == found_ids(uuids@.subrange(0, i as int), rs),
        decreases uuids.len() - i,
    {
        assert(uuids@.subrange(0, i + 1).drop_last() =~= uuids@.subrange(0, i as int));
        if ctx.check_registry(entity, uuids[i]).is_ok() {
            found.push(uuids[i]);
        }
        i = i + 1;
    }
    assert(uuids@.subrange(0, uuids.len() as int) =~= uuids@);
    let (limit, offset, count) = get_limit_offset_count(functions);
    let n = found.len();
    let start = if offset < n {
        offset
    } else {
        n
    };
    let end = if limit < n - start {
        start + limit
    } else {
        n
    };
    let mut ids: Vec<u128> = Vec::new();
    let mut j: usize = start;
    while j < end
        invariant
            start <= j <= end <= n == found.len(),
            ids@ == found@.subrange(start as int, j as int),
        decreases end - j,
    {
        ids.push(found[j]);
        assert(ids@ =~= found@.subrange(start as int, j + 1));
        j = j + 1;
    }
    let ghost sr = crate::context::states_of_registries(rs);
    let mut states: Vec<(u128, Entity)> = Vec::new();
    let mut q: usize = 0;
    while q < registries.len()
        invariant
            q <= registries.len(),
            states_view(registries@) == sr,
            sr == crate::context::states_of_registries(rs),
            sr.len() == rs.len(),
            states_view(states@) == pick(rs.subrange(0, q as int), ids@, to_select@),
        decreases registries.len() - q,
    {
        assert(rs.subrange(0, q + 1).drop_last() =~= rs.subrange(0, q as int));
        assert(rs.subrange(0, q + 1).last() == rs[q as int]);
        assert(sr[q as int] == (rs[q as int].id, rs[q as int].state));
        assert(states_view(registries@)[q as int] == (registries@[q as int].0, registries@[q as int].1@));
        if contains_id(&ids, registries[q].0) {
            let e = select_state(&registries[q].1, to_select);
            let ghost before = states@;
            let ghost ev = e@;
            states.push((registries[q].0, e));
            assert(states_view(states@) =~= states_view(before).push((registries@[q as int].0, ev)));
        }
        q = q + 1;
    }
    assert(rs.subrange(0, registries.len() as int) =~= rs);
    let states = dedup_option_states(lift_states(states), functions);
    Ok(get_result_after_manipulation_for_options(states, functions, functions.count))
}

/// The value under which the `DEDUP` of `SELECT ... IDS IN` files a state:
/// with `NIL(x)`, a state holding a value other than `Nil` under `x` is not
/// filed (it is always kept); other states file under their value, `Nil`
/// where absent.
pub open spec fn dedup_option_value(k: Seq<char>, st: StateV) -> Option<TypesV> {
    let key = crate::query::dedup_key(k);
    if crate::text::starts_with(k, "NIL("@) && st.contains_key(key) && st[key] != TypesV::Nil {
        None
    } else if st.contains_key(key) {
        Some(st[key])
    } else {
        Some(TypesV::Nil)
    }
}

pub open spec fn dedup_option_fold(states: crate::clauses::StatesV, k: Seq<char>) -> (crate::clauses::StatesV, Seq<TypesV>)
    decreases states.len(),
{
    if states.len() == 0 {
        (states, Seq::empty())
    } else {
        let (kept, seen) = dedup_option_fold(states.drop_last(), k);
        match dedup_option_value(k, states.last().1) {
            None => (kept.push(states.last()), seen),
            Some(v) => if seen.contains(v) {
                (kept, seen)
            } else {
                (kept.push(states.last()), seen.push(v))
            },
        }
    }
}

/// `DEDUP` on identifiers that may lack a state: where asked, the identifiers
/// with a state, deduplicated (see `dedup_option_value`); else all of them.
pub open spec fn dedup_options(states: OptStatesV, f: AlgebraV) -> OptStatesV {
    match f.dedup {
        Some(k) => lift(dedup_option_fold(somes(states), k).0),
        None => states,
    }
}

fn seen_has(seen: &Vec<Types>, v: &Types) -> (r: bool)
    ensures
        r == seen@.map_values(|t: Types| t@).contains(v@),
{
    let ghost sv = seen@.map_values(|t: Types| t@);
    let mut i: usize = 0;
    while i < seen.len()
        invariant
            i <= seen.len(),
            sv == seen@.map_values(|t: Types| t@),
            forall|j: int| 0 <= j < i ==> sv[j] != v@,
        decreases seen.len() - i,
    {
        if crate::compare::types_eq(&seen[i], v) {
            assert(sv[i as int] == v@);
            return true;
        }
        i = i + 1;
    }
    false
}

/// The `DEDUP` of `SELECT ... IDS IN` (see `dedup_option_value`).
pub fn dedup_option_states(states: Vec<(u128, Option<Entity>)>, functions: &AlgebraFunctions) -> (r: Vec<
    (u128, Option<Entity>),
>)
    requires
        dedup_key_wf(functions@),
    ensures
        opt_states_view(r@) == dedup_options(opt_states_view(states@), functions@),
{
    match &functions.dedup {
        None => states,
        Some(k) => {
            let states = some_states(&states);
            let kc = crate::text::chars_of(k.as_str());
            let nil_prefix = crate::text::chars_of("NIL(");
            let nil = crate::text::starts_with_chars(&kc, &nil_prefix);
            proof {
                reveal_strlit("NIL(");
            }
            let key = if nil {
                string_of(&crate::text::slice_chars(&kc, 4, kc.len() - 1))
            } else {
                k.clone()
            };
            let ghost sv = states_view(states@);
            let mut kept: Vec<(u128, Entity)> = Vec::new();
            let mut seen: Vec<Types> = Vec::new();
            let mut i: usize = 0;
            while i < states.len()
                invariant
                    i <= states.len(),
                    sv == states_view(states@),
                    nil == crate::text::starts_with(k@, "NIL("@),
                    key@ == crate::query::dedup_key(k@),
                    (states_view(kept@), seen@.map_values(|t: Types| t@)) == dedup_option_fold(
                        sv.subrange(0, i as int),
                        k@,
                    ),
                decreases states.len() - i,
            {
                let st = &states[i].1;
                let ghost pre = sv.subrange(0, i + 1);
                assert(pre.drop_last() =~= sv.subrange(0, i as int));
                assert(pre.last() == sv[i as int]);
                let value: Option<Types> = match crate::compare::entity_get(st, key.as_str()) {
                    Some(v) => match v {
                        Types::Nil => Some(Types::Nil),
                        _ => if nil {
                            None
                        } else {
                            Some(crate::types::clone_types(v))
                        },
                    },
                    None => Some(Types::Nil),
                };
                let ghost kb = kept@;
                match value {
                    Some(v) => {
                        if !seen_has(&seen, &v) {
                            let ghost sb = seen@;
                            let ghost vv = v@;
                            kept.push((states[i].0, clone_entity(st)));
                            seen.push(v);
                            assert(states_view(kept@) =~= states_view(kb).push(sv[i as int]));
                            assert(seen@.map_values(|t: Types| t@) =~= sb.map_values(
                                |t: Types| t@,
                            ).push(vv));
                        }
                    },
                    None => {
                        kept.push((states[i].0, clone_entity(st)));
                        assert(states_view(kept@) =~= states_view(kb).push(sv[i as int]));
                    },
                }
                i = i + 1;
            }
            assert(sv.subrange(0, states.len() as int) =~= sv);
            lift_states(kept)
        },
    }
}

/// Instant `a` is not later than instant `b`.
pub open spec fn not_later(a: (i64, u32), b: (i64, u32)) -> bool {
    a.0 < b.0 || (a.0 == b.0 && a.1 <= b.1)
}

/// One change met while walking back the history of a registry, at `date`:
/// whether it is kept (it lies within the bounds given), and whether the walk
/// stops (it lies after the end).
pub open spec fn history_decision(date: (i64, u32), start: Option<(i64, u32)>, end: Option<(i64, u32)>) -> (
    bool,
    bool,
) {
    let after_start = match start {
        Some(s) => not_later(s, date),
        None => true,
    };
    let before_end = match end {
        Some(e) => not_later(date, e),
        None => true,
    };
    (after_start && before_end, !before_end)
}

fn not_later_exec(a: (i64, u32), b: (i64, u32)) -> (r: bool)
    ensures
        r == not_later(a, b),
{
    a.0 < b.0 || (a.0 == b.0 && a.1 <= b.1)
}

/// Whether the history keeps the change at `date`, and whether it stops.
pub fn history_step(date: (i64, u32), start: Option<(i64, u32)>, end: Option<(i64, u32)>) -> (r: (
    bool,
    bool,
))
    ensures
        r == history_decision(date, start, end),
{
    let after_start = match start {
        Some(s) => not_later_exec(s, date),
        None => true,
    };
    let before_end = match end {
        Some(e) => not_later_exec(date, e),
        None => true,
    };
    (after_start && before_end, !before_end)
}

/// The value a state holds under `key`, `Nil` where it holds none: what a
/// plain `DEDUP key` compares registries by.
pub open spec fn value_or_nil(st: StateV, key: Seq<char>) -> TypesV {
    if st.contains_key(key) {
        st[key]
    } else {
        TypesV::Nil
    }
}

/// `entry` is a registry of `states` before which no registry holds the
/// value `v` under `k`.
pub open spec fn first_with_value(
    states: crate::clauses::StatesV,
    k: Seq<char>,
    entry: (u128, StateV),
    v: TypesV,
) -> bool {
    exists|j: int|
        0 <= j < states.len() && #[trigger] states[j] == entry && forall|m: int|
            0 <= m < j ==> value_or_nil(#[trigger] states[m].1, k) != v
}

proof fn lemma_plain_dedup_fold(states: crate::clauses::StatesV, k: Seq<char>)
    requires
        !crate::text::starts_with(k, "NIL("@),
    ensures
        ({
            let (kept, seen) = dedup_option_fold(states, k);
            &&& seen.len() == kept.len()
            &&& forall|i: int| 0 <= i < kept.len() ==> #[trigger] seen[i] == value_or_nil(kept[i].1, k)
            &&& forall|i: int, j: int| 0 <= i < j < kept.len() ==> seen[i] != seen[j]
            &&& forall|j: int| 0 <= j < states.len() ==> seen.contains(value_or_nil(#[trigger] states[j].1, k))
            &&& forall|i: int| 0 <= i < kept.len() ==> first_with_value(states, k, #[trigger] kept[i], seen[i])
        }),
    decreases states.len(),
{
    assert(crate::query::dedup_key(k) == k);
    if states.len() > 0 {
        let pre = states.drop_last();
        lemma_plain_dedup_fold(pre, k);
        let (kept0, seen0) = dedup_option_fold(pre, k);
        let last = states.last();
        let v = value_or_nil(last.1, k);
        assert(dedup_option_value(k, last.1) == Some(v));
        assert forall|j: int| 0 <= j < pre.len() implies #[trigger] states[j] == pre[j] by {}
        let (kept, seen) = dedup_option_fold(states, k);
        if seen0.contains(v) {
            assert(kept == kept0 && seen == seen0);
            assert forall|j: int| 0 <= j < states.len() implies seen.contains(
                value_or_nil(#[trigger] states[j].1, k),
            ) by {
                if j < pre.len() {
                    assert(states[j] == pre[j]);
                } else {
                    assert(states[j] == last);
                }
            }
            assert forall|i: int| 0 <= i < kept.len() implies first_with_value(states, k, #[trigger] kept[i], seen[i]) by {
                assert(first_with_value(pre, k, kept0[i], seen0[i]));
                let j = choose|j: int| 0 <= j < pre.len() && #[trigger] pre[j] == kept0[i] && forall|m: int| 0 <= m < j ==> value_or_nil(#[trigger] pre[m].1, k) != seen0[i];
                assert(states[j] == pre[j]);
                assert forall|m: int| 0 <= m < j implies value_or_nil(#[trigger] states[m].1, k) != seen[i] by {
                    assert(states[m] == pre[m]);
                }
            }
        } else {
            assert(kept == kept0.push(last) && seen == seen0.push(v));
            let n = kept0.len() as int;
            assert forall|i: int| 0 <= i < kept.len() implies #[trigger] seen[i] == value_or_nil(kept[i].1, k) by {
                if i < n {
                    assert(seen[i] == seen0[i] && kept[i] == kept0[i]);
                }
            }
            assert forall|i: int, j: int| 0 <= i < j < kept.len() implies seen[i] != seen[j] by {
                if j < n {
                    assert(seen[i] == seen0[i] && seen[j] == seen0[j]);
                } else {
                    assert(seen[i] == seen0[i]);
                    assert(seen0.contains(seen0[i]));
                }
            }
            assert forall|j: int| 0 <= j < states.len() implies seen.contains(
                value_or_nil(#[trigger] states[j].1, k),
            ) by {
                if j < pre.len() {
                    assert(states[j] == pre[j]);
                    let i = choose|i: int| 0 <= i < seen0.len() && seen0[i] == value_or_nil(pre[j].1, k);
                    assert(seen[i] == seen0[i]);
                } else {
                    assert(states[j] == last);
                    assert(seen[n] == v);
                }
            }
            assert forall|i: int| 0 <= i < kept.len() implies first_with_value(states, k, #[trigger] kept[i], seen[i]) by {
                if i < n {
                    assert(first_with_value(pre, k, kept0[i], seen0[i]));
                let j = choose|j: int| 0 <= j < pre.len() && #[trigger] pre[j] == kept0[i] && forall|m: int| 0 <= m < j ==> value_or_nil(#[trigger] pre[m].1, k) != seen0[i];
                    assert(states[j] == pre[j]);
                    assert(kept[i] == kept0[i] && seen[i] == seen0[i]);
                    assert forall|m: int| 0 <= m < j implies value_or_nil(#[trigger] states[m].1, k) != seen[i] by {
                        assert(states[m] == pre[m]);
                    }
                } else {
                    let j = states.len() - 1;
                    assert(states[j] == last);
                    assert(kept[i] == last && seen[i] == v);
                    assert forall|m: int| 0 <= m < j implies value_or_nil(#[trigger] states[m].1, k) != seen[i] by {
                        assert(states[m] == pre[m]);
                        assert(seen0.contains(value_or_nil(pre[m].1, k)));
                    }
                }
            }
        }
    }
}

/// A plain `DEDUP key` (not `NIL(...)`) of registries keeps, in order, the
/// first registry of each value under the key (`Nil` where absent): the
/// kept registries hold pairwise different values, each is a registry of
/// the input that no earlier registry shares its value with, and every
/// value of the input is held by a kept registry.
pub proof fn law_plain_dedup(states: crate::clauses::StatesV, k: Seq<char>)
    requires
        !crate::text::starts_with(k, "NIL("@),
    ensures
        ({
            let kept = dedup_option_fold(states, k).0;
            &&& forall|i: int, j: int| 0 <= i < j < kept.len() ==> value_or_nil(#[trigger] kept[i].1, k)
                != value_or_nil(#[trigger] kept[j].1, k)
            &&& forall|j: int| 0 <= j < states.len() ==> exists|i: int| 0 <= i < kept.len()
                && #[trigger] value_or_nil(kept[i].1, k) == value_or_nil(#[trigger] states[j].1, k)
            &&& forall|i: int| 0 <= i < kept.len() ==> first_with_value(states, k, #[trigger] kept[i], value_or_nil(kept[i].1, k))
        }),
{
    lemma_plain_dedup_fold(states, k);
    let (kept, seen) = dedup_option_fold(states, k);
    assert forall|i: int, j: int| 0 <= i < j < kept.len() implies value_or_nil(#[trigger] kept[i].1, k)
        != value_or_nil(#[trigger] kept[j].1, k) by {
        assert(seen[i] == value_or_nil(kept[i].1, k));
        assert(seen[j] == value_or_nil(kept[j].1, k));
    }
    assert forall|j: int| 0 <= j < states.len() implies exists|i: int| 0 <= i < kept.len()
        && #[trigger] value_or_nil(kept[i].1, k) == value_or_nil(#[trigger] states[j].1, k) by {
        assert(seen.contains(value_or_nil(states[j].1, k)));
        let i = choose|i: int| 0 <= i < seen.len() && seen[i] == value_or_nil(states[j].1, k);
        assert(seen[i] == value_or_nil(kept[i].1, k));
    }
    assert forall|i: int| 0 <= i < kept.len() implies first_with_value(states, k, #[trigger] kept[i], value_or_nil(kept[i].1, k)) by {
        assert(seen[i] == value_or_nil(kept[i].1, k));
    }
}

pub(crate) proof fn lemma_somes_members(s: OptStatesV)
    ensures
        forall|i: int| 0 <= i < somes(s).len() ==> s.contains(
            (#[trigger] somes(s)[i].0, Some(somes(s)[i].1)),
        ),
        forall|j: int| 0 <= j < s.len() && (#[trigger] s[j]).1 is Some ==> somes(s).contains(
            (s[j].0, s[j].1->0),
        ),
    decreases s.len(),
{
    if s.len() > 0 {
        let pre = s.drop_last();
        lemma_somes_members(pre);
        let sp = somes(pre);
        let sm = somes(s);
        assert forall|i: int| 0 <= i < sm.len() implies s.contains((#[trigger] sm[i].0, Some(sm[i].1))) by {
            if i < sp.len() {
                assert(sm[i] == sp[i]);
                let j = choose|j: int| 0 <= j < pre.len() && pre[j] == (sp[i].0, Some(sp[i].1));
                assert(s[j] == pre[j]);
            } else {
                assert(s[s.len() - 1] == s.last());
            }
        }
        assert forall|j: int| 0 <= j < s.len() && (#[trigger] s[j]).1 is Some implies sm.contains(
            (s[j].0, s[j].1->0),
        ) by {
            if j < pre.len() {
                assert(s[j] == pre[j]);
                let i = choose|i: int| 0 <= i < sp.len() && sp[i] == (pre[j].0, pre[j].1->0);
                assert(sm[i] == sp[i]);
            } else {
                assert(sm[sm.len() - 1] == (s[j].0, s[j].1->0));
            }
        }
    }
}

/// A plain `DEDUP key` of `SELECT ... IDS IN` keeps only identifiers that
/// have a state, each taken from the input, holding pairwise different
/// values under the key (`Nil` where absent), and every value that a state
/// of the input holds is held by one that is kept.
pub proof fn law_ids_dedup(states: OptStatesV, f: AlgebraV, k: Seq<char>)
    requires
        f.dedup == Some(k),
        !crate::text::starts_with(k, "NIL("@),
    ensures
        ({
            let r = dedup_options(states, f);
            &&& forall|i: int| 0 <= i < r.len() ==> (#[trigger] r[i]).1 is Some && states.contains(r[i])
            &&& forall|i: int, j: int| 0 <= i < j < r.len() ==> value_or_nil((#[trigger] r[i]).1->0, k)
                != value_or_nil((#[trigger] r[j]).1->0, k)
            &&& forall|j: int| 0 <= j < states.len() && (#[trigger] states[j]).1 is Some ==> exists|i: int|
                0 <= i < r.len() && value_or_nil((#[trigger] r[i]).1->0, k) == value_or_nil(states[j].1->0, k)
        }),
{
    let sm = somes(states);
    lemma_somes_members(states);
    law_plain_dedup(sm, k);
    let kept = dedup_option_fold(sm, k).0;
    let r = dedup_options(states, f);
    assert(r == lift(kept));
    assert forall|i: int| 0 <= i < r.len() implies (#[trigger] r[i]).1 is Some && states.contains(r[i]) by {
        assert(r[i] == (kept[i].0, Some(kept[i].1)));
        let j = choose|j: int| 0 <= j < sm.len() && #[trigger] sm[j] == kept[i] && forall|m: int|
            0 <= m < j ==> value_or_nil(#[trigger] sm[m].1, k) != value_or_nil(kept[i].1, k);
        assert(states.contains((sm[j].0, Some(sm[j].1))));
    }
    assert forall|i: int, j: int| 0 <= i < j < r.len() implies value_or_nil((#[trigger] r[i]).1->0, k)
        != value_or_nil((#[trigger] r[j]).1->0, k) by {
        assert(r[i] == (kept[i].0, Some(kept[i].1)));
        assert(r[j] == (kept[j].0, Some(kept[j].1)));
    }
    assert forall|j: int| 0 <= j < states.len() && (#[trigger] states[j]).1 is Some implies exists|i: int|
        0 <= i < r.len() && value_or_nil((#[trigger] r[i]).1->0, k) == value_or_nil(states[j].1->0, k) by {
        assert(sm.contains((states[j].0, states[j].1->0)));
        let q = choose|q: int| 0 <= q < sm.len() && sm[q] == (states[j].0, states[j].1->0);
        let i = choose|i: int| 0 <= i < kept.len() && #[trigger] value_or_nil(kept[i].1, k) == value_or_nil(
            #[trigger] sm[q].1,
            k,
        );
        assert(r[i] == (kept[i].0, Some(kept[i].1)));
    }
}

proof fn lemma_nil_dedup_fold(states: crate::clauses::StatesV, k: Seq<char>)
    requires
        crate::text::starts_with(k, "NIL("@),
    ensures
        ({
            let key = crate::query::dedup_key(k);
            let (kept, seen) = dedup_option_fold(states, k);
            &&& forall|i: int| 0 <= i < seen.len() ==> #[trigger] seen[i] == TypesV::Nil
            &&& seen.contains(TypesV::Nil) <==> exists|i: int|
                0 <= i < kept.len() && value_or_nil(#[trigger] kept[i].1, key) == TypesV::Nil
            &&& forall|i: int, j: int| 0 <= i < j < kept.len() ==> !(value_or_nil(#[trigger] kept[i].1, key)
                == TypesV::Nil && value_or_nil(#[trigger] kept[j].1, key) == TypesV::Nil)
            &&& forall|j: int| 0 <= j < states.len() && value_or_nil(#[trigger] states[j].1, key) != TypesV::Nil
                ==> kept.contains(states[j])
            &&& forall|i: int| 0 <= i < kept.len() ==> states.contains(#[trigger] kept[i])
        }),
    decreases states.len(),
{
    let key = crate::query::dedup_key(k);
    if states.len() > 0 {
        let pre = states.drop_last();
        lemma_nil_dedup_fold(pre, k);
        let (kept0, seen0) = dedup_option_fold(pre, k);
        let (kept, seen) = dedup_option_fold(states, k);
        let last = states.last();
        let n = kept0.len() as int;
        assert forall|j: int| 0 <= j < pre.len() implies #[trigger] states[j] == pre[j] by {}
        assert(states[states.len() - 1] == last);
        if value_or_nil(last.1, key) != TypesV::Nil {
            assert(dedup_option_value(k, last.1) is None);
            assert(kept == kept0.push(last) && seen == seen0);
        } else {
            assert(dedup_option_value(k, last.1) == Some(TypesV::Nil));
            if seen0.contains(TypesV::Nil) {
                assert(kept == kept0 && seen == seen0);
            } else {
                assert(kept == kept0.push(last) && seen == seen0.push(TypesV::Nil));
            }
        }
        assert forall|i: int| 0 <= i < seen.len() implies #[trigger] seen[i] == TypesV::Nil by {
            if i < seen0.len() {
                assert(seen[i] == seen0[i]);
            }
        }
        assert forall|i: int| 0 <= i < kept.len() implies #[trigger] kept[i] == (if i < n { kept0[i] } else { last }) by {}
        if seen.contains(TypesV::Nil) {
            if seen0.contains(TypesV::Nil) {
                let i = choose|i: int| 0 <= i < kept0.len() && value_or_nil(#[trigger] kept0[i].1, key) == TypesV::Nil;
                assert(kept[i] == kept0[i]);
            } else {
                assert(kept[n] == last);
            }
        }
        if exists|i: int| 0 <= i < kept.len() && value_or_nil(#[trigger] kept[i].1, key) == TypesV::Nil {
            let i = choose|i: int| 0 <= i < kept.len() && value_or_nil(#[trigger] kept[i].1, key) == TypesV::Nil;
            if i < n {
                assert(kept[i] == kept0[i]);
                assert(seen0.contains(TypesV::Nil));
                assert(seen.contains(TypesV::Nil)) by {
                    let q = choose|q: int| 0 <= q < seen0.len() && seen0[q] == TypesV::Nil;
                    assert(seen[q] == seen0[q]);
                }
            } else {
                assert(seen[seen.len() - 1] == TypesV::Nil);
            }
        }
        assert forall|i: int, j: int| 0 <= i < j < kept.len() implies !(value_or_nil(#[trigger] kept[i].1, key)
            == TypesV::Nil && value_or_nil(#[trigger] kept[j].1, key) == TypesV::Nil) by {
            if j >= n && i < n && value_or_nil(kept[i].1, key) == TypesV::Nil {
                assert(kept[i] == kept0[i]);
                assert(seen0.contains(TypesV::Nil));
            }
        }
        assert forall|j: int| 0 <= j < states.len() && value_or_nil(#[trigger] states[j].1, key) != TypesV::Nil
            implies kept.contains(states[j]) by {
            if j < pre.len() {
                let i = choose|i: int| 0 <= i < kept0.len() && kept0[i] == pre[j];
                assert(kept[i] == kept0[i]);
            } else {
                assert(kept[n] == last);
            }
        }
        assert forall|i: int| 0 <= i < kept.len() implies states.contains(#[trigger] kept[i]) by {
            if i < n {
                let j = choose|j: int| 0 <= j < pre.len() && pre[j] == kept0[i];
                assert(states[j] == pre[j]);
            }
        }
    }
}

/// `DEDUP NIL(x)` keeps every registry that holds a value other than `Nil`
/// under `x`, and of those that hold `Nil` or nothing there at most one;
/// each kept registry is one of the input.
pub proof fn law_nil_dedup(states: crate::clauses::StatesV, k: Seq<char>)
    requires
        crate::text::starts_with(k, "NIL("@),
    ensures
        ({
            let key = crate::query::dedup_key(k);
            let kept = dedup_option_fold(states, k).0;
            &&& forall|j: int| 0 <= j < states.len() && value_or_nil(#[trigger] states[j].1, key) != TypesV::Nil
                ==> kept.contains(states[j])
            &&& forall|i: int, j: int| 0 <= i < j < kept.len() ==> !(value_or_nil(#[trigger] kept[i].1, key)
                == TypesV::Nil && value_or_nil(#[trigger] kept[j].1, key) == TypesV::Nil)
            &&& forall|i: int| 0 <= i < kept.len() ==> states.contains(#[trigger] kept[i])
        }),
{
    lemma_nil_dedup_fold(states, k);
}

} // verus!
