//! What a `SELECT` makes of the registries it reads: the keys it returns,
//! `LIMIT`, `OFFSET`, `DEDUP`, and the filtering of `WHERE`.

use vstd::prelude::*;
use crate::ast::{AlgebraFunctions, AlgebraV, Clause, ToSelect, ToSelectV, clause_seq_view};
use crate::clauses::{StatesV, clauses_bounds_wf, filter_where, filter_where_clauses, states_view};
use crate::compare::{entity_get, lemma_entity_map_keys, types_eq};
use crate::relation::StateV;
use crate::text::{chars_of, slice_chars, starts_with, starts_with_chars, string_of};
use crate::types::{Entity, Types, TypesV, clone_entity, clone_types, strings_view};

verus! {

/// `LIMIT` (all when absent), `OFFSET` (none when absent) and `COUNT`.
pub open spec fn limit_offset_count(f: AlgebraV) -> (usize, usize, bool) {
    (
        match f.limit {
            Some(l) => l,
            None => usize::MAX,
        },
        match f.offset {
            Some(o) => o,
            None => 0,
        },
        f.count,
    )
}

pub fn get_limit_offset_count(functions: &AlgebraFunctions) -> (r: (usize, usize, bool))
    ensures
        r == limit_offset_count(functions@),
{
    let limit = match functions.limit {
        Some(l) => l,
        None => usize::MAX,
    };
    let offset = match functions.offset {
        Some(o) => o,
        None => 0,
    };
    (limit, offset, functions.count)
}

pub open spec fn is_hash(t: TypesV) -> bool {
    t is Hash
}

/// The part of a state that a `SELECT` returns: its values other than hashes,
/// and of those only the keys asked for.
pub open spec fn selected(st: StateV, to_select: ToSelectV) -> StateV {
    Map::new(
        |k: Seq<char>|
            st.contains_key(k) && !is_hash(st[k]) && match to_select {
                ToSelectV::All => true,
                ToSelectV::Keys(keys) => keys.contains(k),
            },
        |k: Seq<char>| st[k],
    )
}

fn key_listed(keys: &Vec<String>, k: &String) -> (r: bool)
    ensures
        r == strings_view(keys@).contains(k@),
{
    let mut i: usize = 0;
    while i < keys.len()
        invariant
            i <= keys.len(),
            forall|j: int| 0 <= j < i ==> keys@[j]@ != k@,
        decreases keys.len() - i,
    {
        if crate::text::str_eq(keys[i].as_str(), k.as_str()) {
            assert(strings_view(keys@)[i as int] == k@);
            return true;
        }
        i = i + 1;
    }
    proof {
        if strings_view(keys@).contains(k@) {
            let j = choose|j: int| 0 <= j < strings_view(keys@).len() && strings_view(keys@)[j] == k@;
            assert(keys@[j]@ == k@);
        }
    }
    false
}

/// The part of the state `st` that a `SELECT` of `to_select` returns.
pub fn select_state(st: &Entity, to_select: &ToSelect) -> (r: Entity)
    ensures
        r.wf(),
        r@ == selected(st@, to_select@),
{
    let mut acc = Entity::new();
    let mut i: usize = 0;
    while i < st.keys.len()
        invariant
            i <= st.keys.len(),
            acc.wf(),
            acc@ == Map::new(
                |k: Seq<char>|
                    (exists|j: int| 0 <= j < i && #[trigger] st.keys@[j]@ == k) && selected(
                        st@,
                        to_select@,
                    ).contains_key(k),
                |k: Seq<char>| st@[k],
            ),
        decreases st.keys.len() - i,
    {
        let k = &st.keys[i];
        let ghost kv = k@;
        match entity_get(st, k.as_str()) {
            Some(v) => {
                let listed = match to_select {
                    ToSelect::All => true,
                    ToSelect::Keys(keys) => key_listed(keys, k),
                };
                let hash = match v {
                    Types::Hash(_) => true,
                    _ => false,
                };
                if listed && !hash {
                    acc.insert(k.clone(), clone_types(v));
                }
            },
            None => {},
        }
        proof {
            assert(st.keys@[i as int]@ == kv);
            assert(acc@ =~= Map::new(
                |k: Seq<char>|
                    (exists|j: int| 0 <= j < i + 1 && #[trigger] st.keys@[j]@ == k) && selected(
                        st@,
                        to_select@,
                    ).contains_key(k),
                |k: Seq<char>| st@[k],
            ));
        }
        i = i + 1;
    }
    proof {
        assert forall|k: Seq<char>| #[trigger] st@.contains_key(k) implies exists|j: int|
            0 <= j < st.keys.len() && #[trigger] st.keys@[j]@ == k by {
            lemma_entity_map_keys(strings_view(st.keys@), st.values@, k);
            let m = choose|m: int|
                0 <= m < strings_view(st.keys@).len() && strings_view(st.keys@)[m] == k;
            assert(st.keys@[m]@ == k);
        }
        assert(acc@ =~= selected(st@, to_select@));
    }
    acc
}

pub open spec fn generate(states: StatesV, to_select: ToSelectV) -> StatesV {
    states.map_values(|p: (u128, StateV)| (p.0, selected(p.1, to_select)))
}

/// Each registry with the part of its state that a `SELECT` returns.
pub fn generate_state(registries: &Vec<(u128, Entity)>, to_select: &ToSelect) -> (r: Vec<
    (u128, Entity),
>)
    ensures
        states_view(r@) == generate(states_view(registries@), to_select@),
{
    let mut r: Vec<(u128, Entity)> = Vec::new();
    let mut i: usize = 0;
    while i < registries.len()
        invariant
            i <= registries.len(),
            states_view(r@) == generate(states_view(registries@), to_select@).subrange(0, i as int),
        decreases registries.len() - i,
    {
        let e = select_state(&registries[i].1, to_select);
        let ghost before = r@;
        let ghost ev = e@;
        r.push((registries[i].0, e));
        assert(states_view(r@) =~= states_view(before).push((registries@[i as int].0, ev)));
        assert(states_view(r@) =~= generate(states_view(registries@), to_select@).subrange(
            0,
            i + 1,
        ));
        i = i + 1;
    }
    assert(generate(states_view(registries@), to_select@).subrange(0, registries.len() as int)
        =~= generate(states_view(registries@), to_select@));
    r
}

/// `OFFSET` then `LIMIT`: at most `limit` registries, after the first
/// `offset` are passed over.
pub open spec fn skip_take(states: StatesV, offset: int, limit: int) -> StatesV {
    let start = if offset < states.len() {
        offset
    } else {
        states.len() as int
    };
    let end = if start + limit < states.len() {
        start + limit
    } else {
        states.len() as int
    };
    states.subrange(start, end)
}

pub fn skip_take_states(states: Vec<(u128, Entity)>, offset: usize, limit: usize) -> (r: Vec<
    (u128, Entity),
>)
    ensures
        states_view(r@) == skip_take(states_view(states@), offset as int, limit as int),
{
    let n = states.len();
    let start = if offset < n {
        offset
    } else {
        n
    };
    let end = if limit < n - start {
        start + limit
    } else {
        n
    };
    let mut r: Vec<(u128, Entity)> = Vec::new();
    let mut i: usize = start;
    while i < end
        invariant
            start <= i <= end <= n == states.len(),
            states_view(r@) == states_view(states@).subrange(start as int, i as int),
        decreases end - i,
    {
        let e = clone_entity(&states[i].1);
        let ghost before = r@;
        let ghost ev = e@;
        r.push((states[i].0, e));
        assert(states_view(r@) =~= states_view(before).push((states@[i as int].0, ev)));
        assert(states_view(r@) =~= states_view(states@).subrange(start as int, i + 1));
        i = i + 1;
    }
    r
}

/// The key of `DEDUP k`: `k`, or `x` for `NIL(x)`.
pub open spec fn dedup_key(k: Seq<char>) -> Seq<char> {
    if starts_with(k, "NIL("@) {
        k.subrange(4, k.len() - 1)
    } else {
        k
    }
}

/// The value under which `DEDUP k` files a state, if it files it at all:
/// for `NIL(x)` the value under `x` where it is present and not `Nil`; else
/// the value under `k`, `Nil` where it is absent.
pub open spec fn dedup_value(k: Seq<char>, st: StateV) -> Option<TypesV> {
    if starts_with(k, "NIL("@) {
        let key = dedup_key(k);
        if st.contains_key(key) && st[key] != TypesV::Nil {
            Some(st[key])
        } else {
            None
        }
    } else if st.contains_key(k) {
        Some(st[k])
    } else {
        Some(TypesV::Nil)
    }
}

/// `DEDUP k`: the registries, in order, whose value is the first of its kind,
/// with the values seen.
pub open spec fn dedup_fold(states: StatesV, k: Seq<char>) -> (StatesV, Seq<TypesV>)
    decreases states.len(),
{
    if states.len() == 0 {
        (states, Seq::empty())
    } else {
        let (kept, seen) = dedup_fold(states.drop_last(), k);
        match dedup_value(k, states.last().1) {
            Some(v) => if seen.contains(v) {
                (kept, seen)
            } else {
                (kept.push(states.last()), seen.push(v))
            },
            None => (kept, seen),
        }
    }
}

pub open spec fn dedup(states: StatesV, f: AlgebraV) -> StatesV {
    match f.dedup {
        Some(k) => dedup_fold(states, k).0,
        None => states,
    }
}

/// A `DEDUP NIL(x)` key has its closing character, which is ASCII.
pub open spec fn dedup_key_wf(f: AlgebraV) -> bool {
    match f.dedup {
        Some(k) => starts_with(k, "NIL("@) ==> k.len() >= 5 && (k.last() as u32) < 128,
        None => true,
    }
}

/// Whether `DEDUP` may be asked with these functions (see `dedup_key_wf`).
pub fn dedup_key_ok(functions: &AlgebraFunctions) -> (r: bool)
    ensures
        r == dedup_key_wf(functions@),
{
    match &functions.dedup {
        None => true,
        Some(k) => {
            let kc = chars_of(k.as_str());
            let nil_prefix = chars_of("NIL(");
            if starts_with_chars(&kc, &nil_prefix) {
                kc.len() >= 5 && (kc[kc.len() - 1] as u32) < 128
            } else {
                true
            }
        },
    }
}

fn seen_contains(seen: &Vec<Types>, v: &Types) -> (r: bool)
    ensures
        r == seen@.map_values(|t: Types| t@).contains(v@),
{
    let ghost sv = seen@.map_values(|t: Types| t@);
    let mut i: usize = 0;
    while i < seen.len()
        invariant
            i <= seen.len(),
            sv == seen@.map_values(|t: Types| t@),
            forall|j: int| 0 <= j < i ==> sv[j] != v@,
        decreases seen.len() - i,
    {
        if types_eq(&seen[i], v) {
            assert(sv[i as int] == v@);
            return true;
        }
        i = i + 1;
    }
    false
}

/// `DEDUP`: of the registries that file under the same value, the first.
pub fn dedup_states(states: Vec<(u128, Entity)>, functions: &AlgebraFunctions) -> (r: Vec<
    (u128, Entity),
>)
    requires
        dedup_key_wf(functions@),
    ensures
        states_view(r@) == dedup(states_view(states@), functions@),
{
    match &functions.dedup {
        None => states,
        Some(k) => {
            let kc = chars_of(k.as_str());
            let nil_prefix = chars_of("NIL(");
            let nil = starts_with_chars(&kc, &nil_prefix);
            proof {
                reveal_strlit("NIL(");
            }
            let key = if nil {
                string_of(&slice_chars(&kc, 4, kc.len() - 1))
            } else {
                k.clone()
            };
            let ghost sv = states_view(states@);
            let mut kept: Vec<(u128, Entity)> = Vec::new();
            let mut seen: Vec<Types> = Vec::new();
            let mut i: usize = 0;
            while i < states.len()
                invariant
                    i <= states.len(),
                    sv == states_view(states@),
                    nil == starts_with(k@, "NIL("@),
                    key@ == dedup_key(k@),
                    (states_view(kept@), seen@.map_values(|t: Types| t@)) == dedup_fold(
                        sv.subrange(0, i as int),
                        k@,
                    ),
                decreases states.len() - i,
            {
                let st = &states[i].1;
                let ghost pre = sv.subrange(0, i + 1);
                assert(pre.drop_last() =~= sv.subrange(0, i as int));
                assert(pre.last() == sv[i as int]);
                let value: Option<Types> = if nil {
                    match entity_get(st, key.as_str()) {
                        Some(v) => match v {
                            Types::Nil => None,
                            _ => Some(clone_types(v)),
                        },
                        None => None,
                    }
                } else {
                    match entity_get(st, k.as_str()) {
                        Some(v) => Some(clone_types(v)),
                        None => Some(Types::Nil),
                    }
                };
                match value {
                    Some(v) => {
                        if !seen_contains(&seen, &v) {
                            let ghost kb = kept@;
                            let ghost sb = seen@;
                            let ghost vv = v@;
                            kept.push((states[i].0, clone_entity(st)));
                            seen.push(v);
                            assert(states_view(kept@) =~= states_view(kb).push(sv[i as int]));
                            assert(seen@.map_values(|t: Types| t@) =~= sb.map_values(
                                |t: Types| t@,
                            ).push(vv));
                        }
                    },
                    None => {},
                }
                i = i + 1;
            }
            assert(sv.subrange(0, states.len() as int) =~= sv);
            kept
        },
    }
}

/// The registries that `SELECT ... WHERE` returns: the selected part of each
/// state, those that the clauses keep, after `OFFSET` and within `LIMIT`, then
/// `DEDUP`.
pub open spec fn select_where_spec(
    registries: StatesV,
    to_select: ToSelectV,
    cs: Seq<crate::ast::ClauseV>,
    f: AlgebraV,
) -> StatesV {
    let (limit, offset, _) = limit_offset_count(f);
    dedup(
        skip_take(filter_where(generate(registries, to_select), cs), offset as int, limit as int),
        f,
    )
}

pub fn select_where(
    registries: &Vec<(u128, Entity)>,
    to_select: &ToSelect,
    clauses: &Vec<Clause>,
    functions: &AlgebraFunctions,
) -> (r: Vec<(u128, Entity)>)
    requires
        clauses_bounds_wf(clause_seq_view(clauses@)),
        dedup_key_wf(functions@),
    ensures
        states_view(r@) == select_where_spec(
            states_view(registries@),
            to_select@,
            clause_seq_view(clauses@),
            functions@,
        ),
{
    let (limit, offset, _) = get_limit_offset_count(functions);
    let states = generate_state(registries, to_select);
    let states = filter_where_clauses(&states, clauses);
    let states = skip_take_states(states, offset, limit);
    dedup_states(states, functions)
}

/// `DEDUP` keeps at most one registry per value: the registries it keeps file
/// under pairwise different values, each its own.
pub proof fn law_dedup_distinct(states: StatesV, k: Seq<char>)
    ensures
        dedup_fold(states, k).0.len() == dedup_fold(states, k).1.len(),
        forall|i: int|
            0 <= i < dedup_fold(states, k).0.len() ==> dedup_value(k, #[trigger] dedup_fold(states, k).0[i].1)
                == Some(dedup_fold(states, k).1[i]),
        forall|i: int, j: int|
            0 <= i < j < dedup_fold(states, k).1.len() ==> dedup_fold(states, k).1[i]
                != dedup_fold(states, k).1[j],
    decreases states.len(),
{
    if states.len() > 0 {
        law_dedup_distinct(states.drop_last(), k);
        let (kept, seen) = dedup_fold(states.drop_last(), k);
        match dedup_value(k, states.last().1) {
            Some(v) => {
                if !seen.contains(v) {
                    let (k2, s2) = dedup_fold(states, k);
                    assert(k2 == kept.push(states.last()));
                    assert(s2 == seen.push(v));
                    assert forall|i: int| 0 <= i < k2.len() implies dedup_value(k, #[trigger] k2[i].1)
                        == Some(s2[i]) by {
                        if i < kept.len() {
                            assert(k2[i] == kept[i]);
                        }
                    }
                    assert forall|i: int, j: int| 0 <= i < j < s2.len() implies s2[i] != s2[j] by {
                        if j == s2.len() - 1 {
                            assert(s2[i] == seen[i]);
                        }
                    }
                }
            },
            None => {},
        }
    }
}

/// Hashed values are filtered out of every answer to a `SELECT`: what is
/// selected holds no hash, and each value it holds is the state's own under
/// the same key.
pub proof fn law_selected_holds_no_hash(st: StateV, to_select: ToSelectV)
    ensures
        forall|k: Seq<char>| #[trigger]
            selected(st, to_select).contains_key(k) ==> !is_hash(selected(st, to_select)[k])
                && st.contains_key(k) && selected(st, to_select)[k] == st[k],
{
}

} // verus!
