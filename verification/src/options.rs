//! `ORDER BY`, `GROUP BY` and `COUNT` on the answer of `SELECT ... IDS IN`,
//! where each identifier asked for may come with a state or without one.

use vstd::prelude::*;
use crate::algebra::{
    QueryResult, QueryResultV, count_view, group_key, groups_view, sort_by_key, sort_states,
};
use crate::ast::{AlgebraFunctions, AlgebraV, Order};
use crate::clauses::{StatesV, states_view};
use crate::compare::{entity_get, types_eq};
use crate::relation::StateV;
use crate::types::{Entity, Types, TypesV, clone_entity, clone_types};

verus! {

/// Identifiers, each with a state or without one.
pub type OptStatesV = Seq<(u128, Option<StateV>)>;

pub open spec fn opt_state_view(e: Option<Entity>) -> Option<StateV> {
    match e {
        Some(s) => Some(s@),
        None => None,
    }
}

pub open spec fn opt_states_view(s: Seq<(u128, Option<Entity>)>) -> OptStatesV {
    s.map_values(|p: (u128, Option<Entity>)| (p.0, opt_state_view(p.1)))
}

/// Every registry of `s` with a state, in order.
pub open spec fn lift(s: StatesV) -> OptStatesV {
    s.map_values(|p: (u128, StateV)| (p.0, Some(p.1)))
}

/// The identifiers that come with a state, with it, in order.
pub open spec fn somes(s: OptStatesV) -> StatesV
    decreases s.len(),
{
    if s.len() == 0 {
        Seq::empty()
    } else {
        match s.last().1 {
            Some(st) => somes(s.drop_last()).push((s.last().0, st)),
            None => somes(s.drop_last()),
        }
    }
}

/// The value under which `GROUP BY k` files an identifier: that of its state,
/// `Nil` where it has none.
pub open spec fn opt_group_key(st: Option<StateV>, k: Seq<char>) -> TypesV {
    match st {
        Some(s) => group_key(s, k),
        None => TypesV::Nil,
    }
}

/// The distinct group values, in the order in which they first occur.
pub open spec fn opt_group_values(s: OptStatesV, k: Seq<char>) -> Seq<TypesV>
    decreases s.len(),
{
    if s.len() == 0 {
        Seq::empty()
    } else {
        let g = opt_group_values(s.drop_last(), k);
        if g.contains(opt_group_key(s.last().1, k)) {
            g
        } else {
            g.push(opt_group_key(s.last().1, k))
        }
    }
}

/// The identifiers, in order, filed under the value `v`.
pub open spec fn opt_members(s: OptStatesV, k: Seq<char>, v: TypesV) -> OptStatesV
    decreases s.len(),
{
    if s.len() == 0 {
        s
    } else if opt_group_key(s.last().1, k) == v {
        opt_members(s.drop_last(), k, v).push(s.last())
    } else {
        opt_members(s.drop_last(), k, v)
    }
}

/// `GROUP BY k`: each distinct value, with the identifiers filed under it.
pub open spec fn opt_group_by(s: OptStatesV, k: Seq<char>) -> Seq<(TypesV, OptStatesV)> {
    opt_group_values(s, k).map_values(|v: TypesV| (v, opt_members(s, k, v)))
}

/// `GROUP BY k` then `ORDER BY`: in each group the identifiers with a state,
/// sorted.
pub open spec fn opt_group_by_ordered(s: OptStatesV, k: Seq<char>, ok: Seq<char>, ord: Order) -> Seq<
    (TypesV, StatesV),
> {
    opt_group_values(s, k).map_values(
        |v: TypesV| (v, sort_by_key(somes(opt_members(s, k, v)), ok, ord)),
    )
}

pub open spec fn opt_groups_view(g: Seq<(Types, Vec<(u128, Option<Entity>)>)>) -> Seq<
    (TypesV, OptStatesV),
> {
    g.map_values(|p: (Types, Vec<(u128, Option<Entity>)>)| (p.0@, opt_states_view(p.1@)))
}

/// What `ORDER BY`, `GROUP BY` and `COUNT` make of identifiers that may lack
/// a state: with `ORDER BY` alone the identifiers with a state, sorted, and
/// counted where asked; with `GROUP BY` the groups (an identifier without a
/// state under `Nil`), each reduced to the identifiers with a state and
/// sorted where `ORDER BY` is also given (then not counted), else counted by
/// groups where asked; otherwise the identifiers as they are, counted where
/// asked.
pub open spec fn manipulated_options(s: OptStatesV, f: AlgebraV, should_count: bool) -> (
    QueryResultV,
    Option<nat>,
) {
    match (f.order_by, f.group_by) {
        (Some((ok, ord)), None) => (
            QueryResultV::Order(sort_by_key(somes(s), ok, ord)),
            if should_count {
                Some(somes(s).len())
            } else {
                None
            },
        ),
        (_, Some(gk)) => match f.order_by {
            Some((ok, ord)) => (
                QueryResultV::OrderedGroupBy(opt_group_by_ordered(s, gk, ok, ord)),
                None,
            ),
            None => (
                QueryResultV::OptionGroupBy(opt_group_by(s, gk)),
                if should_count {
                    Some(opt_group_values(s, gk).len())
                } else {
                    None
                },
            ),
        },
        (None, None) => (
            QueryResultV::OptionSelect(s),
            if should_count {
                Some(s.len())
            } else {
                None
            },
        ),
    }
}

fn clone_opt_entity(e: &Option<Entity>) -> (r: Option<Entity>)
    ensures
        opt_state_view(r) == opt_state_view(*e),
{
    match e {
        Some(s) => Some(clone_entity(s)),
        None => None,
    }
}

/// The identifiers that come with a state, with it, in order.
pub fn some_states(s: &Vec<(u128, Option<Entity>)>) -> (r: Vec<(u128, Entity)>)
    ensures
        states_view(r@) == somes(opt_states_view(s@)),
{
    let ghost sv = opt_states_view(s@);
    let mut r: Vec<(u128, Entity)> = Vec::new();
    let mut i: usize = 0;
    while i < s.len()
        invariant
            i <= s.len(),
            sv == opt_states_view(s@),
            states_view(r@) == somes(sv.subrange(0, i as int)),
        decreases s.len() - i,
    {
        let ghost pre = sv.subrange(0, i + 1);
        assert(pre.drop_last() =~= sv.subrange(0, i as int));
        assert(pre.last() == sv[i as int]);
        match &s[i].1 {
            Some(st) => {
                let ghost before = r@;
                let e = clone_entity(st);
                let ghost ev = e@;
                r.push((s[i].0, e));
                assert(states_view(r@) =~= states_view(before).push((s@[i as int].0, ev)));
            },
            None => {},
        }
        i = i + 1;
    }
    assert(sv.subrange(0, s.len() as int) =~= sv);
    r
}

/// Each registry of `s`, with its state.
pub fn lift_states(s: Vec<(u128, Entity)>) -> (r: Vec<(u128, Option<Entity>)>)
    ensures
        opt_states_view(r@) == lift(states_view(s@)),
{
    let mut r: Vec<(u128, Option<Entity>)> = Vec::new();
    let mut i: usize = 0;
    while i < s.len()
        invariant
            i <= s.len(),
            opt_states_view(r@) == lift(states_view(s@)).subrange(0, i as int),
        decreases s.len() - i,
    {
        let ghost before = r@;
        let e = clone_entity(&s[i].1);
        let ghost ev = e@;
        r.push((s[i].0, Some(e)));
        assert(opt_states_view(r@) =~= opt_states_view(before).push((s@[i as int].0, Some(ev))));
        assert(opt_states_view(r@) =~= lift(states_view(s@)).subrange(0, i + 1));
        i = i + 1;
    }
    assert(lift(states_view(s@)).subrange(0, s.len() as int) =~= lift(states_view(s@)));
    r
}

fn opt_group_key_exec(st: &Option<Entity>, k: &str) -> (r: Types)
    ensures
        r@ == opt_group_key(opt_state_view(*st), k@),
{
    match st {
        Some(e) => match entity_get(e, k) {
            Some(v) => clone_types(v),
            None => Types::Nil,
        },
        None => Types::Nil,
    }
}

fn values_hold(seen: &Vec<Types>, v: &Types) -> (r: bool)
    ensures
        r == seen@.map_values(|t: Types| t@).contains(v@),
{
    let ghost sv = seen@.map_values(|t: Types| t@);
    let mut i: usize = 0;
    while i < seen.len()
        invariant
            i <= seen.len(),
            sv == seen@.map_values(|t: Types| t@),
            forall|j: int| 0 <= j < i ==> sv[j] != v@,
        decreases seen.len() - i,
    {
        if types_eq(&seen[i], v) {
            assert(sv[i as int] == v@);
            return true;
        }
        i = i + 1;
    }
    false
}

fn opt_group_values_exec(s: &Vec<(u128, Option<Entity>)>, k: &str) -> (r: Vec<Types>)
    ensures
        r@.map_values(|t: Types| t@) == opt_group_values(opt_states_view(s@), k@),
{
    let ghost sv = opt_states_view(s@);
    let mut r: Vec<Types> = Vec::new();
    let mut i: usize = 0;
    while i < s.len()
        invariant
            i <= s.len(),
            sv == opt_states_view(s@),
            r@.map_values(|t: Types| t@) == opt_group_values(sv.subrange(0, i as int), k@),
        decreases s.len() - i,
    {
        let ghost pre = sv.subrange(0, i + 1);
        assert(pre.drop_last() =~= sv.subrange(0, i as int));
        assert(pre.last() == sv[i as int]);
        let g = opt_group_key_exec(&s[i].1, k);
        if !values_hold(&r, &g) {
            let ghost before = r@;
            let ghost gv = g@;
            r.push(g);
            assert(r@.map_values(|t: Types| t@) =~= before.map_values(|t: Types| t@).push(gv));
        }
        i = i + 1;
    }
    assert(sv.subrange(0, s.len() as int) =~= sv);
    r
}

fn opt_members_exec(s: &Vec<(u128, Option<Entity>)>, k: &str, v: &Types) -> (r: Vec<
    (u128, Option<Entity>),
>)
    ensures
        opt_states_view(r@) == opt_members(opt_states_view(s@), k@, v@),
{
    let ghost sv = opt_states_view(s@);
    let mut r: Vec<(u128, Option<Entity>)> = Vec::new();
    let mut i: usize = 0;
    while i < s.len()
        invariant
            i <= s.len(),
            sv == opt_states_view(s@),
            opt_states_view(r@) == opt_members(sv.subrange(0, i as int), k@, v@),
        decreases s.len() - i,
    {
        let ghost pre = sv.subrange(0, i + 1);
        assert(pre.drop_last() =~= sv.subrange(0, i as int));
        assert(pre.last() == sv[i as int]);
        let g = opt_group_key_exec(&s[i].1, k);
        if types_eq(&g, v) {
            let ghost before = r@;
            let e = clone_opt_entity(&s[i].1);
            let ghost ev = opt_state_view(e);
            r.push((s[i].0, e));
            assert(opt_states_view(r@) =~= opt_states_view(before).push((s@[i as int].0, ev)));
        }
        i = i + 1;
    }
    assert(sv.subrange(0, s.len() as int) =~= sv);
    r
}

/// `GROUP BY k` on identifiers that may lack a state.
pub fn opt_group_states(s: &Vec<(u128, Option<Entity>)>, k: &str) -> (r: Vec<
    (Types, Vec<(u128, Option<Entity>)>),
>)
    ensures
        opt_groups_view(r@) == opt_group_by(opt_states_view(s@), k@),
{
    let values = opt_group_values_exec(s, k);
    let ghost gv = values@.map_values(|t: Types| t@);
    let ghost target = opt_group_by(opt_states_view(s@), k@);
    let mut r: Vec<(Types, Vec<(u128, Option<Entity>)>)> = Vec::new();
    let mut i: usize = 0;
    while i < values.len()
        invariant
            i <= values.len(),
            gv == values@.map_values(|t: Types| t@),
            gv == opt_group_values(opt_states_view(s@), k@),
            target == opt_group_by(opt_states_view(s@), k@),
            opt_groups_view(r@) == target.subrange(0, i as int),
        decreases values.len() - i,
    {
        let m = opt_members_exec(s, k, &values[i]);
        let ghost before = r@;
        let ghost mv = opt_states_view(m@);
        let key = clone_types(&values[i]);
        let ghost kv = key@;
        r.push((key, m));
        assert(opt_groups_view(r@) =~= opt_groups_view(before).push((kv, mv)));
        assert(opt_groups_view(r@) =~= target.subrange(0, i + 1));
        i = i + 1;
    }
    assert(target.subrange(0, values.len() as int) =~= target);
    r
}

/// `GROUP BY k` then `ORDER BY ok`: in each group the identifiers with a
/// state, sorted.
pub fn opt_group_states_ordered(s: &Vec<(u128, Option<Entity>)>, k: &str, ok: &str, ord: Order) -> (r: Vec<
    (Types, Vec<(u128, Entity)>),
>)
    ensures
        groups_view(r@) == opt_group_by_ordered(opt_states_view(s@), k@, ok@, ord),
{
    let values = opt_group_values_exec(s, k);
    let ghost gv = values@.map_values(|t: Types| t@);
    let ghost target = opt_group_by_ordered(opt_states_view(s@), k@, ok@, ord);
    let mut r: Vec<(Types, Vec<(u128, Entity)>)> = Vec::new();
    let mut i: usize = 0;
    while i < values.len()
        invariant
            i <= values.len(),
            gv == values@.map_values(|t: Types| t@),
            gv == opt_group_values(opt_states_view(s@), k@),
            target == opt_group_by_ordered(opt_states_view(s@), k@, ok@, ord),
            groups_view(r@) == target.subrange(0, i as int),
        decreases values.len() - i,
    {
        let m = opt_members_exec(s, k, &values[i]);
        let present = some_states(&m);
        let sorted = sort_states(&present, ok, ord);
        let ghost before = r@;
        let ghost mv = states_view(sorted@);
        let key = clone_types(&values[i]);
        let ghost kv = key@;
        r.push((key, sorted));
        assert(groups_view(r@) =~= groups_view(before).push((kv, mv)));
        assert(groups_view(r@) =~= target.subrange(0, i + 1));
        i = i + 1;
    }
    assert(target.subrange(0, values.len() as int) =~= target);
    r
}

proof fn lemma_view_len(s: Seq<(u128, Option<Entity>)>)
    ensures
        opt_states_view(s).len() == s.len(),
{
}

/// `ORDER BY`, `GROUP BY` and `COUNT` on identifiers that may lack a state
/// (see `manipulated_options`).
pub fn get_result_after_manipulation_for_options(
    states: Vec<(u128, Option<Entity>)>,
    functions: &AlgebraFunctions,
    should_count: bool,
) -> (r: (QueryResult, Option<usize>))
    ensures
        r.0@ == manipulated_options(opt_states_view(states@), functions@, should_count).0,
        count_view(r.1) == manipulated_options(
            opt_states_view(states@),
            functions@,
            should_count,
        ).1,
{
    match (&functions.order_by, &functions.group_by) {
        (Some((ok, ord)), None) => {
            let present = some_states(&states);
            let sorted = sort_states(&present, ok.as_str(), *ord);
            proof {
                crate::algebra::lemma_sort_len(states_view(present@), ok@, *ord);
                assert(states_view(sorted@).len() == sorted@.len());
                assert(states_view(present@).len() == present@.len());
            }
            let count = if should_count {
                Some(present.len())
            } else {
                None
            };
            (QueryResult::Order(sorted), count)
        },
        (_, Some(gk)) => match &functions.order_by {
            Some((ok, ord)) => {
                let g = opt_group_states_ordered(&states, gk.as_str(), ok.as_str(), *ord);
                (QueryResult::OrderedGroupBy(g), None)
            },
            None => {
                let g = opt_group_states(&states, gk.as_str());
                assert(opt_groups_view(g@).len() == g@.len());
                let count = if should_count {
                    Some(g.len())
                } else {
                    None
                };
                (QueryResult::OptionGroupBy(g), count)
            },
        },
        (None, None) => {
            proof {
                lemma_view_len(states@);
            }
            let count = if should_count {
                Some(states.len())
            } else {
                None
            };
            (QueryResult::OptionSelect(states), count)
        },
    }
}

/// The plain answer with each state marked present.
pub open spec fn lift_result(r: QueryResultV) -> QueryResultV {
    match r {
        QueryResultV::All(s) => QueryResultV::OptionSelect(lift(s)),
        QueryResultV::GroupBy(g) => QueryResultV::OptionGroupBy(
            g.map_values(|p: (TypesV, StatesV)| (p.0, lift(p.1))),
        ),
        other => other,
    }
}

pub(crate) proof fn lemma_somes_lift(s: StatesV)
    ensures
        somes(lift(s)) == s,
    decreases s.len(),
{
    if s.len() > 0 {
        lemma_somes_lift(s.drop_last());
        assert(lift(s).drop_last() =~= lift(s.drop_last()));
        assert(somes(lift(s)) =~= s);
    }
}

proof fn lemma_group_values_lift(s: StatesV, k: Seq<char>)
    ensures
        opt_group_values(lift(s), k) == crate::algebra::group_values(s, k),
    decreases s.len(),
{
    if s.len() > 0 {
        lemma_group_values_lift(s.drop_last(), k);
        assert(lift(s).drop_last() =~= lift(s.drop_last()));
    }
}

proof fn lemma_members_lift(s: StatesV, k: Seq<char>, v: TypesV)
    ensures
        opt_members(lift(s), k, v) == lift(crate::algebra::members(s, k, v)),
    decreases s.len(),
{
    if s.len() > 0 {
        lemma_members_lift(s.drop_last(), k, v);
        assert(lift(s).drop_last() =~= lift(s.drop_last()));
        let m = crate::algebra::members(s.drop_last(), k, v);
        assert(lift(m.push(s.last())) =~= lift(m).push(lift(s).last()));
    }
}

/// Where every identifier comes with a state, `ORDER BY`, `GROUP BY` and
/// `COUNT` give the same answer, and the same count, as on the registries
/// themselves, each state marked present.
pub proof fn law_options_agree_when_all_present(s: StatesV, f: AlgebraV, should_count: bool)
    ensures
        manipulated_options(lift(s), f, should_count).0 == lift_result(
            crate::algebra::manipulated(s, f, should_count).0,
        ),
        manipulated_options(lift(s), f, should_count).1 == crate::algebra::manipulated(
            s,
            f,
            should_count,
        ).1,
{
    lemma_somes_lift(s);
    match f.group_by {
        Some(gk) => {
            lemma_group_values_lift(s, gk);
            let gv = crate::algebra::group_values(s, gk);
            assert forall|v: TypesV| #![auto] true implies opt_members(lift(s), gk, v) == lift(
                crate::algebra::members(s, gk, v),
            ) by {
                lemma_members_lift(s, gk, v);
            }
            match f.order_by {
                Some((ok, ord)) => {
                    assert forall|v: TypesV| #![auto] true implies somes(opt_members(lift(s), gk, v))
                        == crate::algebra::members(s, gk, v) by {
                        lemma_members_lift(s, gk, v);
                        lemma_somes_lift(crate::algebra::members(s, gk, v));
                    }
                    assert(opt_group_by_ordered(lift(s), gk, ok, ord) =~= crate::algebra::group_by_ordered(
                        s,
                        gk,
                        ok,
                        ord,
                    ));
                },
                None => {
                    assert(opt_group_by(lift(s), gk) =~= crate::algebra::group_by(s, gk).map_values(
                        |p: (TypesV, StatesV)| (p.0, lift(p.1)),
                    ));
                },
            }
        },
        None => {
            assert(lift(s).len() == s.len());
        },
    }
}

} // verus!
