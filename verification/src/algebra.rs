//! `ORDER BY`, `GROUP BY` and `COUNT` applied to the registries of a `SELECT`.

use vstd::prelude::*;
use crate::ast::{AlgebraFunctions, AlgebraV, Order};
use crate::clauses::{StatesV, states_view};
use crate::options::{OptStatesV, opt_groups_view, opt_states_view};
use crate::compare::{
    Comparison, entity_get, law_order_total_within_kind, le, lt, total_kind, types_compare, types_eq,
    types_order,
};
use crate::relation::StateV;
use crate::types::{Entity, Types, TypesV, clone_entity, clone_types};

verus! {

/// The value of a state under `k`, if any.
pub open spec fn key_value(st: StateV, k: Seq<char>) -> Option<TypesV> {
    if st.contains_key(k) {
        Some(st[k])
    } else {
        None
    }
}

/// How `ORDER BY` compares two states by their values under the key: an
/// absent value comes first, and values that are not ordered count as less.
pub open spec fn key_order(a: Option<TypesV>, b: Option<TypesV>) -> Comparison {
    match (a, b) {
        (None, None) => Comparison::Equal,
        (None, Some(_)) => Comparison::Less,
        (Some(_), None) => Comparison::Greater,
        (Some(x), Some(y)) => match types_order(x, y) {
            Some(c) => c,
            None => Comparison::Less,
        },
    }
}

/// Whether `x` goes strictly before `y` in the order asked for.
pub open spec fn goes_before(x: StateV, y: StateV, k: Seq<char>, ord: Order) -> bool {
    match ord {
        Order::Asc => key_order(key_value(x, k), key_value(y, k)) == Comparison::Less,
        Order::Desc => key_order(key_value(y, k), key_value(x, k)) == Comparison::Less,
    }
}

/// Where `x` is inserted into `sorted`: before the first state it goes before,
/// else at the end.
pub open spec fn insert_position(sorted: StatesV, x: StateV, k: Seq<char>, ord: Order) -> int
    decreases sorted.len(),
{
    if sorted.len() == 0 {
        0
    } else if goes_before(x, sorted[0].1, k, ord) {
        0
    } else {
        1 + insert_position(sorted.drop_first(), x, k, ord)
    }
}

/// The states sorted by their value under `k`, stably: each state, in turn,
/// is inserted before the first state it goes before.
pub open spec fn sort_by_key(s: StatesV, k: Seq<char>, ord: Order) -> StatesV
    decreases s.len(),
{
    if s.len() == 0 {
        s
    } else {
        let sorted = sort_by_key(s.drop_last(), k, ord);
        sorted.insert(insert_position(sorted, s.last().1, k, ord), s.last())
    }
}

proof fn lemma_insert_position_bounds(sorted: StatesV, x: StateV, k: Seq<char>, ord: Order)
    ensures
        0 <= insert_position(sorted, x, k, ord) <= sorted.len(),
    decreases sorted.len(),
{
    if sorted.len() > 0 && !goes_before(x, sorted[0].1, k, ord) {
        lemma_insert_position_bounds(sorted.drop_first(), x, k, ord);
    }
}

fn key_order_exec(a: Option<&Types>, b: Option<&Types>) -> (r: Comparison)
    ensures
        r == key_order(
            match a {
                Some(x) => Some(x@),
                None => None,
            },
            match b {
                Some(y) => Some(y@),
                None => None,
            },
        ),
{
    match (a, b) {
        (None, None) => Comparison::Equal,
        (None, Some(_)) => Comparison::Less,
        (Some(_), None) => Comparison::Greater,
        (Some(x), Some(y)) => match types_compare(x, y) {
            Some(c) => c,
            None => Comparison::Less,
        },
    }
}

fn goes_before_exec(x: &Entity, y: &Entity, k: &str, ord: Order) -> (r: bool)
    ensures
        r == goes_before(x@, y@, k@, ord),
{
    let a = entity_get(x, k);
    let b = entity_get(y, k);
    match ord {
        Order::Asc => key_order_exec(a, b) == Comparison::Less,
        Order::Desc => key_order_exec(b, a) == Comparison::Less,
    }
}

/// Sorts the registries by their value under `k`, in the order `ord`.
pub fn sort_states(s: &Vec<(u128, Entity)>, k: &str, ord: Order) -> (r: Vec<(u128, Entity)>)
    ensures
        states_view(r@) == sort_by_key(states_view(s@), k@, ord),
{
    let ghost sv = states_view(s@);
    let mut r: Vec<(u128, Entity)> = Vec::new();
    let mut i: usize = 0;
    while i < s.len()
        invariant
            i <= s.len(),
            sv == states_view(s@),
            states_view(r@) == sort_by_key(sv.subrange(0, i as int), k@, ord),
        decreases s.len() - i,
    {
        let ghost pre = sv.subrange(0, i + 1);
        assert(pre.drop_last() =~= sv.subrange(0, i as int));
        assert(pre.last() == sv[i as int]);
        let ghost rv = states_view(r@);
        let mut p: usize = 0;
        assert(rv.subrange(0, rv.len() as int) =~= rv);
        while p < r.len() && !goes_before_exec(&s[i].1, &r[p].1, k, ord)
            invariant
                i < s.len(),
                sv == states_view(s@),
                p <= r.len(),
                rv == states_view(r@),
                insert_position(rv, sv[i as int].1, k@, ord) == p + insert_position(
                    rv.subrange(p as int, rv.len() as int),
                    sv[i as int].1,
                    k@,
                    ord,
                ),
            decreases r.len() - p,
        {
            let ghost rest = rv.subrange(p as int, rv.len() as int);
            assert(rest.drop_first() =~= rv.subrange(p + 1, rv.len() as int));
            assert(rest[0] == rv[p as int]);
            p = p + 1;
        }
        proof {
            let rest = rv.subrange(p as int, rv.len() as int);
            if p < r.len() {
                assert(rest[0] == rv[p as int]);
            }
        }
        let e = clone_entity(&s[i].1);
        let ghost ev = e@;
        r.insert(p, (s[i].0, e));
        assert(states_view(r@) =~= rv.insert(p as int, (s@[i as int].0, ev)));
        i = i + 1;
    }
    assert(sv.subrange(0, s.len() as int) =~= sv);
    r
}

/// The value under which `GROUP BY k` files a state: its value under `k`,
/// `Nil` where it has none.
pub open spec fn group_key(st: StateV, k: Seq<char>) -> TypesV {
    if st.contains_key(k) {
        st[k]
    } else {
        TypesV::Nil
    }
}

/// The distinct group values, in the order in which they first occur.
pub open spec fn group_values(s: StatesV, k: Seq<char>) -> Seq<TypesV>
    decreases s.len(),
{
    if s.len() == 0 {
        Seq::empty()
    } else {
        let g = group_values(s.drop_last(), k);
        if g.contains(group_key(s.last().1, k)) {
            g
        } else {
            g.push(group_key(s.last().1, k))
        }
    }
}

/// The states, in order, filed under the value `v`.
pub open spec fn members(s: StatesV, k: Seq<char>, v: TypesV) -> StatesV
    decreases s.len(),
{
    if s.len() == 0 {
        s
    } else if group_key(s.last().1, k) == v {
        members(s.drop_last(), k, v).push(s.last())
    } else {
        members(s.drop_last(), k, v)
    }
}

/// `GROUP BY k`: each distinct value, with the states filed under it.
pub open spec fn group_by(s: StatesV, k: Seq<char>) -> Seq<(TypesV, StatesV)> {
    group_values(s, k).map_values(|v: TypesV| (v, members(s, k, v)))
}

/// `GROUP BY k` then `ORDER BY`: each group sorted.
pub open spec fn group_by_ordered(s: StatesV, k: Seq<char>, ok: Seq<char>, ord: Order) -> Seq<
    (TypesV, StatesV),
> {
    group_values(s, k).map_values(|v: TypesV| (v, sort_by_key(members(s, k, v), ok, ord)))
}

pub open spec fn groups_view(g: Seq<(Types, Vec<(u128, Entity)>)>) -> Seq<(TypesV, StatesV)> {
    g.map_values(|p: (Types, Vec<(u128, Entity)>)| (p.0@, states_view(p.1@)))
}

fn group_key_exec(st: &Entity, k: &str) -> (r: Types)
    ensures
        r@ == group_key(st@, k@),
{
    match entity_get(st, k) {
        Some(v) => clone_types(v),
        None => Types::Nil,
    }
}

fn values_contain(seen: &Vec<Types>, v: &Types) -> (r: bool)
    ensures
        r == seen@.map_values(|t: Types| t@).contains(v@),
{
    let ghost sv = seen@.map_values(|t: Types| t@);
    let mut i: usize = 0;
    while i < seen.len()
        invariant
            i <= seen.len(),
            sv == seen@.map_values(|t: Types| t@),
            forall|j: int| 0 <= j < i ==> sv[j] != v@,
        decreases seen.len() - i,
    {
        if types_eq(&seen[i], v) {
            assert(sv[i as int] == v@);
            return true;
        }
        i = i + 1;
    }
    false
}

fn group_values_exec(s: &Vec<(u128, Entity)>, k: &str) -> (r: Vec<Types>)
    ensures
        r@.map_values(|t: Types| t@) == group_values(states_view(s@), k@),
{
    let ghost sv = states_view(s@);
    let mut r: Vec<Types> = Vec::new();
    let mut i: usize = 0;
    while i < s.len()
        invariant
            i <= s.len(),
            sv == states_view(s@),
            r@.map_values(|t: Types| t@) == group_values(sv.subrange(0, i as int), k@),
        decreases s.len() - i,
    {
        let ghost pre = sv.subrange(0, i + 1);
        assert(pre.drop_last() =~= sv.subrange(0, i as int));
        assert(pre.last() == sv[i as int]);
        let g = group_key_exec(&s[i].1, k);
        if !values_contain(&r, &g) {
            let ghost before = r@;
            let ghost gv = g@;
            r.push(g);
            assert(r@.map_values(|t: Types| t@) =~= before.map_values(|t: Types| t@).push(gv));
        }
        i = i + 1;
    }
    assert(sv.subrange(0, s.len() as int) =~= sv);
    r
}

fn members_exec(s: &Vec<(u128, Entity)>, k: &str, v: &Types) -> (r: Vec<(u128, Entity)>)
    ensures
        states_view(r@) == members(states_view(s@), k@, v@),
{
    let ghost sv = states_view(s@);
    let mut r: Vec<(u128, Entity)> = Vec::new();
    let mut i: usize = 0;
    while i < s.len()
        invariant
            i <= s.len(),
            sv == states_view(s@),
            states_view(r@) == members(sv.subrange(0, i as int), k@, v@),
        decreases s.len() - i,
    {
        let ghost pre = sv.subrange(0, i + 1);
        assert(pre.drop_last() =~= sv.subrange(0, i as int));
        assert(pre.last() == sv[i as int]);
        let g = group_key_exec(&s[i].1, k);
        if types_eq(&g, v) {
            let ghost before = r@;
            let e = clone_entity(&s[i].1);
            let ghost ev = e@;
            r.push((s[i].0, e));
            assert(states_view(r@) =~= states_view(before).push((s@[i as int].0, ev)));
        }
        i = i + 1;
    }
    assert(sv.subrange(0, s.len() as int) =~= sv);
    r
}

/// `GROUP BY k`, each group sorted by `ORDER BY` where `order` is given.
pub fn group_states(s: &Vec<(u128, Entity)>, k: &str, order: Option<(&str, Order)>) -> (r: Vec<
    (Types, Vec<(u128, Entity)>),
>)
    ensures
        order is None ==> groups_view(r@) == group_by(states_view(s@), k@),
        order matches Some((ok, ord)) ==> groups_view(r@) == group_by_ordered(
            states_view(s@),
            k@,
            ok@,
            ord,
        ),
{
    let values = group_values_exec(s, k);
    let ghost gv = values@.map_values(|t: Types| t@);
    let mut r: Vec<(Types, Vec<(u128, Entity)>)> = Vec::new();
    let mut i: usize = 0;
    while i < values.len()
        invariant
            i <= values.len(),
            gv == values@.map_values(|t: Types| t@),
            gv == group_values(states_view(s@), k@),
            order is None ==> groups_view(r@) == group_by(states_view(s@), k@).subrange(
                0,
                i as int,
            ),
            order matches Some((ok, ord)) ==> groups_view(r@) == group_by_ordered(
                states_view(s@),
                k@,
                ok@,
                ord,
            ).subrange(0, i as int),
        decreases values.len() - i,
    {
        let m = members_exec(s, k, &values[i]);
        let m = match order {
            Some((ok, ord)) => sort_states(&m, ok, ord),
            None => m,
        };
        let ghost before = r@;
        let ghost mv = states_view(m@);
        let key = clone_types(&values[i]);
        let ghost kv = key@;
        r.push((key, m));
        assert(groups_view(r@) =~= groups_view(before).push((kv, mv)));
        proof {
            match order {
                None => {
                    assert(groups_view(r@) =~= group_by(states_view(s@), k@).subrange(0, i + 1));
                },
                Some((ok, ord)) => {
                    assert(groups_view(r@) =~= group_by_ordered(
                        states_view(s@),
                        k@,
                        ok@,
                        ord,
                    ).subrange(0, i + 1));
                },
            }
        }
        i = i + 1;
    }
    proof {
        match order {
            None => {
                assert(group_by(states_view(s@), k@).subrange(0, values.len() as int) =~= group_by(
                    states_view(s@),
                    k@,
                ));
            },
            Some((ok, ord)) => {
                assert(group_by_ordered(states_view(s@), k@, ok@, ord).subrange(
                    0,
                    values.len() as int,
                ) =~= group_by_ordered(states_view(s@), k@, ok@, ord));
            },
        }
    }
    r
}

/// The answer to a `SELECT` once its functions are applied.
#[derive(Debug)]
pub enum QueryResult {
    /// The registries, in the order of their identifiers.
    All(Vec<(u128, Entity)>),
    /// The registries, sorted by `ORDER BY`.
    Order(Vec<(u128, Entity)>),
    /// The groups of `GROUP BY`, each in the order of identifiers.
    GroupBy(Vec<(Types, Vec<(u128, Entity)>)>),
    /// The groups of `GROUP BY`, each sorted by `ORDER BY`.
    OrderedGroupBy(Vec<(Types, Vec<(u128, Entity)>)>),
    /// Identifiers, in order, each with a state or without one.
    OptionSelect(Vec<(u128, Option<Entity>)>),
    /// The groups of `GROUP BY` on identifiers that may lack a state.
    OptionGroupBy(Vec<(Types, Vec<(u128, Option<Entity>)>)>),
}

pub enum QueryResultV {
    All(StatesV),
    Order(StatesV),
    GroupBy(Seq<(TypesV, StatesV)>),
    OrderedGroupBy(Seq<(TypesV, StatesV)>),
    OptionSelect(OptStatesV),
    OptionGroupBy(Seq<(TypesV, OptStatesV)>),
}

impl View for QueryResult {
    type V = QueryResultV;

    open spec fn view(&self) -> QueryResultV {
        match self {
            QueryResult::All(s) => QueryResultV::All(states_view(s@)),
            QueryResult::Order(s) => QueryResultV::Order(states_view(s@)),
            QueryResult::GroupBy(g) => QueryResultV::GroupBy(groups_view(g@)),
            QueryResult::OrderedGroupBy(g) => QueryResultV::OrderedGroupBy(groups_view(g@)),
            QueryResult::OptionSelect(s) => QueryResultV::OptionSelect(opt_states_view(s@)),
            QueryResult::OptionGroupBy(g) => QueryResultV::OptionGroupBy(opt_groups_view(g@)),
        }
    }
}

/// What `ORDER BY`, `GROUP BY` and `COUNT` make of the registries: with
/// `ORDER BY` alone the sorted registries, counted where asked; with
/// `GROUP BY` the groups, sorted by `ORDER BY` where it is also given (then
/// not counted), else counted by groups where asked; otherwise the registries,
/// counted where asked.
pub open spec fn manipulated(s: StatesV, f: AlgebraV, should_count: bool) -> (
    QueryResultV,
    Option<nat>,
) {
    match (f.order_by, f.group_by) {
        (Some((ok, ord)), None) => (
            QueryResultV::Order(sort_by_key(s, ok, ord)),
            if should_count {
                Some(s.len())
            } else {
                None
            },
        ),
        (_, Some(gk)) => match f.order_by {
            Some((ok, ord)) => (QueryResultV::OrderedGroupBy(group_by_ordered(s, gk, ok, ord)), None),
            None => (
                QueryResultV::GroupBy(group_by(s, gk)),
                if should_count {
                    Some(group_values(s, gk).len())
                } else {
                    None
                },
            ),
        },
        (None, None) => (
            QueryResultV::All(s),
            if should_count {
                Some(s.len())
            } else {
                None
            },
        ),
    }
}

pub open spec fn count_view(c: Option<usize>) -> Option<nat> {
    match c {
        Some(n) => Some(n as nat),
        None => None,
    }
}

pub(crate) proof fn lemma_sort_len(s: StatesV, k: Seq<char>, ord: Order)
    ensures
        sort_by_key(s, k, ord).len() == s.len(),
    decreases s.len(),
{
    if s.len() > 0 {
        lemma_sort_len(s.drop_last(), k, ord);
        lemma_insert_position_bounds(sort_by_key(s.drop_last(), k, ord), s.last().1, k, ord);
    }
}

pub fn get_result_after_manipulation(
    states: Vec<(u128, Entity)>,
    functions: &AlgebraFunctions,
    should_count: bool,
) -> (r: (QueryResult, Option<usize>))
    ensures
        r.0@ == manipulated(states_view(states@), functions@, should_count).0,
        count_view(r.1) == manipulated(states_view(states@), functions@, should_count).1,
{
    match (&functions.order_by, &functions.group_by) {
        (Some((ok, ord)), None) => {
            let sorted = sort_states(&states, ok.as_str(), *ord);
            proof {
                lemma_sort_len(states_view(states@), ok@, *ord);
                assert(states_view(sorted@).len() == sorted@.len());
                assert(states_view(states@).len() == states@.len());
            }
            let count = if should_count {
                Some(sorted.len())
            } else {
                None
            };
            (QueryResult::Order(sorted), count)
        },
        (_, Some(gk)) => match &functions.order_by {
            Some((ok, ord)) => {
                let g = group_states(&states, gk.as_str(), Some((ok.as_str(), *ord)));
                (QueryResult::OrderedGroupBy(g), None)
            },
            None => {
                let g = group_states(&states, gk.as_str(), None);
                assert(groups_view(g@).len() == g@.len());
                assert(group_by(states_view(states@), gk@).len() == group_values(
                    states_view(states@),
                    gk@,
                ).len());
                let count = if should_count {
                    Some(g.len())
                } else {
                    None
                };
                (QueryResult::GroupBy(g), count)
            },
        },
        (None, None) => {
            assert(states_view(states@).len() == states@.len());
            let count = if should_count {
                Some(states.len())
            } else {
                None
            };
            (QueryResult::All(states), count)
        },
    }
}

/// Sorting keeps every registry: the sorted list is a permutation of the
/// input.
pub proof fn law_sort_permutes(s: StatesV, k: Seq<char>, ord: Order)
    ensures
        sort_by_key(s, k, ord).to_multiset() == s.to_multiset(),
    decreases s.len(),
{
    broadcast use vstd::seq_lib::to_multiset_insert, vstd::seq_lib::to_multiset_build;
    if s.len() > 0 {
        let pre = s.drop_last();
        law_sort_permutes(pre, k, ord);
        let sorted = sort_by_key(pre, k, ord);
        lemma_insert_position_bounds(sorted, s.last().1, k, ord);
        assert(pre.push(s.last()) =~= s);
    }
}

/// Every registry falls in exactly the group of its value: the groups hold,
/// together, each registry once.
pub proof fn law_members_in_group(s: StatesV, k: Seq<char>, i: int)
    requires
        0 <= i < s.len(),
    ensures
        group_values(s, k).contains(group_key(s[i].1, k)),
        members(s, k, group_key(s[i].1, k)).contains(s[i]),
    decreases s.len(),
{
    let g = group_key(s[i].1, k);
    if i == s.len() - 1 {
        if group_values(s.drop_last(), k).contains(g) {
        } else {
            assert(group_values(s, k).last() == g);
        }
        assert(members(s, k, g).last() == s[i]);
    } else {
        law_members_in_group(s.drop_last(), k, i);
        assert(s.drop_last()[i] == s[i]);
        let m = members(s.drop_last(), k, g);
        let j = choose|j: int| 0 <= j < m.len() && m[j] == s[i];
        if group_key(s.last().1, k) == g {
            assert(members(s, k, g)[j] == s[i]);
        }
        let gv = group_values(s.drop_last(), k);
        let h = choose|h: int| 0 <= h < gv.len() && gv[h] == g;
        if !gv.contains(group_key(s.last().1, k)) {
            assert(group_values(s, k)[h] == g);
        }
    }
}

proof fn lemma_insert_position(sorted: StatesV, x: StateV, k: Seq<char>, ord: Order)
    ensures
        forall|j: int|
            0 <= j < insert_position(sorted, x, k, ord) ==> !#[trigger] goes_before(x, sorted[j].1, k, ord),
        insert_position(sorted, x, k, ord) < sorted.len() ==> goes_before(
            x,
            sorted[insert_position(sorted, x, k, ord)].1,
            k,
            ord,
        ),
    decreases sorted.len(),
{
    lemma_insert_position_bounds(sorted, x, k, ord);
    if sorted.len() > 0 && !goes_before(x, sorted[0].1, k, ord) {
        lemma_insert_position(sorted.drop_first(), x, k, ord);
        lemma_insert_position_bounds(sorted.drop_first(), x, k, ord);
        assert forall|j: int|
            0 <= j < insert_position(sorted, x, k, ord) implies !#[trigger] goes_before(
            x,
            sorted[j].1,
            k,
            ord,
        ) by {
            if j > 0 {
                assert(sorted.drop_first()[j - 1] == sorted[j]);
            }
        }
        let p = insert_position(sorted, x, k, ord);
        if p < sorted.len() {
            assert(sorted.drop_first()[p - 1] == sorted[p]);
        }
    }
}

/// Every state holds under `k` a value of the totally ordered kind `kind`
/// (see `total_kind`).
pub open spec fn all_of_kind(s: StatesV, k: Seq<char>, kind: int) -> bool {
    &&& 0 <= kind < 6
    &&& forall|i: int|
        0 <= i < s.len() ==> #[trigger] s[i].1.contains_key(k) && total_kind(s[i].1[k]) == kind
}

/// The value `a` may come before `b` in the order asked for.
pub open spec fn in_key_order(a: TypesV, b: TypesV, ord: Order) -> bool {
    match ord {
        Order::Asc => le(a, b),
        Order::Desc => le(b, a),
    }
}

/// Between two states holding values of one totally ordered kind under `k`,
/// `goes_before` is the strict order of those values in the direction asked
/// for, and a state that does not go before another may come after it.
proof fn lemma_goes_before_kind(x: StateV, y: StateV, k: Seq<char>, ord: Order)
    requires
        x.contains_key(k),
        y.contains_key(k),
        total_kind(x[k]) < 6,
        total_kind(x[k]) == total_kind(y[k]),
    ensures
        goes_before(x, y, k, ord) <==> match ord {
            Order::Asc => lt(x[k], y[k]),
            Order::Desc => lt(y[k], x[k]),
        },
        goes_before(x, y, k, ord) ==> in_key_order(x[k], y[k], ord),
        !goes_before(x, y, k, ord) ==> in_key_order(y[k], x[k], ord),
{
    law_order_total_within_kind(x[k], y[k], y[k]);
    law_order_total_within_kind(y[k], x[k], x[k]);
}

proof fn lemma_insert_kind_keys(sorted: StatesV, x: (u128, StateV), p: int, k: Seq<char>, kind: int)
    requires
        all_of_kind(sorted, k, kind),
        x.1.contains_key(k) && total_kind(x.1[k]) == kind,
        0 <= p <= sorted.len(),
    ensures
        all_of_kind(sorted.insert(p, x), k, kind),
{
    let r = sorted.insert(p, x);
    assert forall|i: int| 0 <= i < r.len() implies #[trigger] r[i].1.contains_key(k)
        && total_kind(r[i].1[k]) == kind by {
        if i < p {
            assert(r[i] == sorted[i]);
        } else if i > p {
            assert(r[i] == sorted[i - 1]);
        } else {
            assert(r[i] == x);
        }
    }
}

/// The values under `k` of sorted states, in the order asked for.
pub open spec fn keys_in_order(s: StatesV, k: Seq<char>, ord: Order) -> bool {
    forall|i: int, j: int| 0 <= i < j < s.len() ==> in_key_order(#[trigger] s[i].1[k], #[trigger] s[j].1[k], ord)
}

proof fn lemma_in_key_order_trans(a: TypesV, b: TypesV, c: TypesV, ord: Order)
    requires
        total_kind(a) < 6,
        total_kind(a) == total_kind(b),
        total_kind(b) == total_kind(c),
        in_key_order(a, b, ord),
        in_key_order(b, c, ord),
    ensures
        in_key_order(a, c, ord),
{
    law_order_total_within_kind(a, b, c);
    law_order_total_within_kind(c, b, a);
}

proof fn lemma_insert_keys_in_order(sorted: StatesV, x: (u128, StateV), k: Seq<char>, ord: Order, kind: int)
    requires
        all_of_kind(sorted, k, kind),
        keys_in_order(sorted, k, ord),
        x.1.contains_key(k) && total_kind(x.1[k]) == kind,
    ensures
        keys_in_order(sorted.insert(insert_position(sorted, x.1, k, ord), x), k, ord),
{
    lemma_insert_position_bounds(sorted, x.1, k, ord);
    lemma_insert_position(sorted, x.1, k, ord);
    let p = insert_position(sorted, x.1, k, ord);
    let r = sorted.insert(p, x);
    assert forall|i: int, j: int| 0 <= i < j < r.len() implies in_key_order(
        #[trigger] r[i].1[k],
        #[trigger] r[j].1[k],
        ord,
    ) by {
        if i == p {
            assert(r[i] == x);
            assert(r[j] == sorted[j - 1]);
            assert(sorted[p].1.contains_key(k));
            assert(total_kind(sorted[p].1[k]) == kind);
            assert(goes_before(x.1, sorted[p].1, k, ord));
            lemma_goes_before_kind(x.1, sorted[p].1, k, ord);
            if j - 1 > p {
                assert(0 <= j - 1 < sorted.len());
                assert(sorted[j - 1].1.contains_key(k));
                assert(total_kind(sorted[j - 1].1[k]) == kind);
                assert(in_key_order(sorted[p].1[k], sorted[j - 1].1[k], ord));
                lemma_in_key_order_trans(x.1[k], sorted[p].1[k], sorted[j - 1].1[k], ord);
            }
        } else if j == p {
            assert(r[j] == x);
            assert(r[i] == sorted[i]);
            assert(0 <= i < sorted.len());
            assert(all_of_kind(sorted, k, kind));
            assert(sorted[i].1.contains_key(k));
            assert(total_kind(sorted[i].1[k]) == kind);
            assert(!goes_before(x.1, sorted[i].1, k, ord));
            lemma_goes_before_kind(x.1, sorted[i].1, k, ord);
        } else {
            let i2 = if i < p { i } else { i - 1 };
            let j2 = if j < p { j } else { j - 1 };
            assert(r[i] == sorted[i2]);
            assert(r[j] == sorted[j2]);
            assert(in_key_order(sorted[i2].1[k], sorted[j2].1[k], ord));
        }
    }
}

/// `ORDER BY` on a key under which every registry holds a value of one
/// totally ordered kind (integers, characters, strings, precise numbers,
/// identifiers or booleans) sorts the registries by that value, in the
/// direction asked for.
#[verifier::spinoff_prover]
pub proof fn law_order_by_key(s: StatesV, k: Seq<char>, ord: Order, kind: int)
    requires
        all_of_kind(s, k, kind),
    ensures
        all_of_kind(sort_by_key(s, k, ord), k, kind),
        keys_in_order(sort_by_key(s, k, ord), k, ord),
    decreases s.len(),
{
    if s.len() > 0 {
        let pre = s.drop_last();
        assert forall|i: int| 0 <= i < pre.len() implies #[trigger] pre[i].1.contains_key(k)
            && total_kind(pre[i].1[k]) == kind by {
            assert(pre[i] == s[i]);
        }
        law_order_by_key(pre, k, ord, kind);
        let sorted = sort_by_key(pre, k, ord);
        let x = s.last();
        assert(s[s.len() - 1] == x);
        lemma_insert_position_bounds(sorted, x.1, k, ord);
        let p = insert_position(sorted, x.1, k, ord);
        lemma_insert_kind_keys(sorted, x, p, k, kind);
        lemma_insert_keys_in_order(sorted, x, k, ord, kind);
        assert(sorted.insert(p, x) == sort_by_key(s, k, ord));
    } else {
        assert(sort_by_key(s, k, ord).len() == 0);
    }
}

} // verus!
