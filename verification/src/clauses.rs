//! `SELECT ... WHERE {...}`: which registries the clauses of a query keep.

use vstd::prelude::*;
use crate::ast::{Clause, ClauseV, Function, clause_seq_view, clause_view};
use crate::compare::{
    entity_get, ge, gt, le, lt, same_value, types_ge, types_gt, types_le, types_lt, types_same,
};
use crate::relation::StateV;
use crate::text::{
    chars_of, contains_chars, contains_seq, ends_with, ends_with_chars, remove_char,
    remove_char_exec, starts_with, starts_with_chars,
};
use crate::types::{Entity, Types, TypesV, clone_entity, types_seq_view, lemma_seq_view};

verus! {

/// The registries of an entity, in the order of their identifiers.
pub type StatesV = Seq<(u128, StateV)>;

pub open spec fn states_view(s: Seq<(u128, Entity)>) -> StatesV {
    s.map_values(|p: (u128, Entity)| (p.0, p.1@))
}

pub proof fn lemma_clause_seq_index(s: Seq<Clause>)
    ensures
        clause_seq_view(s).len() == s.len(),
        forall|i: int| 0 <= i < s.len() ==> #[trigger] clause_seq_view(s)[i] == clause_view(s[i]),
    decreases s.len(),
{
    if s.len() > 0 {
        lemma_clause_seq_index(s.drop_last());
        assert forall|i: int| 0 <= i < s.len() implies #[trigger] clause_seq_view(s)[i]
            == clause_view(s[i]) by {
            if i < s.len() - 1 {
                assert(s.drop_last()[i] == s[i]);
            }
        }
    }
}

/// The key that a variable such as `?age` names: the last attribution of it
/// among the clauses (`#{key, ?age}`), or the empty key.
pub open spec fn resolve(cs: Seq<ClauseV>, var: Seq<char>) -> Seq<char>
    decreases cs.len(),
{
    if cs.len() == 0 {
        Seq::empty()
    } else {
        match cs.last() {
            ClauseV::ValueAttribution(_, key, arg) => if arg == var {
                key
            } else {
                resolve(cs.drop_last(), var)
            },
            _ => resolve(cs.drop_last(), var),
        }
    }
}

/// Whether a string value matches a `like` pattern, as the clauses of a query
/// test it: the pattern, without its `%`, occurs in the value.
pub open spec fn like_where(content: Seq<char>, pattern: Seq<char>) -> bool {
    contains_seq(content, remove_char(pattern, '%'))
}

/// Whether a string value matches a `like` pattern, as the clauses of an `or`
/// test it: `%x%` contains, `%x` ends with, `x%` starts with, and otherwise
/// the pattern occurs in the value.
pub open spec fn like_or(content: Seq<char>, pattern: Seq<char>) -> bool {
    let bare = remove_char(pattern, '%');
    let first = pattern.len() > 0 && pattern[0] == '%';
    let last = pattern.len() > 0 && pattern.last() == '%';
    if first && last {
        contains_seq(content, bare)
    } else if first {
        ends_with(content, bare)
    } else if last {
        starts_with(content, bare)
    } else {
        contains_seq(content, pattern)
    }
}

/// Whether the clause keeps a registry whose state is `st`, the variables of
/// the query being resolved against `cs`.
pub open spec fn clause_keeps(c: ClauseV, cs: Seq<ClauseV>, st: StateV) -> bool {
    match c {
        ClauseV::ValueAttribution(_, _, _) => true,
        ClauseV::Or(_, inner) => or_holds(inner, cs, st),
        ClauseV::ContainsKeyValue(_, key, value) => st.contains_key(key) && same_value(st[key], value),
        ClauseV::SimpleComparisonFunction(f, var, value) => {
            let k = resolve(cs, var);
            !st.contains_key(k) || simple_keeps(f, st[k], value)
        },
        ClauseV::ComplexComparisonFunctions(Function::In, var, set) => {
            let k = resolve(cs, var);
            st.contains_key(k) && has_same(set, st[k])
        },
        ClauseV::ComplexComparisonFunctions(Function::Between, var, se) => {
            let k = resolve(cs, var);
            st.contains_key(k) && ge(st[k], se[0]) && le(st[k], se[1])
        },
        _ => true,
    }
}

/// Whether a comparison of the clauses keeps the value `v`.
pub open spec fn simple_keeps(f: Function, v: TypesV, value: TypesV) -> bool {
    match f {
        Function::Eq => same_value(v, value),
        Function::NotEq => !same_value(v, value),
        Function::GEq => ge(v, value),
        Function::G => gt(v, value),
        Function::LEq => le(v, value),
        Function::L => lt(v, value),
        Function::Like => match (v, value) {
            (TypesV::String(content), TypesV::String(pattern)) => like_where(content, pattern),
            _ => false,
        },
        _ => true,
    }
}

/// Whether a comparison inside `or` holds of the value `v`.
pub open spec fn simple_holds(f: Function, v: TypesV, value: TypesV) -> bool {
    match f {
        Function::Eq => same_value(v, value),
        Function::NotEq => !same_value(v, value),
        Function::GEq => ge(v, value),
        Function::G => gt(v, value),
        Function::LEq => le(v, value),
        Function::L => lt(v, value),
        Function::Like => match (v, value) {
            (TypesV::String(content), TypesV::String(pattern)) => like_or(content, pattern),
            _ => false,
        },
        _ => false,
    }
}

/// Whether a clause inside `or` holds of the state `st`.
pub open spec fn or_clause_holds(c: ClauseV, cs: Seq<ClauseV>, st: StateV) -> bool
    decreases c,
{
    match c {
        ClauseV::ValueAttribution(_, _, _) => true,
        ClauseV::Or(_, inner) => or_holds(inner, cs, st),
        ClauseV::ContainsKeyValue(_, var, value) => {
            let k = resolve(cs, var);
            st.contains_key(k) && same_value(st[k], value)
        },
        ClauseV::SimpleComparisonFunction(f, var, value) => {
            let k = resolve(cs, var);
            st.contains_key(k) && simple_holds(f, st[k], value)
        },
        ClauseV::ComplexComparisonFunctions(Function::In, var, set) => {
            let k = resolve(cs, var);
            st.contains_key(k) && has_same(set, st[k])
        },
        ClauseV::ComplexComparisonFunctions(Function::Between, var, se) => {
            let k = resolve(cs, var);
            st.contains_key(k) && ge(st[k], se[0]) && le(st[k], se[1])
        },
        _ => false,
    }
}

/// Whether some clause of an `or` holds of the state `st`.
pub open spec fn or_holds(inner: Seq<ClauseV>, cs: Seq<ClauseV>, st: StateV) -> bool
    decreases inner,
{
    if inner.len() == 0 {
        false
    } else {
        or_holds(inner.drop_last(), cs, st) || or_clause_holds(inner.last(), cs, st)
    }
}

/// Every `between` has its two bounds, at any depth of `or`.
pub open spec fn clause_bounds_wf(c: ClauseV) -> bool
    decreases c,
{
    match c {
        ClauseV::ComplexComparisonFunctions(Function::Between, _, se) => se.len() >= 2,
        ClauseV::Or(_, inner) => clauses_bounds_wf(inner),
        _ => true,
    }
}

pub open spec fn clauses_bounds_wf(cs: Seq<ClauseV>) -> bool
    decreases cs,
{
    if cs.len() == 0 {
        true
    } else {
        clauses_bounds_wf(cs.drop_last()) && clause_bounds_wf(cs.last())
    }
}

/// Whether every clause keeps the state.
pub open spec fn all_keep(cs: Seq<ClauseV>, st: StateV) -> bool {
    forall|i: int| 0 <= i < cs.len() ==> #[trigger] clause_keeps(cs[i], cs, st)
}

/// The registries, in order, that every clause keeps.
pub open spec fn filter_where(states: StatesV, cs: Seq<ClauseV>) -> StatesV
    decreases states.len(),
{
    if states.len() == 0 {
        states
    } else if all_keep(cs, states.last().1) {
        filter_where(states.drop_last(), cs).push(states.last())
    } else {
        filter_where(states.drop_last(), cs)
    }
}

proof fn lemma_bounds_index(cs: Seq<ClauseV>, i: int)
    requires
        clauses_bounds_wf(cs),
        0 <= i < cs.len(),
    ensures
        clause_bounds_wf(cs[i]),
    decreases cs.len(),
{
    if i < cs.len() - 1 {
        lemma_bounds_index(cs.drop_last(), i);
        assert(cs.drop_last()[i] == cs[i]);
    }
}

/// Executes `resolve`.
fn resolve_exec(cs: &Vec<Clause>, var: &str) -> (r: String)
    ensures
        r@ == resolve(clause_seq_view(cs@), var@),
{
    proof {
        lemma_clause_seq_index(cs@);
    }
    let ghost cv = clause_seq_view(cs@);
    let mut i = cs.len();
    assert(cv.subrange(0, i as int) =~= cv);
    while i > 0
        invariant
            i <= cs.len(),
            cv == clause_seq_view(cs@),
            cv.len() == cs@.len(),
            forall|j: int| 0 <= j < cs@.len() ==> #[trigger] cv[j] == clause_view(cs@[j]),
            resolve(cv, var@) == resolve(cv.subrange(0, i as int), var@),
        decreases i,
    {
        let ghost pre = cv.subrange(0, i as int);
        assert(pre.drop_last() =~= cv.subrange(0, i - 1));
        assert(pre.last() == clause_view(cs@[i - 1]));
        match &cs[i - 1] {
            Clause::ValueAttribution(_, key, arg) => {
                if crate::text::str_eq(arg.0.as_str(), var) {
                    return key.clone();
                }
            },
            _ => {},
        }
        i = i - 1;
    }
    String::new()
}

fn like_where_exec(content: &str, pattern: &str) -> (r: bool)
    ensures
        r == like_where(content@, pattern@),
{
    let c = chars_of(content);
    let p = chars_of(pattern);
    let bare = remove_char_exec(&p, '%');
    contains_chars(&c, &bare)
}

fn like_or_exec(content: &str, pattern: &str) -> (r: bool)
    ensures
        r == like_or(content@, pattern@),
{
    let c = chars_of(content);
    let p = chars_of(pattern);
    let bare = remove_char_exec(&p, '%');
    let first = p.len() > 0 && p[0] == '%';
    let last = p.len() > 0 && p[p.len() - 1] == '%';
    if first && last {
        contains_chars(&c, &bare)
    } else if first {
        ends_with_chars(&c, &bare)
    } else if last {
        starts_with_chars(&c, &bare)
    } else {
        contains_chars(&c, &p)
    }
}

fn simple_keeps_exec(f: Function, v: &Types, value: &Types) -> (r: bool)
    ensures
        r == simple_keeps(f, v@, value@),
{
    match f {
        Function::Eq => types_same(v, value),
        Function::NotEq => !types_same(v, value),
        Function::GEq => types_ge(v, value),
        Function::G => types_gt(v, value),
        Function::LEq => types_le(v, value),
        Function::L => types_lt(v, value),
        Function::Like => match (v, value) {
            (Types::String(content), Types::String(pattern)) => like_where_exec(
                content.as_str(),
                pattern.as_str(),
            ),
            _ => false,
        },
        _ => true,
    }
}

fn simple_holds_exec(f: Function, v: &Types, value: &Types) -> (r: bool)
    ensures
        r == simple_holds(f, v@, value@),
{
    match f {
        Function::Eq => types_same(v, value),
        Function::NotEq => !types_same(v, value),
        Function::GEq => types_ge(v, value),
        Function::G => types_gt(v, value),
        Function::LEq => types_le(v, value),
        Function::L => types_lt(v, value),
        Function::Like => match (v, value) {
            (Types::String(content), Types::String(pattern)) => like_or_exec(
                content.as_str(),
                pattern.as_str(),
            ),
            _ => false,
        },
        _ => false,
    }
}

/// Whether some value of `set` is the same value as `v` (see `same_value`).
pub open spec fn has_same(set: Seq<TypesV>, v: TypesV) -> bool {
    exists|j: int| 0 <= j < set.len() && same_value(#[trigger] set[j], v)
}

/// Whether the values hold one that is the same value as `v`.
fn values_contain(set: &Vec<Types>, v: &Types) -> (r: bool)
    ensures
        r == has_same(types_seq_view(set@), v@),
{
    proof {
        lemma_seq_view(set@);
    }
    let mut i: usize = 0;
    while i < set.len()
        invariant
            i <= set.len(),
            types_seq_view(set@).len() == set@.len(),
            forall|j: int| 0 <= j < set@.len() ==> #[trigger] types_seq_view(set@)[j] == set@[j]@,
            forall|j: int| 0 <= j < i ==> !same_value(#[trigger] types_seq_view(set@)[j], v@),
        decreases set.len() - i,
    {
        if types_same(&set[i], v) {
            assert(types_seq_view(set@)[i as int] == set@[i as int]@);
            return true;
        }
        i = i + 1;
    }
    false
}

/// Whether `v` lies between the first two values, both included.
fn between_exec(se: &Vec<Types>, v: &Types) -> (r: bool)
    requires
        types_seq_view(se@).len() >= 2,
    ensures
        r == (ge(v@, types_seq_view(se@)[0]) && le(v@, types_seq_view(se@)[1])),
{
    proof {
        lemma_seq_view(se@);
    }
    types_ge(v, &se[0]) && types_le(v, &se[1])
}

/// Whether a clause inside `or` holds of the state.
fn or_clause_holds_exec(c: &Clause, cs: &Vec<Clause>, st: &Entity) -> (r: bool)
    requires
        clause_bounds_wf(c@),
    ensures
        r == or_clause_holds(c@, clause_seq_view(cs@), st@),
    decreases c,
{
    match c {
        Clause::ValueAttribution(_, _, _) => true,
        Clause::Or(_, inner) => {
            proof {
                assert(decreases_to!(c => inner));
            }
            or_holds_exec(inner, cs, st)
        },
        Clause::ContainsKeyValue(_, var, value) => {
            let k = resolve_exec(cs, var.as_str());
            match entity_get(st, k.as_str()) {
                Some(v) => types_same(v, value),
                None => false,
            }
        },
        Clause::SimpleComparisonFunction(f, var, value) => {
            let k = resolve_exec(cs, var.as_str());
            match entity_get(st, k.as_str()) {
                Some(v) => simple_holds_exec(*f, v, value),
                None => false,
            }
        },
        Clause::ComplexComparisonFunctions(Function::In, var, set) => {
            let k = resolve_exec(cs, var.as_str());
            match entity_get(st, k.as_str()) {
                Some(v) => values_contain(set, v),
                None => false,
            }
        },
        Clause::ComplexComparisonFunctions(Function::Between, var, se) => {
            let k = resolve_exec(cs, var.as_str());
            match entity_get(st, k.as_str()) {
                Some(v) => between_exec(se, v),
                None => false,
            }
        },
        _ => false,
    }
}

/// Whether some clause of an `or` holds of the state.
fn or_holds_exec(inner: &Vec<Clause>, cs: &Vec<Clause>, st: &Entity) -> (r: bool)
    requires
        clauses_bounds_wf(clause_seq_view(inner@)),
    ensures
        r == or_holds(clause_seq_view(inner@), clause_seq_view(cs@), st@),
    decreases inner,
{
    proof {
        lemma_clause_seq_index(inner@);
    }
    let ghost iv = clause_seq_view(inner@);
    let ghost cv = clause_seq_view(cs@);
    let mut i: usize = 0;
    let mut found = false;
    while i < inner.len()
        invariant
            i <= inner.len(),
            iv == clause_seq_view(inner@),
            cv == clause_seq_view(cs@),
            iv.len() == inner@.len(),
            clauses_bounds_wf(iv),
            forall|j: int| 0 <= j < inner@.len() ==> #[trigger] iv[j] == clause_view(inner@[j]),
            found == or_holds(iv.subrange(0, i as int), cv, st@),
        decreases inner.len() - i,
    {
        proof {
            assert(decreases_to!(inner => inner@));
            assert(decreases_to!(inner@ => inner@[i as int]));
            lemma_bounds_index(iv, i as int);
        }
        let h = or_clause_holds_exec(&inner[i], cs, st);
        found = found || h;
        assert(iv.subrange(0, i + 1).drop_last() =~= iv.subrange(0, i as int));
        assert(iv.subrange(0, i + 1).last() == iv[i as int]);
        i = i + 1;
    }
    assert(iv.subrange(0, inner.len() as int) =~= iv);
    found
}

/// Whether a top-level clause keeps the state.
fn clause_keeps_exec(c: &Clause, cs: &Vec<Clause>, st: &Entity) -> (r: bool)
    requires
        clause_bounds_wf(c@),
    ensures
        r == clause_keeps(c@, clause_seq_view(cs@), st@),
{
    match c {
        Clause::ValueAttribution(_, _, _) => true,
        Clause::Or(_, inner) => or_holds_exec(inner, cs, st),
        Clause::ContainsKeyValue(_, key, value) => match entity_get(st, key.as_str()) {
            Some(v) => types_same(v, value),
            None => false,
        },
        Clause::SimpleComparisonFunction(f, var, value) => {
            let k = resolve_exec(cs, var.as_str());
            match entity_get(st, k.as_str()) {
                Some(v) => simple_keeps_exec(*f, v, value),
                None => true,
            }
        },
        Clause::ComplexComparisonFunctions(Function::In, var, set) => {
            let k = resolve_exec(cs, var.as_str());
            match entity_get(st, k.as_str()) {
                Some(v) => values_contain(set, v),
                None => false,
            }
        },
        Clause::ComplexComparisonFunctions(Function::Between, var, se) => {
            let k = resolve_exec(cs, var.as_str());
            match entity_get(st, k.as_str()) {
                Some(v) => between_exec(se, v),
                None => false,
            }
        },
        _ => true,
    }
}

/// Whether every clause keeps the state.
fn all_keep_exec(cs: &Vec<Clause>, st: &Entity) -> (r: bool)
    requires
        clauses_bounds_wf(clause_seq_view(cs@)),
    ensures
        r == all_keep(clause_seq_view(cs@), st@),
{
    proof {
        lemma_clause_seq_index(cs@);
    }
    let ghost cv = clause_seq_view(cs@);
    let mut i: usize = 0;
    while i < cs.len()
        invariant
            i <= cs.len(),
            cv == clause_seq_view(cs@),
            cv.len() == cs@.len(),
            clauses_bounds_wf(cv),
            forall|j: int| 0 <= j < cs@.len() ==> #[trigger] cv[j] == clause_view(cs@[j]),
            forall|j: int| 0 <= j < i ==> #[trigger] clause_keeps(cv[j], cv, st@),
        decreases cs.len() - i,
    {
        proof {
            lemma_bounds_index(cv, i as int);
        }
        if !clause_keeps_exec(&cs[i], cs, st) {
            assert(!clause_keeps(cv[i as int], cv, st@));
            return false;
        }
        i = i + 1;
    }
    true
}

/// The registries, in order, that every clause of `WHERE` keeps.
pub fn filter_where_clauses(states: &Vec<(u128, Entity)>, clauses: &Vec<Clause>) -> (r: Vec<
    (u128, Entity),
>)
    requires
        clauses_bounds_wf(clause_seq_view(clauses@)),
    ensures
        states_view(r@) == filter_where(states_view(states@), clause_seq_view(clauses@)),
{
    let ghost sv = states_view(states@);
    let ghost cv = clause_seq_view(clauses@);
    let mut r: Vec<(u128, Entity)> = Vec::new();
    let mut i: usize = 0;
    while i < states.len()
        invariant
            i <= states.len(),
            sv == states_view(states@),
            cv == clause_seq_view(clauses@),
            clauses_bounds_wf(cv),
            states_view(r@) == filter_where(sv.subrange(0, i as int), cv),
        decreases states.len() - i,
    {
        let keep = all_keep_exec(clauses, &states[i].1);
        let ghost before = r@;
        if keep {
            let e = clone_entity(&states[i].1);
            r.push((states[i].0, e));
            assert(states_view(r@) =~= states_view(before).push(sv[i as int]));
        }
        assert(sv.subrange(0, i + 1).drop_last() =~= sv.subrange(0, i as int));
        assert(sv.subrange(0, i + 1).last() == sv[i as int]);
        i = i + 1;
    }
    assert(sv.subrange(0, states.len() as int) =~= sv);
    r
}

/// Whether every `between` has its two bounds, so that the clauses may be
/// evaluated.
pub fn clause_bounds_ok(c: &Clause) -> (r: bool)
    ensures
        r == clause_bounds_wf(c@),
    decreases c,
{
    match c {
        Clause::ComplexComparisonFunctions(Function::Between, _, se) => {
            proof {
                lemma_seq_view(se@);
            }
            se.len() >= 2
        },
        Clause::Or(_, inner) => {
            proof {
                assert(decreases_to!(c => inner));
            }
            clauses_bounds_ok(inner)
        },
        _ => true,
    }
}

pub fn clauses_bounds_ok(cs: &Vec<Clause>) -> (r: bool)
    ensures
        r == clauses_bounds_wf(clause_seq_view(cs@)),
    decreases cs,
{
    proof {
        lemma_clause_seq_index(cs@);
    }
    let ghost cv = clause_seq_view(cs@);
    let mut i: usize = 0;
    let mut ok = true;
    assert(cv.subrange(0, 0) =~= Seq::<ClauseV>::empty());
    while i < cs.len()
        invariant
            i <= cs.len(),
            cv == clause_seq_view(cs@),
            cv.len() == cs@.len(),
            forall|j: int| 0 <= j < cs@.len() ==> #[trigger] cv[j] == clause_view(cs@[j]),
            ok == clauses_bounds_wf(cv.subrange(0, i as int)),
        decreases cs.len() - i,
    {
        proof {
            assert(decreases_to!(cs => cs@));
            assert(decreases_to!(cs@ => cs@[i as int]));
        }
        let b = clause_bounds_ok(&cs[i]);
        assert(cv.subrange(0, i + 1).drop_last() =~= cv.subrange(0, i as int));
        assert(cv.subrange(0, i + 1).last() == cv[i as int]);
        ok = ok && b;
        i = i + 1;
    }
    assert(cv.subrange(0, cs.len() as int) =~= cv);
    ok
}

/// A comparison clause keeps a registry that holds a value under the key
/// its variable names exactly when that value compares with the clause's
/// value as the clause asks: `==` and `!=` by `same_value`, `>=`, `>`,
/// `<=` and `<` by the order of values (`ge`, `gt`, `le`, `lt`).
pub proof fn law_comparison_clause_keeps(
    f: Function,
    var: Seq<char>,
    value: TypesV,
    cs: Seq<ClauseV>,
    st: StateV,
)
    requires
        st.contains_key(resolve(cs, var)),
    ensures
        ({
            let v = st[resolve(cs, var)];
            let keeps = clause_keeps(ClauseV::SimpleComparisonFunction(f, var, value), cs, st);
            &&& f == Function::Eq ==> (keeps <==> same_value(v, value))
            &&& f == Function::NotEq ==> (keeps <==> !same_value(v, value))
            &&& f == Function::GEq ==> (keeps <==> ge(v, value))
            &&& f == Function::G ==> (keeps <==> gt(v, value))
            &&& f == Function::LEq ==> (keeps <==> le(v, value))
            &&& f == Function::L ==> (keeps <==> lt(v, value))
        }),
{
}

/// On integers, a comparison clause keeps a registry holding `x` under the
/// key exactly when `x` stands to the clause's integer `y` as asked: for
/// `(<= ?a y)` a registry is kept when `x <= y` and dropped when `x > y`;
/// `in` keeps it when one of the listed integers is `x`; `between` when `x`
/// lies within the two bounds, both included. The same holds of each clause
/// inside `or`.
pub proof fn law_integer_clauses(
    var: Seq<char>,
    x: int,
    y: int,
    ys: Seq<int>,
    lo: int,
    hi: int,
    cs: Seq<ClauseV>,
    st: StateV,
)
    requires
        st.contains_key(resolve(cs, var)),
        st[resolve(cs, var)] == TypesV::Integer(x),
    ensures
        clause_keeps(ClauseV::SimpleComparisonFunction(Function::Eq, var, TypesV::Integer(y)), cs, st)
            == (x == y),
        clause_keeps(ClauseV::SimpleComparisonFunction(Function::NotEq, var, TypesV::Integer(y)), cs, st)
            == (x != y),
        clause_keeps(ClauseV::SimpleComparisonFunction(Function::GEq, var, TypesV::Integer(y)), cs, st)
            == (x >= y),
        clause_keeps(ClauseV::SimpleComparisonFunction(Function::G, var, TypesV::Integer(y)), cs, st)
            == (x > y),
        clause_keeps(ClauseV::SimpleComparisonFunction(Function::LEq, var, TypesV::Integer(y)), cs, st)
            == (x <= y),
        clause_keeps(ClauseV::SimpleComparisonFunction(Function::L, var, TypesV::Integer(y)), cs, st)
            == (x < y),
        or_clause_holds(ClauseV::SimpleComparisonFunction(Function::Eq, var, TypesV::Integer(y)), cs, st)
            == (x == y),
        or_clause_holds(ClauseV::SimpleComparisonFunction(Function::NotEq, var, TypesV::Integer(y)), cs, st)
            == (x != y),
        or_clause_holds(ClauseV::SimpleComparisonFunction(Function::GEq, var, TypesV::Integer(y)), cs, st)
            == (x >= y),
        or_clause_holds(ClauseV::SimpleComparisonFunction(Function::G, var, TypesV::Integer(y)), cs, st)
            == (x > y),
        or_clause_holds(ClauseV::SimpleComparisonFunction(Function::LEq, var, TypesV::Integer(y)), cs, st)
            == (x <= y),
        or_clause_holds(ClauseV::SimpleComparisonFunction(Function::L, var, TypesV::Integer(y)), cs, st)
            == (x < y),
        clause_keeps(
            ClauseV::ComplexComparisonFunctions(
                Function::In,
                var,
                ys.map_values(|n: int| TypesV::Integer(n)),
            ),
            cs,
            st,
        ) == ys.contains(x),
        clause_keeps(
            ClauseV::ComplexComparisonFunctions(
                Function::Between,
                var,
                seq![TypesV::Integer(lo), TypesV::Integer(hi)],
            ),
            cs,
            st,
        ) == (lo <= x <= hi),
{
    let set = ys.map_values(|n: int| TypesV::Integer(n));
    if ys.contains(x) {
        let j = choose|j: int| 0 <= j < ys.len() && ys[j] == x;
        assert(same_value(set[j], TypesV::Integer(x)));
    }
    if has_same(set, TypesV::Integer(x)) {
        let j = choose|j: int| 0 <= j < set.len() && same_value(#[trigger] set[j], TypesV::Integer(x));
        assert(ys[j] == x);
    }
}

/// The query of `SELECT * FROM t WHERE { ?* t:key ?var, (<= ?var y), }`
/// keeps exactly the registries whose integer under `key` is at most `y`.
pub proof fn law_where_at_most(entity: Seq<char>, key: Seq<char>, var: Seq<char>, x: int, y: int, st: StateV)
    requires
        st.contains_key(key),
        st[key] == TypesV::Integer(x),
    ensures
        all_keep(
            seq![
                ClauseV::ValueAttribution(entity, key, var),
                ClauseV::SimpleComparisonFunction(Function::LEq, var, TypesV::Integer(y)),
            ],
            st,
        ) == (x <= y),
{
    let cs = seq![
        ClauseV::ValueAttribution(entity, key, var),
        ClauseV::SimpleComparisonFunction(Function::LEq, var, TypesV::Integer(y)),
    ];
    assert(cs.drop_last().drop_last() =~= Seq::<ClauseV>::empty());
    assert(resolve(cs.drop_last(), var) == key);
    assert(resolve(cs, var) == key);
    assert(clause_keeps(cs[0], cs, st));
    if x <= y {
        assert forall|i: int| 0 <= i < cs.len() implies #[trigger] clause_keeps(cs[i], cs, st) by {}
    } else {
        assert(!clause_keeps(cs[1], cs, st));
    }
}

/// The registries that a query keeps are those of the input that every
/// clause keeps: each kept registry is one of the input that all clauses
/// keep, and each registry of the input that all clauses keep is kept.
pub proof fn law_filter_where_members(states: StatesV, cs: Seq<ClauseV>)
    ensures
        forall|i: int| 0 <= i < filter_where(states, cs).len() ==> states.contains(
            #[trigger] filter_where(states, cs)[i],
        ) && all_keep(cs, filter_where(states, cs)[i].1),
        forall|j: int| 0 <= j < states.len() && all_keep(cs, #[trigger] states[j].1) ==> filter_where(
            states,
            cs,
        ).contains(states[j]),
    decreases states.len(),
{
    if states.len() > 0 {
        let pre = states.drop_last();
        law_filter_where_members(pre, cs);
        let r = filter_where(states, cs);
        let rp = filter_where(pre, cs);
        assert forall|i: int| 0 <= i < r.len() implies states.contains(#[trigger] r[i]) && all_keep(
            cs,
            r[i].1,
        ) by {
            if i < rp.len() {
                assert(r[i] == rp[i]);
                let j = choose|j: int| 0 <= j < pre.len() && pre[j] == rp[i];
                assert(states[j] == pre[j]);
            } else {
                assert(r[i] == states.last());
                assert(states[states.len() - 1] == states.last());
            }
        }
        assert forall|j: int| 0 <= j < states.len() && all_keep(cs, #[trigger] states[j].1) implies r.contains(
            states[j],
        ) by {
            if j < pre.len() {
                assert(pre[j] == states[j]);
                let i = choose|i: int| 0 <= i < rp.len() && rp[i] == pre[j];
                assert(r[i] == rp[i]);
            } else {
                assert(r[r.len() - 1] == states[j]);
            }
        }
    }
}

proof fn lemma_remove_free(x: Seq<char>, c: char)
    requires
        !x.contains(c),
    ensures
        remove_char(x, c) == x,
    decreases x.len(),
{
    if x.len() > 0 {
        assert(!x.drop_last().contains(c)) by {
            if x.drop_last().contains(c) {
                let i = choose|i: int| 0 <= i < x.drop_last().len() && x.drop_last()[i] == c;
                assert(x[i] == c);
            }
        }
        lemma_remove_free(x.drop_last(), c);
        assert(x.last() != c) by {
            assert(x[x.len() - 1] == x.last());
        }
        assert(x.drop_last().push(x.last()) =~= x);
    }
}

proof fn lemma_remove_front(x: Seq<char>, c: char)
    ensures
        remove_char(seq![c] + x, c) == remove_char(x, c),
    decreases x.len(),
{
    let y = seq![c] + x;
    if x.len() > 0 {
        lemma_remove_front(x.drop_last(), c);
        assert(y.drop_last() =~= seq![c] + x.drop_last());
        assert(y.last() == x.last());
        if x.last() == c {
            assert(remove_char(y, c) == remove_char(y.drop_last(), c));
        } else {
            assert(remove_char(y, c) == remove_char(y.drop_last(), c).push(y.last()));
        }
    } else {
        assert(y =~= seq![c]);
        assert(y.last() == c);
        assert(y.drop_last() =~= Seq::<char>::empty());
        assert(remove_char(y, c) == remove_char(y.drop_last(), c));
        assert(remove_char(y.drop_last(), c) == y.drop_last());
    }
}

/// `like` on strings: in the clauses of a `WHERE`, a pattern keeps the
/// registries whose string contains the pattern without its `%`s, however
/// the `%`s stand; inside `or`, `%x%` asks that the string contain `x`,
/// `%x` that it end with `x`, `x%` that it start with `x`, and a pattern
/// without `%` that it contain it.
pub proof fn law_like_patterns(var: Seq<char>, c: Seq<char>, x: Seq<char>, cs: Seq<ClauseV>, st: StateV)
    requires
        st.contains_key(resolve(cs, var)),
        st[resolve(cs, var)] == TypesV::String(c),
        x.len() > 0,
        !x.contains('%'),
    ensures
        clause_keeps(ClauseV::SimpleComparisonFunction(Function::Like, var, TypesV::String(seq!['%'] + x + seq!['%'])), cs, st)
            == contains_seq(c, x),
        clause_keeps(ClauseV::SimpleComparisonFunction(Function::Like, var, TypesV::String(seq!['%'] + x)), cs, st)
            == contains_seq(c, x),
        clause_keeps(ClauseV::SimpleComparisonFunction(Function::Like, var, TypesV::String(x + seq!['%'])), cs, st)
            == contains_seq(c, x),
        clause_keeps(ClauseV::SimpleComparisonFunction(Function::Like, var, TypesV::String(x)), cs, st)
            == contains_seq(c, x),
        or_clause_holds(ClauseV::SimpleComparisonFunction(Function::Like, var, TypesV::String(seq!['%'] + x + seq!['%'])), cs, st)
            == contains_seq(c, x),
        or_clause_holds(ClauseV::SimpleComparisonFunction(Function::Like, var, TypesV::String(seq!['%'] + x)), cs, st)
            == ends_with(c, x),
        or_clause_holds(ClauseV::SimpleComparisonFunction(Function::Like, var, TypesV::String(x + seq!['%'])), cs, st)
            == starts_with(c, x),
        or_clause_holds(ClauseV::SimpleComparisonFunction(Function::Like, var, TypesV::String(x)), cs, st)
            == contains_seq(c, x),
{
    let pc = seq!['%'];
    lemma_remove_free(x, '%');
    lemma_remove_front(x, '%');
    lemma_remove_front(x + pc, '%');
    assert(pc + x + pc =~= pc + (x + pc));
    assert((x + pc).drop_last() =~= x);
    assert(remove_char(x + pc, '%') == remove_char(x, '%'));
    let p1 = pc + x + pc;
    let p2 = pc + x;
    let p3 = x + pc;
    assert(p1[0] == '%' && p1.last() == '%');
    assert(p2[0] == '%');
    assert(p2.last() == x.last());
    assert(x.last() != '%') by {
        assert(x[x.len() - 1] == x.last());
    }
    assert(p3[0] == x[0]);
    assert(x[0] != '%');
    assert(p3.last() == '%');
    assert(remove_char(p1, '%') == x);
    assert(remove_char(p2, '%') == x);
    assert(remove_char(p3, '%') == x);
}

/// A clause `t:key value` keeps exactly the registries that hold under `key`
/// the same value (see `same_value`; for integers, the same integer); an
/// `or` keeps a registry when one of its clauses holds of it.
pub proof fn law_key_value_and_or(
    entity: Seq<char>,
    key: Seq<char>,
    value: TypesV,
    x: int,
    f: Function,
    inner: Seq<ClauseV>,
    cs: Seq<ClauseV>,
    st: StateV,
)
    ensures
        clause_keeps(ClauseV::ContainsKeyValue(entity, key, value), cs, st) == (st.contains_key(key)
            && same_value(st[key], value)),
        st.contains_key(key) && st[key] == TypesV::Integer(x) ==> (clause_keeps(
            ClauseV::ContainsKeyValue(entity, key, value),
            cs,
            st,
        ) == (value == TypesV::Integer(x))),
        clause_keeps(ClauseV::Or(f, inner), cs, st) == (exists|i: int|
            0 <= i < inner.len() && #[trigger] or_clause_holds(inner[i], cs, st)),
{
    lemma_or_holds(inner, cs, st);
}

proof fn lemma_or_holds(inner: Seq<ClauseV>, cs: Seq<ClauseV>, st: StateV)
    ensures
        or_holds(inner, cs, st) == (exists|i: int| 0 <= i < inner.len() && #[trigger] or_clause_holds(inner[i], cs, st)),
    decreases inner.len(),
{
    if inner.len() > 0 {
        let pre = inner.drop_last();
        lemma_or_holds(pre, cs, st);
        assert(or_holds(inner, cs, st) == (or_holds(pre, cs, st) || or_clause_holds(inner.last(), cs, st)));
        if or_clause_holds(inner.last(), cs, st) {
            assert(inner[inner.len() - 1] == inner.last());
        }
        if or_holds(pre, cs, st) {
            let i = choose|i: int| 0 <= i < pre.len() && #[trigger] or_clause_holds(pre[i], cs, st);
            assert(inner[i] == pre[i]);
        }
        if exists|i: int| 0 <= i < inner.len() && #[trigger] or_clause_holds(inner[i], cs, st) {
            let i = choose|i: int| 0 <= i < inner.len() && #[trigger] or_clause_holds(inner[i], cs, st);
            if i < pre.len() {
                assert(pre[i] == inner[i]);
            } else {
                assert(inner[i] == inner.last());
            }
        }
    }
}

} // verus!
