//! `JOIN (entity_a:key_a, entity_b:key_b) query_a | query_b`: each state of
//! the first answer with each state of the second that holds the same value
//! under the join keys.

use vstd::prelude::*;
use crate::algebra::{QueryResult, QueryResultV};
use crate::compare::{entity_get, lemma_entity_map_keys, types_eq};
use crate::error::Error;
use crate::types::clone_entity;
use crate::relation::StateV;
use crate::state::merge_entities;
use crate::text::{append_str, chars_of, str_eq, string_of};
use crate::types::{Entity, clone_types, strings_view};

verus! {

/// What the keys of the second entity are suffixed with: `:` and its name.
pub open spec fn suffix(entity_b: Seq<char>) -> Seq<char> {
    seq![':'] + entity_b
}

/// The key a suffixed key was made from.
pub open spec fn stem(k2: Seq<char>, sfx: Seq<char>) -> Seq<char> {
    k2.subrange(0, k2.len() - sfx.len())
}

/// The key is carried into a join: it is neither the join key of the second
/// entity nor `tx_time`.
pub open spec fn carried(k: Seq<char>, key_b: Seq<char>) -> bool {
    k != key_b && k != "tx_time"@
}

/// `k2` is a carried key of `b` with the suffix.
pub open spec fn renamed_key(b: StateV, key_b: Seq<char>, sfx: Seq<char>, k2: Seq<char>) -> bool {
    &&& k2.len() >= sfx.len()
    &&& k2.subrange(k2.len() - sfx.len(), k2.len() as int) == sfx
    &&& b.contains_key(stem(k2, sfx))
    &&& carried(stem(k2, sfx), key_b)
}

/// The state of the second entity as a join carries it: each key but the
/// join key and `tx_time`, suffixed with `:` and the entity's name.
pub open spec fn renamed(b: StateV, key_b: Seq<char>, entity_b: Seq<char>) -> StateV {
    Map::new(
        |k2: Seq<char>| renamed_key(b, key_b, suffix(entity_b), k2),
        |k2: Seq<char>| b[stem(k2, suffix(entity_b))],
    )
}

/// One state of the first answer joined with one of the second: the keys of
/// the first, and the renamed keys of the second (the first's winning).
pub open spec fn joined(a: StateV, b: StateV, key_b: Seq<char>, entity_b: Seq<char>) -> StateV {
    renamed(b, key_b, entity_b).union_prefer_right(a)
}

/// The states of `bs`, in order, that hold under `key_b` the value `a` holds
/// under `key_a`, each joined with `a`.
pub open spec fn matches_of(
    a: StateV,
    key_a: Seq<char>,
    bs: Seq<StateV>,
    key_b: Seq<char>,
    entity_b: Seq<char>,
) -> Seq<StateV>
    decreases bs.len(),
{
    if bs.len() == 0 {
        Seq::empty()
    } else {
        let r = matches_of(a, key_a, bs.drop_last(), key_b, entity_b);
        let b = bs.last();
        if a.contains_key(key_a) && b.contains_key(key_b) && b[key_b] == a[key_a] {
            r.push(joined(a, b, key_b, entity_b))
        } else {
            r
        }
    }
}

/// The join: for each state of `xs` in order, its matches in `bs`.
pub open spec fn join_states(
    xs: Seq<StateV>,
    key_a: Seq<char>,
    bs: Seq<StateV>,
    key_b: Seq<char>,
    entity_b: Seq<char>,
) -> Seq<StateV>
    decreases xs.len(),
{
    if xs.len() == 0 {
        Seq::empty()
    } else {
        join_states(xs.drop_last(), key_a, bs, key_b, entity_b) + matches_of(
            xs.last(),
            key_a,
            bs,
            key_b,
            entity_b,
        )
    }
}

pub open spec fn entities_view(s: Seq<Entity>) -> Seq<StateV> {
    s.map_values(|e: Entity| e@)
}

proof fn lemma_stem(k2: Seq<char>, sfx: Seq<char>)
    requires
        k2.len() >= sfx.len(),
        k2.subrange(k2.len() - sfx.len(), k2.len() as int) == sfx,
    ensures
        k2 == stem(k2, sfx) + sfx,
{
    assert(k2 =~= stem(k2, sfx) + k2.subrange(k2.len() - sfx.len(), k2.len() as int));
}

fn suffixed(k: &str, entity_b: &str) -> (r: String)
    ensures
        r@ == k@ + suffix(entity_b@),
        r@.len() >= suffix(entity_b@).len(),
        r@.subrange(r@.len() - suffix(entity_b@).len(), r@.len() as int) == suffix(entity_b@),
        stem(r@, suffix(entity_b@)) == k@,
{
    let mut v = chars_of(k);
    v.push(':');
    append_str(&mut v, entity_b);
    let r = string_of(&v);
    assert(r@ =~= k@ + suffix(entity_b@));
    assert(r@.subrange(r@.len() - suffix(entity_b@).len(), r@.len() as int) =~= suffix(entity_b@));
    assert(stem(r@, suffix(entity_b@)) =~= k@);
    r
}

/// The state `b` as a join carries it (see `renamed`).
pub fn renamed_state(b: &Entity, key_b: &str, entity_b: &str) -> (r: Entity)
    ensures
        r.wf(),
        r@ == renamed(b@, key_b@, entity_b@),
{
    let ghost sfx = suffix(entity_b@);
    let mut acc = Entity::new();
    let mut i: usize = 0;
    while i < b.keys.len()
        invariant
            i <= b.keys.len(),
            sfx == suffix(entity_b@),
            acc.wf(),
            acc@ == Map::new(
                |k2: Seq<char>|
                    renamed_key(b@, key_b@, sfx, k2) && exists|j: int|
                        0 <= j < i && #[trigger] b.keys@[j]@ == stem(k2, sfx),
                |k2: Seq<char>| b@[stem(k2, sfx)],
            ),
        decreases b.keys.len() - i,
    {
        let ghost kv = b.keys@[i as int]@;
        let ghost old_acc = acc@;
        let ghost new_map = Map::new(
            |k2: Seq<char>|
                renamed_key(b@, key_b@, sfx, k2) && exists|j: int|
                    0 <= j < i + 1 && #[trigger] b.keys@[j]@ == stem(k2, sfx),
            |k2: Seq<char>| b@[stem(k2, sfx)],
        );
        let keep = !str_eq(b.keys[i].as_str(), key_b) && !str_eq(b.keys[i].as_str(), "tx_time");
        if keep {
            match entity_get(b, b.keys[i].as_str()) {
                Some(v) => {
                    let k2 = suffixed(b.keys[i].as_str(), entity_b);
                    acc.insert(k2, clone_types(v));
                    proof {
                        assert forall|k3: Seq<char>| #[trigger] new_map.contains_key(k3) implies acc@.contains_key(
                            k3,
                        ) && acc@[k3] == new_map[k3] by {
                            if stem(k3, sfx) == kv {
                                lemma_stem(k3, sfx);
                                assert(k3 == k2@);
                            } else {
                                let j = choose|j: int|
                                    0 <= j < i + 1 && #[trigger] b.keys@[j]@ == stem(k3, sfx);
                                assert(j < i);
                                assert(old_acc.contains_key(k3));
                            }
                        }
                        assert forall|k3: Seq<char>| #[trigger] acc@.contains_key(k3) implies new_map.contains_key(
                            k3,
                        ) by {
                            if k3 == k2@ {
                                assert(b.keys@[i as int]@ == stem(k3, sfx));
                            } else {
                                assert(old_acc.contains_key(k3));
                                let j = choose|j: int|
                                    0 <= j < i && #[trigger] b.keys@[j]@ == stem(k3, sfx);
                                assert(b.keys@[j]@ == stem(k3, sfx));
                            }
                        }
                        assert(acc@.dom() =~= new_map.dom());
                        assert forall|k3: Seq<char>| #[trigger] acc@.contains_key(k3) implies acc@[k3]
                            == new_map[k3] by {
                            assert(new_map.contains_key(k3));
                        }
                        assert(acc@ =~= new_map);
                    }
                },
                None => {
                    proof {
                        assert forall|k3: Seq<char>| #[trigger] new_map.contains_key(k3) implies old_acc.contains_key(
                            k3,
                        ) by {
                            if stem(k3, sfx) == kv {
                                assert(!b@.contains_key(kv));
                            } else {
                                let j = choose|j: int|
                                    0 <= j < i + 1 && #[trigger] b.keys@[j]@ == stem(k3, sfx);
                                assert(j < i);
                            }
                        }
                        assert forall|k3: Seq<char>| #[trigger] old_acc.contains_key(k3) implies new_map.contains_key(
                            k3,
                        ) by {
                            let j = choose|j: int|
                                0 <= j < i && #[trigger] b.keys@[j]@ == stem(k3, sfx);
                            assert(b.keys@[j]@ == stem(k3, sfx));
                        }
                        assert(acc@ =~= new_map);
                    }
                },
            }
        } else {
            proof {
                assert forall|k3: Seq<char>| #[trigger] new_map.contains_key(k3) implies old_acc.contains_key(k3) by {
                    if stem(k3, sfx) == kv {
                        assert(!carried(kv, key_b@));
                    } else {
                        let j = choose|j: int|
                            0 <= j < i + 1 && #[trigger] b.keys@[j]@ == stem(k3, sfx);
                        assert(j < i);
                    }
                }
                assert forall|k3: Seq<char>| #[trigger] old_acc.contains_key(k3) implies new_map.contains_key(
                            k3,
                        ) by {
                            let j = choose|j: int|
                                0 <= j < i && #[trigger] b.keys@[j]@ == stem(k3, sfx);
                            assert(b.keys@[j]@ == stem(k3, sfx));
                        }
            }
        }
        assert(acc@ =~= new_map);
        i = i + 1;
    }
    proof {
        assert forall|k2: Seq<char>| renamed_key(b@, key_b@, sfx, k2) implies exists|j: int|
            0 <= j < b.keys.len() && #[trigger] b.keys@[j]@ == stem(k2, sfx) by {
            lemma_entity_map_keys(strings_view(b.keys@), b.values@, stem(k2, sfx));
            let m = choose|m: int|
                0 <= m < strings_view(b.keys@).len() && strings_view(b.keys@)[m] == stem(k2, sfx);
            assert(b.keys@[m]@ == stem(k2, sfx));
        }
        assert(acc@ =~= renamed(b@, key_b@, entity_b@));
    }
    acc
}

fn matches_exec(a: &Entity, key_a: &str, bs: &Vec<Entity>, key_b: &str, entity_b: &str, out: &mut Vec<
    Entity,
>)
    ensures
        entities_view(final(out)@) == entities_view(old(out)@) + matches_of(
            a@,
            key_a@,
            entities_view(bs@),
            key_b@,
            entity_b@,
        ),
{
    let ghost start = entities_view(out@);
    let ghost bv = entities_view(bs@);
    let va = entity_get(a, key_a);
    let mut i: usize = 0;
    while i < bs.len()
        invariant
            i <= bs.len(),
            bv == entities_view(bs@),
            va is Some <==> a@.contains_key(key_a@),
            va matches Some(x) ==> x@ == a@[key_a@],
            entities_view(out@) == start + matches_of(
                a@,
                key_a@,
                bv.subrange(0, i as int),
                key_b@,
                entity_b@,
            ),
        decreases bs.len() - i,
    {
        let ghost pre = bv.subrange(0, i + 1);
        assert(pre.drop_last() =~= bv.subrange(0, i as int));
        assert(pre.last() == bs@[i as int]@);
        let b = &bs[i];
        let found = match (va, entity_get(b, key_b)) {
            (Some(x), Some(y)) => types_eq(y, x),
            _ => false,
        };
        if found {
            let r = renamed_state(b, key_b, entity_b);
            let j = merge_entities(&r, a);
            let ghost before = out@;
            let ghost jv = j@;
            out.push(j);
            assert(entities_view(out@) =~= entities_view(before).push(jv));
            assert(jv == joined(a@, b@, key_b@, entity_b@));
            assert(entities_view(out@) =~= start + matches_of(
                a@,
                key_a@,
                pre,
                key_b@,
                entity_b@,
            ));
        }
        i = i + 1;
    }
    assert(bv.subrange(0, bs.len() as int) =~= bv);
}

/// `JOIN`: for each state of `xs` in order, each state of `bs` in order
/// that holds under `key_b` the value it holds under `key_a`, joined (see
/// `joined`).
pub fn join(xs: &Vec<Entity>, key_a: &str, bs: &Vec<Entity>, key_b: &str, entity_b: &str) -> (r: Vec<
    Entity,
>)
    ensures
        entities_view(r@) == join_states(
            entities_view(xs@),
            key_a@,
            entities_view(bs@),
            key_b@,
            entity_b@,
        ),
{
    let ghost xv = entities_view(xs@);
    let mut out: Vec<Entity> = Vec::new();
    let mut i: usize = 0;
    assert(entities_view(out@) =~= Seq::<StateV>::empty());
    while i < xs.len()
        invariant
            i <= xs.len(),
            xv == entities_view(xs@),
            entities_view(out@) == join_states(
                xv.subrange(0, i as int),
                key_a@,
                entities_view(bs@),
                key_b@,
                entity_b@,
            ),
        decreases xs.len() - i,
    {
        let ghost pre = xv.subrange(0, i + 1);
        assert(pre.drop_last() =~= xv.subrange(0, i as int));
        assert(pre.last() == xs@[i as int]@);
        matches_exec(&xs[i], key_a, bs, key_b, entity_b, &mut out);
        i = i + 1;
    }
    assert(xv.subrange(0, xs.len() as int) =~= xv);
    out
}

/// The states, in order, of an answer that a join can take: all registries,
/// or sorted ones, or those of `IDS IN` that have a state; `None` for groups.
pub open spec fn result_states(r: QueryResultV) -> Option<Seq<StateV>> {
    match r {
        QueryResultV::All(s) => Some(s.map_values(|p: (u128, StateV)| p.1)),
        QueryResultV::Order(s) => Some(s.map_values(|p: (u128, StateV)| p.1)),
        QueryResultV::OptionSelect(s) => Some(
            crate::options::somes(s).map_values(|p: (u128, StateV)| p.1),
        ),
        _ => None,
    }
}

fn plain_states(s: &Vec<(u128, Entity)>) -> (r: Vec<Entity>)
    ensures
        entities_view(r@) == crate::clauses::states_view(s@).map_values(|p: (u128, StateV)| p.1),
{
    let ghost target = crate::clauses::states_view(s@).map_values(|p: (u128, StateV)| p.1);
    let mut r: Vec<Entity> = Vec::new();
    let mut i: usize = 0;
    while i < s.len()
        invariant
            i <= s.len(),
            target == crate::clauses::states_view(s@).map_values(|p: (u128, StateV)| p.1),
            entities_view(r@) == target.subrange(0, i as int),
        decreases s.len() - i,
    {
        let ghost before = r@;
        let e = clone_entity(&s[i].1);
        let ghost ev = e@;
        r.push(e);
        assert(entities_view(r@) =~= entities_view(before).push(ev));
        assert(entities_view(r@) =~= target.subrange(0, i + 1));
        i = i + 1;
    }
    assert(target.subrange(0, s.len() as int) =~= target);
    r
}

/// The states of an answer, as `result_states` says.
pub fn states_of_result(r: &QueryResult) -> (s: Option<Vec<Entity>>)
    ensures
        match (s, result_states(r@)) {
            (Some(v), Some(t)) => entities_view(v@) == t,
            (None, None) => true,
            _ => false,
        },
{
    match r {
        QueryResult::All(v) => Some(plain_states(v)),
        QueryResult::Order(v) => Some(plain_states(v)),
        QueryResult::OptionSelect(v) => {
            let present = crate::options::some_states(v);
            Some(plain_states(&present))
        },
        _ => None,
    }
}

/// `JOIN` of two answers (see `join`); an answer in groups is
/// `QueryFormat("Join query not supported")`.
pub fn join_results(
    a: &QueryResult,
    key_a: &str,
    b: &QueryResult,
    key_b: &str,
    entity_b: &str,
) -> (r: Result<Vec<Entity>, Error>)
    ensures
        match (result_states(a@), result_states(b@)) {
            (Some(xs), Some(bs)) => r matches Ok(v) && entities_view(v@) == join_states(
                xs,
                key_a@,
                bs,
                key_b@,
                entity_b@,
            ),
            _ => r matches Err(Error::QueryFormat(m)) && m@ == "Join query not supported"@,
        },
{
    let xs = states_of_result(a);
    let bs = states_of_result(b);
    match (xs, bs) {
        (Some(xs), Some(bs)) => Ok(join(&xs, key_a, &bs, key_b, entity_b)),
        _ => Err(Error::QueryFormat(String::from_str("Join query not supported"))),
    }
}

/// The answer of `SELECT ... IDS IN` is an operand of `JOIN` just as a
/// plain `SELECT` is: its states are those of the identifiers that have
/// one, each of them there, and nothing else; an `IDS IN` answer in which
/// every identifier has a state gives the same states as the `SELECT` of
/// those registries; a sorted answer gives its states in order.
pub proof fn law_join_operands(s: crate::options::OptStatesV, x: crate::clauses::StatesV)
    ensures
        result_states(QueryResultV::OptionSelect(s)) is Some,
        forall|j: int| 0 <= j < s.len() && (#[trigger] s[j]).1 is Some ==> result_states(
            QueryResultV::OptionSelect(s),
        )->0.contains(s[j].1->0),
        forall|i: int| 0 <= i < result_states(QueryResultV::OptionSelect(s))->0.len() ==> exists|j: int|
            0 <= j < s.len() && (#[trigger] s[j]).1 == Some(
                #[trigger] result_states(QueryResultV::OptionSelect(s))->0[i],
            ),
        result_states(QueryResultV::OptionSelect(crate::options::lift(x))) == result_states(
            QueryResultV::All(x),
        ),
        result_states(QueryResultV::All(x)) is Some,
        result_states(QueryResultV::All(x))->0.len() == x.len(),
        forall|i: int| 0 <= i < x.len() ==> result_states(QueryResultV::All(x))->0[i] == (#[trigger] x[i]).1,
        result_states(QueryResultV::Order(x)) == result_states(QueryResultV::All(x)),
{
    crate::controllers::lemma_somes_members(s);
    crate::options::lemma_somes_lift(x);
    let sm = crate::options::somes(s);
    let t = result_states(QueryResultV::OptionSelect(s))->0;
    assert(t == sm.map_values(|p: (u128, StateV)| p.1));
    assert forall|j: int| 0 <= j < s.len() && (#[trigger] s[j]).1 is Some implies t.contains(s[j].1->0) by {
        let i = choose|i: int| 0 <= i < sm.len() && sm[i] == (s[j].0, s[j].1->0);
        assert(t[i] == sm[i].1);
    }
    assert forall|i: int| 0 <= i < t.len() implies exists|j: int|
        0 <= j < s.len() && (#[trigger] s[j]).1 == Some(#[trigger] t[i]) by {
        assert(t[i] == sm[i].1);
        assert(s.contains((sm[i].0, Some(sm[i].1))));
    }
}

/// `st` is the joined state of some state of `xs` with some state of `bs`
/// that holds, under `key_b`, the value the first holds under `key_a`.
pub open spec fn pair_of(
    xs: Seq<StateV>,
    key_a: Seq<char>,
    bs: Seq<StateV>,
    key_b: Seq<char>,
    entity_b: Seq<char>,
    st: StateV,
) -> bool {
    exists|i: int, j: int|
        #![trigger xs[i], bs[j]]
        0 <= i < xs.len() && 0 <= j < bs.len() && xs[i].contains_key(key_a) && bs[j].contains_key(key_b)
            && bs[j][key_b] == xs[i][key_a] && st == joined(xs[i], bs[j], key_b, entity_b)
}

/// `st` is the state `a` joined with some state of `bs` that holds, under
/// `key_b`, the value `a` holds under `key_a`.
pub open spec fn match_of(
    a: StateV,
    key_a: Seq<char>,
    bs: Seq<StateV>,
    key_b: Seq<char>,
    entity_b: Seq<char>,
    st: StateV,
) -> bool {
    exists|j: int|
        0 <= j < bs.len() && a.contains_key(key_a) && (#[trigger] bs[j]).contains_key(key_b) && bs[j][key_b]
            == a[key_a] && st == joined(a, bs[j], key_b, entity_b)
}

/// A joined state holds each key of the first state with its value, and
/// each key of the second other than its join key and `tx_time`, suffixed
/// with `:` and the second entity's name, with the second state's value
/// (unless the first state holds that suffixed key).
pub proof fn law_joined_keys(a: StateV, b: StateV, key_b: Seq<char>, entity_b: Seq<char>)
    ensures
        forall|k: Seq<char>| #[trigger] a.contains_key(k) ==> joined(a, b, key_b, entity_b).contains_key(k)
            && joined(a, b, key_b, entity_b)[k] == a[k],
        forall|k: Seq<char>|
            #[trigger] b.contains_key(k) && k != key_b && k != "tx_time"@ && !a.contains_key(
                k + ":"@ + entity_b,
            ) ==> joined(a, b, key_b, entity_b).contains_key(k + ":"@ + entity_b) && joined(
                a,
                b,
                key_b,
                entity_b,
            )[k + ":"@ + entity_b] == b[k],
{
    assert forall|k: Seq<char>|
        #[trigger] b.contains_key(k) && k != key_b && k != "tx_time"@ && !a.contains_key(k + ":"@ + entity_b)
            implies joined(a, b, key_b, entity_b).contains_key(k + ":"@ + entity_b) && joined(
            a,
            b,
            key_b,
            entity_b,
        )[k + ":"@ + entity_b] == b[k] by {
        let sfx = suffix(entity_b);
        let k2 = k + ":"@ + entity_b;
        reveal_strlit(":");
        assert(":"@ =~= seq![':']);
        assert(k2 =~= k + sfx);
        assert(k2.subrange(k2.len() - sfx.len(), k2.len() as int) =~= sfx);
        assert(stem(k2, sfx) =~= k);
        assert(renamed_key(b, key_b, sfx, k2));
    }
}

/// The join pairs each state of the first answer with each state of the
/// second that holds, under the second join key, the value the first holds
/// under the first join key: every such pair gives its joined state, and
/// every state of the join is one such pair's.
pub proof fn law_join_pairs(
    xs: Seq<StateV>,
    key_a: Seq<char>,
    bs: Seq<StateV>,
    key_b: Seq<char>,
    entity_b: Seq<char>,
)
    ensures
        forall|i: int, j: int|
            0 <= i < xs.len() && 0 <= j < bs.len() && (#[trigger] xs[i]).contains_key(key_a)
                && (#[trigger] bs[j]).contains_key(key_b) && bs[j][key_b] == xs[i][key_a]
                ==> join_states(xs, key_a, bs, key_b, entity_b).contains(joined(xs[i], bs[j], key_b, entity_b)),
        forall|r: int| 0 <= r < join_states(xs, key_a, bs, key_b, entity_b).len() ==> pair_of(
            xs,
            key_a,
            bs,
            key_b,
            entity_b,
            #[trigger] join_states(xs, key_a, bs, key_b, entity_b)[r],
        ),
    decreases xs.len(),
{
    if xs.len() > 0 {
        let pre = xs.drop_last();
        law_join_pairs(pre, key_a, bs, key_b, entity_b);
        lemma_matches_pairs(xs.last(), key_a, bs, key_b, entity_b);
        let jp = join_states(pre, key_a, bs, key_b, entity_b);
        let m = matches_of(xs.last(), key_a, bs, key_b, entity_b);
        let js = join_states(xs, key_a, bs, key_b, entity_b);
        assert(js == jp + m);
        assert forall|i: int, j: int|
            0 <= i < xs.len() && 0 <= j < bs.len() && (#[trigger] xs[i]).contains_key(key_a)
                && (#[trigger] bs[j]).contains_key(key_b) && bs[j][key_b] == xs[i][key_a]
                implies js.contains(joined(xs[i], bs[j], key_b, entity_b)) by {
            if i < pre.len() {
                assert(pre[i] == xs[i]);
                let q = choose|q: int| 0 <= q < jp.len() && jp[q] == joined(pre[i], bs[j], key_b, entity_b);
                assert(js[q] == jp[q]);
            } else {
                assert(xs[i] == xs.last());
                let q = choose|q: int| 0 <= q < m.len() && m[q] == joined(xs.last(), bs[j], key_b, entity_b);
                assert(js[jp.len() + q] == m[q]);
            }
        }
        assert forall|r: int| 0 <= r < js.len() implies pair_of(xs, key_a, bs, key_b, entity_b, #[trigger] js[r]) by {
            if r < jp.len() {
                assert(js[r] == jp[r]);
                assert(pair_of(pre, key_a, bs, key_b, entity_b, jp[r]));
                let (i, j) = choose|i: int, j: int|
                    #![trigger pre[i], bs[j]]
                    0 <= i < pre.len() && 0 <= j < bs.len() && pre[i].contains_key(key_a) && bs[j].contains_key(
                        key_b,
                    ) && bs[j][key_b] == pre[i][key_a] && jp[r] == joined(pre[i], bs[j], key_b, entity_b);
                assert(xs[i] == pre[i]);
                let x = bs[j];
            } else {
                let q = r - jp.len();
                assert(js[r] == m[q]);
                assert(match_of(xs.last(), key_a, bs, key_b, entity_b, m[q]));
                let j = choose|j: int|
                    0 <= j < bs.len() && xs.last().contains_key(key_a) && (#[trigger] bs[j]).contains_key(key_b)
                        && bs[j][key_b] == xs.last()[key_a] && m[q] == joined(xs.last(), bs[j], key_b, entity_b);
                assert(xs[xs.len() - 1] == xs.last());
                let x = xs[xs.len() - 1];
            }
        }
    }
}

proof fn lemma_matches_pairs(a: StateV, key_a: Seq<char>, bs: Seq<StateV>, key_b: Seq<char>, entity_b: Seq<char>)
    ensures
        forall|j: int|
            0 <= j < bs.len() && a.contains_key(key_a) && (#[trigger] bs[j]).contains_key(key_b) && bs[j][key_b]
                == a[key_a] ==> matches_of(a, key_a, bs, key_b, entity_b).contains(joined(a, bs[j], key_b, entity_b)),
        forall|q: int| 0 <= q < matches_of(a, key_a, bs, key_b, entity_b).len() ==> match_of(
            a,
            key_a,
            bs,
            key_b,
            entity_b,
            #[trigger] matches_of(a, key_a, bs, key_b, entity_b)[q],
        ),
    decreases bs.len(),
{
    if bs.len() > 0 {
        let pre = bs.drop_last();
        lemma_matches_pairs(a, key_a, pre, key_b, entity_b);
        let mp = matches_of(a, key_a, pre, key_b, entity_b);
        let m = matches_of(a, key_a, bs, key_b, entity_b);
        assert forall|j: int|
            0 <= j < bs.len() && a.contains_key(key_a) && (#[trigger] bs[j]).contains_key(key_b) && bs[j][key_b]
                == a[key_a] implies m.contains(joined(a, bs[j], key_b, entity_b)) by {
            if j < pre.len() {
                assert(pre[j] == bs[j]);
                let q = choose|q: int| 0 <= q < mp.len() && mp[q] == joined(a, pre[j], key_b, entity_b);
                assert(m[q] == mp[q]);
            } else {
                assert(bs[j] == bs.last());
                assert(m[m.len() - 1] == joined(a, bs[j], key_b, entity_b));
            }
        }
        assert forall|q: int| 0 <= q < m.len() implies match_of(a, key_a, bs, key_b, entity_b, #[trigger] m[q]) by {
            if q < mp.len() {
                assert(m[q] == mp[q]);
                assert(match_of(a, key_a, pre, key_b, entity_b, mp[q]));
                let j = choose|j: int|
                    0 <= j < pre.len() && a.contains_key(key_a) && (#[trigger] pre[j]).contains_key(key_b)
                        && pre[j][key_b] == a[key_a] && mp[q] == joined(a, pre[j], key_b, entity_b);
                assert(bs[j] == pre[j]);
            } else {
                assert(bs[bs.len() - 1] == bs.last());
            }
        }
    }
}

} // verus!
