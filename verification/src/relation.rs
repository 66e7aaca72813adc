//! `INTERSECT`, `DIFFERENCE` and `UNION` of the states of two registries.

use vstd::prelude::*;
use crate::ast::{Relation, RelationType};
use crate::compare::{entity_get, lemma_entity_map_keys, same_value, types_same};
use crate::types::{Entity, TypesV, clone_types, strings_view};

verus! {

/// The state of a registry: its keys and their values.
pub type StateV = Map<Seq<char>, TypesV>;

/// `INTERSECT KEY`: the keys of `f` that `s` also has, with the values of `f`.
pub open spec fn intersect_key(f: StateV, s: StateV) -> StateV {
    Map::new(|k: Seq<char>| f.contains_key(k) && s.contains_key(k), |k: Seq<char>| f[k])
}

/// `INTERSECT KEY-VALUE`: the keys that both have with the same value (see
/// `same_value`), with the values of `s`.
pub open spec fn intersect_key_value(f: StateV, s: StateV) -> StateV {
    Map::new(
        |k: Seq<char>| f.contains_key(k) && s.contains_key(k) && same_value(f[k], s[k]),
        |k: Seq<char>| s[k],
    )
}

/// `DIFFERENCE KEY`: the keys of `f` that `s` does not have.
pub open spec fn difference_key(f: StateV, s: StateV) -> StateV {
    Map::new(|k: Seq<char>| f.contains_key(k) && !s.contains_key(k), |k: Seq<char>| f[k])
}

/// `DIFFERENCE KEY-VALUE`: the keys of `f` that `s` does not hold with the
/// same value.
pub open spec fn difference_key_value(f: StateV, s: StateV) -> StateV {
    Map::new(
        |k: Seq<char>| f.contains_key(k) && !(s.contains_key(k) && same_value(f[k], s[k])),
        |k: Seq<char>| f[k],
    )
}

/// `UNION KEY`: `f`, and the keys of `s` that `f` does not have.
pub open spec fn union_key(f: StateV, s: StateV) -> StateV {
    Map::new(
        |k: Seq<char>| f.contains_key(k) || s.contains_key(k),
        |k: Seq<char>| if f.contains_key(k) {
            f[k]
        } else {
            s[k]
        },
    )
}

/// One key of `s` added to the `UNION KEY-VALUE` of `f` and `s`: a key that
/// `f` lacks is added; a key that `f` holds with another value is added as
/// `key:duplicated`.
pub open spec fn union_step(f: StateV, s: StateV, acc: StateV, k: Seq<char>) -> StateV {
    if !s.contains_key(k) {
        acc
    } else if f.contains_key(k) && !same_value(f[k], s[k]) {
        acc.insert(k + ":duplicated"@, s[k])
    } else if !f.contains_key(k) {
        acc.insert(k, s[k])
    } else {
        acc
    }
}

/// `UNION KEY-VALUE`: `f`, then each key of `s`, in the order given, added by
/// `union_step`.
pub open spec fn union_key_value(f: StateV, s: StateV, keys: Seq<Seq<char>>) -> StateV
    decreases keys.len(),
{
    if keys.len() == 0 {
        f
    } else {
        union_step(f, s, union_key_value(f, s, keys.drop_last()), keys.last())
    }
}

/// Which keys of the first state a filtered copy keeps.
pub enum Keep {
    InBoth,
    SameValue,
    NotIn,
    NotSame,
}

pub open spec fn keeps(rule: Keep, f: StateV, s: StateV, k: Seq<char>) -> bool {
    match rule {
        Keep::InBoth => s.contains_key(k),
        Keep::SameValue => s.contains_key(k) && same_value(s[k], f[k]),
        Keep::NotIn => !s.contains_key(k),
        Keep::NotSame => !(s.contains_key(k) && same_value(f[k], s[k])),
    }
}

pub open spec fn kept(rule: Keep, f: StateV, s: StateV) -> StateV {
    Map::new(|k: Seq<char>| f.contains_key(k) && keeps(rule, f, s, k), |k: Seq<char>| f[k])
}

/// The keys of `f` that `rule` keeps, with their values.
fn keep_keys(f: &Entity, s: &Entity, rule: Keep) -> (r: Entity)
    ensures
        r.wf(),
        r@ == kept(rule, f@, s@),
{
    let mut acc = Entity::new();
    let mut i: usize = 0;
    while i < f.keys.len()
        invariant
            i <= f.keys.len(),
            acc.wf(),
            acc@ == Map::new(
                |k: Seq<char>|
                    (exists|j: int| 0 <= j < i && #[trigger] f.keys@[j]@ == k) && f@.contains_key(k)
                        && keeps(rule, f@, s@, k),
                |k: Seq<char>| f@[k],
            ),
        decreases f.keys.len() - i,
    {
        let k = &f.keys[i];
        let ghost kv = k@;
        match entity_get(f, k.as_str()) {
            Some(fv) => {
                let other = entity_get(s, k.as_str());
                let keep = match rule {
                    Keep::InBoth => other.is_some(),
                    Keep::SameValue => match other {
                        Some(sv) => types_same(sv, fv),
                        None => false,
                    },
                    Keep::NotIn => other.is_none(),
                    Keep::NotSame => match other {
                        Some(sv) => !types_same(fv, sv),
                        None => true,
                    },
                };
                if keep {
                    let v = clone_types(fv);
                    acc.insert(k.clone(), v);
                }
            },
            None => {},
        }
        proof {
            assert(f.keys@[i as int]@ == kv);
            assert(acc@ =~= Map::new(
                |k: Seq<char>|
                    (exists|j: int| 0 <= j < i + 1 && #[trigger] f.keys@[j]@ == k)
                        && f@.contains_key(k) && keeps(rule, f@, s@, k),
                |k: Seq<char>| f@[k],
            ));
        }
        i = i + 1;
    }
    proof {
        assert forall|k: Seq<char>| #[trigger] f@.contains_key(k) implies exists|j: int|
            0 <= j < f.keys.len() && #[trigger] f.keys@[j]@ == k by {
            lemma_entity_map_keys(strings_view(f.keys@), f.values@, k);
            let m = choose|m: int|
                0 <= m < strings_view(f.keys@).len() && strings_view(f.keys@)[m] == k;
            assert(f.keys@[m]@ == k);
        }
        assert(acc@ =~= kept(rule, f@, s@));
    }
    acc
}

/// `INTERSECT` of the states `f` and `s`.
pub fn intersect(f: &Entity, s: &Entity, relation_type: RelationType) -> (r: Entity)
    ensures
        r.wf(),
        relation_type == RelationType::Key ==> r@ == intersect_key(f@, s@),
        relation_type == RelationType::KeyValue ==> r@ == intersect_key_value(f@, s@),
{
    match relation_type {
        RelationType::Key => {
            let r = keep_keys(f, s, Keep::InBoth);
            assert(r@ =~= intersect_key(f@, s@));
            r
        },
        RelationType::KeyValue => {
            let r = keep_keys(s, f, Keep::SameValue);
            assert(r@ =~= intersect_key_value(f@, s@));
            r
        },
    }
}

/// `DIFFERENCE` of the states `f` and `s`.
pub fn difference(f: &Entity, s: &Entity, relation_type: RelationType) -> (r: Entity)
    ensures
        r.wf(),
        relation_type == RelationType::Key ==> r@ == difference_key(f@, s@),
        relation_type == RelationType::KeyValue ==> r@ == difference_key_value(f@, s@),
{
    match relation_type {
        RelationType::Key => {
            let r = keep_keys(f, s, Keep::NotIn);
            assert(r@ =~= difference_key(f@, s@));
            r
        },
        RelationType::KeyValue => {
            let r = keep_keys(f, s, Keep::NotSame);
            assert(r@ =~= difference_key_value(f@, s@));
            r
        },
    }
}

/// Appends `:duplicated` to a key.
fn duplicated_key(k: &String) -> (r: String)
    ensures
        r@ == k@ + ":duplicated"@,
{
    let mut v = crate::text::chars_of(k.as_str());
    crate::text::append_str(&mut v, ":duplicated");
    crate::text::string_of(&v)
}

/// `UNION` of the states `f` and `s`.
pub fn union(f: &Entity, s: &Entity, relation_type: RelationType) -> (r: Entity)
    ensures
        r.wf(),
        relation_type == RelationType::Key ==> r@ == union_key(f@, s@),
        relation_type == RelationType::KeyValue ==> r@ == union_key_value(
            f@,
            s@,
            strings_view(s.keys@),
        ),
{
    let mut acc = keep_keys(f, f, Keep::InBoth);
    assert(acc@ =~= f@);
    let mut i: usize = 0;
    while i < s.keys.len()
        invariant
            i <= s.keys.len(),
            acc.wf(),
            relation_type == RelationType::Key ==> acc@ == Map::new(
                |k: Seq<char>|
                    f@.contains_key(k) || ((exists|j: int| 0 <= j < i && #[trigger] s.keys@[j]@ == k)
                        && s@.contains_key(k)),
                |k: Seq<char>| if f@.contains_key(k) {
                    f@[k]
                } else {
                    s@[k]
                },
            ),
            relation_type == RelationType::KeyValue ==> acc@ == union_key_value(
                f@,
                s@,
                strings_view(s.keys@).subrange(0, i as int),
            ),
        decreases s.keys.len() - i,
    {
        let k = &s.keys[i];
        let ghost kv = k@;
        let ghost before = acc@;
        match entity_get(s, k.as_str()) {
            Some(sv) => {
                let fo = entity_get(f, k.as_str());
                match relation_type {
                    RelationType::Key => {
                        if fo.is_none() {
                            acc.insert(k.clone(), clone_types(sv));
                        }
                    },
                    RelationType::KeyValue => {
                        match fo {
                            Some(fv) => {
                                if !types_same(fv, sv) {
                                    acc.insert(duplicated_key(k), clone_types(sv));
                                }
                            },
                            None => {
                                acc.insert(k.clone(), clone_types(sv));
                            },
                        }
                    },
                }
            },
            None => {},
        }
        proof {
            assert(s.keys@[i as int]@ == kv);
            let ks = strings_view(s.keys@);
            assert(ks.subrange(0, i + 1).drop_last() =~= ks.subrange(0, i as int));
            assert(ks.subrange(0, i + 1).last() == kv);
            if relation_type == RelationType::Key {
                assert(acc@ =~= Map::new(
                    |k: Seq<char>|
                        f@.contains_key(k) || ((exists|j: int|
                            0 <= j < i + 1 && #[trigger] s.keys@[j]@ == k) && s@.contains_key(k)),
                    |k: Seq<char>| if f@.contains_key(k) {
                        f@[k]
                    } else {
                        s@[k]
                    },
                ));
            } else {
                assert(acc@ =~= union_key_value(f@, s@, ks.subrange(0, i + 1)));
            }
        }
        i = i + 1;
    }
    proof {
        let ks = strings_view(s.keys@);
        assert(ks.subrange(0, s.keys.len() as int) =~= ks);
        if relation_type == RelationType::Key {
            assert forall|k: Seq<char>| #[trigger] s@.contains_key(k) implies exists|j: int|
                0 <= j < s.keys.len() && #[trigger] s.keys@[j]@ == k by {
                lemma_entity_map_keys(strings_view(s.keys@), s.values@, k);
                let m = choose|m: int|
                    0 <= m < strings_view(s.keys@).len() && strings_view(s.keys@)[m] == k;
                assert(s.keys@[m]@ == k);
            }
            assert(acc@ =~= union_key(f@, s@));
        }
    }
    acc
}

/// The relation `relation` of the states `f` and `s`.
pub fn relate(f: &Entity, s: &Entity, relation: Relation, relation_type: RelationType) -> (r:
    Entity)
    ensures
        r.wf(),
        relation == Relation::Intersect && relation_type == RelationType::Key ==> r@
            == intersect_key(f@, s@),
        relation == Relation::Intersect && relation_type == RelationType::KeyValue ==> r@
            == intersect_key_value(f@, s@),
        relation == Relation::Difference && relation_type == RelationType::Key ==> r@
            == difference_key(f@, s@),
        relation == Relation::Difference && relation_type == RelationType::KeyValue ==> r@
            == difference_key_value(f@, s@),
        relation == Relation::Union && relation_type == RelationType::Key ==> r@ == union_key(
            f@,
            s@,
        ),
        relation == Relation::Union && relation_type == RelationType::KeyValue ==> r@
            == union_key_value(f@, s@, strings_view(s.keys@)),
{
    match relation {
        Relation::Intersect => intersect(f, s, relation_type),
        Relation::Difference => difference(f, s, relation_type),
        Relation::Union => union(f, s, relation_type),
    }
}

/// The intersection by keys and the difference by keys split the first state:
/// together they hold each of its keys once, with its value.
pub proof fn law_intersect_difference_split(f: StateV, s: StateV)
    ensures
        intersect_key(f, s).dom().disjoint(difference_key(f, s).dom()),
        intersect_key(f, s).union_prefer_right(difference_key(f, s)) == f,
{
    assert(intersect_key(f, s).union_prefer_right(difference_key(f, s)) =~= f);
}

/// A state intersected with itself by keys is that state, its difference
/// with itself by keys is empty, and its union with itself by keys is that
/// state.
pub proof fn law_self_relations(f: StateV)
    ensures
        intersect_key(f, f) == f,
        difference_key(f, f) == Map::<Seq<char>, TypesV>::empty(),
        union_key(f, f) == f,
{
    assert(intersect_key(f, f) =~= f);
    assert(difference_key(f, f) =~= Map::<Seq<char>, TypesV>::empty());
    assert(union_key(f, f) =~= f);
}

/// A state each of whose values is the same value as itself (one that holds
/// no NaN) intersected with itself by keys and values is that state, and its
/// difference with itself by keys and values is empty.
pub proof fn law_self_relations_key_value(f: StateV)
    requires
        forall|k: Seq<char>| #[trigger] f.contains_key(k) ==> same_value(f[k], f[k]),
    ensures
        intersect_key_value(f, f) == f,
        difference_key_value(f, f) == Map::<Seq<char>, TypesV>::empty(),
{
    assert(intersect_key_value(f, f) =~= f);
    assert(difference_key_value(f, f) =~= Map::<Seq<char>, TypesV>::empty());
}

/// The union by keys keeps every key and value of the first state, and has
/// every key of the second.
pub proof fn law_union_key_extends(f: StateV, s: StateV)
    ensures
        f.submap_of(union_key(f, s)),
        forall|k: Seq<char>| #[trigger] s.contains_key(k) ==> union_key(f, s).contains_key(k),
{
}

/// The intersection by keys and values is contained, key and value, in the
/// second state and in its intersection by keys with the first; each of its
/// keys is one of the first state, with the same value there.
pub proof fn law_intersect_key_value_within(f: StateV, s: StateV)
    ensures
        intersect_key_value(f, s).submap_of(s),
        intersect_key_value(f, s).submap_of(intersect_key(s, f)),
        forall|k: Seq<char>| #[trigger] intersect_key_value(f, s).contains_key(k) ==> f.contains_key(k)
            && same_value(f[k], intersect_key_value(f, s)[k]),
{
}

} // verus!
