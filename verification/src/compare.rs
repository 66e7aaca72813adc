//! Equality and order of values, and lookups in entities.

use vstd::prelude::*;
use crate::types::{
    Entity, Types, TypesV, entity_map, lemma_seq_view, lemma_seq_view_eq, strings_view,
    types_seq_view, types_view,
};
use crate::text::str_eq;
use crate::numbers::{as_f64_value, rounded_to_f64};

verus! {

/// The outcome of comparing two values.
#[derive(Debug, PartialEq, Eq, Structural, Clone, Copy)]
pub enum Comparison {
    Less,
    Equal,
    Greater,
}

pub open spec fn int_order(a: int, b: int) -> Comparison {
    if a < b {
        Comparison::Less
    } else if a == b {
        Comparison::Equal
    } else {
        Comparison::Greater
    }
}

/// Lexicographic order of character sequences by code point, which is the
/// order of `str` (UTF-8 bytes compare in code point order).
pub open spec fn seq_order(x: Seq<char>, y: Seq<char>) -> Comparison
    decreases x.len(),
{
    if x.len() == 0 {
        if y.len() == 0 {
            Comparison::Equal
        } else {
            Comparison::Less
        }
    } else if y.len() == 0 {
        Comparison::Greater
    } else if (x[0] as u32) < (y[0] as u32) {
        Comparison::Less
    } else if (x[0] as u32) > (y[0] as u32) {
        Comparison::Greater
    } else {
        seq_order(x.drop_first(), y.drop_first())
    }
}

/// How two numbers of which at least one is a floating-point number compare:
/// `Greater` where the first is above the second, else `Less` (never
/// `Equal`), as `>` on `f64` decides it; an integer is first rounded to a
/// float (see `as_f64_value`) and compared with a float by the float's floor
/// and fraction. A float whose comparison is not known (NaN) is above
/// nothing, so such a comparison is `Less`.
pub open spec fn float_order(a: TypesV, b: TypesV) -> Option<Comparison> {
    match (a, b) {
        (TypesV::Float(_, p), TypesV::Float(_, q)) => Some(
            match (p, q) {
                (Some(p), Some(q)) => if p.order > q.order {
                    Comparison::Greater
                } else {
                    Comparison::Less
                },
                _ => Comparison::Less,
            },
        ),
        (TypesV::Integer(x), TypesV::Float(_, q)) => Some(
            match q {
                Some(q) => if as_f64_value(x) > q.floor {
                    Comparison::Greater
                } else {
                    Comparison::Less
                },
                None => Comparison::Less,
            },
        ),
        (TypesV::Float(_, p), TypesV::Integer(y)) => Some(
            match p {
                Some(p) => if p.floor > as_f64_value(y) || (p.floor == as_f64_value(y)
                    && p.fraction) {
                    Comparison::Greater
                } else {
                    Comparison::Less
                },
                None => Comparison::Less,
            },
        ),
        _ => None,
    }
}

/// The order of values: integers, characters, strings, precise numbers,
/// identifiers and booleans compare by value, vectors by length; numbers that
/// involve a `Float` as `float_order` says; values of other different kinds
/// are not ordered.
pub open spec fn types_order(a: TypesV, b: TypesV) -> Option<Comparison> {
    match (a, b) {
        (TypesV::Integer(x), TypesV::Integer(y)) => Some(int_order(x, y)),
        (TypesV::Float(_, _), _) | (_, TypesV::Float(_, _)) => float_order(a, b),
        (TypesV::Char(x), TypesV::Char(y)) => Some(int_order(x as int, y as int)),
        (TypesV::String(x), TypesV::String(y)) => Some(seq_order(x, y)),
        (TypesV::Precise(x), TypesV::Precise(y)) => Some(seq_order(x, y)),
        (TypesV::Uuid(x), TypesV::Uuid(y)) => Some(int_order(x as int, y as int)),
        (TypesV::Boolean(x), TypesV::Boolean(y)) => Some(
            int_order(if x { 1 } else { 0 }, if y { 1 } else { 0 }),
        ),
        (TypesV::Vector(x), TypesV::Vector(y)) => Some(int_order(x.len() as int, y.len() as int)),
        _ => None,
    }
}

pub open spec fn reversed(c: Comparison) -> Comparison {
    match c {
        Comparison::Less => Comparison::Greater,
        Comparison::Equal => Comparison::Equal,
        Comparison::Greater => Comparison::Less,
    }
}

proof fn lemma_seq_order(x: Seq<char>, y: Seq<char>)
    ensures
        seq_order(x, x) == Comparison::Equal,
        seq_order(y, x) == reversed(seq_order(x, y)),
    decreases x.len(),
{
    if x.len() > 0 {
        lemma_seq_order(x.drop_first(), x.drop_first());
        if y.len() > 0 {
            lemma_seq_order(x.drop_first(), y.drop_first());
        }
    }
}

/// Values of one kind other than `Float` are ordered with themselves as
/// equal, and comparing them the other way round reverses the outcome.
pub proof fn law_order_reflexive_and_reversible(x: TypesV, y: TypesV)
    requires
        !(x is Float),
        !(y is Float),
        types_order(x, y) is Some,
    ensures
        types_order(x, x) == Some(Comparison::Equal),
        types_order(y, x) == Some(reversed(types_order(x, y)->0)),
{
    match (x, y) {
        (TypesV::String(a), TypesV::String(b)) => lemma_seq_order(a, b),
        (TypesV::Precise(a), TypesV::Precise(b)) => lemma_seq_order(a, b),
        _ => {},
    }
}

proof fn lemma_seq_order_trans(x: Seq<char>, y: Seq<char>, z: Seq<char>)
    ensures
        seq_order(x, y) != Comparison::Greater && seq_order(y, z) != Comparison::Greater
            ==> seq_order(x, z) != Comparison::Greater,
        seq_order(x, y) == Comparison::Less && seq_order(y, z) != Comparison::Greater ==> seq_order(
            x,
            z,
        ) == Comparison::Less,
        seq_order(x, y) != Comparison::Greater && seq_order(y, z) == Comparison::Less ==> seq_order(
            x,
            z,
        ) == Comparison::Less,
    decreases x.len(),
{
    if x.len() > 0 && y.len() > 0 && z.len() > 0 {
        lemma_seq_order_trans(x.drop_first(), y.drop_first(), z.drop_first());
    }
}

/// The kinds of value that are totally ordered among themselves: integers,
/// characters, strings, precise numbers, identifiers and booleans (numbered
/// 0 to 5); any other kind is 6.
pub open spec fn total_kind(v: TypesV) -> int {
    match v {
        TypesV::Integer(_) => 0,
        TypesV::Char(_) => 1,
        TypesV::String(_) => 2,
        TypesV::Precise(_) => 3,
        TypesV::Uuid(_) => 4,
        TypesV::Boolean(_) => 5,
        _ => 6,
    }
}

/// Values of one totally ordered kind are always ordered, comparing them the
/// other way round reverses the outcome, and `<=` and `<` are transitive
/// among them.
pub proof fn law_order_total_within_kind(a: TypesV, b: TypesV, c: TypesV)
    requires
        total_kind(a) < 6,
        total_kind(a) == total_kind(b),
        total_kind(b) == total_kind(c),
    ensures
        types_order(a, b) is Some,
        types_order(b, a) == Some(reversed(types_order(a, b)->0)),
        le(a, b) && le(b, c) ==> le(a, c),
        lt(a, b) && le(b, c) ==> lt(a, c),
        le(a, b) && lt(b, c) ==> lt(a, c),
{
    match (a, b, c) {
        (TypesV::String(x), TypesV::String(y), TypesV::String(z)) => {
            lemma_seq_order(x, y);
            lemma_seq_order_trans(x, y, z);
        },
        (TypesV::Precise(x), TypesV::Precise(y), TypesV::Precise(z)) => {
            lemma_seq_order(x, y);
            lemma_seq_order_trans(x, y, z);
        },
        _ => {},
    }
}

/// `a >= b`.
pub open spec fn ge(a: TypesV, b: TypesV) -> bool {
    types_order(a, b) == Some(Comparison::Greater) || types_order(a, b) == Some(Comparison::Equal)
}

/// `a > b`.
pub open spec fn gt(a: TypesV, b: TypesV) -> bool {
    types_order(a, b) == Some(Comparison::Greater)
}

/// `a <= b`.
pub open spec fn le(a: TypesV, b: TypesV) -> bool {
    types_order(a, b) == Some(Comparison::Less) || types_order(a, b) == Some(Comparison::Equal)
}

/// `a < b`.
pub open spec fn lt(a: TypesV, b: TypesV) -> bool {
    types_order(a, b) == Some(Comparison::Less)
}

fn int_compare(a: i128, b: i128) -> (r: Comparison)
    ensures
        r == int_order(a as int, b as int),
{
    if a < b {
        Comparison::Less
    } else if a == b {
        Comparison::Equal
    } else {
        Comparison::Greater
    }
}

fn u128_compare(a: u128, b: u128) -> (r: Comparison)
    ensures
        r == int_order(a as int, b as int),
{
    if a < b {
        Comparison::Less
    } else if a == b {
        Comparison::Equal
    } else {
        Comparison::Greater
    }
}

/// Compares two strings in the order of `str`.
pub fn str_compare(a: &str, b: &str) -> (r: Comparison)
    ensures
        r == seq_order(a@, b@),
{
    let x = crate::text::chars_of(a);
    let y = crate::text::chars_of(b);
    let mut i: usize = 0;
    assert(x@.skip(0) =~= x@);
    assert(y@.skip(0) =~= y@);
    while i < x.len() && i < y.len() && (x[i] as u32) == (y[i] as u32)
        invariant
            x@ == a@,
            y@ == b@,
            i <= x.len(),
            i <= y.len(),
            seq_order(a@, b@) == seq_order(x@.skip(i as int), y@.skip(i as int)),
        decreases x.len() - i,
    {
        assert(x@.skip(i as int).drop_first() =~= x@.skip(i + 1));
        assert(y@.skip(i as int).drop_first() =~= y@.skip(i + 1));
        i = i + 1;
    }
    assert(x@.skip(i as int).len() == x.len() - i);
    assert(y@.skip(i as int).len() == y.len() - i);
    assert(i < x.len() ==> x@.skip(i as int)[0] == x@[i as int]);
    assert(i < y.len() ==> y@.skip(i as int)[0] == y@[i as int]);
    if i == x.len() {
        if i == y.len() {
            Comparison::Equal
        } else {
            Comparison::Less
        }
    } else if i == y.len() {
        Comparison::Greater
    } else if (x[i] as u32) < (y[i] as u32) {
        Comparison::Less
    } else {
        Comparison::Greater
    }
}

/// Compares two values; `None` where they are not ordered.
pub fn types_compare(a: &Types, b: &Types) -> (r: Option<Comparison>)
    ensures
        r == types_order(a@, b@),
{
    match (a, b) {
        (Types::Integer(x), Types::Integer(y)) => Some(int_compare(*x as i128, *y as i128)),
        (Types::Char(x), Types::Char(y)) => Some(u128_compare(*x as u128, *y as u128)),
        (Types::String(x), Types::String(y)) => Some(str_compare(x.as_str(), y.as_str())),
        (Types::Precise(x), Types::Precise(y)) => Some(str_compare(x.as_str(), y.as_str())),
        (Types::Uuid(x), Types::Uuid(y)) => Some(u128_compare(*x, *y)),
        (Types::Boolean(x), Types::Boolean(y)) => {
            let p: u128 = if *x { 1 } else { 0 };
            let q: u128 = if *y { 1 } else { 0 };
            Some(u128_compare(p, q))
        },
        (Types::Vector(x), Types::Vector(y)) => {
            proof {
                lemma_seq_view(x@);
                lemma_seq_view(y@);
            }
            Some(u128_compare(x.len() as u128, y.len() as u128))
        },
        (Types::Float(_, p), Types::Float(_, q)) => Some(
            match (p, q) {
                (Some(p), Some(q)) => if p.order > q.order {
                    Comparison::Greater
                } else {
                    Comparison::Less
                },
                _ => Comparison::Less,
            },
        ),
        (Types::Integer(x), Types::Float(_, q)) => Some(
            match q {
                Some(q) => if rounded_to_f64(*x) > q.floor {
                    Comparison::Greater
                } else {
                    Comparison::Less
                },
                None => Comparison::Less,
            },
        ),
        (Types::Float(_, p), Types::Integer(y)) => Some(
            match p {
                Some(p) => {
                    let r = rounded_to_f64(*y);
                    if p.floor > r || (p.floor == r && p.fraction) {
                        Comparison::Greater
                    } else {
                        Comparison::Less
                    }
                },
                None => Comparison::Less,
            },
        ),
        _ => None,
    }
}

/// Whether `a >= b`.
pub fn types_ge(a: &Types, b: &Types) -> (r: bool)
    ensures
        r == ge(a@, b@),
{
    match types_compare(a, b) {
        Some(Comparison::Greater) | Some(Comparison::Equal) => true,
        _ => false,
    }
}

/// Whether `a > b`.
pub fn types_gt(a: &Types, b: &Types) -> (r: bool)
    ensures
        r == gt(a@, b@),
{
    match types_compare(a, b) {
        Some(Comparison::Greater) => true,
        _ => false,
    }
}

/// Whether `a <= b`.
pub fn types_le(a: &Types, b: &Types) -> (r: bool)
    ensures
        r == le(a@, b@),
{
    match types_compare(a, b) {
        Some(Comparison::Less) | Some(Comparison::Equal) => true,
        _ => false,
    }
}

/// Whether `a < b`.
pub fn types_lt(a: &Types, b: &Types) -> (r: bool)
    ensures
        r == lt(a@, b@),
{
    match types_compare(a, b) {
        Some(Comparison::Less) => true,
        _ => false,
    }
}

/// A key of the map view of an entity is one of its keys.
pub proof fn lemma_entity_map_keys(keys: Seq<Seq<char>>, vals: Seq<Types>, k: Seq<char>)
    ensures
        entity_map(keys, vals).contains_key(k) ==> keys.contains(k),
    decreases vals.len(),
{
    if vals.len() > 0 && keys.len() > 0 {
        lemma_entity_map_keys(keys.drop_last(), vals.drop_last(), k);
        if entity_map(keys, vals).contains_key(k) {
            if k == keys.last() {
                assert(keys[keys.len() - 1] == k);
            } else {
                let j = choose|j: int|
                    0 <= j < keys.drop_last().len() && keys.drop_last()[j] == k;
                assert(keys[j] == k);
            }
        }
    }
}

/// The position of the value that the map view of `e` holds under `k`, if
/// any.
pub fn entity_index(e: &Entity, k: &str) -> (r: Option<usize>)
    ensures
        r is Some <==> e@.contains_key(k@),
        r matches Some(j) ==> j < e.values@.len() && types_view(e.values@[j as int]) == e@[k@],
{
    let kl = e.keys.len();
    let vl = e.values.len();
    let n = if kl < vl {
        kl
    } else {
        vl
    };
    let ghost ks = strings_view(e.keys@);
    let ghost vs = e.values@;
    let mut t: usize = 0;
    assert(ks.subrange(0, kl as int) =~= ks);
    assert(vs.subrange(0, vl as int) =~= vs);
    while t < n
        invariant
            kl == e.keys@.len(),
            vl == e.values@.len(),
            ks == strings_view(e.keys@),
            vs == e.values@,
            n <= kl,
            n <= vl,
            t <= n,
            entity_map(ks, vs).contains_key(k@) == entity_map(
                ks.subrange(0, kl - t),
                vs.subrange(0, vl - t),
            ).contains_key(k@),
            entity_map(ks, vs).contains_key(k@) ==> entity_map(ks, vs)[k@] == entity_map(
                ks.subrange(0, kl - t),
                vs.subrange(0, vl - t),
            )[k@],
        decreases n - t,
    {
        let ghost kk = ks.subrange(0, kl - t);
        let ghost vv = vs.subrange(0, vl - t);
        assert(kk.drop_last() =~= ks.subrange(0, kl - t - 1));
        assert(vv.drop_last() =~= vs.subrange(0, vl - t - 1));
        assert(kk.last() == e.keys@[kl - 1 - t]@);
        assert(vv.last() == e.values@[vl - 1 - t]);
        if str_eq(e.keys[kl - 1 - t].as_str(), k) {
            return Some(vl - 1 - t);
        }
        t = t + 1;
    }
    assert(ks.subrange(0, kl - t).len() == 0 || vs.subrange(0, vl - t).len() == 0);
    None
}

/// The value that the map view of `e` holds under `k`, if any.
pub fn entity_get<'a>(e: &'a Entity, k: &str) -> (r: Option<&'a Types>)
    ensures
        r is Some <==> e@.contains_key(k@),
        r matches Some(v) ==> v@ == e@[k@],
{
    match entity_index(e, k) {
        Some(j) => Some(&e.values[j]),
        None => None,
    }
}

/// Whether two values are equal: the same kind and the same contents (a
/// `Float` by its text and how it compares, maps by their keys and values,
/// vectors position by position).
pub fn types_eq(a: &Types, b: &Types) -> (r: bool)
    ensures
        r == (a@ == b@),
    decreases a,
{
    match (a, b) {
        (Types::Char(x), Types::Char(y)) => *x == *y,
        (Types::Integer(x), Types::Integer(y)) => *x == *y,
        (Types::String(x), Types::String(y)) => str_eq(x.as_str(), y.as_str()),
        (Types::Uuid(x), Types::Uuid(y)) => *x == *y,
        (Types::Float(x, i), Types::Float(y, j)) => str_eq(x.as_str(), y.as_str()) && match (i, j) {
            (None, None) => true,
            (Some(p), Some(q)) => *p == *q,
            _ => false,
        },
        (Types::Boolean(x), Types::Boolean(y)) => *x == *y,
        (Types::Vector(x), Types::Vector(y)) => {
            proof {
                assert(decreases_to!(a => x));
            }
            vec_eq(x, y)
        },
        (Types::Mapping(x), Types::Mapping(y)) => {
            proof {
                assert(decreases_to!(a => x));
            }
            entity_eq(x, y)
        },
        (Types::Hash(x), Types::Hash(y)) => str_eq(x.as_str(), y.as_str()),
        (Types::Precise(x), Types::Precise(y)) => str_eq(x.as_str(), y.as_str()),
        (Types::DateTime(x1, x2), Types::DateTime(y1, y2)) => *x1 == *y1 && *x2 == *y2,
        (Types::Nil, Types::Nil) => true,
        _ => false,
    }
}

/// Whether two vectors of values are equal position by position.
pub fn vec_eq(x: &Vec<Types>, y: &Vec<Types>) -> (r: bool)
    ensures
        r == (types_seq_view(x@) == types_seq_view(y@)),
    decreases x,
{
    proof {
        lemma_seq_view_eq(x@, y@);
    }
    if x.len() != y.len() {
        return false;
    }
    let mut i: usize = 0;
    while i < x.len()
        invariant
            x.len() == y.len(),
            i <= x.len(),
            forall|j: int| 0 <= j < i ==> types_view(#[trigger] x@[j]) == types_view(y@[j]),
        decreases x.len() - i,
    {
        proof {
            assert(decreases_to!(x => x@));
            assert(decreases_to!(x@ => x@[i as int]));
        }
        if !types_eq(&x[i], &y[i]) {
            proof {
                lemma_seq_view_eq(x@, y@);
                assert(types_view(x@[i as int]) != types_view(y@[i as int]));
            }
            return false;
        }
        i = i + 1;
    }
    true
}

/// Whether two entities hold the same keys with equal values.
pub fn entity_eq(x: &Entity, y: &Entity) -> (r: bool)
    ensures
        r == (x@ == y@),
    decreases x,
{
    let mut i: usize = 0;
    while i < x.keys.len()
        invariant
            i <= x.keys.len(),
            forall|j: int|
                0 <= j < i && #[trigger] x@.contains_key(x.keys@[j]@) ==> y@.contains_key(
                    x.keys@[j]@,
                ) && x@[x.keys@[j]@] == y@[x.keys@[j]@],
        decreases x.keys.len() - i,
    {
        match entity_index(x, x.keys[i].as_str()) {
            Some(p) => {
                match entity_index(y, x.keys[i].as_str()) {
                    Some(q) => {
                        proof {
                            assert(decreases_to!(x => x.values));
                            assert(decreases_to!(x.values => x.values@));
                            assert(decreases_to!(x.values@ => x.values@[p as int]));
                        }
                        if !types_eq(&x.values[p], &y.values[q]) {
                            return false;
                        }
                    },
                    None => {
                        return false;
                    },
                }
            },
            None => {},
        }
        i = i + 1;
    }
    let mut j: usize = 0;
    while j < y.keys.len()
        invariant
            j <= y.keys.len(),
            forall|m: int|
                0 <= m < j && #[trigger] y@.contains_key(y.keys@[m]@) ==> x@.contains_key(
                    y.keys@[m]@,
                ),
        decreases y.keys.len() - j,
    {
        let in_y = entity_index(y, y.keys[j].as_str());
        let in_x = entity_index(x, y.keys[j].as_str());
        if in_y.is_some() && in_x.is_none() {
            return false;
        }
        j = j + 1;
    }
    proof {
        assert forall|k: Seq<char>| #[trigger] x@.contains_key(k) implies y@.contains_key(k)
            && x@[k] == y@[k] by {
            lemma_entity_map_keys(strings_view(x.keys@), x.values@, k);
            let m = choose|m: int|
                0 <= m < strings_view(x.keys@).len() && strings_view(x.keys@)[m] == k;
            assert(x.keys@[m]@ == k);
        }
        assert forall|k: Seq<char>| #[trigger] y@.contains_key(k) implies x@.contains_key(k) by {
            lemma_entity_map_keys(strings_view(y.keys@), y.values@, k);
            let m = choose|m: int|
                0 <= m < strings_view(y.keys@).len() && strings_view(y.keys@)[m] == k;
            assert(y.keys@[m]@ == k);
        }
        assert(x@ =~= y@);
    }
    true
}

/// Whether two values are the same value, as `==` on values decides it: a
/// floating-point number equals another of the same number (so `-0.0`
/// equals `0.0`, and NaN, whose comparison is not known, equals nothing);
/// vectors are the same position by position, maps key by key; any other
/// pair is the same where it is equal.
pub open spec fn same_value(a: TypesV, b: TypesV) -> bool
    decreases a,
{
    match (a, b) {
        (TypesV::Float(_, p), TypesV::Float(_, q)) => match (p, q) {
            (Some(x), Some(y)) => x.order == y.order,
            _ => false,
        },
        (TypesV::Vector(x), TypesV::Vector(y)) => x.len() == y.len() && forall|i: int|
            0 <= i < x.len() ==> same_value(#[trigger] x[i], y[i]),
        (TypesV::Mapping(x), TypesV::Mapping(y)) => x.dom() == y.dom() && forall|k: Seq<char>|
            #[trigger] x.contains_key(k) ==> same_value(x[k], y[k]),
        _ => a == b,
    }
}

/// Whether two values are the same value (see `same_value`).
pub fn types_same(a: &Types, b: &Types) -> (r: bool)
    ensures
        r == same_value(a@, b@),
    decreases a,
{
    match (a, b) {
        (Types::Float(_, i), Types::Float(_, j)) => match (i, j) {
            (Some(p), Some(q)) => p.order == q.order,
            _ => false,
        },
        (Types::Vector(x), Types::Vector(y)) => {
            proof {
                assert(decreases_to!(a => x));
                lemma_seq_view(x@);
                lemma_seq_view(y@);
            }
            vec_same(x, y)
        },
        (Types::Mapping(x), Types::Mapping(y)) => {
            proof {
                assert(decreases_to!(a => x));
            }
            entity_same(x, y)
        },
        (Types::Float(_, _), _) | (Types::Vector(_), _) | (Types::Mapping(_), _) => false,
        _ => types_eq(a, b),
    }
}

/// Whether two vectors hold the same values position by position.
pub fn vec_same(x: &Vec<Types>, y: &Vec<Types>) -> (r: bool)
    ensures
        r == (x@.len() == y@.len() && forall|i: int|
            0 <= i < x@.len() ==> same_value(#[trigger] types_seq_view(x@)[i], types_seq_view(y@)[i])),
    decreases x,
{
    proof {
        lemma_seq_view(x@);
        lemma_seq_view(y@);
    }
    if x.len() != y.len() {
        return false;
    }
    let mut i: usize = 0;
    while i < x.len()
        invariant
            x.len() == y.len(),
            i <= x.len(),
            types_seq_view(x@).len() == x@.len(),
            types_seq_view(y@).len() == y@.len(),
            forall|j: int| 0 <= j < x@.len() ==> #[trigger] types_seq_view(x@)[j] == types_view(x@[j]),
            forall|j: int| 0 <= j < y@.len() ==> #[trigger] types_seq_view(y@)[j] == types_view(y@[j]),
            forall|j: int| 0 <= j < i ==> same_value(#[trigger] types_seq_view(x@)[j], types_seq_view(y@)[j]),
        decreases x.len() - i,
    {
        proof {
            assert(decreases_to!(x => x@));
            assert(decreases_to!(x@ => x@[i as int]));
        }
        if !types_same(&x[i], &y[i]) {
            proof {
                assert(types_seq_view(x@)[i as int] == types_view(x@[i as int]));
            }
            return false;
        }
        proof {
            assert(types_seq_view(x@)[i as int] == types_view(x@[i as int]));
            assert(types_seq_view(y@)[i as int] == types_view(y@[i as int]));
        }
        i = i + 1;
    }
    true
}

/// Whether two entities hold the same keys with the same values.
pub fn entity_same(x: &Entity, y: &Entity) -> (r: bool)
    ensures
        r == (x@.dom() == y@.dom() && forall|k: Seq<char>|
            #[trigger] x@.contains_key(k) ==> same_value(x@[k], y@[k])),
    decreases x,
{
    let mut i: usize = 0;
    while i < x.keys.len()
        invariant
            i <= x.keys.len(),
            forall|j: int|
                0 <= j < i && #[trigger] x@.contains_key(x.keys@[j]@) ==> y@.contains_key(
                    x.keys@[j]@,
                ) && same_value(x@[x.keys@[j]@], y@[x.keys@[j]@]),
        decreases x.keys.len() - i,
    {
        match entity_index(x, x.keys[i].as_str()) {
            Some(p) => {
                match entity_index(y, x.keys[i].as_str()) {
                    Some(q) => {
                        proof {
                            assert(decreases_to!(x => x.values));
                            assert(decreases_to!(x.values => x.values@));
                            assert(decreases_to!(x.values@ => x.values@[p as int]));
                        }
                        if !types_same(&x.values[p], &y.values[q]) {
                            return false;
                        }
                    },
                    None => {
                        return false;
                    },
                }
            },
            None => {},
        }
        i = i + 1;
    }
    let mut j: usize = 0;
    while j < y.keys.len()
        invariant
            j <= y.keys.len(),
            forall|m: int|
                0 <= m < j && #[trigger] y@.contains_key(y.keys@[m]@) ==> x@.contains_key(
                    y.keys@[m]@,
                ),
        decreases y.keys.len() - j,
    {
        let in_y = entity_index(y, y.keys[j].as_str());
        let in_x = entity_index(x, y.keys[j].as_str());
        if in_y.is_some() && in_x.is_none() {
            return false;
        }
        j = j + 1;
    }
    proof {
        assert forall|k: Seq<char>| #[trigger] x@.contains_key(k) implies y@.contains_key(k)
            && same_value(x@[k], y@[k]) by {
            lemma_entity_map_keys(strings_view(x.keys@), x.values@, k);
            let m = choose|m: int|
                0 <= m < strings_view(x.keys@).len() && strings_view(x.keys@)[m] == k;
            assert(x.keys@[m]@ == k);
        }
        assert forall|k: Seq<char>| #[trigger] y@.contains_key(k) implies x@.contains_key(k) by {
            lemma_entity_map_keys(strings_view(y.keys@), y.values@, k);
            let m = choose|m: int|
                0 <= m < strings_view(y.keys@).len() && strings_view(y.keys@)[m] == k;
            assert(y.keys@[m]@ == k);
        }
        assert(x@.dom() =~= y@.dom());
    }
    true
}

} // verus!
