//! The state of a registry: how `MATCH` conditions are checked against it, how
//! `UPDATE ... CONTENT` changes it, and where it stands in a log line.

use vstd::prelude::*;
use crate::ast::{MatchCondition, MatchConditionV, match_seq_view, match_view};
use crate::compare::{entity_get, same_value, types_same};
use crate::error::Error;
use crate::log::{fields_text, log_line, new_uuid, uuid_text};
use crate::model::{Action, action_text};
use crate::relation::StateV;
use crate::text::{chars_of, slice_chars, split_chars, split_on, string_of};
use crate::types::{Entity, FloatInfo, Types, TypesV, clone_types, clone_values, lemma_seq_view, types_seq_view, strings_view};
use crate::auth::models::utc_now;

verus! {

/// How the value `s` of a state stands to the value `c` of a condition, for
/// `MATCH`: both integers by value, both floats by how they compare (see
/// `FloatInfo`); `None` for any other pair.
pub open spec fn match_order(s: TypesV, c: TypesV) -> Option<(int, int)> {
    match (s, c) {
        (TypesV::Integer(x), TypesV::Integer(y)) => Some((x, y)),
        (TypesV::Float(_, Some(p)), TypesV::Float(_, Some(q))) => Some((p.order as int, q.order as int)),
        _ => None,
    }
}

/// Whether a state holds `key`, and its value there stands in relation to the
/// value of a condition (see `match_order`).
pub open spec fn ordered_match(op: MatchConditionV, st: StateV) -> bool {
    match op {
        MatchConditionV::GEq(key, c) => st.contains_key(key) && match match_order(st[key], c) {
            Some((x, y)) => x >= y,
            None => false,
        },
        MatchConditionV::G(key, c) => st.contains_key(key) && match match_order(st[key], c) {
            Some((x, y)) => x > y,
            None => false,
        },
        MatchConditionV::LEq(key, c) => st.contains_key(key) && match match_order(st[key], c) {
            Some((x, y)) => x <= y,
            None => false,
        },
        MatchConditionV::L(key, c) => st.contains_key(key) && match match_order(st[key], c) {
            Some((x, y)) => x < y,
            None => false,
        },
        _ => false,
    }
}

/// Whether one condition of `MATCH ALL` / `MATCH ANY` holds of the state.
pub open spec fn condition_holds(c: MatchConditionV, st: StateV) -> bool {
    match c {
        MatchConditionV::Eq(key, v) => st.contains_key(key) && same_value(st[key], v),
        MatchConditionV::NotEq(key, v) => st.contains_key(key) && !same_value(st[key], v),
        MatchConditionV::GEq(_, _) | MatchConditionV::G(_, _) | MatchConditionV::LEq(_, _)
        | MatchConditionV::L(_, _) => ordered_match(c, st),
        _ => false,
    }
}

/// `MATCH ALL(...)` holds when every condition holds, `MATCH ANY(...)` when
/// one does; a failed match is `FailedMatchCondition`, and any other
/// condition is `UnknownCondition`.
pub open spec fn match_outcome(c: MatchConditionV, st: StateV) -> Result<(), Error> {
    match c {
        MatchConditionV::All(all) => if all_hold(all, st) {
            Ok(())
        } else {
            Err(Error::FailedMatchCondition)
        },
        MatchConditionV::Any(any) => if any_holds(any, st) {
            Ok(())
        } else {
            Err(Error::FailedMatchCondition)
        },
        _ => Err(Error::UnknownCondition),
    }
}

/// Every condition holds of the state.
pub open spec fn all_hold(all: Seq<MatchConditionV>, st: StateV) -> bool {
    forall|i: int| 0 <= i < all.len() ==> #[trigger] condition_holds(all[i], st)
}

/// Some condition holds of the state.
pub open spec fn any_holds(any: Seq<MatchConditionV>, st: StateV) -> bool {
    exists|i: int| 0 <= i < any.len() && #[trigger] condition_holds(any[i], st)
}

fn match_order_exec(s: &Types, c: &Types) -> (r: Option<(i128, i128)>)
    ensures
        match (r, match_order(s@, c@)) {
            (Some((x, y)), Some((a, b))) => x == a && y == b,
            (None, None) => true,
            _ => false,
        },
{
    match (s, c) {
        (Types::Integer(x), Types::Integer(y)) => Some((*x as i128, *y as i128)),
        (Types::Float(_, Some(p)), Types::Float(_, Some(q))) => Some((p.order, q.order)),
        _ => None,
    }
}

fn ordered_match_exec(c: &MatchCondition, st: &Entity) -> (r: bool)
    ensures
        r == ordered_match(c@, st@),
{
    match c {
        MatchCondition::GEq(key, v) => match entity_get(st, key.as_str()) {
            Some(s) => match match_order_exec(s, v) {
                Some((x, y)) => x >= y,
                None => false,
            },
            None => false,
        },
        MatchCondition::G(key, v) => match entity_get(st, key.as_str()) {
            Some(s) => match match_order_exec(s, v) {
                Some((x, y)) => x > y,
                None => false,
            },
            None => false,
        },
        MatchCondition::LEq(key, v) => match entity_get(st, key.as_str()) {
            Some(s) => match match_order_exec(s, v) {
                Some((x, y)) => x <= y,
                None => false,
            },
            None => false,
        },
        MatchCondition::L(key, v) => match entity_get(st, key.as_str()) {
            Some(s) => match match_order_exec(s, v) {
                Some((x, y)) => x < y,
                None => false,
            },
            None => false,
        },
        _ => false,
    }
}

fn condition_holds_exec(c: &MatchCondition, st: &Entity) -> (r: bool)
    ensures
        r == condition_holds(c@, st@),
{
    match c {
        MatchCondition::Eq(key, v) => match entity_get(st, key.as_str()) {
            Some(s) => types_same(s, v),
            None => false,
        },
        MatchCondition::NotEq(key, v) => match entity_get(st, key.as_str()) {
            Some(s) => !types_same(s, v),
            None => false,
        },
        MatchCondition::GEq(_, _) | MatchCondition::G(_, _) | MatchCondition::LEq(_, _)
        | MatchCondition::L(_, _) => ordered_match_exec(c, st),
        _ => false,
    }
}

pub proof fn lemma_match_seq_index(s: Seq<MatchCondition>)
    ensures
        match_seq_view(s).len() == s.len(),
        forall|i: int| 0 <= i < s.len() ==> #[trigger] match_seq_view(s)[i] == match_view(s[i]),
    decreases s.len(),
{
    if s.len() > 0 {
        lemma_match_seq_index(s.drop_last());
        assert forall|i: int| 0 <= i < s.len() implies #[trigger] match_seq_view(s)[i]
            == match_view(s[i]) by {
            if i < s.len() - 1 {
                assert(s.drop_last()[i] == s[i]);
            }
        }
    }
}

/// Checks the conditions of `UPDATE ... SET ... INTO id WHEN MATCH ...`
/// against the state the registry had before.
pub fn match_update(conditions: &MatchCondition, previous_state: &Entity) -> (r: Result<(), Error>)
    ensures
        r == match_outcome(conditions@, previous_state@),
{
    match conditions {
        MatchCondition::All(all) => {
            proof {
                lemma_match_seq_index(all@);
            }
            let ghost av = match_seq_view(all@);
            let mut i: usize = 0;
            while i < all.len()
                invariant
                    i <= all.len(),
                    av == match_seq_view(all@),
                    conditions@ == MatchConditionV::All(av),
                    av.len() == all@.len(),
                    forall|j: int| 0 <= j < all@.len() ==> #[trigger] av[j] == match_view(all@[j]),
                    forall|j: int| 0 <= j < i ==> #[trigger] condition_holds(av[j], previous_state@),
                decreases all.len() - i,
            {
                if !condition_holds_exec(&all[i], previous_state) {
                    assert(!condition_holds(av[i as int], previous_state@));
                    assert(!all_hold(av, previous_state@));
                    return Err(Error::FailedMatchCondition);
                }
                i = i + 1;
            }
            Ok(())
        },
        MatchCondition::Any(any) => {
            proof {
                lemma_match_seq_index(any@);
            }
            let ghost av = match_seq_view(any@);
            let mut i: usize = 0;
            while i < any.len()
                invariant
                    i <= any.len(),
                    av == match_seq_view(any@),
                    conditions@ == MatchConditionV::Any(av),
                    av.len() == any@.len(),
                    forall|j: int| 0 <= j < any@.len() ==> #[trigger] av[j] == match_view(any@[j]),
                    forall|j: int| 0 <= j < i ==> !#[trigger] condition_holds(av[j], previous_state@),
                decreases any.len() - i,
            {
                if condition_holds_exec(&any[i], previous_state) {
                    assert(condition_holds(av[i as int], previous_state@));
                    assert(any_holds(av, previous_state@));
                    return Ok(());
                }
                i = i + 1;
            }
            Err(Error::FailedMatchCondition)
        },
        _ => Err(Error::UnknownCondition),
    }
}

/// The starting value of a kind, of which `UPDATE ... CONTENT` adds to: zero,
/// empty, false, `Nil`; identifiers and dates are drawn afresh.
pub open spec fn default_value(t: TypesV) -> TypesV {
    match t {
        TypesV::Char(_) => TypesV::Char(' '),
        TypesV::Integer(_) => TypesV::Integer(0),
        TypesV::String(_) => TypesV::String(Seq::empty()),
        TypesV::Float(_, _) => TypesV::Float("0.0"@, Some(FloatInfo { order: 0, floor: 0, fraction: false })),
        TypesV::Boolean(_) => TypesV::Boolean(false),
        TypesV::Vector(_) => TypesV::Vector(Seq::empty()),
        TypesV::Mapping(_) => TypesV::Mapping(Map::empty()),
        TypesV::Hash(_) => TypesV::Hash(Seq::empty()),
        TypesV::Precise(_) => TypesV::Precise("0"@),
        TypesV::Nil => TypesV::Nil,
        _ => t,
    }
}

impl Types {
    /// The starting value of the same kind: for an identifier a new random one,
    /// for a date the present instant.
    pub fn default_values(&self) -> (r: Types)
        ensures
            !(self@ is Uuid) && !(self@ is DateTime) ==> r@ == default_value(self@),
            self@ is Uuid ==> r@ is Uuid,
            self@ is DateTime ==> r@ is DateTime,
    {
        match self {
            Types::Char(_) => Types::Char(' '),
            Types::Integer(_) => Types::Integer(0),
            Types::String(_) => Types::String(String::new()),
            Types::Uuid(_) => Types::Uuid(new_uuid()),
            Types::Float(_, _) => Types::Float(String::from_str("0.0"), Some(FloatInfo { order: 0, floor: 0, fraction: false })),
            Types::Boolean(_) => Types::Boolean(false),
            Types::Vector(_) => Types::Vector(Vec::new()),
            Types::Mapping(_) => Types::Mapping(Entity::new()),
            Types::Hash(_) => Types::Hash(String::new()),
            Types::Precise(_) => Types::Precise(String::from_str("0")),
            Types::DateTime(_, _) => {
                let (s, n) = utc_now();
                Types::DateTime(s, n)
            },
            Types::Nil => Types::Nil,
        }
    }

    /// Whether the value is a hash.
    pub fn is_hash(&self) -> (r: bool)
        ensures
            r == (self@ is Hash),
    {
        match self {
            Types::Hash(_) => true,
            _ => false,
        }
    }
}

/// What `UPDATE ... CONTENT` does with the value `v` given for a key whose
/// current value is `local`: characters, identifiers, booleans, `Nil`, precise
/// numbers and dates replace it; integers add to an integer; strings append
/// to a string; vectors append to a vector; maps are merged into a map, their
/// keys winning; hashes change nothing; in every other case the value stays.
/// `None` where the sum is one of floating-point numbers (a float added to a
/// float or an integer, or an integer to a float), which the library does not
/// compute.
pub open spec fn content_update(local: TypesV, v: TypesV) -> Option<TypesV> {
    match v {
        TypesV::Char(_) | TypesV::Uuid(_) | TypesV::Boolean(_) | TypesV::Nil | TypesV::Precise(_)
        | TypesV::DateTime(_, _) => Some(v),
        TypesV::Integer(i) => match local {
            TypesV::Integer(l) => Some(TypesV::Integer(l + i)),
            TypesV::Float(_, _) => None,
            _ => Some(local),
        },
        TypesV::String(s) => match local {
            TypesV::String(l) => Some(TypesV::String(l + s)),
            _ => Some(local),
        },
        TypesV::Float(_, _) => match local {
            TypesV::Float(_, _) | TypesV::Integer(_) => None,
            _ => Some(local),
        },
        TypesV::Hash(_) => Some(local),
        TypesV::Vector(items) => match local {
            TypesV::Vector(l) => Some(TypesV::Vector(l + items)),
            _ => Some(local),
        },
        TypesV::Mapping(m) => match local {
            TypesV::Mapping(l) => Some(TypesV::Mapping(l.union_prefer_right(m))),
            _ => Some(local),
        },
    }
}

/// The value that the key starts from: its current value, or the starting
/// value of the kind of `v`.
pub open spec fn start_value(st: StateV, k: Seq<char>, v: TypesV) -> TypesV {
    if st.contains_key(k) {
        st[k]
    } else {
        default_value(v)
    }
}

/// An integer sum that `UPDATE ... CONTENT` makes fits in `isize`.
pub open spec fn content_sum_fits(st: StateV, k: Seq<char>, v: TypesV) -> bool {
    match (start_value(st, k, v), v) {
        (TypesV::Integer(l), TypesV::Integer(i)) => isize::MIN <= l + i <= isize::MAX,
        _ => true,
    }
}

/// The outcome of `update_content_state`.
#[derive(Debug, PartialEq, Eq, Structural, Clone, Copy)]
pub enum ContentUpdate {
    /// The state holds the new value.
    Applied,
    /// The new value is a sum of floating-point numbers; the state holds the
    /// value to add to, and the caller adds.
    FloatSum,
}

/// A map entity with the keys of `m` merged into `l`, those of `m` winning.
pub(crate) fn merge_entities(l: &Entity, m: &Entity) -> (r: Entity)
    ensures
        r.wf(),
        r@ == l@.union_prefer_right(m@),
{
    let mut acc = Entity::new();
    let mut i: usize = 0;
    let ghost lk = strings_view(l.keys@);
    while i < l.keys.len()
        invariant
            i <= l.keys.len(),
            acc.wf(),
            acc@ == Map::new(
                |k: Seq<char>|
                    (exists|j: int| 0 <= j < i && #[trigger] l.keys@[j]@ == k) && l@.contains_key(k),
                |k: Seq<char>| l@[k],
            ),
        decreases l.keys.len() - i,
    {
        let ghost kv = l.keys@[i as int]@;
        match entity_get(l, l.keys[i].as_str()) {
            Some(v) => {
                acc.insert(l.keys[i].clone(), clone_types(v));
            },
            None => {},
        }
        assert(acc@ =~= Map::new(
            |k: Seq<char>|
                (exists|j: int| 0 <= j < i + 1 && #[trigger] l.keys@[j]@ == k) && l@.contains_key(k),
            |k: Seq<char>| l@[k],
        ));
        i = i + 1;
    }
    proof {
        assert forall|k: Seq<char>| #[trigger] l@.contains_key(k) implies exists|j: int|
            0 <= j < l.keys.len() && #[trigger] l.keys@[j]@ == k by {
            crate::compare::lemma_entity_map_keys(strings_view(l.keys@), l.values@, k);
            let m = choose|m: int|
                0 <= m < strings_view(l.keys@).len() && strings_view(l.keys@)[m] == k;
            assert(l.keys@[m]@ == k);
        }
        assert(acc@ =~= l@);
    }
    let mut j: usize = 0;
    while j < m.keys.len()
        invariant
            j <= m.keys.len(),
            acc.wf(),
            acc@ == l@.union_prefer_right(
                Map::new(
                    |k: Seq<char>|
                        (exists|q: int| 0 <= q < j && #[trigger] m.keys@[q]@ == k)
                            && m@.contains_key(k),
                    |k: Seq<char>| m@[k],
                ),
            ),
        decreases m.keys.len() - j,
    {
        match entity_get(m, m.keys[j].as_str()) {
            Some(v) => {
                acc.insert(m.keys[j].clone(), clone_types(v));
            },
            None => {},
        }
        assert(acc@ =~= l@.union_prefer_right(
            Map::new(
                |k: Seq<char>|
                    (exists|q: int| 0 <= q < j + 1 && #[trigger] m.keys@[q]@ == k)
                        && m@.contains_key(k),
                |k: Seq<char>| m@[k],
            ),
        ));
        j = j + 1;
    }
    proof {
        assert forall|k: Seq<char>| #[trigger] m@.contains_key(k) implies exists|q: int|
            0 <= q < m.keys.len() && #[trigger] m.keys@[q]@ == k by {
            crate::compare::lemma_entity_map_keys(strings_view(m.keys@), m.values@, k);
            let p = choose|p: int|
                0 <= p < strings_view(m.keys@).len() && strings_view(m.keys@)[p] == k;
            assert(m.keys@[p]@ == k);
        }
        assert(Map::new(
            |k: Seq<char>|
                (exists|q: int| 0 <= q < m.keys.len() && #[trigger] m.keys@[q]@ == k)
                    && m@.contains_key(k),
            |k: Seq<char>| m@[k],
        ) =~= m@);
    }
    acc
}

/// The values of `a` followed by those of `b`.
fn append_values(a: &Vec<Types>, b: &Vec<Types>) -> (r: Vec<Types>)
    ensures
        types_seq_view(r@) == types_seq_view(a@) + types_seq_view(b@),
{
    let mut r = clone_values(a);
    let mut i: usize = 0;
    proof {
        lemma_seq_view(a@);
        lemma_seq_view(b@);
    }
    while i < b.len()
        invariant
            i <= b.len(),
            types_seq_view(r@) == types_seq_view(a@) + types_seq_view(b@).subrange(0, i as int),
            types_seq_view(b@).len() == b@.len(),
            forall|j: int| 0 <= j < b@.len() ==> #[trigger] types_seq_view(b@)[j] == b@[j]@,
        decreases b.len() - i,
    {
        let ghost before = r@;
        let x = clone_types(&b[i]);
        r.push(x);
        proof {
            crate::types::lemma_seq_view_push(before, r@.last());
            assert(r@ =~= before.push(r@.last()));
        }
        assert(types_seq_view(r@) =~= types_seq_view(a@) + types_seq_view(b@).subrange(
            0,
            i + 1,
        ));
        i = i + 1;
    }
    assert(types_seq_view(b@).subrange(0, b.len() as int) =~= types_seq_view(b@));
    r
}

fn string_append(a: &String, b: &String) -> (r: String)
    ensures
        r@ == a@ + b@,
{
    let mut v = chars_of(a.as_str());
    crate::text::append_str(&mut v, b.as_str());
    string_of(&v)
}

/// `UPDATE ... CONTENT`: adds `v` into the value of `previous_state` under `k`
/// (see `content_update`); a key that is absent starts from the starting value
/// of the kind of `v`. Where the sum is one of floating-point numbers, the
/// state is left holding the value to add to, and `FloatSum` says so.
pub fn update_content_state(previous_state: &mut Entity, k: String, v: Types) -> (r: ContentUpdate)
    requires
        old(previous_state).wf(),
        content_sum_fits(old(previous_state)@, k@, v@),
    ensures
        final(previous_state).wf(),
        r == ContentUpdate::Applied <==> content_update(
            start_value(old(previous_state)@, k@, v@),
            v@,
        ) is Some,
        r == ContentUpdate::Applied ==> final(previous_state)@ == old(previous_state)@.insert(
            k@,
            content_update(start_value(old(previous_state)@, k@, v@), v@)->0,
        ),
        r == ContentUpdate::FloatSum ==> final(previous_state)@ == old(previous_state)@.insert(
            k@,
            start_value(old(previous_state)@, k@, v@),
        ),
{
    let local: Types = match entity_get(previous_state, k.as_str()) {
        Some(l) => clone_types(l),
        None => match &v {
            Types::Uuid(u) => Types::Uuid(*u),
            Types::DateTime(s, n) => Types::DateTime(*s, *n),
            _ => v.default_values(),
        },
    };
    let (new_value, outcome): (Types, ContentUpdate) = match &v {
        Types::Char(c) => (Types::Char(*c), ContentUpdate::Applied),
        Types::Uuid(u) => (Types::Uuid(*u), ContentUpdate::Applied),
        Types::Boolean(b) => (Types::Boolean(*b), ContentUpdate::Applied),
        Types::Nil => (Types::Nil, ContentUpdate::Applied),
        Types::Precise(p) => (Types::Precise(p.clone()), ContentUpdate::Applied),
        Types::DateTime(s, n) => (Types::DateTime(*s, *n), ContentUpdate::Applied),
        Types::Integer(i) => match &local {
            Types::Integer(l) => (Types::Integer(*l + *i), ContentUpdate::Applied),
            Types::Float(_, _) => (clone_types(&local), ContentUpdate::FloatSum),
            _ => (clone_types(&local), ContentUpdate::Applied),
        },
        Types::String(s) => match &local {
            Types::String(l) => (Types::String(string_append(l, s)), ContentUpdate::Applied),
            _ => (clone_types(&local), ContentUpdate::Applied),
        },
        Types::Float(_, _) => match &local {
            Types::Float(_, _) | Types::Integer(_) => (clone_types(&local), ContentUpdate::FloatSum),
            _ => (clone_types(&local), ContentUpdate::Applied),
        },
        Types::Hash(_) => (clone_types(&local), ContentUpdate::Applied),
        Types::Vector(items) => match &local {
            Types::Vector(l) => (Types::Vector(append_values(l, items)), ContentUpdate::Applied),
            _ => (clone_types(&local), ContentUpdate::Applied),
        },
        Types::Mapping(m) => match &local {
            Types::Mapping(l) => (Types::Mapping(merge_entities(l, m)), ContentUpdate::Applied),
            _ => (clone_types(&local), ContentUpdate::Applied),
        },
    };
    previous_state.insert(k, new_value);
    outcome
}

/// Whether the integer sum that `update_content_state` would make fits in
/// `isize`, so that it may be asked.
pub fn content_sum_fits_exec(st: &Entity, k: &str, v: &Types) -> (r: bool)
    ensures
        r == content_sum_fits(st@, k@, v@),
{
    match v {
        Types::Integer(i) => match entity_get(st, k) {
            Some(Types::Integer(l)) => {
                let a = *l as i128;
                let b = *i as i128;
                let s = a + b;
                (isize::MIN as i128) <= s && s <= (isize::MAX as i128)
            },
            _ => true,
        },
        _ => true,
    }
}

/// One step of `UPDATE ... CONTENT`: `v` added under `k` (see
/// `update_content_state`); where the sum is one of floating-point numbers,
/// the key holds the value to add to.
pub open spec fn content_step(st: StateV, k: Seq<char>, v: TypesV) -> StateV {
    let start = start_value(st, k, v);
    st.insert(
        k,
        match content_update(start, v) {
            Some(x) => x,
            None => start,
        },
    )
}

/// The state after the first `n` pairs of a content (keys `ks`, values `vs`)
/// are added, in order.
pub open spec fn content_fold(st: StateV, ks: Seq<Seq<char>>, vs: Seq<TypesV>, n: nat) -> StateV
    decreases n,
{
    if n == 0 {
        st
    } else {
        content_step(content_fold(st, ks, vs, (n - 1) as nat), ks[n - 1], vs[n - 1])
    }
}

/// Every integer sum that the first `n` steps make fits in `isize`.
pub open spec fn content_fold_fits(st: StateV, ks: Seq<Seq<char>>, vs: Seq<TypesV>, n: nat) -> bool
    decreases n,
{
    if n == 0 {
        true
    } else {
        content_fold_fits(st, ks, vs, (n - 1) as nat) && content_sum_fits(
            content_fold(st, ks, vs, (n - 1) as nat),
            ks[n - 1],
            vs[n - 1],
        )
    }
}

/// The keys, in order, whose step among the first `n` is a sum of
/// floating-point numbers, left for the caller to add.
pub open spec fn float_keys(st: StateV, ks: Seq<Seq<char>>, vs: Seq<TypesV>, n: nat) -> Seq<
    Seq<char>,
>
    decreases n,
{
    if n == 0 {
        Seq::empty()
    } else {
        let s = content_fold(st, ks, vs, (n - 1) as nat);
        let prev = float_keys(st, ks, vs, (n - 1) as nat);
        if content_update(start_value(s, ks[n - 1], vs[n - 1]), vs[n - 1]) is None {
            prev.push(ks[n - 1])
        } else {
            prev
        }
    }
}

fn copy_state(e: &Entity) -> (r: Entity)
    requires
        e.wf(),
    ensures
        r.wf(),
        r@ == e@,
{
    let empty = Entity::new();
    let r = merge_entities(e, &empty);
    assert(r@ =~= e@);
    r
}

/// Whether every integer sum that `UPDATE ... CONTENT` with `content` makes on
/// `previous_state` fits in `isize`, so that `update_content_entity` may be
/// asked.
pub fn update_content_fits(previous_state: &Entity, content: &Entity) -> (r: bool)
    requires
        previous_state.wf(),
        content.wf(),
    ensures
        r == content_fold_fits(
            previous_state@,
            strings_view(content.keys@),
            types_seq_view(content.values@),
            content.keys@.len() as nat,
        ),
{
    let ghost ks = strings_view(content.keys@);
    let ghost vs = types_seq_view(content.values@);
    proof {
        lemma_seq_view(content.values@);
    }
    let mut st = copy_state(previous_state);
    let mut i: usize = 0;
    while i < content.keys.len()
        invariant
            content.wf(),
            i <= content.keys.len(),
            ks == strings_view(content.keys@),
            vs == types_seq_view(content.values@),
            vs.len() == content.values@.len(),
            forall|j: int| 0 <= j < content.values@.len() ==> #[trigger] vs[j] == content.values@[j]@,
            st.wf(),
            st@ == content_fold(previous_state@, ks, vs, i as nat),
            content_fold_fits(previous_state@, ks, vs, i as nat),
        decreases content.keys.len() - i,
    {
        assert(ks[i as int] == content.keys@[i as int]@);
        assert(vs[i as int] == content.values@[i as int]@);
        if !content_sum_fits_exec(&st, content.keys[i].as_str(), &content.values[i]) {
            proof {
                let n = content.keys@.len() as nat;
                if content_fold_fits(previous_state@, ks, vs, n) {
                    lemma_fold_fits_prefix(previous_state@, ks, vs, n, (i + 1) as nat);
                }
            }
            return false;
        }
        let _ = update_content_state(&mut st, content.keys[i].clone(), clone_types(&content.values[i]));
        i = i + 1;
    }
    true
}

/// `UPDATE ... CONTENT`: each pair of `content` added, in order, into the
/// previous state (see `update_content_state`); the keys whose sum is one of
/// floating-point numbers are returned, in order, with the state holding the
/// value to add to.
pub fn update_content_entity(previous_state: &Entity, content: &Entity) -> (r: (Entity, Vec<String>))
    requires
        previous_state.wf(),
        content.wf(),
        content_fold_fits(
            previous_state@,
            strings_view(content.keys@),
            types_seq_view(content.values@),
            content.keys@.len() as nat,
        ),
    ensures
        r.0.wf(),
        r.0@ == content_fold(
            previous_state@,
            strings_view(content.keys@),
            types_seq_view(content.values@),
            content.keys@.len() as nat,
        ),
        strings_view(r.1@) == float_keys(
            previous_state@,
            strings_view(content.keys@),
            types_seq_view(content.values@),
            content.keys@.len() as nat,
        ),
{
    let ghost ks = strings_view(content.keys@);
    let ghost vs = types_seq_view(content.values@);
    let ghost n = content.keys@.len() as nat;
    proof {
        lemma_seq_view(content.values@);
    }
    let mut st = copy_state(previous_state);
    let mut floats: Vec<String> = Vec::new();
    let mut i: usize = 0;
    while i < content.keys.len()
        invariant
            content.wf(),
            i <= content.keys.len(),
            n == content.keys@.len(),
            ks == strings_view(content.keys@),
            vs == types_seq_view(content.values@),
            vs.len() == content.values@.len(),
            forall|j: int| 0 <= j < content.values@.len() ==> #[trigger] vs[j] == content.values@[j]@,
            content_fold_fits(previous_state@, ks, vs, n),
            st.wf(),
            st@ == content_fold(previous_state@, ks, vs, i as nat),
            strings_view(floats@) == float_keys(previous_state@, ks, vs, i as nat),
        decreases content.keys.len() - i,
    {
        assert(ks[i as int] == content.keys@[i as int]@);
        assert(vs[i as int] == content.values@[i as int]@);
        proof {
            lemma_fold_fits_prefix(previous_state@, ks, vs, n, (i + 1) as nat);
        }
        let key = content.keys[i].clone();
        let outcome = update_content_state(&mut st, content.keys[i].clone(), clone_types(&content.values[i]));
        if outcome == ContentUpdate::FloatSum {
            let ghost before = floats@;
            floats.push(key);
            assert(strings_view(floats@) =~= strings_view(before).push(ks[i as int]));
        }
        i = i + 1;
    }
    (st, floats)
}

proof fn lemma_fold_fits_prefix(st: StateV, ks: Seq<Seq<char>>, vs: Seq<TypesV>, n: nat, m: nat)
    requires
        m <= n,
        content_fold_fits(st, ks, vs, n),
    ensures
        content_fold_fits(st, ks, vs, m),
    decreases n - m,
{
    if m < n {
        lemma_fold_fits_prefix(st, ks, vs, (n - 1) as nat, m);
    }
}

/// The pieces of a log line between `|`.
pub open spec fn log_fields(line: Seq<char>) -> Seq<Seq<char>> {
    split_on(line, '|')
}

/// A field without its last character (the `;` that ends a line).
pub open spec fn without_last(f: Seq<char>) -> Seq<char> {
    f.subrange(0, f.len() - 1)
}

/// Where the state stands in a log line: the last field (without its last
/// character) of an `INSERT`, the field before the last of an `UPDATE_SET`
/// or `UPDATE_CONTENT`; any other line has none.
pub open spec fn state_of_log(line: Seq<char>) -> Result<Seq<char>, Error> {
    let fs = log_fields(line);
    if fs[0] == "INSERT"@ {
        Ok(without_last(fs.last()))
    } else if fs[0] == "UPDATE_SET"@ || fs[0] == "UPDATE_CONTENT"@ {
        Ok(fs[fs.len() - 2])
    } else {
        Err(Error::FailedToParseState)
    }
}

/// Where the previous registry stands in a log line: an `INSERT` has none;
/// for an update it is the last field without its last character; any other
/// line is an error.
pub open spec fn registry_of_log(line: Seq<char>) -> Result<Option<Seq<char>>, Error> {
    let fs = log_fields(line);
    if fs[0] == "INSERT"@ {
        Ok(None)
    } else if fs[0] == "UPDATE_SET"@ || fs[0] == "UPDATE_CONTENT"@ {
        Ok(Some(without_last(fs.last())))
    } else {
        Err(Error::FailedToParseRegistry)
    }
}

/// The log line can be cut as `state_of_log` cuts it: the field it drops a
/// character from is not empty and ends in an ASCII character, and an update
/// line has at least two fields.
pub open spec fn state_log_wf(line: Seq<char>) -> bool {
    let fs = log_fields(line);
    &&& fs[0] == "INSERT"@ ==> fs.last().len() > 0 && (fs.last().last() as u32) < 128
    &&& (fs[0] == "UPDATE_SET"@ || fs[0] == "UPDATE_CONTENT"@) ==> fs.len() >= 2
}

/// The log line can be cut as `registry_of_log` cuts it.
pub open spec fn registry_log_wf(line: Seq<char>) -> bool {
    let fs = log_fields(line);
    (fs[0] == "UPDATE_SET"@ || fs[0] == "UPDATE_CONTENT"@) ==> fs.last().len() > 0 && (
    fs.last().last() as u32) < 128
}

/// Whether `state_text` may be asked of the line.
pub fn state_log_ok(line: &str) -> (r: bool)
    ensures
        r == state_log_wf(line@),
{
    let c = chars_of(line);
    let fs = split_chars(&c, '|');
    proof {
        crate::text::lemma_split_on_nonempty(line@, '|');
    }
    let ghost fv = fs@.map_values(|f: Vec<char>| f@);
    assert(fs@[0]@ == fv[0]);
    let last = &fs[fs.len() - 1];
    assert(last@ == fv.last());
    let insert = crate::text::is_text(&fs[0], "INSERT");
    let update = crate::text::is_text(&fs[0], "UPDATE_SET") || crate::text::is_text(
        &fs[0],
        "UPDATE_CONTENT",
    );
    (!insert || (last.len() > 0 && (last[last.len() - 1] as u32) < 128)) && (!update || fs.len()
        >= 2)
}

/// Whether `previous_registry_text` may be asked of the line.
pub fn registry_log_ok(line: &str) -> (r: bool)
    ensures
        r == registry_log_wf(line@),
{
    let c = chars_of(line);
    let fs = split_chars(&c, '|');
    proof {
        crate::text::lemma_split_on_nonempty(line@, '|');
    }
    let ghost fv = fs@.map_values(|f: Vec<char>| f@);
    assert(fs@[0]@ == fv[0]);
    let last = &fs[fs.len() - 1];
    assert(last@ == fv.last());
    let update = crate::text::is_text(&fs[0], "UPDATE_SET") || crate::text::is_text(
        &fs[0],
        "UPDATE_CONTENT",
    );
    !update || (last.len() > 0 && (last[last.len() - 1] as u32) < 128)
}

/// The text of the state that a log line records.
pub fn state_text(line: &str) -> (r: Result<String, Error>)
    requires
        state_log_wf(line@),
    ensures
        match (r, state_of_log(line@)) {
            (Ok(t), Ok(s)) => t@ == s,
            (Err(e), Err(f)) => e == f,
            _ => false,
        },
{
    let c = chars_of(line);
    let fs = split_chars(&c, '|');
    proof {
        crate::text::lemma_split_on_nonempty(line@, '|');
    }
    let ghost fv = fs@.map_values(|f: Vec<char>| f@);
    assert(fv == log_fields(line@));
    assert(fs@[0]@ == fv[0]);
    let first = &fs[0];
    if crate::text::is_text(first, "INSERT") {
        let last = &fs[fs.len() - 1];
        assert(last@ == fv.last());
        Ok(string_of(&slice_chars(last, 0, last.len() - 1)))
    } else if crate::text::is_text(first, "UPDATE_SET") || crate::text::is_text(
        first,
        "UPDATE_CONTENT",
    ) {
        let f = &fs[fs.len() - 2];
        assert(f@ == fv[fv.len() - 2]);
        Ok(string_of(f))
    } else {
        Err(Error::FailedToParseState)
    }
}

/// The text of the previous registry that a log line records, if any.
pub fn previous_registry_text(line: &str) -> (r: Result<Option<String>, Error>)
    requires
        registry_log_wf(line@),
    ensures
        match (r, registry_of_log(line@)) {
            (Ok(None), Ok(None)) => true,
            (Ok(Some(t)), Ok(Some(s))) => t@ == s,
            (Err(e), Err(f)) => e == f,
            _ => false,
        },
{
    let c = chars_of(line);
    let fs = split_chars(&c, '|');
    proof {
        crate::text::lemma_split_on_nonempty(line@, '|');
    }
    let ghost fv = fs@.map_values(|f: Vec<char>| f@);
    assert(fv == log_fields(line@));
    assert(fs@[0]@ == fv[0]);
    let first = &fs[0];
    if crate::text::is_text(first, "INSERT") {
        Ok(None)
    } else if crate::text::is_text(first, "UPDATE_SET") || crate::text::is_text(
        first,
        "UPDATE_CONTENT",
    ) {
        let last = &fs[fs.len() - 1];
        assert(last@ == fv.last());
        Ok(Some(string_of(&slice_chars(last, 0, last.len() - 1))))
    } else {
        Err(Error::FailedToParseRegistry)
    }
}

/// What the history of a registry reads from one of its log lines: the date,
/// the state, and the previous registry (none for an insertion). Lines of
/// other kinds are `FailedToParseState`.
pub open spec fn history_of(line: Seq<char>) -> Result<
    (Seq<char>, Seq<char>, Option<Seq<char>>),
    Error,
> {
    let fs = log_fields(line);
    if fs[0] == "INSERT"@ {
        if fs.len() < 2 {
            Err(Error::FailedToParseState)
        } else {
            Ok((fs[1], without_last(fs.last()), None))
        }
    } else if fs[0] == "UPDATE_SET"@ || fs[0] == "UPDATE_CONTENT"@ || fs[0] == "DELETE"@ {
        Ok((fs[1], fs[fs.len() - 2], Some(without_last(fs.last()))))
    } else {
        Err(Error::FailedToParseState)
    }
}

/// The line can be cut as `history_of` cuts it.
pub open spec fn history_log_wf(line: Seq<char>) -> bool {
    let fs = log_fields(line);
    &&& fs[0] == "INSERT"@ ==> fs.last().len() > 0 && (fs.last().last() as u32) < 128
    &&& (fs[0] == "UPDATE_SET"@ || fs[0] == "UPDATE_CONTENT"@ || fs[0] == "DELETE"@) ==> fs.len()
        >= 2 && fs.last().len() > 0 && (fs.last().last() as u32) < 128
}

/// Whether `history_fields` may be asked of the line.
pub fn history_log_ok(line: &str) -> (r: bool)
    ensures
        r == history_log_wf(line@),
{
    let c = chars_of(line);
    let fs = split_chars(&c, '|');
    proof {
        crate::text::lemma_split_on_nonempty(line@, '|');
    }
    let ghost fv = fs@.map_values(|f: Vec<char>| f@);
    assert(fs@[0]@ == fv[0]);
    let last = &fs[fs.len() - 1];
    assert(last@ == fv.last());
    let last_ok = last.len() > 0 && (last[last.len() - 1] as u32) < 128;
    let insert = crate::text::is_text(&fs[0], "INSERT");
    let other = crate::text::is_text(&fs[0], "UPDATE_SET") || crate::text::is_text(
        &fs[0],
        "UPDATE_CONTENT",
    ) || crate::text::is_text(&fs[0], "DELETE");
    (!insert || last_ok) && (!other || (fs.len() >= 2 && last_ok))
}

/// The date, state and previous registry that a log line records.
pub fn history_fields(line: &str) -> (r: Result<(String, String, Option<String>), Error>)
    requires
        history_log_wf(line@),
    ensures
        match (r, history_of(line@)) {
            (Ok((d, c, None)), Ok((d2, c2, None))) => d@ == d2 && c@ == c2,
            (Ok((d, c, Some(g))), Ok((d2, c2, Some(g2)))) => d@ == d2 && c@ == c2 && g@ == g2,
            (Err(e), Err(f)) => e == f,
            _ => false,
        },
{
    let c = chars_of(line);
    let fs = split_chars(&c, '|');
    proof {
        crate::text::lemma_split_on_nonempty(line@, '|');
    }
    let ghost fv = fs@.map_values(|f: Vec<char>| f@);
    assert(fv == log_fields(line@));
    assert(fs@[0]@ == fv[0]);
    let last = &fs[fs.len() - 1];
    assert(last@ == fv.last());
    if crate::text::is_text(&fs[0], "INSERT") {
        if fs.len() < 2 {
            return Err(Error::FailedToParseState);
        }
        assert(fs@[1]@ == fv[1]);
        Ok((string_of(&fs[1]), string_of(&slice_chars(last, 0, last.len() - 1)), None))
    } else if crate::text::is_text(&fs[0], "UPDATE_SET") || crate::text::is_text(
        &fs[0],
        "UPDATE_CONTENT",
    ) || crate::text::is_text(&fs[0], "DELETE") {
        assert(fs@[1]@ == fv[1]);
        let f = &fs[fs.len() - 2];
        assert(f@ == fv[fv.len() - 2]);
        Ok((
            string_of(&fs[1]),
            string_of(f),
            Some(string_of(&slice_chars(last, 0, last.len() - 1))),
        ))
    } else {
        Err(Error::FailedToParseState)
    }
}

/// The character does not occur in the text.
pub open spec fn free_of(s: Seq<char>, c: char) -> bool {
    forall|i: int| 0 <= i < s.len() ==> s[i] != c
}

pub(crate) proof fn lemma_split_free(s: Seq<char>, sep: char)
    requires
        free_of(s, sep),
    ensures
        split_on(s, sep) == seq![s],
    decreases s.len(),
{
    if s.len() > 0 {
        assert(free_of(s.drop_last(), sep)) by {
            assert forall|i: int| 0 <= i < s.drop_last().len() implies s.drop_last()[i] != sep by {
                assert(s.drop_last()[i] == s[i]);
            }
        }
        lemma_split_free(s.drop_last(), sep);
        assert(s[s.len() - 1] != sep);
        assert(s.drop_last().push(s.last()) =~= s);
        assert(seq![s.drop_last()].update(0, s.drop_last().push(s.last())) =~= seq![s]);
    } else {
        assert(s =~= Seq::<char>::empty());
    }
}

pub(crate) proof fn lemma_split_concat(s: Seq<char>, t: Seq<char>, sep: char)
    ensures
        split_on(s + seq![sep] + t, sep) == split_on(s, sep) + split_on(t, sep),
    decreases t.len(),
{
    let u = s + seq![sep] + t;
    if t.len() == 0 {
        assert(u.drop_last() =~= s);
        assert(u.last() == sep);
        assert(split_on(t, sep) =~= seq![Seq::<char>::empty()]);
        assert(split_on(s, sep).push(Seq::empty()) =~= split_on(s, sep) + seq![Seq::<char>::empty()]);
    } else {
        assert(u.drop_last() =~= s + seq![sep] + t.drop_last());
        assert(u.last() == t.last());
        lemma_split_concat(s, t.drop_last(), sep);
        crate::text::lemma_split_on_nonempty(t.drop_last(), sep);
        let a = split_on(s, sep);
        let b = split_on(t.drop_last(), sep);
        if t.last() == sep {
            assert((a + b).push(Seq::empty()) =~= a + b.push(Seq::empty()));
        } else {
            assert((a + b).update((a + b).len() - 1, (a + b).last().push(t.last())) =~= a + b.update(
                b.len() - 1,
                b.last().push(t.last()),
            ));
        }
    }
}

/// The pieces between `|` of the action name and its fields.
pub(crate) proof fn lemma_fields_split(a: Action, fields: Seq<Seq<char>>)
    requires
        free_of(action_text(a), '|'),
        forall|j: int| 0 <= j < fields.len() ==> free_of(#[trigger] fields[j], '|'),
    ensures
        split_on(action_text(a) + fields_text(fields), '|') == seq![action_text(a)] + fields,
    decreases fields.len(),
{
    if fields.len() == 0 {
        lemma_split_free(action_text(a), '|');
        assert(action_text(a) + fields_text(fields) =~= action_text(a));
        assert(seq![action_text(a)] + fields =~= seq![action_text(a)]);
    } else {
        let pre = fields.drop_last();
        assert forall|j: int| 0 <= j < pre.len() implies free_of(#[trigger] pre[j], '|') by {
            assert(pre[j] == fields[j]);
        }
        lemma_fields_split(a, pre);
        assert(free_of(fields[fields.len() - 1], '|'));
        lemma_split_free(fields.last(), '|');
        lemma_split_concat(action_text(a) + fields_text(pre), fields.last(), '|');
        assert(action_text(a) + fields_text(fields) =~= action_text(a) + fields_text(pre) + seq!['|']
            + fields.last());
        assert(seq![action_text(a)] + pre + seq![fields.last()] =~= seq![action_text(a)] + fields);
    }
}

/// The fields of a written log line, read back: the action name, the fields,
/// the last one followed by the `;` that ends the line.
pub proof fn law_log_line_fields(a: Action, fields: Seq<Seq<char>>)
    requires
        a != Action::Error,
        fields.len() >= 1,
        forall|j: int| 0 <= j < fields.len() ==> free_of(#[trigger] fields[j], '|'),
    ensures
        log_fields(log_line(a, fields)) == seq![action_text(a)] + fields.drop_last() + seq![
            fields.last().push(';'),
        ],
        crate::model::action_of(log_fields(log_line(a, fields))[0]) == a,
{
    reveal_strlit("READ");
    reveal_strlit("CREATE_ENTITY");
    reveal_strlit("INSERT");
    reveal_strlit("DELETE");
    reveal_strlit("UPDATE_SET");
    reveal_strlit("UPDATE_CONTENT");
    reveal_strlit("EVICT_ENTITY");
    reveal_strlit("EVICT_ENTITY_ID");
    assert(free_of(action_text(a), '|'));
    lemma_fields_split(a, fields);
    let u = action_text(a) + fields_text(fields);
    assert(log_line(a, fields) =~= u.push(';'));
    assert(u.push(';').drop_last() =~= u);
    let b = seq![action_text(a)] + fields;
    assert(b.update(b.len() - 1, b.last().push(';')) =~= seq![action_text(a)] + fields.drop_last()
        + seq![fields.last().push(';')]);
    crate::model::lemma_action_round_trip(a);
}

/// What the log keeps of an insertion is read back: the state of an
/// `INSERT` line is the content written, and it has no previous registry.
pub proof fn law_insert_line_read_back(
    date: Seq<char>,
    id: u128,
    name: Seq<char>,
    content: Seq<char>,
)
    requires
        free_of(date, '|'),
        free_of(name, '|'),
        free_of(content, '|'),
    ensures
        state_of_log(log_line(Action::Insert, seq![date, uuid_text(id), name, content])) == Ok::<
            Seq<char>,
            Error,
        >(content),
        registry_of_log(log_line(Action::Insert, seq![date, uuid_text(id), name, content]))
            == Ok::<Option<Seq<char>>, Error>(None),
        history_of(log_line(Action::Insert, seq![date, uuid_text(id), name, content])) == Ok::<
            (Seq<char>, Seq<char>, Option<Seq<char>>),
            Error,
        >((date, content, None)),
{
    crate::log::lemma_uuid_text_plain(id);
    assert(free_of(uuid_text(id), '|'));
    let fields = seq![date, uuid_text(id), name, content];
    assert forall|j: int| 0 <= j < fields.len() implies free_of(#[trigger] fields[j], '|') by {}
    law_log_line_fields(Action::Insert, fields);
    reveal_strlit("INSERT");
    let fs = log_fields(log_line(Action::Insert, fields));
    assert(fs[0] == "INSERT"@);
    assert(fs.last() == content.push(';'));
    assert(without_last(content.push(';')) =~= content);
    assert(fs[1] == date);
}

/// What the log keeps of an update is read back: the state of an
/// `UPDATE_SET` line is the state written, and its previous registry is the
/// one written.
pub proof fn law_update_line_read_back(
    date: Seq<char>,
    id: u128,
    name: Seq<char>,
    content_log: Seq<char>,
    current_state: Seq<char>,
    previous_registry: Seq<char>,
)
    requires
        free_of(date, '|'),
        free_of(name, '|'),
        free_of(content_log, '|'),
        free_of(current_state, '|'),
        free_of(previous_registry, '|'),
    ensures
        ({
            let line = log_line(
                Action::UpdateSet,
                seq![date, uuid_text(id), name, content_log, current_state, previous_registry],
            );
            &&& state_of_log(line) == Ok::<Seq<char>, Error>(current_state)
            &&& registry_of_log(line) == Ok::<Option<Seq<char>>, Error>(Some(previous_registry))
            &&& history_of(line) == Ok::<(Seq<char>, Seq<char>, Option<Seq<char>>), Error>(
                (date, current_state, Some(previous_registry)),
            )
        }),
{
    crate::log::lemma_uuid_text_plain(id);
    assert(free_of(uuid_text(id), '|'));
    let fields = seq![date, uuid_text(id), name, content_log, current_state, previous_registry];
    assert forall|j: int| 0 <= j < fields.len() implies free_of(#[trigger] fields[j], '|') by {}
    law_log_line_fields(Action::UpdateSet, fields);
    reveal_strlit("INSERT");
    reveal_strlit("UPDATE_SET");
    let fs = log_fields(log_line(Action::UpdateSet, fields));
    assert(fs[0] == "UPDATE_SET"@);
    assert(fs[0] != "INSERT"@);
    assert(fs.last() == previous_registry.push(';'));
    assert(without_last(previous_registry.push(';')) =~= previous_registry);
    assert(fs[fs.len() - 2] == current_state);
    assert(fs[1] == date);
}

/// On integers, a condition of `MATCH` holds of a state holding `s` under
/// its key exactly when `s` stands to the condition's integer `c` as the
/// condition asks: `a >= c` holds when the state's value is at least `c`
/// (so also when it equals `c`), and so on.
pub proof fn law_match_integer_conditions(key: Seq<char>, s: int, c: int, st: StateV)
    requires
        st.contains_key(key),
        st[key] == TypesV::Integer(s),
    ensures
        condition_holds(MatchConditionV::Eq(key, TypesV::Integer(c)), st) == (s == c),
        condition_holds(MatchConditionV::NotEq(key, TypesV::Integer(c)), st) == (s != c),
        condition_holds(MatchConditionV::GEq(key, TypesV::Integer(c)), st) == (s >= c),
        condition_holds(MatchConditionV::G(key, TypesV::Integer(c)), st) == (s > c),
        condition_holds(MatchConditionV::LEq(key, TypesV::Integer(c)), st) == (s <= c),
        condition_holds(MatchConditionV::L(key, TypesV::Integer(c)), st) == (s < c),
{
}

/// On floats, a condition of `MATCH` compares the state's number with the
/// condition's by their order (see `FloatInfo`); a NaN on either side makes
/// every ordered condition fail.
pub proof fn law_match_float_conditions(
    key: Seq<char>,
    ts: Seq<char>,
    tc: Seq<char>,
    p: Option<FloatInfo>,
    q: Option<FloatInfo>,
    st: StateV,
)
    requires
        st.contains_key(key),
        st[key] == TypesV::Float(ts, p),
    ensures
        ({
            let c = TypesV::Float(tc, q);
            &&& (p is None || q is None) ==> {
                &&& !condition_holds(MatchConditionV::GEq(key, c), st)
                &&& !condition_holds(MatchConditionV::G(key, c), st)
                &&& !condition_holds(MatchConditionV::LEq(key, c), st)
                &&& !condition_holds(MatchConditionV::L(key, c), st)
            }
            &&& p matches Some(x) ==> (q matches Some(y) ==> {
                &&& condition_holds(MatchConditionV::GEq(key, c), st) == (x.order >= y.order)
                &&& condition_holds(MatchConditionV::G(key, c), st) == (x.order > y.order)
                &&& condition_holds(MatchConditionV::LEq(key, c), st) == (x.order <= y.order)
                &&& condition_holds(MatchConditionV::L(key, c), st) == (x.order < y.order)
            })
        }),
{
}

/// `MATCH ALL` succeeds exactly when each of its conditions holds, and
/// `MATCH ANY` when one of them does; otherwise the answer is
/// `FailedMatchCondition`.
pub proof fn law_match_all_any(conds: Seq<MatchConditionV>, st: StateV)
    ensures
        (match_outcome(MatchConditionV::All(conds), st) is Ok) == (forall|i: int|
            0 <= i < conds.len() ==> #[trigger] condition_holds(conds[i], st)),
        (match_outcome(MatchConditionV::Any(conds), st) is Ok) == (exists|i: int|
            0 <= i < conds.len() && #[trigger] condition_holds(conds[i], st)),
        match_outcome(MatchConditionV::All(conds), st) matches Err(e) ==> e is FailedMatchCondition,
        match_outcome(MatchConditionV::Any(conds), st) matches Err(e) ==> e is FailedMatchCondition,
{
}

/// `UPDATE ... CONTENT` replaces a character, an identifier, a boolean,
/// `Nil`, a precise number or a date by the new value, whatever the key
/// held before; it adds integers to integers, appends strings to strings
/// and vectors to vectors, and merges maps into maps, the new keys winning;
/// a sum that involves a float is left to the caller (`None`); a hash, or a
/// value of a kind the key's value cannot take in, leaves the key as it was.
pub proof fn law_content_update(local: TypesV, v: TypesV)
    ensures
        (v is Char || v is Uuid || v is Boolean || v is Nil || v is Precise || v is DateTime)
            ==> content_update(local, v) == Some(v),
        local matches TypesV::Integer(l) ==> (v matches TypesV::Integer(i) ==> content_update(local, v)
            == Some(TypesV::Integer(l + i))),
        local matches TypesV::String(l) ==> (v matches TypesV::String(t) ==> content_update(local, v)
            == Some(TypesV::String(l + t))),
        local matches TypesV::Vector(l) ==> (v matches TypesV::Vector(t) ==> content_update(local, v)
            == Some(TypesV::Vector(l + t))),
        local matches TypesV::Mapping(l) ==> (v matches TypesV::Mapping(m) ==> content_update(local, v)
            == Some(TypesV::Mapping(l.union_prefer_right(m)))),
        v is Hash ==> content_update(local, v) == Some(local),
        v is Float && (local is Float || local is Integer) ==> content_update(local, v) is None,
        v is Integer && local is Float ==> content_update(local, v) is None,
        v is Float && !(local is Float || local is Integer) ==> content_update(local, v) == Some(local),
        v is Integer && !(local is Float || local is Integer) ==> content_update(local, v) == Some(local),
        v is String && !(local is String) ==> content_update(local, v) == Some(local),
        v is Vector && !(local is Vector) ==> content_update(local, v) == Some(local),
        v is Mapping && !(local is Mapping) ==> content_update(local, v) == Some(local),
{
}

/// After `UPDATE ... CONTENT` of one key, the state holds the new value
/// there for a character, an identifier, a boolean, `Nil`, a precise
/// number or a date, whether or not the key was present; an integer is
/// added to the integer the key held (to 0 where it was absent); every
/// other key keeps its value.
pub proof fn law_content_step(st: StateV, k: Seq<char>, v: TypesV)
    ensures
        (v is Char || v is Uuid || v is Boolean || v is Nil || v is Precise || v is DateTime)
            ==> content_fold(st, seq![k], seq![v], 1) == st.insert(k, v),
        v matches TypesV::Integer(i) ==> (st.contains_key(k) ==> (st[k] matches TypesV::Integer(l)
            ==> content_fold(st, seq![k], seq![v], 1) == st.insert(k, TypesV::Integer(l + i)))),
        v matches TypesV::Integer(i) ==> (!st.contains_key(k) ==> content_fold(st, seq![k], seq![v], 1)
            == st.insert(k, TypesV::Integer(i))),
        forall|q: Seq<char>| q != k && #[trigger] st.contains_key(q) ==> content_fold(st, seq![k], seq![v], 1)
            .contains_key(q) && content_fold(st, seq![k], seq![v], 1)[q] == st[q],
{
    let ks = seq![k];
    let vs = seq![v];
    assert(content_fold(st, ks, vs, 0) == st);
    assert(ks[0] == k && vs[0] == v);
    assert(content_fold(st, ks, vs, 1) == content_step(st, k, v));
}

} // verus!
