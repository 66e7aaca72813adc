//! The values that entities hold, and their mathematical model.

use vstd::prelude::*;

verus! {

/// A value stored under a key of an entity.
///
/// A `Float` holds its decimal text and, once the number it denotes is known,
/// how it compares (see `FloatInfo`); `Uuid` holds the
/// 128-bit value of the identifier; `DateTime` holds the seconds since the
/// Unix epoch and the nanoseconds within that second, in UTC.
#[derive(Debug, PartialEq)]
pub enum Types {
    Char(char),
    Integer(isize),
    String(String),
    Uuid(u128),
    Float(String, Option<FloatInfo>),
    Boolean(bool),
    Vector(Vec<Types>),
    Mapping(Entity),
    Hash(String),
    Precise(String),
    DateTime(i64, u32),
    Nil,
}

/// How a floating-point number compares, worked out where the number is read
/// (the library does no floating-point arithmetic): `order` orders and
/// equates numbers as they compare, `floor` is the largest integer not above
/// the number (clamped to the range of `i128`), and `fraction` says whether
/// the number lies strictly above `floor`.
#[derive(Debug, PartialEq, Eq, Structural, Clone, Copy)]
pub struct FloatInfo {
    pub order: i128,
    pub floor: i128,
    pub fraction: bool,
}

/// A map from key names to values, kept in the order in which keys were
/// first inserted. Each key occurs once.
#[derive(Debug, PartialEq)]
pub struct Entity {
    pub keys: Vec<String>,
    pub values: Vec<Types>,
}

/// The model of a value.
pub enum TypesV {
    Char(char),
    Integer(int),
    String(Seq<char>),
    Uuid(u128),
    Float(Seq<char>, Option<FloatInfo>),
    Boolean(bool),
    Vector(Seq<TypesV>),
    Mapping(Map<Seq<char>, TypesV>),
    Hash(Seq<char>),
    Precise(Seq<char>),
    DateTime(i64, u32),
    Nil,
}


pub open spec fn types_view(t: Types) -> TypesV
    decreases t,
{
    match t {
        Types::Char(c) => TypesV::Char(c),
        Types::Integer(i) => TypesV::Integer(i as int),
        Types::String(s) => TypesV::String(s@),
        Types::Uuid(u) => TypesV::Uuid(u),
        Types::Float(s, i) => TypesV::Float(s@, i),
        Types::Boolean(b) => TypesV::Boolean(b),
        Types::Vector(v) => TypesV::Vector(types_seq_view(v@)),
        Types::Mapping(e) => TypesV::Mapping(entity_map(strings_view(e.keys@), e.values@)),
        Types::Hash(s) => TypesV::Hash(s@),
        Types::Precise(s) => TypesV::Precise(s@),
        Types::DateTime(a, b) => TypesV::DateTime(a, b),
        Types::Nil => TypesV::Nil,
    }
}

pub open spec fn types_seq_view(s: Seq<Types>) -> Seq<TypesV>
    decreases s,
{
    if s.len() == 0 {
        Seq::empty()
    } else {
        types_seq_view(s.drop_last()).push(types_view(s.last()))
    }
}

/// The map that results from inserting, in order, each key with the model of
/// the value at the same position (a later key replaces an earlier equal one).
pub open spec fn entity_map(keys: Seq<Seq<char>>, vals: Seq<Types>) -> Map<Seq<char>, TypesV>
    decreases vals,
{
    if vals.len() == 0 || keys.len() == 0 {
        Map::empty()
    } else {
        entity_map(keys.drop_last(), vals.drop_last()).insert(keys.last(), types_view(vals.last()))
    }
}

/// The characters of each string.
pub open spec fn strings_view(s: Seq<String>) -> Seq<Seq<char>> {
    s.map_values(|x: String| x@)
}

impl View for Types {
    type V = TypesV;

    open spec fn view(&self) -> TypesV {
        types_view(*self)
    }
}

impl View for Entity {
    type V = Map<Seq<char>, TypesV>;

    open spec fn view(&self) -> Map<Seq<char>, TypesV> {
        entity_map(strings_view(self.keys@), self.values@)
    }
}

impl Entity {
    /// Keys and values are paired one to one.
    pub open spec fn wf(&self) -> bool {
        self.keys@.len() == self.values@.len()
    }
}

pub proof fn lemma_char_view(c: char)
    ensures
        types_view(Types::Char(c)) == TypesV::Char(c),
{
}

pub proof fn lemma_nil_view(t: Types)
    ensures
        (types_view(t) == TypesV::Nil) <==> (t is Nil),
{
}

pub proof fn lemma_vector_view(v: Vec<Types>)
    ensures
        types_view(Types::Vector(v)) == TypesV::Vector(types_seq_view(v@)),
{
}

pub proof fn lemma_seq_view(s: Seq<Types>)
    ensures
        types_seq_view(s).len() == s.len(),
        forall|i: int| 0 <= i < s.len() ==> #[trigger] types_seq_view(s)[i] == types_view(s[i]),
    decreases s.len(),
{
    if s.len() > 0 {
        lemma_seq_view(s.drop_last());
        assert forall|i: int| 0 <= i < s.len() implies #[trigger] types_seq_view(s)[i] == types_view(
            s[i],
        ) by {
            if i < s.len() - 1 {
                assert(s.drop_last()[i] == s[i]);
            }
        }
    }
}

pub proof fn lemma_seq_view_push(s: Seq<Types>, x: Types)
    ensures
        types_seq_view(s.push(x)) == types_seq_view(s).push(types_view(x)),
{
    assert(s.push(x).drop_last() =~= s);
}

/// Two sequences of values have the same model exactly when they have the same
/// length and the same model at each position.
pub proof fn lemma_seq_view_eq(a: Seq<Types>, b: Seq<Types>)
    ensures
        (types_seq_view(a) == types_seq_view(b)) <==> (a.len() == b.len() && forall|i: int|
            0 <= i < a.len() ==> types_view(#[trigger] a[i]) == types_view(b[i])),
{
    lemma_seq_view(a);
    lemma_seq_view(b);
    if a.len() == b.len() && forall|i: int|
        0 <= i < a.len() ==> types_view(#[trigger] a[i]) == types_view(b[i]) {
        assert(types_seq_view(a) =~= types_seq_view(b));
    }
    if types_seq_view(a) == types_seq_view(b) {
        assert forall|i: int| 0 <= i < a.len() implies types_view(#[trigger] a[i]) == types_view(
            b[i],
        ) by {
            assert(types_seq_view(a)[i] == types_seq_view(b)[i]);
        }
    }
}

/// A copy of a value with the same model.
pub fn clone_types(t: &Types) -> (r: Types)
    ensures
        r@ == t@,
    decreases t,
{
    match t {
        Types::Char(c) => Types::Char(*c),
        Types::Integer(i) => Types::Integer(*i),
        Types::String(s) => Types::String(s.clone()),
        Types::Uuid(u) => Types::Uuid(*u),
        Types::Float(s, i) => Types::Float(s.clone(), *i),
        Types::Boolean(b) => Types::Boolean(*b),
        Types::Vector(v) => Types::Vector(clone_values(v)),
        Types::Mapping(e) => Types::Mapping(clone_entity(e)),
        Types::Hash(s) => Types::Hash(s.clone()),
        Types::Precise(s) => Types::Precise(s.clone()),
        Types::DateTime(a, b) => Types::DateTime(*a, *b),
        Types::Nil => Types::Nil,
    }
}

/// A copy of a vector of values with the same model.
pub fn clone_values(v: &Vec<Types>) -> (r: Vec<Types>)
    ensures
        types_seq_view(r@) == types_seq_view(v@),
        r@.len() == v@.len(),
        forall|j: int| 0 <= j < v@.len() ==> types_view(#[trigger] r@[j]) == types_view(v@[j]),
    decreases v,
{
    let mut r: Vec<Types> = Vec::new();
    let mut i: usize = 0;
    while i < v.len()
        invariant
            i <= v.len(),
            r@.len() == i,
            forall|j: int| 0 <= j < i ==> types_view(#[trigger] r@[j]) == types_view(v@[j]),
        decreases v.len() - i,
    {
        proof {
            assert(decreases_to!(v => v@));
            assert(decreases_to!(v@ => v@[i as int]));
        }
        let x = clone_types(&v[i]);
        r.push(x);
        i = i + 1;
    }
    proof {
        lemma_seq_view_eq(r@, v@);
    }
    r
}

/// A copy of a vector of strings.
pub fn clone_strings(v: &Vec<String>) -> (r: Vec<String>)
    ensures
        r@ == v@,
{
    let mut r: Vec<String> = Vec::new();
    let mut i: usize = 0;
    while i < v.len()
        invariant
            i <= v.len(),
            r@ == v@.subrange(0, i as int),
        decreases v.len() - i,
    {
        r.push(v[i].clone());
        i = i + 1;
        assert(r@ =~= v@.subrange(0, i as int));
    }
    assert(v@.subrange(0, v.len() as int) =~= v@);
    r
}

pub proof fn lemma_entity_map_same(keys: Seq<Seq<char>>, a: Seq<Types>, b: Seq<Types>)
    requires
        a.len() == b.len(),
        forall|j: int| 0 <= j < a.len() ==> types_view(#[trigger] a[j]) == types_view(b[j]),
    ensures
        entity_map(keys, a) == entity_map(keys, b),
    decreases a.len(),
{
    if a.len() > 0 && keys.len() > 0 {
        assert forall|j: int| 0 <= j < a.drop_last().len() implies types_view(
            #[trigger] a.drop_last()[j],
        ) == types_view(b.drop_last()[j]) by {
            assert(a.drop_last()[j] == a[j]);
            assert(b.drop_last()[j] == b[j]);
        }
        lemma_entity_map_same(keys.drop_last(), a.drop_last(), b.drop_last());
        assert(types_view(a.last()) == types_view(b.last()));
    }
}

/// A copy of an entity map with the same model.
pub fn clone_entity(e: &Entity) -> (r: Entity)
    ensures
        r@ == e@,
    decreases e,
{
    proof {
        assert(decreases_to!(e => e.values));
    }
    let keys = clone_strings(&e.keys);
    let values = clone_values(&e.values);
    proof {
        lemma_entity_map_same(strings_view(keys@), values@, e.values@);
    }
    Entity { keys, values }
}

/// `i` is the last position that holds `k`.
pub open spec fn last_at(keys: Seq<Seq<char>>, k: Seq<char>, i: int) -> bool {
    &&& 0 <= i < keys.len()
    &&& keys[i] == k
    &&& forall|j: int| i < j < keys.len() ==> keys[j] != k
}

pub proof fn lemma_entity_map_lookup(keys: Seq<Seq<char>>, vals: Seq<Types>, k: Seq<char>)
    requires
        keys.len() == vals.len(),
    ensures
        entity_map(keys, vals).contains_key(k) <==> keys.contains(k),
        forall|i: int| last_at(keys, k, i) ==> entity_map(keys, vals)[k] == types_view(vals[i]),
    decreases vals.len(),
{
    if vals.len() > 0 {
        lemma_entity_map_lookup(keys.drop_last(), vals.drop_last(), k);
        if keys.last() != k {
            if keys.contains(k) {
                let j = choose|j: int| 0 <= j < keys.len() && keys[j] == k;
                assert(keys.drop_last()[j] == k);
            }
            if keys.drop_last().contains(k) {
                let j = choose|j: int| 0 <= j < keys.drop_last().len() && keys.drop_last()[j] == k;
                assert(keys[j] == k);
            }
            assert forall|i: int| last_at(keys, k, i) implies entity_map(keys, vals)[k] == types_view(
                vals[i],
            ) by {
                assert(last_at(keys.drop_last(), k, i));
                assert(vals.drop_last()[i] == vals[i]);
            }
        } else {
            assert(keys[keys.len() - 1] == k);
        }
    }
}

pub proof fn lemma_entity_map_update(keys: Seq<Seq<char>>, vals: Seq<Types>, i: int, v: Types)
    requires
        keys.len() == vals.len(),
        last_at(keys, keys[i], i),
    ensures
        entity_map(keys, vals.update(i, v)) == entity_map(keys, vals).insert(keys[i], types_view(v)),
    decreases vals.len(),
{
    let k = keys[i];
    if i == vals.len() - 1 {
        assert(vals.update(i, v).drop_last() =~= vals.drop_last());
        assert(entity_map(keys, vals.update(i, v)) =~= entity_map(keys, vals).insert(
            k,
            types_view(v),
        ));
    } else {
        assert(last_at(keys.drop_last(), k, i));
        assert(keys.drop_last()[i] == k);
        lemma_entity_map_update(keys.drop_last(), vals.drop_last(), i, v);
        assert(vals.update(i, v).drop_last() =~= vals.drop_last().update(i, v));
        assert(keys.last() != k);
        assert(entity_map(keys, vals.update(i, v)) =~= entity_map(keys, vals).insert(
            k,
            types_view(v),
        ));
    }
}

impl Entity {
    /// An empty map.
    pub fn new() -> (r: Entity)
        ensures
            r.wf(),
            r@ == Map::<Seq<char>, TypesV>::empty(),
    {
        Entity { keys: Vec::new(), values: Vec::new() }
    }

    /// The last position that holds `k`, if any.
    pub fn position(&self, k: &String) -> (r: Option<usize>)
        requires
            self.wf(),
        ensures
            r matches Some(i) ==> last_at(strings_view(self.keys@), k@, i as int),
            r is None ==> !strings_view(self.keys@).contains(k@),
    {
        let mut i = self.keys.len();
        while i > 0
            invariant
                i <= self.keys.len(),
                forall|j: int| i <= j < self.keys@.len() ==> self.keys@[j]@ != k@,
            decreases i,
        {
            if self.keys[i - 1] == *k {
                return Some(i - 1);
            }
            i = i - 1;
        }
        proof {
            if strings_view(self.keys@).contains(k@) {
                let j = choose|j: int|
                    0 <= j < strings_view(self.keys@).len() && strings_view(self.keys@)[j] == k@;
                assert(self.keys@[j]@ == k@);
            }
        }
        None
    }

    /// Inserts `v` under `k`, replacing a value already there.
    pub fn insert(&mut self, k: String, v: Types)
        requires
            old(self).wf(),
        ensures
            final(self).wf(),
            final(self)@ == old(self)@.insert(k@, v@),
    {
        match self.position(&k) {
            Some(i) => {
                proof {
                    lemma_entity_map_update(strings_view(self.keys@), self.values@, i as int, v);
                }
                self.values.set(i, v);
            },
            None => {
                let ghost old_keys = self.keys@;
                let ghost old_vals = self.values@;
                let ghost kv = k@;
                let ghost vv = v@;
                self.keys.push(k);
                self.values.push(v);
                proof {
                    assert(strings_view(self.keys@).drop_last() =~= strings_view(old_keys));
                    assert(self.values@.drop_last() =~= old_vals);
                    assert(strings_view(self.keys@).last() == kv);
                    assert(types_view(self.values@.last()) == vv);
                }
            },
        }
    }

    /// The value under `k`, if any.
    pub fn get(&self, k: &String) -> (r: Option<&Types>)
        requires
            self.wf(),
        ensures
            r is Some <==> self@.contains_key(k@),
            r matches Some(v) ==> v@ == self@[k@],
    {
        proof {
            lemma_entity_map_lookup(strings_view(self.keys@), self.values@, k@);
        }
        match self.position(k) {
            Some(i) => Some(&self.values[i]),
            None => None,
        }
    }
}

} // verus!
