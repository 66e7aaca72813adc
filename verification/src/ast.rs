//! The parsed form of a WQL statement, and its mathematical model.

use vstd::prelude::*;
use crate::types::{Entity, Types, TypesV, strings_view, types_view};

verus! {

/// Which keys a `SELECT` returns.
#[derive(Debug, PartialEq)]
pub enum ToSelect {
    All,
    Keys(Vec<String>),
}

pub enum ToSelectV {
    All,
    Keys(Seq<Seq<char>>),
}

impl View for ToSelect {
    type V = ToSelectV;

    open spec fn view(&self) -> ToSelectV {
        match self {
            ToSelect::All => ToSelectV::All,
            ToSelect::Keys(k) => ToSelectV::Keys(strings_view(k@)),
        }
    }
}

/// The direction of `ORDER BY`.
#[derive(Debug, PartialEq, Eq, Clone, Copy, Structural)]
pub enum Order {
    Asc,
    Desc,
}

/// The operations that may follow a `SELECT`: `DEDUP key`, `GROUP BY key`,
/// `ORDER BY key :asc|:desc`, `LIMIT n`, `OFFSET n` and `COUNT`. Each is
/// absent or present once; a later one replaces an earlier one.
#[derive(Debug, PartialEq)]
pub struct AlgebraFunctions {
    pub dedup: Option<String>,
    pub group_by: Option<String>,
    pub order_by: Option<(String, Order)>,
    pub limit: Option<usize>,
    pub offset: Option<usize>,
    pub count: bool,
}

pub struct AlgebraV {
    pub dedup: Option<Seq<char>>,
    pub group_by: Option<Seq<char>>,
    pub order_by: Option<(Seq<char>, Order)>,
    pub limit: Option<usize>,
    pub offset: Option<usize>,
    pub count: bool,
}

pub open spec fn opt_str_view(o: Option<String>) -> Option<Seq<char>> {
    match o {
        Some(s) => Some(s@),
        None => None,
    }
}

impl View for AlgebraFunctions {
    type V = AlgebraV;

    open spec fn view(&self) -> AlgebraV {
        AlgebraV {
            dedup: opt_str_view(self.dedup),
            group_by: opt_str_view(self.group_by),
            order_by: match self.order_by {
                Some((k, o)) => Some((k@, o)),
                None => None,
            },
            limit: self.limit,
            offset: self.offset,
            count: self.count,
        }
    }
}

impl AlgebraFunctions {
    /// No operation at all.
    pub fn none() -> (r: AlgebraFunctions)
        ensures
            r@ == AlgebraV::empty(),
    {
        AlgebraFunctions {
            dedup: None,
            group_by: None,
            order_by: None,
            limit: None,
            offset: None,
            count: false,
        }
    }
}

impl AlgebraV {
    pub open spec fn empty() -> AlgebraV {
        AlgebraV {
            dedup: None,
            group_by: None,
            order_by: None,
            limit: None,
            offset: None,
            count: false,
        }
    }
}

/// A condition of `MATCH ALL(...)` / `MATCH ANY(...)`.
#[derive(Debug, PartialEq)]
pub enum MatchCondition {
    All(Vec<MatchCondition>),
    Any(Vec<MatchCondition>),
    Eq(String, Types),
    NotEq(String, Types),
    GEq(String, Types),
    G(String, Types),
    LEq(String, Types),
    L(String, Types),
}

pub enum MatchConditionV {
    All(Seq<MatchConditionV>),
    Any(Seq<MatchConditionV>),
    Eq(Seq<char>, TypesV),
    NotEq(Seq<char>, TypesV),
    GEq(Seq<char>, TypesV),
    G(Seq<char>, TypesV),
    LEq(Seq<char>, TypesV),
    L(Seq<char>, TypesV),
}

pub open spec fn match_view(m: MatchCondition) -> MatchConditionV
    decreases m,
{
    match m {
        MatchCondition::All(v) => MatchConditionV::All(match_seq_view(v@)),
        MatchCondition::Any(v) => MatchConditionV::Any(match_seq_view(v@)),
        MatchCondition::Eq(k, t) => MatchConditionV::Eq(k@, types_view(t)),
        MatchCondition::NotEq(k, t) => MatchConditionV::NotEq(k@, types_view(t)),
        MatchCondition::GEq(k, t) => MatchConditionV::GEq(k@, types_view(t)),
        MatchCondition::G(k, t) => MatchConditionV::G(k@, types_view(t)),
        MatchCondition::LEq(k, t) => MatchConditionV::LEq(k@, types_view(t)),
        MatchCondition::L(k, t) => MatchConditionV::L(k@, types_view(t)),
    }
}

pub open spec fn match_seq_view(s: Seq<MatchCondition>) -> Seq<MatchConditionV>
    decreases s,
{
    if s.len() == 0 {
        Seq::empty()
    } else {
        match_seq_view(s.drop_last()).push(match_view(s.last()))
    }
}

impl View for MatchCondition {
    type V = MatchConditionV;

    open spec fn view(&self) -> MatchConditionV {
        match_view(*self)
    }
}

/// The function of a `WHERE` clause.
#[derive(Debug, PartialEq, Eq, Clone, Copy, Structural)]
pub enum Function {
    Eq,
    GEq,
    G,
    LEq,
    L,
    NotEq,
    Like,
    Between,
    Or,
    In,
    Error,
}

/// A variable of a `WHERE` clause, such as `?age`.
#[derive(Debug, PartialEq)]
pub struct Value(pub String);

/// A clause of `WHERE {...}`.
#[derive(Debug, PartialEq)]
pub enum Clause {
    ContainsKeyValue(String, String, Types),
    ValueAttribution(String, String, Value),
    SimpleComparisonFunction(Function, String, Types),
    ComplexComparisonFunctions(Function, String, Vec<Types>),
    Or(Function, Vec<Clause>),
    Error,
}

pub enum ClauseV {
    ContainsKeyValue(Seq<char>, Seq<char>, TypesV),
    ValueAttribution(Seq<char>, Seq<char>, Seq<char>),
    SimpleComparisonFunction(Function, Seq<char>, TypesV),
    ComplexComparisonFunctions(Function, Seq<char>, Seq<TypesV>),
    Or(Function, Seq<ClauseV>),
    Error,
}

pub open spec fn clause_view(c: Clause) -> ClauseV
    decreases c,
{
    match c {
        Clause::ContainsKeyValue(e, k, t) => ClauseV::ContainsKeyValue(e@, k@, types_view(t)),
        Clause::ValueAttribution(e, k, v) => ClauseV::ValueAttribution(e@, k@, v.0@),
        Clause::SimpleComparisonFunction(f, k, t) => ClauseV::SimpleComparisonFunction(
            f,
            k@,
            types_view(t),
        ),
        Clause::ComplexComparisonFunctions(f, k, v) => ClauseV::ComplexComparisonFunctions(
            f,
            k@,
            crate::types::types_seq_view(v@),
        ),
        Clause::Or(f, v) => ClauseV::Or(f, clause_seq_view(v@)),
        Clause::Error => ClauseV::Error,
    }
}

pub open spec fn clause_seq_view(s: Seq<Clause>) -> Seq<ClauseV>
    decreases s,
{
    if s.len() == 0 {
        Seq::empty()
    } else {
        clause_seq_view(s.drop_last()).push(clause_view(s.last()))
    }
}

impl View for Clause {
    type V = ClauseV;

    open spec fn view(&self) -> ClauseV {
        clause_view(*self)
    }
}

/// The relation of `INTERSECT`, `DIFFERENCE` and `UNION`.
#[derive(Debug, PartialEq, Eq, Clone, Copy, Structural)]
pub enum Relation {
    Difference,
    Intersect,
    Union,
}

/// Whether a relation compares keys only or keys and values.
#[derive(Debug, PartialEq, Eq, Clone, Copy, Structural)]
pub enum RelationType {
    Key,
    KeyValue,
}

/// A map from key names to texts, kept in insertion order (`CHECK` values).
#[derive(Debug, PartialEq)]
pub struct TextMap {
    pub keys: Vec<String>,
    pub values: Vec<String>,
}

pub open spec fn text_map(keys: Seq<Seq<char>>, vals: Seq<Seq<char>>) -> Map<Seq<char>, Seq<char>>
    decreases vals.len(),
{
    if vals.len() == 0 || keys.len() == 0 {
        Map::empty()
    } else {
        text_map(keys.drop_last(), vals.drop_last()).insert(keys.last(), vals.last())
    }
}

impl View for TextMap {
    type V = Map<Seq<char>, Seq<char>>;

    open spec fn view(&self) -> Map<Seq<char>, Seq<char>> {
        text_map(strings_view(self.keys@), strings_view(self.values@))
    }
}

impl TextMap {
    /// Keys and values are paired one to one.
    pub open spec fn wf(&self) -> bool {
        self.keys@.len() == self.values@.len()
    }

    /// An empty map.
    pub fn new() -> (r: TextMap)
        ensures
            r.wf(),
            r@ == Map::<Seq<char>, Seq<char>>::empty(),
    {
        TextMap { keys: Vec::new(), values: Vec::new() }
    }

    /// Inserts `v` under `k`, replacing a text already there.
    pub fn insert(&mut self, k: String, v: String)
        requires
            old(self).wf(),
        ensures
            final(self).wf(),
            final(self)@ == old(self)@.insert(k@, v@),
    {
        let mut i = self.keys.len();
        while i > 0
            invariant
                i <= self.keys.len(),
                self.wf(),
                *self == *old(self),
                forall|j: int| i <= j < self.keys@.len() ==> self.keys@[j]@ != k@,
            decreases i,
        {
            if self.keys[i - 1] == k {
                proof {
                    lemma_text_map_update(
                        strings_view(self.keys@),
                        strings_view(self.values@),
                        i - 1,
                        v@,
                    );
                    assert(strings_view(self.values@.update(i - 1, v)) =~= strings_view(
                        self.values@,
                    ).update(i - 1, v@));
                }
                self.values.set(i - 1, v);
                return;
            }
            i = i - 1;
        }
        let ghost old_keys = self.keys@;
        let ghost old_vals = self.values@;
        let ghost kv = k@;
        let ghost vv = v@;
        self.keys.push(k);
        self.values.push(v);
        proof {
            assert(strings_view(self.keys@).drop_last() =~= strings_view(old_keys));
            assert(strings_view(self.values@).drop_last() =~= strings_view(old_vals));
            assert(strings_view(self.keys@).last() == kv);
            assert(strings_view(self.values@).last() == vv);
        }
    }
}

pub proof fn lemma_text_map_update(keys: Seq<Seq<char>>, vals: Seq<Seq<char>>, i: int, v: Seq<char>)
    requires
        keys.len() == vals.len(),
        0 <= i < keys.len(),
        forall|j: int| i < j < keys.len() ==> keys[j] != keys[i],
    ensures
        text_map(keys, vals.update(i, v)) == text_map(keys, vals).insert(keys[i], v),
    decreases vals.len(),
{
    let k = keys[i];
    if i == vals.len() - 1 {
        assert(vals.update(i, v).drop_last() =~= vals.drop_last());
        assert(text_map(keys, vals.update(i, v)) =~= text_map(keys, vals).insert(k, v));
    } else {
        assert(keys.drop_last()[i] == k);
        lemma_text_map_update(keys.drop_last(), vals.drop_last(), i, v);
        assert(vals.update(i, v).drop_last() =~= vals.drop_last().update(i, v));
        assert(keys.last() != k);
        assert(text_map(keys, vals.update(i, v)) =~= text_map(keys, vals).insert(k, v));
    }
}

/// A parsed WQL statement.
#[derive(Debug, PartialEq)]
pub enum Wql {
    CreateEntity(String, Vec<String>, Vec<String>),
    Insert(String, Entity, Option<u128>),
    UpdateContent(String, Entity, u128),
    UpdateSet(String, Entity, u128),
    Delete(String, String),
    MatchUpdate(String, Entity, u128, MatchCondition),
    Evict(String, Option<u128>),
    Select(String, ToSelect, Option<u128>, AlgebraFunctions),
    SelectWhen(String, ToSelect, Option<u128>, String),
    SelectWhenRange(String, u128, String, String),
    SelectIds(String, ToSelect, Vec<u128>, AlgebraFunctions),
    SelectWhere(String, ToSelect, Vec<Clause>, AlgebraFunctions),
    CheckValue(String, u128, TextMap),
    RelationQuery(Vec<Wql>, Relation, RelationType),
    Join((String, String), (String, String), Vec<Wql>),
}

pub enum WqlV {
    CreateEntity(Seq<char>, Seq<Seq<char>>, Seq<Seq<char>>),
    Insert(Seq<char>, Map<Seq<char>, TypesV>, Option<u128>),
    UpdateContent(Seq<char>, Map<Seq<char>, TypesV>, u128),
    UpdateSet(Seq<char>, Map<Seq<char>, TypesV>, u128),
    Delete(Seq<char>, Seq<char>),
    MatchUpdate(Seq<char>, Map<Seq<char>, TypesV>, u128, MatchConditionV),
    Evict(Seq<char>, Option<u128>),
    Select(Seq<char>, ToSelectV, Option<u128>, AlgebraV),
    SelectWhen(Seq<char>, ToSelectV, Option<u128>, Seq<char>),
    SelectWhenRange(Seq<char>, u128, Seq<char>, Seq<char>),
    SelectIds(Seq<char>, ToSelectV, Seq<u128>, AlgebraV),
    SelectWhere(Seq<char>, ToSelectV, Seq<ClauseV>, AlgebraV),
    CheckValue(Seq<char>, u128, Map<Seq<char>, Seq<char>>),
    RelationQuery(Seq<WqlV>, Relation, RelationType),
    Join((Seq<char>, Seq<char>), (Seq<char>, Seq<char>), Seq<WqlV>),
}

pub open spec fn wql_view(w: Wql) -> WqlV
    decreases w,
{
    match w {
        Wql::CreateEntity(n, u, e) => WqlV::CreateEntity(n@, strings_view(u@), strings_view(e@)),
        Wql::Insert(n, m, id) => WqlV::Insert(n@, m@, id),
        Wql::UpdateContent(n, m, id) => WqlV::UpdateContent(n@, m@, id),
        Wql::UpdateSet(n, m, id) => WqlV::UpdateSet(n@, m@, id),
        Wql::Delete(n, id) => WqlV::Delete(n@, id@),
        Wql::MatchUpdate(n, m, id, c) => WqlV::MatchUpdate(n@, m@, id, match_view(c)),
        Wql::Evict(n, id) => WqlV::Evict(n@, id),
        Wql::Select(n, a, id, f) => WqlV::Select(n@, a@, id, f@),
        Wql::SelectWhen(n, a, id, d) => WqlV::SelectWhen(n@, a@, id, d@),
        Wql::SelectWhenRange(n, id, s, e) => WqlV::SelectWhenRange(n@, id, s@, e@),
        Wql::SelectIds(n, a, ids, f) => WqlV::SelectIds(n@, a@, ids@, f@),
        Wql::SelectWhere(n, a, c, f) => WqlV::SelectWhere(n@, a@, clause_seq_view(c@), f@),
        Wql::CheckValue(n, id, m) => WqlV::CheckValue(n@, id, m@),
        Wql::RelationQuery(q, r, t) => WqlV::RelationQuery(wql_seq_view(q@), r, t),
        Wql::Join(a, b, q) => WqlV::Join((a.0@, a.1@), (b.0@, b.1@), wql_seq_view(q@)),
    }
}

pub open spec fn wql_seq_view(s: Seq<Wql>) -> Seq<WqlV>
    decreases s,
{
    if s.len() == 0 {
        Seq::empty()
    } else {
        wql_seq_view(s.drop_last()).push(wql_view(s.last()))
    }
}

impl View for Wql {
    type V = WqlV;

    open spec fn view(&self) -> WqlV {
        wql_view(*self)
    }
}

pub proof fn lemma_match_seq_push(s: Seq<MatchCondition>, x: MatchCondition)
    ensures
        match_seq_view(s.push(x)) == match_seq_view(s).push(match_view(x)),
{
    assert(s.push(x).drop_last() =~= s);
}

pub proof fn lemma_clause_seq_push(s: Seq<Clause>, x: Clause)
    ensures
        clause_seq_view(s.push(x)) == clause_seq_view(s).push(clause_view(x)),
{
    assert(s.push(x).drop_last() =~= s);
}

pub proof fn lemma_clause_seq_len(s: Seq<Clause>)
    ensures
        clause_seq_view(s).len() == s.len(),
    decreases s.len(),
{
    if s.len() > 0 {
        lemma_clause_seq_len(s.drop_last());
    }
}

pub proof fn lemma_wql_seq_push(s: Seq<Wql>, x: Wql)
    ensures
        wql_seq_view(s.push(x)) == wql_seq_view(s).push(wql_view(x)),
{
    assert(s.push(x).drop_last() =~= s);
}

/// The outcome that a parse result stands for.
pub open spec fn wql_result(r: Result<Wql, String>) -> Result<WqlV, Seq<char>> {
    match r {
        Ok(w) => Ok(w@),
        Err(e) => Err(e@),
    }
}

} // verus!
