//! What the server holds in memory: for each entity, its registries, each
//! with where its last change was written and its current state.

use vstd::prelude::*;
use crate::clauses::{StatesV, states_view};
use crate::error::Error;
use crate::relation::StateV;
use crate::text::str_eq;
use crate::types::{Entity, clone_entity};

verus! {

/// Where a change of a registry was written: the log file, the offset of the
/// line in it, and the length of the line.
#[derive(Debug)]
pub struct DataRegister {
    pub file_name: String,
    pub offset: usize,
    pub bytes_length: usize,
}

pub struct DataRegisterV {
    pub file_name: Seq<char>,
    pub offset: usize,
    pub bytes_length: usize,
}

impl View for DataRegister {
    type V = DataRegisterV;

    open spec fn view(&self) -> DataRegisterV {
        DataRegisterV {
            file_name: self.file_name@,
            offset: self.offset,
            bytes_length: self.bytes_length,
        }
    }
}

impl DataRegister {
    pub fn clone_register(&self) -> (r: DataRegister)
        ensures
            r@ == self@,
    {
        DataRegister {
            file_name: self.file_name.clone(),
            offset: self.offset,
            bytes_length: self.bytes_length,
        }
    }
}

/// A registry of an entity.
#[derive(Debug)]
pub struct Registry {
    pub id: u128,
    pub register: DataRegister,
    pub state: Entity,
}

pub struct RegistryV {
    pub id: u128,
    pub register: DataRegisterV,
    pub state: StateV,
}

pub open spec fn registries_view(rs: Seq<Registry>) -> Seq<RegistryV> {
    rs.map_values(|r: Registry| RegistryV { id: r.id, register: r.register@, state: r.state@ })
}

/// The registries of each entity, in the order of their identifiers; each
/// entity name occurs once.
pub struct LocalContext {
    names: Vec<String>,
    entities: Vec<Vec<Registry>>,
}

/// The model of the local context: for each entity, its registries in the
/// order of their identifiers.
pub type LocalContextV = Map<Seq<char>, Seq<RegistryV>>;

/// The identifiers increase strictly.
pub open spec fn sorted_ids(rs: Seq<RegistryV>) -> bool {
    forall|i: int, j: int| 0 <= i < j < rs.len() ==> rs[i].id < rs[j].id
}

impl View for LocalContext {
    type V = LocalContextV;

    closed spec fn view(&self) -> LocalContextV {
        Map::new(
            |k: Seq<char>| exists|i: int| 0 <= i < self.names@.len() && #[trigger] self.names@[i]@ == k,
            |k: Seq<char>| {
                let i = choose|i: int| 0 <= i < self.names@.len() && #[trigger] self.names@[i]@ == k;
                registries_view(self.entities@[i]@)
            },
        )
    }
}

impl LocalContext {
    pub closed spec fn wf(&self) -> bool {
        &&& self.names@.len() == self.entities@.len()
        &&& forall|i: int, j: int|
            0 <= i < j < self.names@.len() ==> self.names@[i]@ != self.names@[j]@
        &&& forall|i: int|
            0 <= i < self.entities@.len() ==> sorted_ids(registries_view(#[trigger] self.entities@[i]@))
    }


    /// Every entity's registries are in the order of their identifiers.
    pub proof fn law_registries_in_id_order(&self, k: Seq<char>)
        requires
            self.wf(),
            self@.contains_key(k),
        ensures
            sorted_ids(self@[k]),
    {
        let i = choose|i: int| 0 <= i < self.names@.len() && #[trigger] self.names@[i]@ == k;
        assert(sorted_ids(registries_view(self.entities@[i]@)));
    }

    proof fn lemma_index(&self, i: int)
        requires
            self.wf(),
            0 <= i < self.names@.len(),
        ensures
            self@.contains_key(self.names@[i]@),
            self@[self.names@[i]@] == registries_view(self.entities@[i]@),
    {
        let k = self.names@[i]@;
        assert(self.names@[i]@ == k);
        let j = choose|j: int| 0 <= j < self.names@.len() && #[trigger] self.names@[j]@ == k;
        if j != i {
            if j < i {
                assert(self.names@[j]@ != self.names@[i]@);
            } else {
                assert(self.names@[i]@ != self.names@[j]@);
            }
        }
    }

    /// No entity at all.
    pub fn new() -> (r: LocalContext)
        ensures
            r.wf(),
            r@ == Map::<Seq<char>, Seq<RegistryV>>::empty(),
    {
        let r = LocalContext { names: Vec::new(), entities: Vec::new() };
        assert(r@ =~= Map::<Seq<char>, Seq<RegistryV>>::empty());
        r
    }

    fn position(&self, name: &str) -> (r: Option<usize>)
        requires
            self.wf(),
        ensures
            r is None ==> !self@.contains_key(name@),
            r matches Some(i) ==> i < self.names@.len() && self.names@[i as int]@ == name@
                && self@.contains_key(name@) && self@[name@] == registries_view(
                self.entities@[i as int]@,
            ),
    {
        let mut i: usize = 0;
        while i < self.names.len()
            invariant
                self.wf(),
                i <= self.names.len(),
                forall|j: int| 0 <= j < i ==> self.names@[j]@ != name@,
            decreases self.names.len() - i,
        {
            if str_eq(self.names[i].as_str(), name) {
                proof {
                    self.lemma_index(i as int);
                }
                return Some(i);
            }
            i = i + 1;
        }
        None
    }

    /// Whether the entity was created.
    pub fn contains_entity(&self, name: &str) -> (r: bool)
        requires
            self.wf(),
        ensures
            r == self@.contains_key(name@),
    {
        self.position(name).is_some()
    }

    /// `CREATE ENTITY`: the entity, with no registry; an entity that exists is
    /// `EntityAlreadyCreated`, and the context is then unchanged.
    pub fn create_entity(&mut self, name: &str) -> (r: Result<(), Error>)
        requires
            old(self).wf(),
        ensures
            final(self).wf(),
            old(self)@.contains_key(name@) ==> (r matches Err(Error::EntityAlreadyCreated(s))
                && s@ == name@) && final(self)@ == old(self)@,
            !old(self)@.contains_key(name@) ==> r is Ok && final(self)@ == old(self)@.insert(
                name@,
                Seq::empty(),
            ),
    {
        if self.contains_entity(name) {
            return Err(Error::EntityAlreadyCreated(String::from_str(name)));
        }
        let ghost before = self@;
        let ghost old_names = self.names@;
        let ghost old_entities = self.entities@;
        self.names.push(String::from_str(name));
        self.entities.push(Vec::new());
        proof {
            assert(registries_view(Seq::<Registry>::empty()) =~= Seq::<RegistryV>::empty());
            assert forall|i: int, j: int|
                0 <= i < j < self.names@.len() implies self.names@[i]@ != self.names@[j]@ by {
                if j == self.names@.len() - 1 {
                    assert(old_names[i]@ != name@) by {
                        if old_names[i]@ == name@ {
                            assert(before.contains_key(name@));
                        }
                    }
                }
            }
            assert forall|i: int| 0 <= i < self.entities@.len() implies sorted_ids(
                registries_view(#[trigger] self.entities@[i]@),
            ) by {
                if i < old_entities.len() {
                    assert(self.entities@[i] == old_entities[i]);
                }
            }
            assert forall|k: Seq<char>| #[trigger] self@.contains_key(k) == before.insert(
                name@,
                Seq::empty(),
            ).contains_key(k) by {
                if before.contains_key(k) {
                    let i = choose|i: int| 0 <= i < old_names.len() && #[trigger] old_names[i]@ == k;
                    assert(self.names@[i]@ == k);
                }
                if self@.contains_key(k) {
                    let i = choose|i: int|
                        0 <= i < self.names@.len() && #[trigger] self.names@[i]@ == k;
                    if i < old_names.len() {
                        assert(old_names[i]@ == k);
                    }
                }
                assert(self.names@[old_names.len() as int]@ == name@);
            }
            assert forall|k: Seq<char>| #[trigger] self@.contains_key(k) implies self@[k]
                == before.insert(name@, Seq::empty())[k] by {
                let i = choose|i: int| 0 <= i < self.names@.len() && #[trigger] self.names@[i]@ == k;
                self.lemma_index(i);
                if i < old_names.len() {
                    assert(old_names[i]@ == k);
                    assert(self.entities@[i] == old_entities[i]);
                    let j = choose|j: int| 0 <= j < old_names.len() && #[trigger] old_names[j]@ == k;
                    if j != i {
                        if j < i {
                            assert(self.names@[j]@ != self.names@[i]@);
                        } else {
                            assert(self.names@[i]@ != self.names@[j]@);
                        }
                    }
                }
            }
            assert(self@ =~= before.insert(name@, Seq::empty()));
        }
        Ok(())
    }
}


/// Whether some registry has this identifier.
pub open spec fn has_id(rs: Seq<RegistryV>, id: u128) -> bool {
    exists|j: int| 0 <= j < rs.len() && #[trigger] rs[j].id == id
}

/// The registry with identifier `id` (meaningful where `has_id(rs, id)`).
pub open spec fn registry_of(rs: Seq<RegistryV>, id: u128) -> RegistryV {
    rs[choose|j: int| 0 <= j < rs.len() && #[trigger] rs[j].id == id]
}

/// The state of the registry with identifier `id`.
pub open spec fn state_of(rs: Seq<RegistryV>, id: u128) -> StateV {
    registry_of(rs, id).state
}

/// Where the identifiers increase strictly, a registry of `rs` with
/// identifier `id` holds `state_of(rs, id)`.
pub proof fn lemma_state_of(rs: Seq<RegistryV>, g: RegistryV)
    requires
        sorted_ids(rs),
        rs.contains(g),
    ensures
        has_id(rs, g.id),
        registry_of(rs, g.id) == g,
        state_of(rs, g.id) == g.state,
{
    let i = choose|i: int| 0 <= i < rs.len() && rs[i] == g;
    assert(rs[i].id == g.id);
    let j = choose|j: int| 0 <= j < rs.len() && #[trigger] rs[j].id == g.id;
    if i < j {
        assert(rs[i].id < rs[j].id);
    } else if j < i {
        assert(rs[j].id < rs[i].id);
    }
}

/// The number of registries whose identifier is below `id`.
pub open spec fn below(rs: Seq<RegistryV>, id: u128) -> int
    decreases rs.len(),
{
    if rs.len() == 0 {
        0
    } else if rs[0].id < id {
        1 + below(rs.drop_first(), id)
    } else {
        0
    }
}

/// The registries with `r` put in its place: it replaces the registry with
/// its identifier, or goes between the smaller and the larger identifiers.
pub open spec fn put(rs: Seq<RegistryV>, r: RegistryV) -> Seq<RegistryV> {
    let p = below(rs, r.id);
    if p < rs.len() && rs[p].id == r.id {
        rs.update(p, r)
    } else {
        rs.insert(p, r)
    }
}

/// The registries without the one with identifier `id`.
pub open spec fn without(rs: Seq<RegistryV>, id: u128) -> Seq<RegistryV> {
    let p = below(rs, id);
    if p < rs.len() && rs[p].id == id {
        rs.remove(p)
    } else {
        rs
    }
}

/// The states of the registries, in order.
pub open spec fn states_of_registries(rs: Seq<RegistryV>) -> StatesV {
    rs.map_values(|r: RegistryV| (r.id, r.state))
}

proof fn lemma_below(rs: Seq<RegistryV>, id: u128)
    requires
        sorted_ids(rs),
    ensures
        0 <= below(rs, id) <= rs.len(),
        forall|j: int| 0 <= j < below(rs, id) ==> rs[j].id < id,
        forall|j: int| below(rs, id) <= j < rs.len() ==> rs[j].id >= id,
    decreases rs.len(),
{
    if rs.len() > 0 {
        lemma_below(rs.drop_first(), id);
        if rs[0].id < id {
            assert forall|j: int| 0 <= j < below(rs, id) implies rs[j].id < id by {
                if j > 0 {
                    assert(rs.drop_first()[j - 1] == rs[j]);
                }
            }
            assert forall|j: int| below(rs, id) <= j < rs.len() implies rs[j].id >= id by {
                assert(rs.drop_first()[j - 1] == rs[j]);
            }
        } else {
            assert forall|j: int| 0 <= j < rs.len() implies rs[j].id >= id by {
                if j > 0 {
                    assert(rs[0].id < rs[j].id);
                }
            }
        }
    }
}

proof fn lemma_has_id(rs: Seq<RegistryV>, id: u128)
    requires
        sorted_ids(rs),
    ensures
        has_id(rs, id) <==> (below(rs, id) < rs.len() && rs[below(rs, id)].id == id),
{
    lemma_below(rs, id);
    if has_id(rs, id) {
        let j = choose|j: int| 0 <= j < rs.len() && #[trigger] rs[j].id == id;
        let p = below(rs, id);
        if p < rs.len() && p < j {
            assert(rs[p].id < rs[j].id);
        }
    }
}

proof fn lemma_put_sorted(rs: Seq<RegistryV>, r: RegistryV)
    requires
        sorted_ids(rs),
    ensures
        sorted_ids(put(rs, r)),
{
    lemma_below(rs, r.id);
    let p = below(rs, r.id);
    let n = put(rs, r);
    assert forall|i: int, j: int| 0 <= i < j < n.len() implies n[i].id < n[j].id by {
        if p < rs.len() && rs[p].id == r.id {
        } else {
            if j == p {
            } else if i == p {
                assert(n[j] == rs[j - 1]);
            } else if i < p && j > p {
                assert(n[j] == rs[j - 1]);
            } else if i > p {
                assert(n[i] == rs[i - 1]);
                assert(n[j] == rs[j - 1]);
            }
        }
    }
}

proof fn lemma_without_sorted(rs: Seq<RegistryV>, id: u128)
    requires
        sorted_ids(rs),
    ensures
        sorted_ids(without(rs, id)),
        !has_id(without(rs, id), id),
{
    lemma_below(rs, id);
    lemma_has_id(rs, id);
    let p = below(rs, id);
    let n = without(rs, id);
    assert forall|i: int, j: int| 0 <= i < j < n.len() implies n[i].id < n[j].id by {
        if p < rs.len() && rs[p].id == id {
            if i >= p {
                assert(n[i] == rs[i + 1]);
            }
            if j >= p {
                assert(n[j] == rs[j + 1]);
            }
        }
    }
    if has_id(n, id) {
        let j = choose|j: int| 0 <= j < n.len() && #[trigger] n[j].id == id;
        if p < rs.len() && rs[p].id == id {
            if j >= p {
                assert(n[j] == rs[j + 1]);
                assert(rs[p].id < rs[j + 1].id);
            }
        } else {
            lemma_has_id(rs, id);
            assert(rs[j].id == id);
            assert(has_id(rs, id));
        }
    }
}

impl LocalContext {
    proof fn lemma_replace_entity(a: LocalContext, b: LocalContext, i: int, v: Vec<Registry>)
        requires
            a.wf(),
            0 <= i < a.names@.len(),
            b.names@ == a.names@,
            b.entities@ == a.entities@.update(i, v),
            sorted_ids(registries_view(v@)),
        ensures
            b.wf(),
            b@ == a@.insert(a.names@[i]@, registries_view(v@)),
    {
        assert forall|j: int| 0 <= j < b.entities@.len() implies sorted_ids(
            registries_view(#[trigger] b.entities@[j]@),
        ) by {
            if j != i {
                assert(b.entities@[j] == a.entities@[j]);
            }
        }
        let k = a.names@[i]@;
        assert forall|q: Seq<char>| #[trigger] b@.contains_key(q) implies b@[q] == a@.insert(
            k,
            registries_view(v@),
        )[q] by {
            let j = choose|j: int| 0 <= j < b.names@.len() && #[trigger] b.names@[j]@ == q;
            b.lemma_index(j);
            a.lemma_index(j);
            if j != i {
                assert(b.entities@[j] == a.entities@[j]);
                assert(a.names@[i]@ != a.names@[j]@) by {
                    if i < j {
                    } else {
                    }
                }
            }
        }
        assert forall|q: Seq<char>| #[trigger] b@.contains_key(q) == a@.insert(
            k,
            registries_view(v@),
        ).contains_key(q) by {
            if a@.contains_key(q) {
                let j = choose|j: int| 0 <= j < a.names@.len() && #[trigger] a.names@[j]@ == q;
                assert(b.names@[j]@ == q);
            }
            if b@.contains_key(q) {
                let j = choose|j: int| 0 <= j < b.names@.len() && #[trigger] b.names@[j]@ == q;
                assert(a.names@[j]@ == q);
            }
            assert(a.names@[i]@ == k);
        }
        assert(b@ =~= a@.insert(k, registries_view(v@)));
    }

    /// `OK` where the entity has a registry with identifier `id`; else
    /// `EntityNotCreated`, or `UuidNotCreatedForEntity` where the entity exists.
    pub fn check_registry(&self, name: &str, id: u128) -> (r: Result<(), Error>)
        requires
            self.wf(),
        ensures
            !self@.contains_key(name@) ==> (r matches Err(Error::EntityNotCreated(s)) && s@
                == name@),
            self@.contains_key(name@) && !has_id(self@[name@], id) ==> (r matches Err(
                Error::UuidNotCreatedForEntity(s, u),
            ) && s@ == name@ && u == id),
            self@.contains_key(name@) && has_id(self@[name@], id) ==> r is Ok,
    {
        match self.position(name) {
            None => Err(Error::EntityNotCreated(String::from_str(name))),
            Some(i) => match self.find(i, id) {
                Some(j) => {
                    assert(registries_view(self.entities@[i as int]@)[j as int].id == id);
                    Ok(())
                },
                None => Err(Error::UuidNotCreatedForEntity(String::from_str(name), id)),
            },
        }
    }

    fn find(&self, i: usize, id: u128) -> (r: Option<usize>)
        requires
            self.wf(),
            i < self.names@.len(),
        ensures
            r is None ==> !has_id(registries_view(self.entities@[i as int]@), id),
            r matches Some(j) ==> j < self.entities@[i as int]@.len()
                && self.entities@[i as int]@[j as int].id == id,
    {
        let rs = &self.entities[i];
        let mut j: usize = 0;
        while j < rs.len()
            invariant
                i < self.entities@.len(),
                *rs == self.entities@[i as int],
                j <= rs.len(),
                forall|q: int| 0 <= q < j ==> rs@[q].id != id,
            decreases rs.len() - j,
        {
            if rs[j].id == id {
                return Some(j);
            }
            j = j + 1;
        }
        proof {
            if has_id(registries_view(rs@), id) {
                let q = choose|q: int|
                    0 <= q < registries_view(rs@).len() && #[trigger] registries_view(rs@)[q].id
                        == id;
                assert(rs@[q].id == id);
            }
        }
        None
    }

    /// The registry with identifier `id` of the entity, if both exist.
    pub fn registry(&self, name: &str, id: u128) -> (r: Option<&Registry>)
        requires
            self.wf(),
        ensures
            r is Some <==> self@.contains_key(name@) && has_id(self@[name@], id),
            r matches Some(g) ==> g.id == id && self@[name@].contains(
                RegistryV { id: g.id, register: g.register@, state: g.state@ },
            ),
    {
        match self.position(name) {
            None => None,
            Some(i) => match self.find(i, id) {
                Some(j) => {
                    proof {
                        let rv = registries_view(self.entities@[i as int]@);
                        assert(rv[j as int] == RegistryV {
                            id: self.entities@[i as int]@[j as int].id,
                            register: self.entities@[i as int]@[j as int].register@,
                            state: self.entities@[i as int]@[j as int].state@,
                        });
                        assert(rv[j as int].id == id);
                    }
                    Some(&self.entities[i][j])
                },
                None => None,
            },
        }
    }

    /// The states of the registries of the entity, in the order of their
    /// identifiers; `EntityNotCreated` where it does not exist.
    pub fn states(&self, name: &str) -> (r: Result<Vec<(u128, Entity)>, Error>)
        requires
            self.wf(),
        ensures
            !self@.contains_key(name@) ==> (r matches Err(Error::EntityNotCreated(s)) && s@
                == name@),
            self@.contains_key(name@) ==> (r matches Ok(v) && states_view(v@)
                == states_of_registries(self@[name@])),
    {
        match self.position(name) {
            None => Err(Error::EntityNotCreated(String::from_str(name))),
            Some(i) => {
                let rs = &self.entities[i];
                let mut v: Vec<(u128, Entity)> = Vec::new();
                let mut j: usize = 0;
                while j < rs.len()
                    invariant
                        j <= rs.len(),
                        states_view(v@) == states_of_registries(registries_view(rs@)).subrange(
                            0,
                            j as int,
                        ),
                    decreases rs.len() - j,
                {
                    let ghost before = v@;
                    let e = clone_entity(&rs[j].state);
                    let ghost ev = e@;
                    v.push((rs[j].id, e));
                    assert(states_view(v@) =~= states_view(before).push((rs@[j as int].id, ev)));
                    assert(states_view(v@) =~= states_of_registries(registries_view(rs@)).subrange(
                        0,
                        j + 1,
                    ));
                    j = j + 1;
                }
                assert(states_of_registries(registries_view(rs@)).subrange(0, rs.len() as int)
                    =~= states_of_registries(registries_view(rs@)));
                Ok(v)
            },
        }
    }

    /// Puts a registry into an entity that exists (replacing the registry with
    /// its identifier); an entity that does not exist is left absent.
    pub fn put_registry(&mut self, name: &str, reg: Registry)
        requires
            old(self).wf(),
        ensures
            final(self).wf(),
            old(self)@.contains_key(name@) ==> final(self)@ == old(self)@.insert(
                name@,
                put(
                    old(self)@[name@],
                    RegistryV { id: reg.id, register: reg.register@, state: reg.state@ },
                ),
            ),
            !old(self)@.contains_key(name@) ==> final(self)@ == old(self)@,
    {
        match self.position(name) {
            None => {},
            Some(i) => {
                let ghost a = *self;
                let ghost rv = RegistryV { id: reg.id, register: reg.register@, state: reg.state@ };
                let mut rs = self.entities.remove(i);
                let ghost old_rs = rs@;
                proof {
                    assert(old_rs == a.entities@[i as int]@);
                    lemma_below(registries_view(old_rs), reg.id);
                    lemma_put_sorted(registries_view(old_rs), rv);
                }
                let mut p: usize = 0;
                while p < rs.len() && rs[p].id < reg.id
                    invariant
                        p <= rs.len(),
                        rs@ == old_rs,
                        sorted_ids(registries_view(old_rs)),
                        forall|q: int| 0 <= q < p ==> old_rs[q].id < reg.id,
                    decreases rs.len() - p,
                {
                    p = p + 1;
                }
                proof {
                    let rview = registries_view(old_rs);
                    lemma_below(rview, reg.id);
                    let b = below(rview, reg.id);
                    if b < p {
                        assert(rview[b].id >= reg.id);
                        assert(old_rs[b].id < reg.id);
                    }
                    if p < b {
                        assert(rview[p as int].id < reg.id);
                    }
                    assert(b == p);
                }
                if p < rs.len() && rs[p].id == reg.id {
                    rs.set(p, reg);
                } else {
                    rs.insert(p, reg);
                }
                assert(registries_view(rs@) =~= put(registries_view(old_rs), rv));
                let ghost nrs = rs;
                self.entities.insert(i, rs);
                proof {
                    assert(self.entities@ =~= a.entities@.update(i as int, nrs));
                    LocalContext::lemma_replace_entity(a, *self, i as int, nrs);
                }
            },
        }
    }

    /// Removes the registry `id` from an entity, where both exist.
    pub fn evict_registry(&mut self, name: &str, id: u128)
        requires
            old(self).wf(),
        ensures
            final(self).wf(),
            old(self)@.contains_key(name@) ==> final(self)@ == old(self)@.insert(
                name@,
                without(old(self)@[name@], id),
            ),
            !old(self)@.contains_key(name@) ==> final(self)@ == old(self)@,
    {
        match self.position(name) {
            None => {},
            Some(i) => {
                let ghost a = *self;
                let mut rs = self.entities.remove(i);
                let ghost old_rs = rs@;
                proof {
                    assert(old_rs == a.entities@[i as int]@);
                    lemma_without_sorted(registries_view(old_rs), id);
                    lemma_below(registries_view(old_rs), id);
                }
                let mut p: usize = 0;
                while p < rs.len() && rs[p].id < id
                    invariant
                        p <= rs.len(),
                        rs@ == old_rs,
                        sorted_ids(registries_view(old_rs)),
                        forall|q: int| 0 <= q < p ==> old_rs[q].id < id,
                    decreases rs.len() - p,
                {
                    p = p + 1;
                }
                proof {
                    let rview = registries_view(old_rs);
                    lemma_below(rview, id);
                    let b = below(rview, id);
                    if b < p {
                        assert(rview[b].id >= id);
                        assert(old_rs[b].id < id);
                    }
                    if p < b {
                        assert(rview[p as int].id < id);
                    }
                    assert(b == p);
                }
                if p < rs.len() && rs[p].id == id {
                    rs.remove(p);
                }
                assert(registries_view(rs@) =~= without(registries_view(old_rs), id));
                let ghost nrs = rs;
                self.entities.insert(i, rs);
                proof {
                    assert(self.entities@ =~= a.entities@.update(i as int, nrs));
                    LocalContext::lemma_replace_entity(a, *self, i as int, nrs);
                }
            },
        }
    }

    /// Removes an entity and all its registries.
    pub fn evict_entity(&mut self, name: &str)
        requires
            old(self).wf(),
        ensures
            final(self).wf(),
            final(self)@ == old(self)@.remove(name@),
    {
        match self.position(name) {
            None => {
                assert(self@ =~= self@.remove(name@));
            },
            Some(i) => {
                let ghost a = *self;
                self.names.remove(i);
                self.entities.remove(i);
                proof {
                    assert forall|x: int, y: int|
                        0 <= x < y < self.names@.len() implies self.names@[x]@ != self.names@[y]@ by {
                        let x2 = if x < i { x } else { x + 1 };
                        let y2 = if y < i { y } else { y + 1 };
                        assert(self.names@[x] == a.names@[x2]);
                        assert(self.names@[y] == a.names@[y2]);
                    }
                    assert forall|x: int| 0 <= x < self.entities@.len() implies sorted_ids(
                        registries_view(#[trigger] self.entities@[x]@),
                    ) by {
                        let x2 = if x < i { x } else { x + 1 };
                        assert(self.entities@[x] == a.entities@[x2]);
                    }
                    assert forall|q: Seq<char>| #[trigger] self@.contains_key(q) == a@.remove(
                        name@,
                    ).contains_key(q) by {
                        if self@.contains_key(q) {
                            let x = choose|x: int|
                                0 <= x < self.names@.len() && #[trigger] self.names@[x]@ == q;
                            let x2 = if x < i { x } else { x + 1 };
                            assert(a.names@[x2]@ == q);
                            assert(x2 != i);
                            assert(q != name@) by {
                                if x2 < i {
                                    assert(a.names@[x2]@ != a.names@[i as int]@);
                                } else {
                                    assert(a.names@[i as int]@ != a.names@[x2]@);
                                }
                            }
                        }
                        if a@.contains_key(q) && q != name@ {
                            let x = choose|x: int|
                                0 <= x < a.names@.len() && #[trigger] a.names@[x]@ == q;
                            assert(x != i);
                            let x1 = if x < i { x } else { x - 1 };
                            assert(self.names@[x1]@ == q);
                        }
                    }
                    assert forall|q: Seq<char>| #[trigger] self@.contains_key(q) implies self@[q]
                        == a@[q] by {
                        let x = choose|x: int|
                            0 <= x < self.names@.len() && #[trigger] self.names@[x]@ == q;
                        self.lemma_index(x);
                        let x2 = if x < i { x } else { x + 1 };
                        assert(a.names@[x2] == self.names@[x]);
                        assert(a.entities@[x2] == self.entities@[x]);
                        a.lemma_index(x2);
                    }
                    assert(self@ =~= a@.remove(name@));
                }
            },
        }
    }
}

/// A registry put into an entity is there afterwards, under its identifier,
/// and every registry with another identifier stays; the identifiers stay in
/// order.
pub proof fn law_put_then_read(rs: Seq<RegistryV>, r: RegistryV)
    requires
        sorted_ids(rs),
    ensures
        sorted_ids(put(rs, r)),
        put(rs, r).contains(r),
        has_id(put(rs, r), r.id),
        forall|x: RegistryV| rs.contains(x) && x.id != r.id ==> put(rs, r).contains(x),
        forall|x: RegistryV| #[trigger] put(rs, r).contains(x) ==> x == r || rs.contains(x),
{
    lemma_put_sorted(rs, r);
    lemma_below(rs, r.id);
    let p = below(rs, r.id);
    let n = put(rs, r);
    assert(n[p] == r);
    assert forall|x: RegistryV| rs.contains(x) && x.id != r.id implies n.contains(x) by {
        let j = choose|j: int| 0 <= j < rs.len() && rs[j] == x;
        if p < rs.len() && rs[p].id == r.id {
            assert(j != p);
            assert(n[j] == x);
        } else if j < p {
            assert(n[j] == x);
        } else {
            assert(n[j + 1] == x);
        }
    }
    assert forall|x: RegistryV| #[trigger] n.contains(x) implies x == r || rs.contains(x) by {
        let j = choose|j: int| 0 <= j < n.len() && n[j] == x;
        if p < rs.len() && rs[p].id == r.id {
            if j != p {
                assert(rs[j] == x);
            }
        } else if j < p {
            assert(rs[j] == x);
        } else if j > p {
            assert(rs[j - 1] == x);
        }
    }
}

/// After a registry is evicted its identifier is gone, and every registry
/// with another identifier stays.
pub proof fn law_evict_registry(rs: Seq<RegistryV>, id: u128)
    requires
        sorted_ids(rs),
    ensures
        sorted_ids(without(rs, id)),
        !has_id(without(rs, id), id),
        forall|x: RegistryV| rs.contains(x) && x.id != id ==> without(rs, id).contains(x),
        forall|x: RegistryV| #[trigger] without(rs, id).contains(x) ==> rs.contains(x),
{
    lemma_without_sorted(rs, id);
    lemma_below(rs, id);
    let p = below(rs, id);
    let n = without(rs, id);
    assert forall|x: RegistryV| rs.contains(x) && x.id != id implies n.contains(x) by {
        let j = choose|j: int| 0 <= j < rs.len() && rs[j] == x;
        if p < rs.len() && rs[p].id == id {
            assert(j != p);
            if j < p {
                assert(n[j] == x);
            } else {
                assert(n[j - 1] == x);
            }
        } else {
            assert(n[j] == x);
        }
    }
    assert forall|x: RegistryV| #[trigger] n.contains(x) implies rs.contains(x) by {
        let j = choose|j: int| 0 <= j < n.len() && n[j] == x;
        if p < rs.len() && rs[p].id == id {
            if j < p {
                assert(rs[j] == x);
            } else {
                assert(rs[j + 1] == x);
            }
        } else {
            assert(rs[j] == x);
        }
    }
}

} // verus!
