//! `UNIQUES` and `ENCRYPT` of an entity: the keys whose values may not repeat,
//! with the values seen so far, and the keys whose values are kept hashed.

use vstd::prelude::*;
use crate::debug::{debug_text, hash_text, to_hash, types_debug};
use crate::error::Error;
use crate::text::str_eq;
use crate::types::{Entity, Types, TypesV, strings_view};
use crate::ast::TextMap;
use crate::auth::models::{all_ascii, bcrypt_verify, str_is_ascii, verify_password};
use crate::compare::{entity_get, entity_index};
use crate::state::merge_entities;

verus! {

/// A unique key of an entity, with the `Debug` texts of the values it took.
#[derive(Debug)]
pub struct UniqueSlot {
    pub entity: String,
    pub key: String,
    pub seen: Vec<String>,
}

/// The model of a unique key: entity, key, texts seen.
pub type SlotV = (Seq<char>, Seq<char>, Seq<Seq<char>>);

pub open spec fn slot_view(s: UniqueSlot) -> SlotV {
    (s.entity@, s.key@, strings_view(s.seen@))
}

pub open spec fn slots_view(s: Seq<UniqueSlot>) -> Seq<SlotV> {
    s.map_values(|x: UniqueSlot| slot_view(x))
}

/// The entities created with `UNIQUES`, and their unique keys.
#[derive(Debug)]
pub struct Uniqueness {
    pub entities: Vec<String>,
    pub slots: Vec<UniqueSlot>,
}

/// The first unique key `key` of `entity`, if any.
pub open spec fn slot_index(slots: Seq<SlotV>, entity: Seq<char>, key: Seq<char>) -> Option<int>
    decreases slots.len(),
{
    if slots.len() == 0 {
        None
    } else if slots[0].0 == entity && slots[0].1 == key {
        Some(0)
    } else {
        match slot_index(slots.drop_first(), entity, key) {
            Some(i) => Some(i + 1),
            None => None,
        }
    }
}

/// One value checked: a unique key that already took the text is a
/// duplicate; else the text is recorded.
pub open spec fn check_one(slots: Seq<SlotV>, entity: Seq<char>, key: Seq<char>, text: Seq<char>) -> (
    Seq<SlotV>,
    bool,
) {
    match slot_index(slots, entity, key) {
        Some(i) => if slots[i].2.contains(text) {
            (slots, false)
        } else {
            (slots.update(i, (slots[i].0, slots[i].1, slots[i].2.push(text))), true)
        },
        None => (slots, true),
    }
}

/// The pairs checked in order, up to the first duplicate: the unique keys
/// afterwards, and the position of the duplicate if there is one.
pub open spec fn check_all(slots: Seq<SlotV>, entity: Seq<char>, pairs: Seq<(Seq<char>, Seq<char>)>) -> (
    Seq<SlotV>,
    Option<int>,
)
    decreases pairs.len(),
{
    if pairs.len() == 0 {
        (slots, None)
    } else {
        let (s1, dup) = check_all(slots, entity, pairs.drop_last());
        match dup {
            Some(d) => (s1, Some(d)),
            None => {
                let (s2, ok) = check_one(s1, entity, pairs.last().0, pairs.last().1);
                if ok {
                    (s2, None)
                } else {
                    (s2, Some(pairs.len() - 1))
                }
            },
        }
    }
}

proof fn lemma_check_all_stable(
    slots: Seq<SlotV>,
    entity: Seq<char>,
    pairs: Seq<(Seq<char>, Seq<char>)>,
    m: int,
)
    requires
        0 <= m <= pairs.len(),
        check_all(slots, entity, pairs.subrange(0, m)).1 is Some,
    ensures
        check_all(slots, entity, pairs) == check_all(slots, entity, pairs.subrange(0, m)),
    decreases pairs.len(),
{
    if m == pairs.len() {
        assert(pairs.subrange(0, m) =~= pairs);
    } else {
        assert(pairs.drop_last().subrange(0, m) =~= pairs.subrange(0, m));
        lemma_check_all_stable(slots, entity, pairs.drop_last(), m);
    }
}

/// A value recorded under a unique key is refused the next time it comes:
/// checking the same text again reports a duplicate and records nothing.
pub proof fn law_unique_refuses_repeat(
    slots: Seq<SlotV>,
    entity: Seq<char>,
    key: Seq<char>,
    text: Seq<char>,
)
    requires
        slot_index(slots, entity, key) is Some,
    ensures
        ({
            let (after, ok) = check_one(slots, entity, key, text);
            let (again, ok2) = check_one(after, entity, key, text);
            &&& !ok2
            &&& again == after
        }),
{
    lemma_slot_index(slots, entity, key);
    let i = slot_index(slots, entity, key)->0;
    let (after, ok) = check_one(slots, entity, key, text);
    if ok {
        lemma_slot_index_update(slots, entity, key, i, (slots[i].0, slots[i].1, slots[i].2.push(text)));
        assert(after[i].2[after[i].2.len() - 1] == text);
    }
}

proof fn lemma_slot_index(slots: Seq<SlotV>, entity: Seq<char>, key: Seq<char>)
    ensures
        slot_index(slots, entity, key) matches Some(i) ==> 0 <= i < slots.len() && slots[i].0
            == entity && slots[i].1 == key && forall|j: int|
            0 <= j < i ==> !(slots[j].0 == entity && slots[j].1 == key),
    decreases slots.len(),
{
    if slots.len() > 0 {
        lemma_slot_index(slots.drop_first(), entity, key);
        if !(slots[0].0 == entity && slots[0].1 == key) {
            if let Some(i) = slot_index(slots.drop_first(), entity, key) {
                assert forall|j: int| 0 <= j < i + 1 implies !(slots[j].0 == entity && slots[j].1
                    == key) by {
                    if j > 0 {
                        assert(slots.drop_first()[j - 1] == slots[j]);
                    }
                }
            }
        }
    }
}

proof fn lemma_slot_index_update(
    slots: Seq<SlotV>,
    entity: Seq<char>,
    key: Seq<char>,
    i: int,
    s: SlotV,
)
    requires
        slot_index(slots, entity, key) == Some(i),
        s.0 == entity,
        s.1 == key,
    ensures
        slot_index(slots.update(i, s), entity, key) == Some(i),
    decreases slots.len(),
{
    lemma_slot_index(slots, entity, key);
    if i > 0 {
        assert(slots.update(i, s)[0] == slots[0]);
        assert(slots.update(i, s).drop_first() =~= slots.drop_first().update(i - 1, s));
        lemma_slot_index_update(slots.drop_first(), entity, key, i - 1, s);
    }
}

/// The keys of the content with the `Debug` texts of their values.
pub open spec fn content_pairs(e: Entity) -> Seq<(Seq<char>, Seq<char>)> {
    Seq::new(e.keys@.len(), |j: int| (e.keys@[j]@, debug_text(e.values@[j])))
}

/// What checking `content` against the unique keys of `entity` does: the
/// unique keys afterwards, and the position of the first duplicate; nothing
/// changes for an entity without unique keys.
pub open spec fn unique_outcome(u: Uniqueness, entity: Seq<char>, content: Entity) -> (
    Seq<SlotV>,
    Option<int>,
) {
    if u.entities@.len() > 0 && strings_view(u.entities@).contains(entity) {
        check_all(slots_view(u.slots@), entity, content_pairs(content))
    } else {
        (slots_view(u.slots@), None)
    }
}

impl Uniqueness {
    pub fn new() -> (r: Uniqueness)
        ensures
            r.entities@.len() == 0,
            r.slots@.len() == 0,
    {
        Uniqueness { entities: Vec::new(), slots: Vec::new() }
    }

    fn registered(&self, entity: &str) -> (r: bool)
        ensures
            r == strings_view(self.entities@).contains(entity@),
    {
        let mut i: usize = 0;
        while i < self.entities.len()
            invariant
                i <= self.entities.len(),
                forall|j: int| 0 <= j < i ==> self.entities@[j]@ != entity@,
            decreases self.entities.len() - i,
        {
            if str_eq(self.entities[i].as_str(), entity) {
                assert(strings_view(self.entities@)[i as int] == entity@);
                return true;
            }
            i = i + 1;
        }
        proof {
            if strings_view(self.entities@).contains(entity@) {
                let j = choose|j: int|
                    0 <= j < strings_view(self.entities@).len() && strings_view(self.entities@)[j]
                        == entity@;
                assert(self.entities@[j]@ == entity@);
            }
        }
        false
    }

    /// `CREATE ENTITY ... UNIQUES`: an entity not yet known gets the unique
    /// keys, each with no value seen; an entity already known is left as it
    /// is.
    pub fn create_with_unique_keys(&mut self, entity: &str, uniques: &Vec<String>)
        ensures
            strings_view(old(self).entities@).contains(entity@) ==> *final(self) == *old(self),
            !strings_view(old(self).entities@).contains(entity@) ==> strings_view(
                final(self).entities@,
            ) == strings_view(old(self).entities@).push(entity@) && slots_view(final(self).slots@)
                == slots_view(old(self).slots@) + strings_view(uniques@).map_values(
                |k: Seq<char>| (entity@, k, Seq::<Seq<char>>::empty()),
            ),
    {
        if self.registered(entity) {
            return;
        }
        let ghost old_entities = self.entities@;
        let ghost old_slots = self.slots@;
        self.entities.push(String::from_str(entity));
        assert(strings_view(self.entities@) =~= strings_view(old_entities).push(entity@));
        let ghost target = strings_view(uniques@).map_values(
            |k: Seq<char>| (entity@, k, Seq::<Seq<char>>::empty()),
        );
        let mut i: usize = 0;
        while i < uniques.len()
            invariant
                i <= uniques.len(),
                strings_view(self.entities@) == strings_view(old_entities).push(entity@),
                target == strings_view(uniques@).map_values(
                    |k: Seq<char>| (entity@, k, Seq::<Seq<char>>::empty()),
                ),
                slots_view(self.slots@) == slots_view(old_slots) + target.subrange(0, i as int),
            decreases uniques.len() - i,
        {
            let ghost before = self.slots@;
            let slot = UniqueSlot {
                entity: String::from_str(entity),
                key: uniques[i].clone(),
                seen: Vec::new(),
            };
            proof {
                assert(strings_view(slot.seen@) =~= Seq::<Seq<char>>::empty());
            }
            self.slots.push(slot);
            assert(slots_view(self.slots@) =~= slots_view(before).push(target[i as int]));
            assert(slots_view(self.slots@) =~= slots_view(old_slots) + target.subrange(0, i + 1));
            i = i + 1;
        }
        assert(target.subrange(0, uniques.len() as int) =~= target);
    }

    fn find_slot(&self, entity: &str, key: &str) -> (r: Option<usize>)
        ensures
            r matches Some(i) ==> i < self.slots@.len() && slot_index(slots_view(self.slots@), entity@, key@) == Some(i as int),
            r is None ==> slot_index(slots_view(self.slots@), entity@, key@) is None,
    {
        let ghost sv = slots_view(self.slots@);
        let mut i: usize = 0;
        assert(sv.subrange(0, sv.len() as int) =~= sv);
        while i < self.slots.len()
            invariant
                i <= self.slots.len(),
                sv == slots_view(self.slots@),
                slot_index(sv, entity@, key@) == match slot_index(
                    sv.subrange(i as int, sv.len() as int),
                    entity@,
                    key@,
                ) {
                    Some(j) => Some(j + i),
                    None => None,
                },
            decreases self.slots.len() - i,
        {
            let ghost rest = sv.subrange(i as int, sv.len() as int);
            assert(rest[0] == sv[i as int]);
            assert(rest.drop_first() =~= sv.subrange(i + 1, sv.len() as int));
            if str_eq(self.slots[i].entity.as_str(), entity) && str_eq(
                self.slots[i].key.as_str(),
                key,
            ) {
                return Some(i);
            }
            i = i + 1;
        }
        None
    }

    /// Records the `Debug` text of each value of `content` under its unique
    /// key of `entity`, in order; the first value that its key already took
    /// is `DuplicatedUnique`, and the values before it stay recorded. Nothing
    /// is checked while no entity has unique keys, or for an entity without
    /// them.
    pub fn check_for_unique_keys(&mut self, entity: &str, content: &Entity) -> (r: Result<(), Error>)
        requires
            content.wf(),
        ensures
            old(self).entities@.len() == 0 || !strings_view(old(self).entities@).contains(entity@)
                ==> *final(self) == *old(self) && r is Ok,
            old(self).entities@.len() > 0 && strings_view(old(self).entities@).contains(entity@)
                ==> {
                let (slots, dup) = check_all(slots_view(old(self).slots@), entity@, content_pairs(*content));
                &&& slots_view(final(self).slots@) == slots
                &&& final(self).entities == old(self).entities
                &&& dup is None ==> r is Ok
                &&& dup matches Some(d) ==> (r matches Err(Error::DuplicatedUnique(e, k, t)) && e@
                    == entity@ && k@ == content_pairs(*content)[d].0 && t@ == content_pairs(
                    *content,
                )[d].1)
            },
    {
        if self.entities.len() == 0 || !self.registered(entity) {
            return Ok(());
        }
        let ghost pairs = content_pairs(*content);
        let mut j: usize = 0;
        assert(pairs.subrange(0, 0) =~= Seq::<(Seq<char>, Seq<char>)>::empty());
        while j < content.keys.len()
            invariant
                content.wf(),
                j <= content.keys.len(),
                pairs == content_pairs(*content),
                self.entities == old(self).entities,
                old(self).entities@.len() > 0,
                strings_view(old(self).entities@).contains(entity@),
                check_all(slots_view(old(self).slots@), entity@, pairs.subrange(0, j as int)) == (
                    slots_view(self.slots@),
                    None::<int>,
                ),
            decreases content.keys.len() - j,
        {
            let k = &content.keys[j];
            let text = types_debug(&content.values[j]);
            let ghost pre = pairs.subrange(0, j + 1);
            assert(pre.drop_last() =~= pairs.subrange(0, j as int));
            assert(pre.last() == (k@, text@));
            match self.find_slot(entity, k.as_str()) {
                Some(i) => {
                    let ghost sv = slots_view(self.slots@);
                    let mut seen_it = false;
                    let mut q: usize = 0;
                    while q < self.slots[i].seen.len()
                        invariant
                            i < self.slots@.len(),
                            sv == slots_view(self.slots@),
                            q <= self.slots@[i as int].seen@.len(),
                            seen_it == strings_view(self.slots@[i as int].seen@).subrange(
                                0,
                                q as int,
                            ).contains(text@),
                        decreases self.slots@[i as int].seen@.len() - q,
                    {
                        let ghost before = strings_view(self.slots@[i as int].seen@).subrange(
                            0,
                            q as int,
                        );
                        let ghost after = strings_view(self.slots@[i as int].seen@).subrange(
                            0,
                            q + 1,
                        );
                        assert(after =~= before.push(self.slots@[i as int].seen@[q as int]@));
                        if str_eq(self.slots[i].seen[q].as_str(), text.as_str()) {
                            seen_it = true;
                            assert(after[q as int] == text@);
                        } else {
                            proof {
                                if after.contains(text@) {
                                    let w = choose|w: int|
                                        0 <= w < after.len() && after[w] == text@;
                                    if w < q {
                                        assert(before[w] == text@);
                                    }
                                }
                                if seen_it {
                                    let w = choose|w: int|
                                        0 <= w < before.len() && before[w] == text@;
                                    assert(after[w] == text@);
                                }
                            }
                        }
                        q = q + 1;
                    }
                    assert(strings_view(self.slots@[i as int].seen@).subrange(
                        0,
                        self.slots@[i as int].seen@.len() as int,
                    ) =~= strings_view(self.slots@[i as int].seen@));
                    assert(sv[i as int].2 == strings_view(self.slots@[i as int].seen@));
                    if seen_it {
                        proof {
                            assert(check_all(slots_view(old(self).slots@), entity@, pre) == (
                                sv,
                                Some(j as int),
                            ));
                            lemma_check_all_stable(slots_view(old(self).slots@), entity@, pairs, j + 1);
                        }
                        return Err(Error::DuplicatedUnique(String::from_str(entity), k.clone(), text));
                    }
                    let mut slot = self.slots.remove(i);
                    let ghost old_seen = slot.seen@;
                    slot.seen.push(text);
                    assert(strings_view(slot.seen@) =~= strings_view(old_seen).push(
                        pre.last().1,
                    ));
                    self.slots.insert(i, slot);
                    assert(slots_view(self.slots@) =~= sv.update(
                        i as int,
                        (sv[i as int].0, sv[i as int].1, sv[i as int].2.push(pre.last().1)),
                    ));
                },
                None => {},
            }
            j = j + 1;
        }
        assert(pairs.subrange(0, content.keys.len() as int) =~= pairs);
        Ok(())
    }
}

/// The entities created with `ENCRYPT`, each with its encrypted keys.
#[derive(Debug)]
pub struct Encryption {
    pub entities: Vec<String>,
    pub keys: Vec<Vec<String>>,
}

/// The encrypted keys of the first entry of `entity`, if any.
pub open spec fn encrypted_keys(names: Seq<Seq<char>>, keys: Seq<Seq<Seq<char>>>, entity: Seq<char>) -> Option<
    Seq<Seq<char>>,
>
    decreases names.len(),
{
    if names.len() == 0 || keys.len() == 0 {
        None
    } else if names[0] == entity {
        Some(keys[0])
    } else {
        encrypted_keys(names.drop_first(), keys.drop_first(), entity)
    }
}

impl Encryption {
    pub open spec fn names(&self) -> Seq<Seq<char>> {
        strings_view(self.entities@)
    }

    pub open spec fn key_lists(&self) -> Seq<Seq<Seq<char>>> {
        self.keys@.map_values(|v: Vec<String>| strings_view(v@))
    }

    pub open spec fn keys_of(&self, entity: Seq<char>) -> Option<Seq<Seq<char>>> {
        encrypted_keys(self.names(), self.key_lists(), entity)
    }

    pub fn new() -> (r: Encryption)
        ensures
            r.entities@.len() == 0,
            r.keys@.len() == 0,
    {
        Encryption { entities: Vec::new(), keys: Vec::new() }
    }

    /// The encrypted keys of an entity, if it was created with `ENCRYPT`.
    pub fn keys_for(&self, entity: &str) -> (r: Option<&Vec<String>>)
        ensures
            match r {
                Some(v) => self.keys_of(entity@) == Some(strings_view(v@)),
                None => self.keys_of(entity@) is None,
            },
    {
        let ghost names = self.names();
        let ghost lists = self.key_lists();
        let n = if self.entities.len() < self.keys.len() {
            self.entities.len()
        } else {
            self.keys.len()
        };
        let mut i: usize = 0;
        assert(names.subrange(0, names.len() as int) =~= names);
        assert(lists.subrange(0, lists.len() as int) =~= lists);
        while i < n
            invariant
                n <= self.entities@.len(),
                n <= self.keys@.len(),
                n == self.entities@.len() || n == self.keys@.len(),
                i <= n,
                names == self.names(),
                lists == self.key_lists(),
                self.keys_of(entity@) == encrypted_keys(
                    names.subrange(i as int, names.len() as int),
                    lists.subrange(i as int, lists.len() as int),
                    entity@,
                ),
            decreases n - i,
        {
            let ghost rn = names.subrange(i as int, names.len() as int);
            let ghost rl = lists.subrange(i as int, lists.len() as int);
            assert(rn.drop_first() =~= names.subrange(i + 1, names.len() as int));
            assert(rl.drop_first() =~= lists.subrange(i + 1, lists.len() as int));
            assert(rn[0] == self.entities@[i as int]@);
            assert(rl[0] == strings_view(self.keys@[i as int]@));
            if str_eq(self.entities[i].as_str(), entity) {
                return Some(&self.keys[i]);
            }
            i = i + 1;
        }
        None
    }

    /// `CREATE ENTITY ... ENCRYPT`: an entity not yet known gets its
    /// encrypted keys; one already known is left as it is.
    pub fn create_with_encryption(&mut self, entity: &str, encrypts: Vec<String>)
        requires
            old(self).entities@.len() == old(self).keys@.len(),
        ensures
            final(self).entities@.len() == final(self).keys@.len(),
            old(self).keys_of(entity@) is Some ==> *final(self) == *old(self),
            old(self).keys_of(entity@) is None ==> final(self).names() == old(self).names().push(
                entity@,
            ) && final(self).key_lists() == old(self).key_lists().push(strings_view(encrypts@)),
    {
        if self.keys_for(entity).is_some() {
            return;
        }
        let ghost on = self.names();
        let ghost ol = self.key_lists();
        let ghost ev = strings_view(encrypts@);
        self.entities.push(String::from_str(entity));
        self.keys.push(encrypts);
        assert(self.names() =~= on.push(entity@));
        assert(self.key_lists() =~= ol.push(ev));
    }
}

/// The keys of `content` that are in `encrypted`, in order.
pub open spec fn keys_in(content: Seq<Seq<char>>, encrypted: Seq<Seq<char>>, inside: bool) -> Seq<
    Seq<char>,
>
    decreases content.len(),
{
    if content.len() == 0 {
        Seq::empty()
    } else if encrypted.contains(content.last()) == inside {
        keys_in(content.drop_last(), encrypted, inside).push(content.last())
    } else {
        keys_in(content.drop_last(), encrypted, inside)
    }
}

fn listed(keys: &Vec<String>, k: &str) -> (r: bool)
    ensures
        r == strings_view(keys@).contains(k@),
{
    let mut i: usize = 0;
    while i < keys.len()
        invariant
            i <= keys.len(),
            forall|j: int| 0 <= j < i ==> keys@[j]@ != k@,
        decreases keys.len() - i,
    {
        if str_eq(keys[i].as_str(), k) {
            assert(strings_view(keys@)[i as int] == k@);
            return true;
        }
        i = i + 1;
    }
    proof {
        if strings_view(keys@).contains(k@) {
            let j = choose|j: int| 0 <= j < strings_view(keys@).len() && strings_view(keys@)[j] == k@;
            assert(keys@[j]@ == k@);
        }
    }
    false
}

fn select_keys(content: &Vec<String>, encrypted: &Vec<String>, inside: bool) -> (r: Vec<String>)
    ensures
        strings_view(r@) == keys_in(strings_view(content@), strings_view(encrypted@), inside),
{
    let ghost cv = strings_view(content@);
    let mut r: Vec<String> = Vec::new();
    let mut i: usize = 0;
    while i < content.len()
        invariant
            i <= content.len(),
            cv == strings_view(content@),
            strings_view(r@) == keys_in(cv.subrange(0, i as int), strings_view(encrypted@), inside),
        decreases content.len() - i,
    {
        assert(cv.subrange(0, i + 1).drop_last() =~= cv.subrange(0, i as int));
        assert(cv.subrange(0, i + 1).last() == content@[i as int]@);
        if listed(encrypted, content[i].as_str()) == inside {
            let ghost before = r@;
            r.push(content[i].clone());
            assert(strings_view(r@) =~= strings_view(before).push(content@[i as int]@));
        }
        i = i + 1;
    }
    assert(cv.subrange(0, content.len() as int) =~= cv);
    r
}

/// `UPDATE ... CONTENT` may not touch an entity created with `ENCRYPT`: for
/// such an entity the answer is `UpdateContentEncryptKeys` with the keys of
/// the content that are encrypted.
pub fn update_content_encryption_check(encryption: &Encryption, entity: &str, content: &Entity) -> (r:
    Result<(), Error>)
    ensures
        encryption.keys_of(entity@) is None ==> r is Ok,
        encryption.keys_of(entity@) matches Some(ks) ==> (r matches Err(
            Error::UpdateContentEncryptKeys(found),
        ) && strings_view(found@) == keys_in(strings_view(content.keys@), ks, true)),
{
    match encryption.keys_for(entity) {
        None => Ok(()),
        Some(ks) => Err(Error::UpdateContentEncryptKeys(select_keys(&content.keys, ks, true))),
    }
}

/// `CHECK` may only ask about encrypted keys: for an entity created with
/// `ENCRYPT`, keys that are not encrypted are `CheckNonEncryptedKeys`.
pub fn check_value_encryption_check(encryption: &Encryption, entity: &str, keys: &Vec<String>) -> (r:
    Result<(), Error>)
    ensures
        match encryption.keys_of(entity@) {
            None => r is Ok,
            Some(ks) => if keys_in(strings_view(keys@), ks, false).len() == 0 {
                r is Ok
            } else {
                r matches Err(Error::CheckNonEncryptedKeys(found)) && strings_view(found@)
                    == keys_in(strings_view(keys@), ks, false)
            },
        },
{
    match encryption.keys_for(entity) {
        None => Ok(()),
        Some(ks) => {
            let non = select_keys(keys, ks, false);
            if non.len() == 0 {
                Ok(())
            } else {
                Err(Error::CheckNonEncryptedKeys(non))
            }
        },
    }
}

/// The keys of `content` whose values are to be hashed before they are
/// stored: those that the entity encrypts (none while no entity encrypts).
pub fn keys_to_encrypt(encryption: &Encryption, entity: &str, content: &Entity) -> (r: Vec<String>)
    ensures
        match encryption.keys_of(entity@) {
            None => r@.len() == 0,
            Some(ks) => strings_view(r@) == keys_in(strings_view(content.keys@), ks, true),
        },
{
    match encryption.keys_for(entity) {
        None => Vec::new(),
        Some(ks) => select_keys(&content.keys, ks, true),
    }
}

/// The pairs of a `CHECK`: each key with the text to check against it.
pub open spec fn check_pairs(content: TextMap) -> Seq<(Seq<char>, Seq<char>)> {
    let n = if content.keys@.len() < content.values@.len() {
        content.keys@.len()
    } else {
        content.values@.len()
    };
    Seq::new(n, |j: int| (content.keys@[j]@, content.values@[j]@))
}

/// Every hash that a `CHECK` compares against is one that bcrypt reads.
pub open spec fn check_hashes_wf(state: Map<Seq<char>, TypesV>, pairs: Seq<(Seq<char>, Seq<char>)>) -> bool {
    forall|j: int|
        0 <= j < pairs.len() && state.contains_key(#[trigger] pairs[j].0) && state[pairs[j].0] is Hash
            ==> all_ascii(state[pairs[j].0]->Hash_0) && bcrypt_verify(
            pairs[j].1,
            state[pairs[j].0]->Hash_0,
        ) is Some
}

/// The answer of `CHECK` for one key: whether the text matches the hash the
/// state holds there; a key without a hash does not match.
pub open spec fn check_answer(state: Map<Seq<char>, TypesV>, key: Seq<char>, text: Seq<char>) -> bool {
    if state.contains_key(key) && state[key] is Hash {
        bcrypt_verify(text, state[key]->Hash_0)->0
    } else {
        false
    }
}

/// `CHECK`: for each key, whether its text matches the hash stored under it.
pub fn verify_encryption(state: &Entity, content: &TextMap) -> (r: Vec<(String, bool)>)
    requires
        check_hashes_wf(state@, check_pairs(*content)),
    ensures
        r@.len() == check_pairs(*content).len(),
        forall|j: int|
            0 <= j < r@.len() ==> #[trigger] r@[j].0@ == check_pairs(*content)[j].0 && r@[j].1
                == check_answer(state@, check_pairs(*content)[j].0, check_pairs(*content)[j].1),
{
    let n = if content.keys.len() < content.values.len() {
        content.keys.len()
    } else {
        content.values.len()
    };
    let ghost pairs = check_pairs(*content);
    let mut r: Vec<(String, bool)> = Vec::new();
    let mut j: usize = 0;
    while j < n
        invariant
            j <= n,
            n == pairs.len(),
            n <= content.keys@.len(),
            n <= content.values@.len(),
            pairs == check_pairs(*content),
            check_hashes_wf(state@, pairs),
            r@.len() == j,
            forall|q: int|
                0 <= q < j ==> #[trigger] r@[q].0@ == pairs[q].0 && r@[q].1 == check_answer(
                    state@,
                    pairs[q].0,
                    pairs[q].1,
                ),
        decreases n - j,
    {
        let k = &content.keys[j];
        let v = &content.values[j];
        assert(pairs[j as int] == (k@, v@));
        let answer = match entity_get(state, k.as_str()) {
            Some(Types::Hash(h)) => {
                assert(state@.contains_key(pairs[j as int].0));
                match verify_password(v.as_str(), h.as_str()) {
                    Some(b) => b,
                    None => false,
                }
            },
            _ => false,
        };
        let ghost before = r@;
        r.push((String::from_str(k.as_str()), answer));
        assert(r@[j as int].0@ == pairs[j as int].0);
        assert(r@[j as int].1 == check_answer(state@, pairs[j as int].0, pairs[j as int].1));
        assert forall|q: int| 0 <= q < j implies #[trigger] r@[q] == before[q] by {}
        j = j + 1;
    }
    r
}

/// `CHECK`, where it can be answered: `None` where some hash it compares
/// against is one that bcrypt cannot read.
pub fn verify_encryption_checked(state: &Entity, content: &TextMap) -> (r: Option<Vec<(String, bool)>>)
    ensures
        r is Some <==> check_hashes_wf(state@, check_pairs(*content)),
        r matches Some(v) ==> v@.len() == check_pairs(*content).len() && forall|j: int|
            0 <= j < v@.len() ==> #[trigger] v@[j].0@ == check_pairs(*content)[j].0 && v@[j].1
                == check_answer(state@, check_pairs(*content)[j].0, check_pairs(*content)[j].1),
{
    let n = if content.keys.len() < content.values.len() {
        content.keys.len()
    } else {
        content.values.len()
    };
    let ghost pairs = check_pairs(*content);
    let mut j: usize = 0;
    while j < n
        invariant
            j <= n,
            n == pairs.len(),
            n <= content.keys@.len(),
            n <= content.values@.len(),
            pairs == check_pairs(*content),
            forall|q: int|
                0 <= q < j && state@.contains_key(#[trigger] pairs[q].0) && state@[pairs[q].0] is Hash
                    ==> all_ascii(state@[pairs[q].0]->Hash_0) && bcrypt_verify(
                    pairs[q].1,
                    state@[pairs[q].0]->Hash_0,
                ) is Some,
        decreases n - j,
    {
        let k = &content.keys[j];
        let v = &content.values[j];
        assert(pairs[j as int] == (k@, v@));
        match entity_get(state, k.as_str()) {
            Some(Types::Hash(h)) => {
                assert(state@.contains_key(pairs[j as int].0));
                assert(state@[pairs[j as int].0] is Hash);
                assert(state@[pairs[j as int].0]->Hash_0 == h@);
                if !str_is_ascii(h.as_str()) {
                    assert(!check_hashes_wf(state@, pairs));
                    return None;
                }
                if verify_password(v.as_str(), h.as_str()).is_none() {
                    assert(!check_hashes_wf(state@, pairs));
                    return None;
                }
            },
            _ => {},
        }
        j = j + 1;
    }
    Some(verify_encryption(state, content))
}

/// How `ENCRYPT` stores the value `t`: as a hash that bcrypt verifies
/// against the text of `t` (see `hash_text`); a float, whose text is read
/// from its bits where floating-point numbers are handled, is left as it is
/// here; a hash or `Nil` cannot be stored encrypted.
pub open spec fn encrypted_as(t: Types, stored: TypesV) -> bool {
    match hash_text(t) {
        Ok(Some(x)) => stored matches TypesV::Hash(h) && all_ascii(h) && bcrypt_verify(x, h)
            == Some(true),
        Ok(None) => stored == t@,
        Err(_) => false,
    }
}

/// The state `e` is `content` with the values under `keys` encrypted: the
/// same keys; a key outside `keys` keeps its value; a key in `keys` holds
/// its value as `encrypted_as` stores it.
pub open spec fn encrypted_from(content: Entity, keys: Seq<Seq<char>>, e: Map<Seq<char>, TypesV>) -> bool {
    &&& e.dom() == content@.dom()
    &&& forall|k: Seq<char>| #[trigger] content@.contains_key(k) && !keys.contains(k) ==> e[k] == content@[k]
    &&& forall|k: Seq<char>| #[trigger] content@.contains_key(k) && keys.contains(k) ==> exists|p: int|
        0 <= p < content.values@.len() && content.values@[p]@ == content@[k] && encrypted_as(
            #[trigger] content.values@[p],
            e[k],
        )
}

/// `ENCRYPT` of `content` at `cost`: each value under one of `keys` is
/// hashed (see `to_hash`); an error of the hashing is the answer.
pub fn encrypt_content(content: &Entity, keys: &Vec<String>, cost: u32) -> (r: Result<Entity, String>)
    ensures
        r matches Ok(e) ==> e.wf() && encrypted_from(*content, strings_view(keys@), e@),
        r is Err ==> exists|j: int| 0 <= j < keys@.len() && content@.contains_key(#[trigger] keys@[j]@),
{
    let empty = Entity::new();
    let mut acc = merge_entities(content, &empty);
    assert(acc@ =~= content@);
    let ghost ks = strings_view(keys@);
    let mut i: usize = 0;
    while i < keys.len()
        invariant
            i <= keys.len(),
            ks == strings_view(keys@),
            acc.wf(),
            acc@.dom() == content@.dom(),
            forall|k: Seq<char>| #[trigger] acc@.contains_key(k) && !ks.subrange(0, i as int).contains(k)
                ==> acc@[k] == content@[k],
            forall|k: Seq<char>| #[trigger] acc@.contains_key(k) && ks.subrange(0, i as int).contains(k)
                ==> exists|p: int|
                0 <= p < content.values@.len() && content.values@[p]@ == content@[k] && encrypted_as(
                    #[trigger] content.values@[p],
                    acc@[k],
                ),
        decreases keys.len() - i,
    {
        let ghost before = acc@;
        let ghost k = keys@[i as int]@;
        assert(ks[i as int] == k);
        assert(ks.subrange(0, i + 1) =~= ks.subrange(0, i as int).push(k));
        match entity_index(content, keys[i].as_str()) {
            Some(p) => {
                match to_hash(&content.values[p], cost) {
                    Ok(Some(h)) => {
                        acc.insert(keys[i].clone(), h);
                        assert(encrypted_as(content.values@[p as int], acc@[k]));
                    },
                    Ok(None) => {
                        assert(encrypted_as(content.values@[p as int], acc@[k]));
                    },
                    Err(e) => {
                        assert(content@.contains_key(keys@[i as int]@));
                        return Err(e);
                    },
                }
                assert forall|q: Seq<char>| #[trigger] acc@.contains_key(q) && ks.subrange(0, i + 1).contains(q)
                    implies exists|p: int|
                    0 <= p < content.values@.len() && content.values@[p]@ == content@[q] && encrypted_as(
                        #[trigger] content.values@[p],
                        acc@[q],
                    ) by {
                    if q == k {
                        assert(content.values@[p as int]@ == content@[q]);
                    } else {
                        assert(ks.subrange(0, i as int).contains(q));
                    }
                }
            },
            None => {
                assert forall|q: Seq<char>| #[trigger] acc@.contains_key(q) && ks.subrange(0, i + 1).contains(q)
                    implies exists|p: int|
                    0 <= p < content.values@.len() && content.values@[p]@ == content@[q] && encrypted_as(
                        #[trigger] content.values@[p],
                        acc@[q],
                    ) by {
                    assert(q != k);
                    assert(ks.subrange(0, i as int).contains(q));
                }
            },
        }
        assert(ks.subrange(0, i + 1)[i as int] == k);
        assert forall|q: Seq<char>| #[trigger] acc@.contains_key(q) && !ks.subrange(0, i + 1).contains(q)
            implies acc@[q] == content@[q] by {
            assert(q != k);
            if ks.subrange(0, i as int).contains(q) {
                let j = choose|j: int| 0 <= j < i && ks.subrange(0, i as int)[j] == q;
                assert(ks.subrange(0, i + 1)[j] == q);
            }
            assert(acc@[q] == before[q]);
        }
        i = i + 1;
    }
    assert(ks.subrange(0, keys@.len() as int) =~= ks);
    Ok(acc)
}

/// A string stored under a key that `ENCRYPT` encrypts is confirmed by
/// `CHECK` with that string.
pub proof fn law_encrypt_then_check(
    content: Entity,
    keys: Seq<Seq<char>>,
    e: Map<Seq<char>, TypesV>,
    k: Seq<char>,
    s: Seq<char>,
)
    requires
        encrypted_from(content, keys, e),
        keys.contains(k),
        content@.contains_key(k),
        content@[k] == TypesV::String(s),
    ensures
        check_answer(e, k, s),
{
    let p = choose|p: int|
        0 <= p < content.values@.len() && content.values@[p]@ == content@[k] && encrypted_as(
            #[trigger] content.values@[p],
            e[k],
        );
    assert(content.values@[p] is String);
}

} // verus!
