//! The statements that change entities: `CREATE ENTITY`, `INSERT`, `UPDATE`,
//! `DELETE`, `MATCH ... UPDATE`, `EVICT`, and `CHECK`.

use vstd::prelude::*;
use crate::ast::{wql_result, MatchCondition, MatchConditionV, Wql, WqlV, match_seq_view, lemma_match_seq_push};
use crate::compound::{read_args, read_args_exec, read_map, read_map_exec, read_text_map, read_text_map_exec};
use crate::text::{concat2, find_run_end, is_text, run_end, skip_take, skip_take_run, string_of, take_run, take_while, trim, trim_chars, upper, upper_is, CharClass, Step, split_on, split_chars, non_empty};
use crate::types::{strings_view, TypesV};
use crate::values::{parse_uuid, parse_value, parse_value_exec, uuid_of};

verus! {

/// A `take_while` run with surrounding whitespace trimmed, and the position
/// after it.
pub open spec fn take_trim(s: Seq<char>, p: int, cls: CharClass) -> (Seq<char>, int) {
    (trim(take_while(s, p, cls).0), take_while(s, p, cls).1)
}

/// Executes `take_trim`.
pub fn take_trim_exec(s: &Vec<char>, p: usize, cls: CharClass) -> (r: (Vec<char>, usize))
    requires
        p <= s.len(),
    ensures
        (r.0@, r.1 as int) == take_trim(s@, p as int, cls),
        p <= r.1 <= s.len(),
{
    let (raw, q) = take_run(s, p, cls);
    (trim_chars(&raw), q)
}

/// The next keyword: whitespace skipped, then the run of non-whitespace.
pub open spec fn next_word(s: Seq<char>, p: int) -> (Seq<char>, int) {
    skip_take(s, p, CharClass::Ws, CharClass::NotWs)
}

/// Executes `next_word`.
pub fn next_word_exec(s: &Vec<char>, p: usize) -> (r: (Vec<char>, usize))
    requires
        p <= s.len(),
    ensures
        (r.0@, r.1 as int) == next_word(s@, p as int),
        p <= r.1 <= s.len(),
        r.0@.len() > 0 ==> p < r.1,
{
    skip_take_run(s, p, CharClass::Ws, CharClass::NotWs)
}

/// A set of names after `UNIQUES` or `ENCRYPT`: whitespace, `#`, then
/// `{name, ...}`.
pub open spec fn name_set(s: Seq<char>, p: int) -> Step<Seq<Seq<char>>> {
    let k = run_end(s, p, CharClass::Ws);
    if 0 <= k < s.len() && s[k] == '#' {
        read_args(s, k + 1)
    } else {
        Step::Fail("Arguments set should start with `#{` and end with `}`"@)
    }
}

/// Executes `name_set`.
fn name_set_exec(s: &Vec<char>, p: usize) -> (r: Result<(Vec<String>, usize), String>)
    requires
        p <= s.len(),
    ensures
        match r {
            Ok((v, q)) => name_set(s@, p as int) == Step::Done(strings_view(v@), q as int) && p
                < q <= s.len(),
            Err(e) => name_set(s@, p as int) == Step::<Seq<Seq<char>>>::Fail(e@),
        },
{
    let k = find_run_end(s, p, CharClass::Ws);
    if k < s.len() && s[k] == '#' {
        read_args_exec(s, k + 1)
    } else {
        Err("Arguments set should start with `#{` and end with `}`".to_owned())
    }
}

/// Some name is both unique and encrypted.
pub open spec fn overlap(u: Seq<Seq<char>>, e: Seq<Seq<char>>) -> bool {
    exists|i: int| 0 <= i < u.len() && e.contains(#[trigger] u[i])
}

/// The options of `CREATE ENTITY name`: any number of `UNIQUES #{...}` and
/// `ENCRYPT #{...}`, a later set replacing an earlier one of its kind; no
/// name may be both unique and encrypted.
pub open spec fn create_options(
    s: Seq<char>,
    p: int,
    name: Seq<char>,
    u: Seq<Seq<char>>,
    e: Seq<Seq<char>>,
) -> Result<WqlV, Seq<char>>
    decreases s.len() - p,
{
    let (sym, q) = next_word(s, p);
    if upper(sym) == "UNIQUES"@ {
        match name_set(s, q) {
            Step::Done(v, q2) => if p < q2 <= s.len() {
                create_options(s, q2, name, v, e)
            } else {
                Err(Seq::empty())
            },
            Step::Fail(err) => Err(err),
        }
    } else if upper(sym) == "ENCRYPT"@ {
        match name_set(s, q) {
            Step::Done(v, q2) => if p < q2 <= s.len() {
                create_options(s, q2, name, u, v)
            } else {
                Err(Seq::empty())
            },
            Step::Fail(err) => Err(err),
        }
    } else if overlap(u, e) {
        Err("Encrypted arguments cannot be set to UNIQUE"@)
    } else {
        Ok(WqlV::CreateEntity(name, u, e))
    }
}

/// `CREATE ENTITY name [UNIQUES #{...}] [ENCRYPT #{...}]`, from the position
/// after `CREATE`.
pub open spec fn create_entity(s: Seq<char>, p: int) -> Result<WqlV, Seq<char>> {
    let (sym, p1) = take_while(s, p, CharClass::NotWs);
    if upper(sym) != "ENTITY"@ {
        Err("Keyword ENTITY is required for CREATE"@)
    } else {
        let (name, p2) = take_trim(s, p1, CharClass::Word);
        create_options(s, p2, name, Seq::empty(), Seq::empty())
    }
}

/// Executes `overlap`.
fn overlap_exec(u: &Vec<String>, e: &Vec<String>) -> (r: bool)
    ensures
        r == overlap(strings_view(u@), strings_view(e@)),
{
    let mut i: usize = 0;
    while i < u.len()
        invariant
            i <= u.len(),
            forall|j: int| 0 <= j < i ==> !strings_view(e@).contains(#[trigger] strings_view(u@)[j]),
        decreases u.len() - i,
    {
        let mut j: usize = 0;
        while j < e.len()
            invariant
                j <= e.len(),
                i < u.len(),
                forall|k: int| 0 <= k < j ==> e@[k]@ != u@[i as int]@,
            decreases e.len() - j,
        {
            if e[j] == u[i] {
                assert(strings_view(e@)[j as int] == strings_view(u@)[i as int]);
                return true;
            }
            j = j + 1;
        }
        proof {
            if strings_view(e@).contains(strings_view(u@)[i as int]) {
                let k = choose|k: int|
                    0 <= k < strings_view(e@).len() && strings_view(e@)[k] == strings_view(
                        u@,
                    )[i as int];
                assert(e@[k]@ != u@[i as int]@);
            }
        }
        i = i + 1;
    }
    false
}

/// Executes `create_entity`.
pub fn create_entity_exec(s: &Vec<char>, p: usize) -> (r: Result<Wql, String>)
    requires
        p <= s.len(),
    ensures
        wql_result(r) == create_entity(s@, p as int),
{
    let (sym, p1) = take_run(s, p, CharClass::NotWs);
    if !upper_is(&sym, "ENTITY") {
        return Err("Keyword ENTITY is required for CREATE".to_owned());
    }
    let (name, p2) = take_trim_exec(s, p1, CharClass::Word);
    let mut uniques: Vec<String> = Vec::new();
    let mut encrypts: Vec<String> = Vec::new();
    let mut i = p2;
    assert(strings_view(uniques@) =~= Seq::<Seq<char>>::empty());
    assert(strings_view(encrypts@) =~= Seq::<Seq<char>>::empty());
    loop
        invariant
            p2 <= i <= s.len(),
            create_entity(s@, p as int) == create_options(
                s@,
                i as int,
                name@,
                strings_view(uniques@),
                strings_view(encrypts@),
            ),
        decreases s.len() - i,
    {
        let (sym, q) = next_word_exec(s, i);
        if upper_is(&sym, "UNIQUES") {
            match name_set_exec(s, q) {
                Ok((v, q2)) => {
                    uniques = v;
                    i = q2;
                },
                Err(e) => {
                    return Err(e);
                },
            }
        } else if upper_is(&sym, "ENCRYPT") {
            match name_set_exec(s, q) {
                Ok((v, q2)) => {
                    encrypts = v;
                    i = q2;
                },
                Err(e) => {
                    return Err(e);
                },
            }
        } else if overlap_exec(&uniques, &encrypts) {
            return Err("Encrypted arguments cannot be set to UNIQUE".to_owned());
        } else {
            return Ok(Wql::CreateEntity(string_of(&name), uniques, encrypts));
        }
    }
}

/// `DELETE id FROM name`, from the position after `DELETE`.
pub open spec fn delete(s: Seq<char>, p: int) -> Result<WqlV, Seq<char>> {
    let (id, p1) = take_trim(s, p, CharClass::IdChar);
    if id.len() == 0 || id == "FROM"@ {
        Err("Entity UUID is required for DELETE"@)
    } else {
        let (sym, p2) = next_word(s, p1);
        if upper(sym) != "FROM"@ {
            Err("Keyword FROM is required for DELETE"@)
        } else {
            let (name, p3) = take_trim(s, p2, CharClass::Word);
            if name.len() == 0 {
                Err("Entity name is required after FROM"@)
            } else {
                Ok(WqlV::Delete(name, id))
            }
        }
    }
}

/// Executes `delete`.
pub fn delete_exec(s: &Vec<char>, p: usize) -> (r: Result<Wql, String>)
    requires
        p <= s.len(),
    ensures
        wql_result(r) == delete(s@, p as int),
{
    let (id, p1) = take_trim_exec(s, p, CharClass::IdChar);
    if id.len() == 0 || is_text(&id, "FROM") {
        return Err("Entity UUID is required for DELETE".to_owned());
    }
    let (sym, p2) = next_word_exec(s, p1);
    if !upper_is(&sym, "FROM") {
        return Err("Keyword FROM is required for DELETE".to_owned());
    }
    let (name, _p3) = take_trim_exec(s, p2, CharClass::Word);
    if name.len() == 0 {
        return Err("Entity name is required after FROM".to_owned());
    }
    Ok(Wql::Delete(string_of(&name), string_of(&id)))
}

/// `INSERT {...} INTO name [WITH uuid]`, from the position after `INSERT`.
pub open spec fn insert(s: Seq<char>, p: int) -> Result<WqlV, Seq<char>> {
    match read_map(s, p) {
        Step::Fail(e) => Err(e),
        Step::Done(m, p1) => {
            let (sym, p2) = next_word(s, p1);
            if upper(sym) != "INTO"@ {
                Err("Keyword INTO is required for INSERT"@)
            } else {
                let (name, p3) = take_trim(s, p2, CharClass::Word);
                if name.len() == 0 {
                    Err("Entity name is required after INTO"@)
                } else {
                    let (w, p4) = next_word(s, p3);
                    if upper(w) == "WITH"@ {
                        let id = trim(skip_take(s, p4, CharClass::Ws, CharClass::IdChar).0);
                        match uuid_of(id) {
                            Some(u) => Ok(WqlV::Insert(name, m, Some(u))),
                            None => Err("Couldn't create uuid from "@ + id),
                        }
                    } else if w.len() > 0 {
                        Err("Keyword WITH is required for INSERT with Uuid"@)
                    } else {
                        Ok(WqlV::Insert(name, m, None))
                    }
                }
            }
        },
    }
}

/// Executes `insert`.
pub fn insert_exec(s: &Vec<char>, p: usize) -> (r: Result<Wql, String>)
    requires
        p <= s.len(),
    ensures
        wql_result(r) == insert(s@, p as int),
{
    let (m, p1) = match read_map_exec(s, p) {
        Ok(x) => x,
        Err(e) => {
            return Err(e);
        },
    };
    let (sym, p2) = next_word_exec(s, p1);
    if !upper_is(&sym, "INTO") {
        return Err("Keyword INTO is required for INSERT".to_owned());
    }
    let (name, p3) = take_trim_exec(s, p2, CharClass::Word);
    if name.len() == 0 {
        return Err("Entity name is required after INTO".to_owned());
    }
    let (w, p4) = next_word_exec(s, p3);
    if upper_is(&w, "WITH") {
        let (raw, _p5) = skip_take_run(s, p4, CharClass::Ws, CharClass::IdChar);
        let id = trim_chars(&raw);
        match parse_uuid(&id).ok() {
            Some(u) => Ok(Wql::Insert(string_of(&name), m, Some(u))),
            None => Err(concat2("Couldn't create uuid from ", &id)),
        }
    } else if w.len() > 0 {
        Err("Keyword WITH is required for INSERT with Uuid".to_owned())
    } else {
        Ok(Wql::Insert(string_of(&name), m, None))
    }
}

/// `UPDATE name SET|CONTENT {...} INTO uuid`, from the position after
/// `UPDATE`.
pub open spec fn update(s: Seq<char>, p: int) -> Result<WqlV, Seq<char>> {
    let (name, p1) = take_trim(s, p, CharClass::Word);
    if name.len() == 0 {
        Err("Entity name is required for UPDATE"@)
    } else {
        let (sym, p2) = next_word(s, p1);
        if upper(sym) != "SET"@ && upper(sym) != "CONTENT"@ {
            Err("UPDATE type is required after entity. Keywords are SET or CONTENT"@)
        } else {
            match read_map(s, p2) {
                Step::Fail(e) => Err(e),
                Step::Done(m, p3) => {
                    let (into, p4) = next_word(s, p3);
                    if upper(into) != "INTO"@ {
                        Err("Keyword INTO is required for UPDATE"@)
                    } else {
                        let (id, p5) = take_trim(s, p4, CharClass::IdChar);
                        match uuid_of(id) {
                            None => Err("Couldn't create uuid from "@ + id),
                            Some(u) => if upper(sym) == "SET"@ {
                                Ok(WqlV::UpdateSet(name, m, u))
                            } else {
                                Ok(WqlV::UpdateContent(name, m, u))
                            },
                        }
                    }
                },
            }
        }
    }
}

/// Executes `update`.
pub fn update_exec(s: &Vec<char>, p: usize) -> (r: Result<Wql, String>)
    requires
        p <= s.len(),
    ensures
        wql_result(r) == update(s@, p as int),
{
    let (name, p1) = take_trim_exec(s, p, CharClass::Word);
    if name.len() == 0 {
        return Err("Entity name is required for UPDATE".to_owned());
    }
    let (sym, p2) = next_word_exec(s, p1);
    let is_set = upper_is(&sym, "SET");
    if !is_set && !upper_is(&sym, "CONTENT") {
        return Err("UPDATE type is required after entity. Keywords are SET or CONTENT".to_owned());
    }
    let (m, p3) = match read_map_exec(s, p2) {
        Ok(x) => x,
        Err(e) => {
            return Err(e);
        },
    };
    let (into, p4) = next_word_exec(s, p3);
    if !upper_is(&into, "INTO") {
        return Err("Keyword INTO is required for UPDATE".to_owned());
    }
    let (id, _p5) = take_trim_exec(s, p4, CharClass::IdChar);
    match parse_uuid(&id).ok() {
        None => Err(concat2("Couldn't create uuid from ", &id)),
        Some(u) => if is_set {
            Ok(Wql::UpdateSet(string_of(&name), m, u))
        } else {
            Ok(Wql::UpdateContent(string_of(&name), m, u))
        },
    }
}

/// The value written as a whole token `t`.
pub open spec fn token_value(t: Seq<char>) -> Result<TypesV, Seq<char>> {
    if t.len() == 0 {
        Err("Not able to parse match argument"@)
    } else {
        match parse_value(t, 1, t[0]) {
            Step::Done(v, _) => Ok(v),
            Step::Fail(e) => Err(e),
        }
    }
}

/// Executes `token_value`.
pub fn token_value_exec(t: &Vec<char>) -> (r: Result<crate::types::Types, String>)
    ensures
        match r {
            Ok(v) => token_value(t@) == Ok::<TypesV, Seq<char>>(v@),
            Err(e) => token_value(t@) == Err::<TypesV, Seq<char>>(e@),
        },
{
    if t.len() == 0 {
        return Err("Not able to parse match argument".to_owned());
    }
    match parse_value_exec(t, 1, t[0]) {
        Ok((v, _)) => Ok(v),
        Err(e) => Err(e),
    }
}

/// One condition of `MATCH`: `key op value` with `op` one of `==`, `!=`,
/// `>=`, `<=`, `>`, `<`, the parts being separated by spaces.
pub open spec fn match_condition(piece: Seq<char>) -> Result<MatchConditionV, Seq<char>> {
    let k = non_empty(split_on(piece, ' '));
    if k.len() < 3 {
        Err("Not able to parse match argument"@)
    } else {
        let key = k[0];
        let op = k[1];
        if op != "=="@ && op != "!="@ && op != ">="@ && op != "<="@ && op != ">"@ && op != "<"@ {
            Err("Unidentified Match Condition"@)
        } else {
            match token_value(k[2]) {
                Err(e) => Err(e),
                Ok(v) => Ok(
                    if op == "=="@ {
                        MatchConditionV::Eq(key, v)
                    } else if op == "!="@ {
                        MatchConditionV::NotEq(key, v)
                    } else if op == ">="@ {
                        MatchConditionV::GEq(key, v)
                    } else if op == "<="@ {
                        MatchConditionV::LEq(key, v)
                    } else if op == ">"@ {
                        MatchConditionV::G(key, v)
                    } else {
                        MatchConditionV::L(key, v)
                    },
                ),
            }
        }
    }
}

/// The conditions of the pieces, in order, pieces without any word skipped;
/// the first error stops.
pub open spec fn match_conditions(pieces: Seq<Seq<char>>) -> Result<Seq<MatchConditionV>, Seq<char>>
    decreases pieces.len(),
{
    if pieces.len() == 0 {
        Ok(Seq::empty())
    } else {
        match match_conditions(pieces.drop_last()) {
            Err(e) => Err(e),
            Ok(acc) => if non_empty(split_on(pieces.last(), ' ')).len() == 0 {
                Ok(acc)
            } else {
                match match_condition(pieces.last()) {
                    Err(e) => Err(e),
                    Ok(c) => Ok(acc.push(c)),
                }
            },
        }
    }
}

pub proof fn lemma_match_conditions_err(all: Seq<Seq<char>>, i: int, e: Seq<char>)
    requires
        0 <= i <= all.len(),
        match_conditions(all.subrange(0, i)) == Err::<Seq<MatchConditionV>, Seq<char>>(e),
    ensures
        match_conditions(all) == Err::<Seq<MatchConditionV>, Seq<char>>(e),
    decreases all.len() - i,
{
    if i == all.len() {
        assert(all.subrange(0, i) =~= all);
    } else {
        assert(all.subrange(0, i + 1).drop_last() =~= all.subrange(0, i));
        lemma_match_conditions_err(all, i + 1, e);
    }
}

/// `read_match_args`: `(cond, cond, ...)`, the conditions separated by `,`.
pub open spec fn read_match_args(s: Seq<char>, p: int) -> Step<Seq<MatchConditionV>> {
    let (raw, q) = skip_take(s, p, CharClass::WsOrOpenParen, CharClass::NotCloseParen);
    match match_conditions(split_on(trim(raw), ',')) {
        Ok(c) => Step::Done(c, q),
        Err(e) => Step::Fail(e),
    }
}

/// Executes `match_condition`.
fn match_condition_exec(piece: &Vec<char>) -> (r: Result<MatchCondition, String>)
    ensures
        match r {
            Ok(c) => match_condition(piece@) == Ok::<MatchConditionV, Seq<char>>(c@),
            Err(e) => match_condition(piece@) == Err::<MatchConditionV, Seq<char>>(e@),
        },
{
    let parts = split_chars(piece, ' ');
    let k = non_empty_exec(&parts);
    if k.len() < 3 {
        return Err("Not able to parse match argument".to_owned());
    }
    let key = string_of(&k[0]);
    let op = &k[1];
    let eq = is_text(op, "==");
    let ne = is_text(op, "!=");
    let ge = is_text(op, ">=");
    let le = is_text(op, "<=");
    let gt = is_text(op, ">");
    let lt = is_text(op, "<");
    if !eq && !ne && !ge && !le && !gt && !lt {
        return Err("Unidentified Match Condition".to_owned());
    }
    match token_value_exec(&k[2]) {
        Err(e) => Err(e),
        Ok(v) => Ok(
            if eq {
                MatchCondition::Eq(key, v)
            } else if ne {
                MatchCondition::NotEq(key, v)
            } else if ge {
                MatchCondition::GEq(key, v)
            } else if le {
                MatchCondition::LEq(key, v)
            } else if gt {
                MatchCondition::G(key, v)
            } else {
                MatchCondition::L(key, v)
            },
        ),
    }
}

/// Executes `non_empty`.
pub fn non_empty_exec(ps: &Vec<Vec<char>>) -> (r: Vec<Vec<char>>)
    ensures
        r@.map_values(|x: Vec<char>| x@) == non_empty(ps@.map_values(|x: Vec<char>| x@)),
{
    let ghost all = ps@.map_values(|x: Vec<char>| x@);
    let mut r: Vec<Vec<char>> = Vec::new();
    let mut i: usize = 0;
    while i < ps.len()
        invariant
            i <= ps.len(),
            all == ps@.map_values(|x: Vec<char>| x@),
            r@.map_values(|x: Vec<char>| x@) == non_empty(all.subrange(0, i as int)),
        decreases ps.len() - i,
    {
        assert(all.subrange(0, i + 1).drop_last() =~= all.subrange(0, i as int));
        let ghost prev = r@.map_values(|x: Vec<char>| x@);
        if ps[i].len() > 0 {
            r.push(ps[i].clone());
            assert(r@.map_values(|x: Vec<char>| x@) =~= prev.push(all[i as int]));
        }
        i = i + 1;
    }
    assert(all.subrange(0, ps.len() as int) =~= all);
    r
}

/// Executes `read_match_args`.
pub fn read_match_args_exec(s: &Vec<char>, p: usize) -> (r: Result<(Vec<MatchCondition>, usize), String>)
    requires
        p <= s.len(),
    ensures
        match r {
            Ok((v, q)) => read_match_args(s@, p as int) == Step::Done(match_seq_view(v@), q as int)
                && p <= q <= s.len(),
            Err(e) => read_match_args(s@, p as int) == Step::<Seq<MatchConditionV>>::Fail(e@),
        },
{
    let (raw, q) = skip_take_run(s, p, CharClass::WsOrOpenParen, CharClass::NotCloseParen);
    let base = trim_chars(&raw);
    let pieces = split_chars(&base, ',');
    let ghost all = pieces@.map_values(|x: Vec<char>| x@);
    let mut conds: Vec<MatchCondition> = Vec::new();
    let mut i: usize = 0;
    while i < pieces.len()
        invariant
            i <= pieces.len(),
            all == pieces@.map_values(|x: Vec<char>| x@),
            all == split_on(base@, ','),
            (raw@, q as int) == skip_take(s@, p as int, CharClass::WsOrOpenParen, CharClass::NotCloseParen),
            base@ == trim(raw@),
            match_conditions(all.subrange(0, i as int)) == Ok::<
                Seq<MatchConditionV>,
                Seq<char>,
            >(match_seq_view(conds@)),
        decreases pieces.len() - i,
    {
        assert(all.subrange(0, i + 1).drop_last() =~= all.subrange(0, i as int));
        assert(all.subrange(0, i + 1).last() == pieces@[i as int]@);
        let parts = split_chars(&pieces[i], ' ');
        let k = non_empty_exec(&parts);
        if k.len() > 0 {
            match match_condition_exec(&pieces[i]) {
                Ok(c) => {
                    proof {
                        lemma_match_seq_push(conds@, c);
                    }
                    conds.push(c);
                },
                Err(e) => {
                    proof {
                        lemma_match_conditions_err(all, i + 1, e@);
                    }
                    return Err(e);
                },
            }
        }
        i = i + 1;
    }
    assert(all.subrange(0, pieces.len() as int) =~= all);
    Ok((conds, q))
}

/// `MATCH ALL|ANY(...) UPDATE name SET {...} INTO uuid`, from the position
/// after `MATCH`.
pub open spec fn match_update(s: Seq<char>, p: int) -> Result<WqlV, Seq<char>> {
    let (kind, p1) = skip_take(s, p, CharClass::Ws, CharClass::Alpha);
    if upper(kind) != "ALL"@ && upper(kind) != "ANY"@ {
        Err("MATCH requires ALL or ANY symbols"@)
    } else {
        match read_match_args(s, p1) {
            Step::Fail(e) => Err(e),
            Step::Done(args, p2) => {
                let (u, p3) = skip_take(s, p2, CharClass::Ws, CharClass::Alpha);
                if upper(u) != "UPDATE"@ {
                    Err("UPDATE keyword is required for MATCH UPDATE"@)
                } else {
                    let (name, p4) = take_trim(s, p3, CharClass::Word);
                    if name.len() == 0 {
                        Err("Entity name is required for MATCH UPDATE"@)
                    } else {
                        let (set, p5) = next_word(s, p4);
                        if upper(set) != "SET"@ {
                            Err("MATCH UPDATE type is required after entity. Keyword is SET"@)
                        } else {
                            match read_map(s, p5) {
                                Step::Fail(e) => Err(e),
                                Step::Done(m, p6) => {
                                    let (into, p7) = next_word(s, p6);
                                    if upper(into) != "INTO"@ {
                                        Err("Keyword INTO is required for MATCH UPDATE"@)
                                    } else {
                                        let (id, p8) = take_trim(s, p7, CharClass::IdChar);
                                        match uuid_of(id) {
                                            None => Err("Couldn't create uuid from "@ + id),
                                            Some(uid) => Ok(
                                                WqlV::MatchUpdate(
                                                    name,
                                                    m,
                                                    uid,
                                                    if upper(kind) == "ALL"@ {
                                                        MatchConditionV::All(args)
                                                    } else {
                                                        MatchConditionV::Any(args)
                                                    },
                                                ),
                                            ),
                                        }
                                    }
                                },
                            }
                        }
                    }
                }
            },
        }
    }
}

/// Executes `match_update`.
pub fn match_update_exec(s: &Vec<char>, p: usize) -> (r: Result<Wql, String>)
    requires
        p <= s.len(),
    ensures
        wql_result(r) == match_update(s@, p as int),
{
    let (kind, p1) = skip_take_run(s, p, CharClass::Ws, CharClass::Alpha);
    let all = upper_is(&kind, "ALL");
    if !all && !upper_is(&kind, "ANY") {
        return Err("MATCH requires ALL or ANY symbols".to_owned());
    }
    let (args, p2) = match read_match_args_exec(s, p1) {
        Ok(x) => x,
        Err(e) => {
            return Err(e);
        },
    };
    let (u, p3) = skip_take_run(s, p2, CharClass::Ws, CharClass::Alpha);
    if !upper_is(&u, "UPDATE") {
        return Err("UPDATE keyword is required for MATCH UPDATE".to_owned());
    }
    let (name, p4) = take_trim_exec(s, p3, CharClass::Word);
    if name.len() == 0 {
        return Err("Entity name is required for MATCH UPDATE".to_owned());
    }
    let (set, p5) = next_word_exec(s, p4);
    if !upper_is(&set, "SET") {
        return Err("MATCH UPDATE type is required after entity. Keyword is SET".to_owned());
    }
    let (m, p6) = match read_map_exec(s, p5) {
        Ok(x) => x,
        Err(e) => {
            return Err(e);
        },
    };
    let (into, p7) = next_word_exec(s, p6);
    if !upper_is(&into, "INTO") {
        return Err("Keyword INTO is required for MATCH UPDATE".to_owned());
    }
    let (id, _p8) = take_trim_exec(s, p7, CharClass::IdChar);
    match parse_uuid(&id).ok() {
        None => Err(concat2("Couldn't create uuid from ", &id)),
        Some(uid) => {
            let cond = if all {
                MatchCondition::All(args)
            } else {
                MatchCondition::Any(args)
            };
            Ok(Wql::MatchUpdate(string_of(&name), m, uid, cond))
        },
    }
}

/// `EVICT name` or `EVICT uuid FROM name`, from the position after `EVICT`.
pub open spec fn evict(s: Seq<char>, p: int) -> Result<WqlV, Seq<char>> {
    let (info, p1) = next_word(s, p);
    match uuid_of(info) {
        Some(u) => {
            let (from, p2) = next_word(s, p1);
            if upper(from) != "FROM"@ {
                Err("Keyword FROM is required to EVICT an UUID"@)
            } else {
                let name = skip_take(s, p2, CharClass::Ws, CharClass::Word).0;
                if name.len() == 0 {
                    Err("Entity name is required for EVICT"@)
                } else {
                    Ok(WqlV::Evict(name, Some(u)))
                }
            }
        },
        None => if info.contains('-') {
            Err("Entity name cannot contain `-`"@)
        } else {
            Ok(WqlV::Evict(info, None))
        },
    }
}

/// Executes `evict`.
pub fn evict_exec(s: &Vec<char>, p: usize) -> (r: Result<Wql, String>)
    requires
        p <= s.len(),
    ensures
        wql_result(r) == evict(s@, p as int),
{
    let (info, p1) = next_word_exec(s, p);
    match parse_uuid(&info).ok() {
        Some(u) => {
            let (from, p2) = next_word_exec(s, p1);
            if !upper_is(&from, "FROM") {
                return Err("Keyword FROM is required to EVICT an UUID".to_owned());
            }
            let (name, _p3) = skip_take_run(s, p2, CharClass::Ws, CharClass::Word);
            if name.len() == 0 {
                return Err("Entity name is required for EVICT".to_owned());
            }
            Ok(Wql::Evict(string_of(&name), Some(u)))
        },
        None => {
            let mut i: usize = 0;
            while i < info.len()
                invariant
                    i <= info.len(),
                    (info@, p1 as int) == next_word(s@, p as int),
                    uuid_of(info@) is None,
                    forall|j: int| 0 <= j < i ==> info@[j] != '-',
                decreases info.len() - i,
            {
                if info[i] == '-' {
                    assert(info@[i as int] == '-');
                    assert(info@.contains('-'));
                    return Err("Entity name cannot contain `-`".to_owned());
                }
                i = i + 1;
            }
            Ok(Wql::Evict(string_of(&info), None))
        },
    }
}

/// `CHECK {key: value, ...} FROM name ID uuid`, from the position after
/// `CHECK`.
pub open spec fn check(s: Seq<char>, p: int) -> Result<WqlV, Seq<char>> {
    match read_text_map(s, p) {
        Step::Fail(e) => Err(e),
        Step::Done(m, p1) => {
            let (from, p2) = next_word(s, p1);
            if upper(from) != "FROM"@ {
                Err("Keyword FROM is required for CHECK"@)
            } else {
                let (name, p3) = take_trim(s, p2, CharClass::Word);
                if name.len() == 0 {
                    Err("Entity name is required for CHECK"@)
                } else {
                    let (kw, p4) = next_word(s, p3);
                    if upper(kw) != "ID"@ {
                        Err("Keyword ID is required for CHECK"@)
                    } else {
                        let id = trim(skip_take(s, p4, CharClass::Ws, CharClass::IdChar).0);
                        match uuid_of(id) {
                            None => Err("Couldn't create uuid from "@ + id),
                            Some(u) => Ok(WqlV::CheckValue(name, u, m)),
                        }
                    }
                }
            }
        },
    }
}

/// Executes `check`.
pub fn check_exec(s: &Vec<char>, p: usize) -> (r: Result<Wql, String>)
    requires
        p <= s.len(),
    ensures
        wql_result(r) == check(s@, p as int),
{
    let (m, p1) = match read_text_map_exec(s, p) {
        Ok(x) => x,
        Err(e) => {
            return Err(e);
        },
    };
    let (from, p2) = next_word_exec(s, p1);
    if !upper_is(&from, "FROM") {
        return Err("Keyword FROM is required for CHECK".to_owned());
    }
    let (name, p3) = take_trim_exec(s, p2, CharClass::Word);
    if name.len() == 0 {
        return Err("Entity name is required for CHECK".to_owned());
    }
    let (kw, p4) = next_word_exec(s, p3);
    if !upper_is(&kw, "ID") {
        return Err("Keyword ID is required for CHECK".to_owned());
    }
    let (raw, _p5) = skip_take_run(s, p4, CharClass::Ws, CharClass::IdChar);
    let id = trim_chars(&raw);
    match parse_uuid(&id).ok() {
        None => Err(concat2("Couldn't create uuid from ", &id)),
        Some(u) => Ok(Wql::CheckValue(string_of(&name), u, m)),
    }
}

} // verus!
