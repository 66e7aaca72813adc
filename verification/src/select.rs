//! `SELECT` statements: the keys, the entity, an optional `ID`, `IDS IN`,
//! `WHEN`, `WHERE`, and the functions that may follow.

use vstd::prelude::*;
use crate::ast::{AlgebraFunctions, AlgebraV, Order, ToSelect, ToSelectV, Wql, WqlV, wql_result};
use crate::compound::{read_args, read_args_exec};
use crate::numbers::{parse_usize, parse_usize_exec};
use crate::statements::{next_word, next_word_exec, non_empty_exec};
use crate::text::{concat2, concat_after, find_run_end, is_text, lower, next_char, non_empty, run_end, skip_take, skip_take_run, slice_chars, starts_with, starts_with_chars, string_of, take_while, to_lowercase, upper, upper_is, CharClass, Step};

use crate::values::{parse_uuid, uuid_of};
use crate::where_clause::{set_clauses, set_clauses_exec};

verus! {

/// One function after a `SELECT`, named by the upper-cased word `kw`, with
/// its arguments read from `p` on.
pub open spec fn algebra_step(s: Seq<char>, p: int, kw: Seq<char>, acc: AlgebraV) -> Step<AlgebraV> {
    if kw == "LIMIT"@ || kw == "OFFSET"@ {
        let (n, p1) = next_word(s, p);
        match parse_usize(n) {
            Some(v) => Step::Done(
                if kw == "LIMIT"@ {
                    AlgebraV { limit: Some(v as usize), ..acc }
                } else {
                    AlgebraV { offset: Some(v as usize), ..acc }
                },
                p1,
            ),
            None => Step::Fail(kw + " requires a positive integer"@),
        }
    } else if kw == "COUNT"@ {
        Step::Done(AlgebraV { count: true, ..acc }, p)
    } else if kw == "DEDUP"@ {
        let (k, p1) = next_word(s, p);
        if k.len() == 0 {
            Step::Fail("DEDUP requires a key"@)
        } else {
            Step::Done(AlgebraV { dedup: Some(k), ..acc }, p1)
        }
    } else if kw == "GROUP"@ || kw == "ORDER"@ {
        let (by, p1) = next_word(s, p);
        if upper(by) != "BY"@ {
            Step::Fail(kw + " requires BY"@)
        } else {
            let (k, p2) = next_word(s, p1);
            if k.len() == 0 {
                Step::Fail(kw + " BY requires a key"@)
            } else if kw == "GROUP"@ {
                Step::Done(AlgebraV { group_by: Some(k), ..acc }, p2)
            } else {
                let (o, p3) = next_word(s, p2);
                if lower(o) == ":asc"@ {
                    Step::Done(AlgebraV { order_by: Some((k, Order::Asc)), ..acc }, p3)
                } else if lower(o) == ":desc"@ {
                    Step::Done(AlgebraV { order_by: Some((k, Order::Desc)), ..acc }, p3)
                } else {
                    Step::Fail("ORDER BY requires :asc or :desc"@)
                }
            }
        }
    } else {
        Step::Fail(kw + " is not a function of SELECT"@)
    }
}

/// The functions after a `SELECT`, from the upper-cased word `kw` on, until
/// no word is left.
pub open spec fn algebra_from(s: Seq<char>, p: int, kw: Seq<char>, acc: AlgebraV) -> Step<AlgebraV>
    decreases s.len() - p,
{
    if kw.len() == 0 {
        Step::Done(acc, p)
    } else {
        match algebra_step(s, p, kw, acc) {
            Step::Fail(e) => Step::Fail(e),
            Step::Done(a2, p1) => {
                let (nx, p2) = next_word(s, p1);
                if nx.len() == 0 {
                    Step::Done(a2, p2)
                } else if p < p2 <= s.len() {
                    algebra_from(s, p2, upper(nx), a2)
                } else {
                    Step::Fail(Seq::empty())
                }
            },
        }
    }
}

/// Executes `algebra_step`.
fn algebra_step_exec(s: &Vec<char>, p: usize, kw: &Vec<char>, acc: AlgebraFunctions) -> (r: Result<(AlgebraFunctions, usize), String>)
    requires
        p <= s.len(),
    ensures
        crate::text::step_of(r) == algebra_step(s@, p as int, kw@, acc@),
        r matches Ok((_, q)) ==> p <= q <= s.len(),
{
    let mut acc = acc;
    let is_limit = is_text(kw, "LIMIT");
    if is_limit || is_text(kw, "OFFSET") {
        let (n, p1) = next_word_exec(s, p);
        match parse_usize_exec(&n) {
            Some(v) => {
                if is_limit {
                    acc.limit = Some(v);
                } else {
                    acc.offset = Some(v);
                }
                Ok((acc, p1))
            },
            None => Err(concat_after(kw, " requires a positive integer")),
        }
    } else if is_text(kw, "COUNT") {
        acc.count = true;
        Ok((acc, p))
    } else if is_text(kw, "DEDUP") {
        let (k, p1) = next_word_exec(s, p);
        if k.len() == 0 {
            Err("DEDUP requires a key".to_owned())
        } else {
            acc.dedup = Some(string_of(&k));
            Ok((acc, p1))
        }
    } else {
        let is_group = is_text(kw, "GROUP");
        if is_group || is_text(kw, "ORDER") {
            let (by, p1) = next_word_exec(s, p);
            if !upper_is(&by, "BY") {
                return Err(concat_after(kw, " requires BY"));
            }
            let (k, p2) = next_word_exec(s, p1);
            if k.len() == 0 {
                Err(concat_after(kw, " BY requires a key"))
            } else if is_group {
                acc.group_by = Some(string_of(&k));
                Ok((acc, p2))
            } else {
                let (o, p3) = next_word_exec(s, p2);
                let l = to_lowercase(&o);
                if is_text(&l, ":asc") {
                    acc.order_by = Some((string_of(&k), Order::Asc));
                    Ok((acc, p3))
                } else if is_text(&l, ":desc") {
                    acc.order_by = Some((string_of(&k), Order::Desc));
                    Ok((acc, p3))
                } else {
                    Err("ORDER BY requires :asc or :desc".to_owned())
                }
            }
        } else {
            Err(concat_after(kw, " is not a function of SELECT"))
        }
    }
}

/// Executes `algebra_from`.
pub fn algebra_exec(s: &Vec<char>, p: usize, kw: &Vec<char>) -> (r: Result<(AlgebraFunctions, usize), String>)
    requires
        p <= s.len(),
    ensures
        crate::text::step_of(r) == algebra_from(s@, p as int, kw@, AlgebraV::empty()),
{
    let mut acc = AlgebraFunctions::none();
    let mut word: Vec<char> = slice_chars(kw, 0, kw.len());
    assert(word@ =~= kw@);
    let mut i = p;
    loop
        invariant
            p <= i <= s.len(),
            algebra_from(s@, p as int, kw@, AlgebraV::empty()) == algebra_from(
                s@,
                i as int,
                word@,
                acc@,
            ),
        decreases s.len() - i,
    {
        if word.len() == 0 {
            return Ok((acc, i));
        }
        match algebra_step_exec(s, i, &word, acc) {
            Err(e) => {
                return Err(e);
            },
            Ok((a2, p1)) => {
                let (nx, p2) = next_word_exec(s, p1);
                if nx.len() == 0 {
                    return Ok((a2, p2));
                }
                acc = a2;
                word = crate::text::to_uppercase(&nx);
                i = p2;
            },
        }
    }
}

/// The rest of a set of UUIDs after its `{`.
pub open spec fn read_ids_from(s: Seq<char>, p: int, acc: Seq<u128>) -> Step<Seq<u128>>
    decreases s.len() - p,
{
    match next_char(s, p) {
        None => Step::Fail("None could not be parsed at char"@),
        Some((c, q)) => if c == '}' {
            Step::Done(acc, q)
        } else if !crate::text::is_ws(c) && c != ',' {
            let (rest, q2) = take_while(s, q, CharClass::IdChar);
            let tok = seq![c] + rest;
            match uuid_of(tok) {
                Some(u) => if p < q2 <= s.len() {
                    read_ids_from(s, q2, acc.push(u))
                } else {
                    Step::Fail(Seq::empty())
                },
                None => Step::Fail("Couldn't create uuid from "@ + tok),
            }
        } else {
            read_ids_from(s, q, acc)
        },
    }
}

/// A set of UUIDs `#{uuid, ...}` after whitespace.
pub open spec fn read_ids(s: Seq<char>, p: int) -> Step<Seq<u128>> {
    let k = run_end(s, p, CharClass::Ws);
    if 0 <= k && k + 1 < s.len() && s[k] == '#' && s[k + 1] == '{' {
        read_ids_from(s, k + 2, Seq::empty())
    } else {
        Step::Fail("IDS IN requires a set of uuids `#{...}`"@)
    }
}

/// Executes `read_ids`.
fn read_ids_exec(s: &Vec<char>, p: usize) -> (r: Result<(Vec<u128>, usize), String>)
    requires
        p <= s.len(),
    ensures
        crate::text::step_of(r) == read_ids(s@, p as int),
        r matches Ok((_, q)) ==> p <= q <= s.len(),
{
    let k = find_run_end(s, p, CharClass::Ws);
    if !(k < s.len() && s.len() - k > 1 && s[k] == '#' && s[k + 1] == '{') {
        return Err("IDS IN requires a set of uuids `#{...}`".to_owned());
    }
    let mut acc: Vec<u128> = Vec::new();
    let mut i = k + 2;
    loop
        invariant
            k + 2 <= i <= s.len(),
            p <= k,
            read_ids(s@, p as int) == read_ids_from(s@, i as int, acc@),
        decreases s.len() - i,
    {
        if i >= s.len() {
            return Err("None could not be parsed at char".to_owned());
        }
        let c = s[i];
        if c == '}' {
            return Ok((acc, i + 1));
        } else if !crate::text::char_is_whitespace(c) && c != ',' {
            let (tok, q2) = crate::compound::parse_value_token_class(s, i + 1, c, CharClass::IdChar);
            match parse_uuid(&tok).ok() {
                Some(u) => {
                    acc.push(u);
                    i = q2;
                },
                None => {
                    return Err(concat2("Couldn't create uuid from ", &tok));
                },
            }
        } else {
            i = i + 1;
        }
    }
}

/// `START date END date` after `WHEN` for one identifier: both dates must
/// share their first ten characters (the day).
pub open spec fn when_time_range(s: Seq<char>, p: int, name: Seq<char>, u: u128) -> Result<WqlV, Seq<char>> {
    let (start, p1) = next_word(s, p);
    let (e, p2) = next_word(s, p1);
    if upper(e) != "END"@ {
        Err("END is required after START date for SELECT WHEN"@)
    } else {
        let (end, p3) = next_word(s, p2);
        if start.len() < 10 || !starts_with(end, start.subrange(0, 10)) {
            Err("START date and END date should be the same date."@)
        } else {
            Ok(WqlV::SelectWhenRange(name, u, start, end))
        }
    }
}

/// What follows `WHEN`: `AT date`, or `START ... END ...` for all keys of one
/// identifier.
pub open spec fn when_selector(s: Seq<char>, p: int, name: Seq<char>, arg: ToSelectV, uuid: Option<u128>) -> Result<WqlV, Seq<char>> {
    let (n, p1) = next_word(s, p);
    if arg is All && uuid is Some && upper(n) == "START"@ {
        when_time_range(s, p1, name, uuid->0)
    } else if upper(n) != "AT"@ {
        Err("AT is required after WHEN"@)
    } else {
        let (date, p2) = next_word(s, p1);
        Ok(WqlV::SelectWhen(name, arg, uuid, date))
    }
}

/// Executes `when_selector`.
fn when_selector_exec(s: &Vec<char>, p: usize, name: &Vec<char>, arg: ToSelect, uuid: Option<u128>) -> (r: Result<Wql, String>)
    requires
        p <= s.len(),
    ensures
        wql_result(r) == when_selector(s@, p as int, name@, arg@, uuid),
{
    let (n, p1) = next_word_exec(s, p);
    let is_all = match arg {
        ToSelect::All => true,
        _ => false,
    };
    if is_all && uuid.is_some() && upper_is(&n, "START") {
        let u = uuid.unwrap();
        let (start, q1) = next_word_exec(s, p1);
        let (e, q2) = next_word_exec(s, q1);
        if !upper_is(&e, "END") {
            return Err("END is required after START date for SELECT WHEN".to_owned());
        }
        let (end, _q3) = next_word_exec(s, q2);
        if start.len() < 10 {
            return Err("START date and END date should be the same date.".to_owned());
        }
        let day = slice_chars(&start, 0, 10);
        if !starts_with_chars(&end, &day) {
            return Err("START date and END date should be the same date.".to_owned());
        }
        Ok(Wql::SelectWhenRange(string_of(name), u, string_of(&start), string_of(&end)))
    } else if !upper_is(&n, "AT") {
        Err("AT is required after WHEN".to_owned())
    } else {
        let (date, _p2) = next_word_exec(s, p1);
        Ok(Wql::SelectWhen(string_of(name), arg, uuid, string_of(&date)))
    }
}

/// The texts of the clauses inside `WHERE {...}`: the text before each `,`,
/// up to `}` or the end; text after the last `,` is dropped.
pub open spec fn clause_texts(s: Seq<char>, p: int, acc: Seq<Seq<char>>, cur: Seq<char>) -> (Seq<Seq<char>>, int)
    decreases s.len() - p,
{
    match next_char(s, p) {
        None => (acc, if p < s.len() { p } else { s.len() as int }),
        Some((c, q)) => if c == ',' {
            clause_texts(s, q, acc.push(cur), Seq::empty())
        } else if c == '}' {
            (acc, q)
        } else {
            clause_texts(s, q, acc, cur.push(c))
        },
    }
}

/// `WHERE {clause, ...}` and the functions after it.
pub open spec fn where_selector(s: Seq<char>, p: int, name: Seq<char>, arg: ToSelectV) -> Result<WqlV, Seq<char>> {
    let k = run_end(s, p, CharClass::Ws);
    if !(0 <= k < s.len() && s[k] == '{') {
        Err("WHERE clauses must be contained inside ` {...}`"@)
    } else {
        let (texts, q) = clause_texts(s, k + 1, Seq::empty(), Seq::empty());
        let clauses = set_clauses(name, non_empty(texts), s.len() as int);
        if clauses.len() == 0 {
            Err("WHERE clause cannot be empty"@)
        } else {
            let (n0, q2) = next_word(s, q);
            match algebra_from(s, q2, upper(n0), AlgebraV::empty()) {
                Step::Done(f, _) => Ok(WqlV::SelectWhere(name, arg, clauses, f)),
                Step::Fail(e) => Err(e),
            }
        }
    }
}

pub proof fn lemma_set_clauses_len(name: Seq<char>, pieces: Seq<Seq<char>>, bound: int)
    ensures
        set_clauses(name, pieces, bound).len() == pieces.len(),
    decreases pieces.len(),
{
    if pieces.len() > 0 {
        lemma_set_clauses_len(name, pieces.drop_last(), bound);
    }
}

/// Executes `clause_texts` from nothing collected.
fn clause_texts_exec(s: &Vec<char>, p: usize) -> (r: (Vec<Vec<char>>, usize))
    requires
        p <= s.len(),
    ensures
        (r.0@.map_values(|x: Vec<char>| x@), r.1 as int) == clause_texts(
            s@,
            p as int,
            Seq::empty(),
            Seq::empty(),
        ),
        r.1 <= s.len(),
{
    let mut texts: Vec<Vec<char>> = Vec::new();
    let mut cur: Vec<char> = Vec::new();
    let mut i = p;
    assert(texts@.map_values(|x: Vec<char>| x@) =~= Seq::<Seq<char>>::empty());
    while i < s.len()
        invariant
            p <= i <= s.len(),
            clause_texts(s@, p as int, Seq::empty(), Seq::empty()) == clause_texts(
                s@,
                i as int,
                texts@.map_values(|x: Vec<char>| x@),
                cur@,
            ),
        decreases s.len() - i,
    {
        let c = s[i];
        if c == ',' {
            let ghost prev = texts@.map_values(|x: Vec<char>| x@);
            let ghost cv = cur@;
            texts.push(cur);
            cur = Vec::new();
            assert(texts@.map_values(|x: Vec<char>| x@) =~= prev.push(cv));
        } else if c == '}' {
            return (texts, i + 1);
        } else {
            cur.push(c);
        }
        i = i + 1;
    }
    (texts, i)
}

/// Executes `where_selector`.
pub fn where_selector_exec(s: &Vec<char>, p: usize, name: &Vec<char>, arg: ToSelect) -> (r: Result<Wql, String>)
    requires
        p <= s.len(),
    ensures
        wql_result(r) == where_selector(s@, p as int, name@, arg@),
{
    let k = find_run_end(s, p, CharClass::Ws);
    if !(k < s.len() && s[k] == '{') {
        return Err("WHERE clauses must be contained inside ` {...}`".to_owned());
    }
    let (texts, q) = clause_texts_exec(s, k + 1);
    let kept = non_empty_exec(&texts);
    let clauses = set_clauses_exec(name, &kept, s.len());
    proof {
        lemma_set_clauses_len(name@, kept@.map_values(|x: Vec<char>| x@), s.len() as int);
        crate::ast::lemma_clause_seq_len(clauses@);
    }
    if clauses.len() == 0 {
        return Err("WHERE clause cannot be empty".to_owned());
    }
    let (n0, q2) = next_word_exec(s, q);
    let up = crate::text::to_uppercase(&n0);
    match algebra_exec(s, q2, &up) {
        Ok((f, _)) => Ok(Wql::SelectWhere(string_of(name), arg, clauses, f)),
        Err(e) => Err(e),
    }
}

/// Words that start the functions after a `SELECT`.
pub open spec fn is_function_word(w: Seq<char>) -> bool {
    w == "LIMIT"@ || w == "OFFSET"@ || w == "COUNT"@ || w == "DEDUP"@ || w == "GROUP"@ || w
        == "ORDER"@
}

/// Executes `is_function_word`.
fn is_function_word_exec(w: &Vec<char>) -> (r: bool)
    ensures
        r == is_function_word(w@),
{
    is_text(w, "LIMIT") || is_text(w, "OFFSET") || is_text(w, "COUNT") || is_text(w, "DEDUP")
        || is_text(w, "GROUP") || is_text(w, "ORDER")
}

/// What follows the keys of a `SELECT`: `FROM name` and then `ID uuid`,
/// `IDS IN #{...}`, `WHEN ...`, `WHERE {...}` or the functions.
pub open spec fn select_body(s: Seq<char>, p: int, arg: ToSelectV) -> Result<WqlV, Seq<char>> {
    let (from, p1) = next_word(s, p);
    if upper(from) != "FROM"@ {
        Err("Keyword FROM is required for SELECT"@)
    } else {
        let (name, p2) = skip_take(s, p1, CharClass::Ws, CharClass::Word);
        if name.len() == 0 {
            Err("Entity name is required for SELECT"@)
        } else {
            let (n0, p3) = next_word(s, p2);
            let nx = upper(n0);
            if nx == "ID"@ {
                let (id, p4) = skip_take(s, p3, CharClass::Ws, CharClass::IdChar);
                match uuid_of(id) {
                    None => Err("Field ID must be a UUID v4"@),
                    Some(u) => {
                        let (m0, p5) = next_word(s, p4);
                        if upper(m0) == "WHEN"@ {
                            when_selector(s, p5, name, arg, Some(u))
                        } else {
                            match algebra_from(s, p5, upper(m0), AlgebraV::empty()) {
                                Step::Done(f, _) => Ok(WqlV::Select(name, arg, Some(u), f)),
                                Step::Fail(e) => Err(e),
                            }
                        }
                    },
                }
            } else if nx == "IDS"@ {
                let (i0, p4) = next_word(s, p3);
                if upper(i0) == "IN"@ {
                    match read_ids(s, p4) {
                        Step::Fail(e) => Err(e),
                        Step::Done(ids, p5) => {
                            let (m0, p6) = next_word(s, p5);
                            if upper(m0) == "WHEN"@ {
                                Err("WHEN not allowed after IDS IN"@)
                            } else {
                                match algebra_from(s, p6, upper(m0), AlgebraV::empty()) {
                                    Step::Done(f, _) => Ok(WqlV::SelectIds(name, arg, ids, f)),
                                    Step::Fail(e) => Err(e),
                                }
                            }
                        },
                    }
                } else {
                    Err("IN keyword is required after IDS to define a set of uuids"@)
                }
            } else if nx == "WHEN"@ {
                when_selector(s, p3, name, arg, None)
            } else if nx == "WHERE"@ {
                where_selector(s, p3, name, arg)
            } else if nx.len() == 0 || is_function_word(nx) {
                match algebra_from(s, p3, nx, AlgebraV::empty()) {
                    Step::Done(f, _) => Ok(WqlV::Select(name, arg, None, f)),
                    Step::Fail(e) => Err(e),
                }
            } else {
                Err("ID/IDS keyword is required to set an uuid in SELECT"@)
            }
        }
    }
}

/// `SELECT * ...` or `SELECT #{key, ...} ...`, from the position after
/// `SELECT`.
pub open spec fn select(s: Seq<char>, p: int) -> Result<WqlV, Seq<char>> {
    let k = run_end(s, p, CharClass::Ws);
    match next_char(s, k) {
        Some((c, q)) => if c == '*' {
            select_body(s, q, ToSelectV::All)
        } else if c == '#' {
            match read_args(s, q) {
                Step::Done(keys, q2) => select_body(s, q2, ToSelectV::Keys(keys)),
                Step::Fail(e) => Err(e),
            }
        } else {
            Err("SELECT expression should be followed by `*` for ALL keys or `#{key_names...}` for some keys"@)
        },
        None => Err("SELECT expression should be followed by `*` for ALL keys or `#{key_names...}` for some keys"@),
    }
}

/// Executes `select_body`.
fn select_body_exec(s: &Vec<char>, p: usize, arg: ToSelect) -> (r: Result<Wql, String>)
    requires
        p <= s.len(),
    ensures
        wql_result(r) == select_body(s@, p as int, arg@),
{
    let (from, p1) = next_word_exec(s, p);
    if !upper_is(&from, "FROM") {
        return Err("Keyword FROM is required for SELECT".to_owned());
    }
    let (name, p2) = skip_take_run(s, p1, CharClass::Ws, CharClass::Word);
    if name.len() == 0 {
        return Err("Entity name is required for SELECT".to_owned());
    }
    let (n0, p3) = next_word_exec(s, p2);
    let nx = crate::text::to_uppercase(&n0);
    if is_text(&nx, "ID") {
        let (id, p4) = skip_take_run(s, p3, CharClass::Ws, CharClass::IdChar);
        match parse_uuid(&id).ok() {
            None => Err("Field ID must be a UUID v4".to_owned()),
            Some(u) => {
                let (m0, p5) = next_word_exec(s, p4);
                let m = crate::text::to_uppercase(&m0);
                if is_text(&m, "WHEN") {
                    when_selector_exec(s, p5, &name, arg, Some(u))
                } else {
                    match algebra_exec(s, p5, &m) {
                        Ok((f, _)) => Ok(Wql::Select(string_of(&name), arg, Some(u), f)),
                        Err(e) => Err(e),
                    }
                }
            },
        }
    } else if is_text(&nx, "IDS") {
        let (i0, p4) = next_word_exec(s, p3);
        if upper_is(&i0, "IN") {
            match read_ids_exec(s, p4) {
                Err(e) => Err(e),
                Ok((ids, p5)) => {
                    let (m0, p6) = next_word_exec(s, p5);
                    let m = crate::text::to_uppercase(&m0);
                    if is_text(&m, "WHEN") {
                        Err("WHEN not allowed after IDS IN".to_owned())
                    } else {
                        match algebra_exec(s, p6, &m) {
                            Ok((f, _)) => Ok(Wql::SelectIds(string_of(&name), arg, ids, f)),
                            Err(e) => Err(e),
                        }
                    }
                },
            }
        } else {
            Err("IN keyword is required after IDS to define a set of uuids".to_owned())
        }
    } else if is_text(&nx, "WHEN") {
        when_selector_exec(s, p3, &name, arg, None)
    } else if is_text(&nx, "WHERE") {
        where_selector_exec(s, p3, &name, arg)
    } else if nx.len() == 0 || is_function_word_exec(&nx) {
        match algebra_exec(s, p3, &nx) {
            Ok((f, _)) => Ok(Wql::Select(string_of(&name), arg, None, f)),
            Err(e) => Err(e),
        }
    } else {
        Err("ID/IDS keyword is required to set an uuid in SELECT".to_owned())
    }
}

/// Executes `select`.
pub fn select_exec(s: &Vec<char>, p: usize) -> (r: Result<Wql, String>)
    requires
        p <= s.len(),
    ensures
        wql_result(r) == select(s@, p as int),
{
    let k = find_run_end(s, p, CharClass::Ws);
    if k < s.len() && s[k] == '*' {
        select_body_exec(s, k + 1, ToSelect::All)
    } else if k < s.len() && s[k] == '#' {
        match read_args_exec(s, k + 1) {
            Ok((keys, q2)) => select_body_exec(s, q2, ToSelect::Keys(keys)),
            Err(e) => Err(e),
        }
    } else {
        Err("SELECT expression should be followed by `*` for ALL keys or `#{key_names...}` for some keys".to_owned())
    }
}

} // verus!
