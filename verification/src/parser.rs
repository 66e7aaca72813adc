//! Parsing a whole WQL statement: the leading keyword decides the statement;
//! `INTERSECT`, `DIFFERENCE`, `UNION` and `JOIN` hold further statements.

use vstd::prelude::*;
use crate::ast::{lemma_wql_seq_push, wql_result, wql_seq_view, AlgebraV, Relation, RelationType, Wql, WqlV};
use crate::select::{select, select_exec};
use crate::statements::{
    check, check_exec, create_entity, create_entity_exec, delete, delete_exec, evict, evict_exec,
    insert, insert_exec, match_update, match_update_exec, next_word, next_word_exec, update,
    update_exec,
};
use crate::text::{chars_of, char_is_alphanumeric, contains_chars, contains_seq, find_run_end, is_alnum, next_char, run_end, skip_take, skip_take_run, slice_chars, split_chars, split_on, string_of, take_run, take_while, upper, upper_is, CharClass};

verus! {

/// The query may take part in `INTERSECT`, `DIFFERENCE` or `UNION`: a
/// `SELECT` of one identifier with no function, or a `SELECT ... WHEN AT` of
/// one identifier.
pub open spec fn single_value(q: WqlV) -> bool {
    match q {
        WqlV::Select(_, _, Some(_), f) => f == AlgebraV::empty(),
        WqlV::SelectWhen(_, _, Some(_), _) => true,
        _ => false,
    }
}

/// The statement that a text holds, leading whitespace ignored.
#[verifier::opaque]
pub open spec fn wql_of(s: Seq<char>) -> Result<WqlV, Seq<char>>
    decreases s.len(), 2int,
{
    let k = run_end(s, 0, CharClass::Ws);
    if 0 <= k <= s.len() {
        let t = s.subrange(k, s.len() as int);
        if t.len() == 0 {
            Err("Empty WQL"@)
        } else {
            read_symbol(t, 1, t[0])
        }
    } else {
        Err(Seq::empty())
    }
}

/// The statement whose first character `a` was read; the rest of its
/// keyword runs to the next whitespace.
pub open spec fn read_symbol(s: Seq<char>, p: int, a: char) -> Result<WqlV, Seq<char>>
    decreases s.len(), 1int,
{
    let (sym, p1) = take_while(s, p, CharClass::NotWs);
    let u = upper(sym);
    if (a == 'c' || a == 'C') && u == "REATE"@ {
        create_entity(s, p1)
    } else if (a == 'i' || a == 'I') && u == "NSERT"@ {
        insert(s, p1)
    } else if (a == 'u' || a == 'U') && u == "PDATE"@ {
        update(s, p1)
    } else if (a == 'd' || a == 'D') && u == "ELETE"@ {
        delete(s, p1)
    } else if (a == 'm' || a == 'M') && u == "ATCH"@ {
        match_update(s, p1)
    } else if (a == 'e' || a == 'E') && u == "VICT"@ {
        evict(s, p1)
    } else if (a == 's' || a == 'S') && u == "ELECT"@ {
        select(s, p1)
    } else if (a == 'c' || a == 'C') && u == "HECK"@ {
        check(s, p1)
    } else if (a == 'i' || a == 'I') && u == "NTERSECT"@ {
        relation(s, p1, Relation::Intersect)
    } else if (a == 'd' || a == 'D') && u == "IFFERENCE"@ {
        relation(s, p1, Relation::Difference)
    } else if (a == 'u' || a == 'U') && u == "NION"@ {
        relation(s, p1, Relation::Union)
    } else if (a == 'j' || a == 'J') && u == "OIN"@ {
        join(s, p1)
    } else {
        Err("Symbol `"@ + seq![a] + sym + "` not implemented"@)
    }
}

/// `KEY` or `KEY-VALUE`, then two single value queries separated by `|`.
pub open spec fn relation(s: Seq<char>, p: int, rel: Relation) -> Result<WqlV, Seq<char>>
    decreases s.len(), 0int,
{
    let (t0, p1) = next_word(s, p);
    let ty = upper(t0);
    if ty != "KEY"@ && ty != "KEY-VALUE"@ {
        Err("Supported operations for INTERSECT and DIFFERECE are KEY for mathching keys and KEY_VALUE for matching key_values"@)
    } else if !(0 <= p1 <= s.len()) {
        Err(Seq::empty())
    } else {
        let parts = split_on(s.subrange(p1, s.len() as int), '|');
        if parts.len() != 2 {
            Err("Intersect and difference should have exactly 2 queries"@)
        } else if parts[0].len() < s.len() && parts[1].len() < s.len() {
            match wql_of(parts[0]) {
                Err(e) => Err(e),
                Ok(q0) => match wql_of(parts[1]) {
                    Err(e) => Err(e),
                    Ok(q1) => if !single_value(q0) || !single_value(q1) {
                        Err("Only single value queries are allowed, so key `ID` is required and keys `WHEN AT` are optional"@)
                    } else {
                        Ok(
                            WqlV::RelationQuery(
                                seq![q0, q1],
                                rel,
                                if ty == "KEY"@ {
                                    RelationType::Key
                                } else {
                                    RelationType::KeyValue
                                },
                            ),
                        )
                    },
                },
            }
        } else {
            Err(Seq::empty())
        }
    }
}

/// The two `entity:key` pairs of `JOIN (a:k, b:k)`, and the position after
/// the closing `)`.
pub open spec fn join_header(
    s: Seq<char>,
    p: int,
    a: (Seq<char>, Seq<char>),
    b: (Seq<char>, Seq<char>),
    ent: Seq<char>,
    key: Seq<char>,
    is_entity: bool,
) -> Result<((Seq<char>, Seq<char>), (Seq<char>, Seq<char>), int), Seq<char>>
    decreases s.len() - p,
{
    match next_char(s, p) {
        None => Err("Invalid char for Join"@),
        Some((c, q)) => if c == ' ' || c == '(' {
            join_header(s, q, a, b, ent, key, is_entity)
        } else if is_alnum(c) || c == '_' {
            if is_entity {
                join_header(s, q, a, b, ent.push(c), key, is_entity)
            } else {
                join_header(s, q, a, b, ent, key.push(c), is_entity)
            }
        } else if c == ':' {
            if a.0.len() == 0 {
                join_header(s, q, (ent, a.1), b, Seq::empty(), key, false)
            } else {
                join_header(s, q, a, (ent, b.1), Seq::empty(), key, false)
            }
        } else if c == ',' {
            if a.1.len() == 0 {
                join_header(s, q, (a.0, key), b, ent, Seq::empty(), true)
            } else {
                join_header(s, q, a, (b.0, key), ent, Seq::empty(), true)
            }
        } else if c == ')' {
            Ok((a, (b.0, key), q))
        } else {
            Err("Invalid char for Join"@)
        },
    }
}

/// `JOIN (a:key, b:key) query | query`.
pub open spec fn join(s: Seq<char>, p: int) -> Result<WqlV, Seq<char>>
    decreases s.len(), 0int,
{
    match join_header(
        s,
        p,
        (Seq::empty(), Seq::empty()),
        (Seq::empty(), Seq::empty()),
        Seq::empty(),
        Seq::empty(),
        true,
    ) {
        Err(e) => Err(e),
        Ok((a, b, q)) => {
            let text = skip_take(s, q, CharClass::WsOrOpenParen, CharClass::NotCloseParen).0;
            let parts = split_on(text, '|');
            if parts.len() != 2 {
                Err("Join can only support 2 select queries"@)
            } else if !contains_seq(parts[0], a.0) {
                Err(a.0 + " must be present as entity tree key in `SELECT * FROM "@ + parts[0] + "`"@)
            } else if !contains_seq(parts[1], b.0) {
                Err(b.0 + " must be present as entity tree key in `SELECT * FROM "@ + parts[1] + "`"@)
            } else if parts[0].len() < s.len() && parts[1].len() < s.len() {
                match wql_of(parts[0]) {
                    Err(e) => Err(e),
                    Ok(q0) => match wql_of(parts[1]) {
                        Err(e) => Err(e),
                        Ok(q1) => Ok(WqlV::Join(a, b, seq![q0, q1])),
                    },
                }
            } else {
                Err(Seq::empty())
            }
        },
    }
}

/// Executes `wql_of`.
pub fn parse_chars(s: &Vec<char>) -> (r: Result<Wql, String>)
    ensures
        wql_result(r) == wql_of(s@),
    decreases s@.len(), 2int,
{
    reveal(wql_of);
    let k = find_run_end(s, 0, CharClass::Ws);
    let t = slice_chars(s, k, s.len());
    if t.len() == 0 {
        Err("Empty WQL".to_owned())
    } else {
        read_symbol_exec(&t, 1, t[0])
    }
}

/// Executes `read_symbol`.
fn read_symbol_exec(s: &Vec<char>, p: usize, a: char) -> (r: Result<Wql, String>)
    requires
        p <= s.len(),
    ensures
        wql_result(r) == read_symbol(s@, p as int, a),
    decreases s@.len(), 1int,
{
    let (sym, p1) = take_run(s, p, CharClass::NotWs);
    if (a == 'c' || a == 'C') && upper_is(&sym, "REATE") {
        create_entity_exec(s, p1)
    } else if (a == 'i' || a == 'I') && upper_is(&sym, "NSERT") {
        insert_exec(s, p1)
    } else if (a == 'u' || a == 'U') && upper_is(&sym, "PDATE") {
        update_exec(s, p1)
    } else if (a == 'd' || a == 'D') && upper_is(&sym, "ELETE") {
        delete_exec(s, p1)
    } else if (a == 'm' || a == 'M') && upper_is(&sym, "ATCH") {
        match_update_exec(s, p1)
    } else if (a == 'e' || a == 'E') && upper_is(&sym, "VICT") {
        evict_exec(s, p1)
    } else if (a == 's' || a == 'S') && upper_is(&sym, "ELECT") {
        select_exec(s, p1)
    } else if (a == 'c' || a == 'C') && upper_is(&sym, "HECK") {
        check_exec(s, p1)
    } else if (a == 'i' || a == 'I') && upper_is(&sym, "NTERSECT") {
        relation_exec(s, p1, Relation::Intersect)
    } else if (a == 'd' || a == 'D') && upper_is(&sym, "IFFERENCE") {
        relation_exec(s, p1, Relation::Difference)
    } else if (a == 'u' || a == 'U') && upper_is(&sym, "NION") {
        relation_exec(s, p1, Relation::Union)
    } else if (a == 'j' || a == 'J') && upper_is(&sym, "OIN") {
        join_exec(s, p1)
    } else {
        let mut v = chars_of("Symbol `");
        v.push(a);
        crate::text::append_chars(&mut v, &sym);
        let tail = chars_of("` not implemented");
        crate::text::append_chars(&mut v, &tail);
        assert(v@ =~= "Symbol `"@ + seq![a] + sym@ + "` not implemented"@);
        Err(string_of(&v))
    }
}

/// Executes `single_value`.
fn single_value_exec(q: &Wql) -> (r: bool)
    ensures
        r == single_value(q@),
{
    match q {
        Wql::Select(_, _, Some(_), f) => f.dedup.is_none() && f.group_by.is_none()
            && f.order_by.is_none() && f.limit.is_none() && f.offset.is_none() && !f.count,
        Wql::SelectWhen(_, _, Some(_), _) => true,
        _ => false,
    }
}

/// Executes `relation`.
#[verifier::spinoff_prover]
#[verifier::rlimit(60)]
fn relation_exec(s: &Vec<char>, p: usize, rel: Relation) -> (r: Result<Wql, String>)
    requires
        p <= s.len(),
    ensures
        wql_result(r) == relation(s@, p as int, rel),
    decreases s@.len(), 0int,
{
    let (t0, p1) = next_word_exec(s, p);
    let is_key = upper_is(&t0, "KEY");
    if !is_key && !upper_is(&t0, "KEY-VALUE") {
        return Err("Supported operations for INTERSECT and DIFFERECE are KEY for mathching keys and KEY_VALUE for matching key_values".to_owned());
    }
    let rest = slice_chars(s, p1, s.len());
    let parts = split_chars(&rest, '|');
    if parts.len() != 2 {
        return Err("Intersect and difference should have exactly 2 queries".to_owned());
    }
    assert(parts@[0]@ == split_on(rest@, '|')[0]);
    assert(parts@[1]@ == split_on(rest@, '|')[1]);
    if !(parts[0].len() < s.len() && parts[1].len() < s.len()) {
        return Err(String::new());
    }
    let q0 = match parse_chars(&parts[0]) {
        Err(e) => {
            return Err(e);
        },
        Ok(q) => q,
    };
    let q1 = match parse_chars(&parts[1]) {
        Err(e) => {
            return Err(e);
        },
        Ok(q) => q,
    };
    if !single_value_exec(&q0) || !single_value_exec(&q1) {
        return Err("Only single value queries are allowed, so key `ID` is required and keys `WHEN AT` are optional".to_owned());
    }
    let mut qs: Vec<Wql> = Vec::new();
    proof {
        lemma_wql_seq_push(qs@, q0);
    }
    qs.push(q0);
    proof {
        lemma_wql_seq_push(qs@, q1);
    }
    qs.push(q1);
    assert(wql_seq_view(qs@) =~= seq![q0@, q1@]);
    let ty = if is_key {
        RelationType::Key
    } else {
        RelationType::KeyValue
    };
    Ok(Wql::RelationQuery(qs, rel, ty))
}

/// Executes `join_header` from nothing read.
fn join_header_exec(s: &Vec<char>, p: usize) -> (r: Result<((Vec<char>, Vec<char>), (Vec<char>, Vec<char>), usize), String>)
    requires
        p <= s.len(),
    ensures
        match r {
            Ok((a, b, q)) => join_header(
                s@,
                p as int,
                (Seq::empty(), Seq::empty()),
                (Seq::empty(), Seq::empty()),
                Seq::empty(),
                Seq::empty(),
                true,
            ) == Ok::<((Seq<char>, Seq<char>), (Seq<char>, Seq<char>), int), Seq<char>>(
                ((a.0@, a.1@), (b.0@, b.1@), q as int),
            ) && q <= s.len(),
            Err(e) => join_header(
                s@,
                p as int,
                (Seq::empty(), Seq::empty()),
                (Seq::empty(), Seq::empty()),
                Seq::empty(),
                Seq::empty(),
                true,
            ) == Err::<((Seq<char>, Seq<char>), (Seq<char>, Seq<char>), int), Seq<char>>(e@),
        },
{
    let mut a0: Vec<char> = Vec::new();
    let mut a1: Vec<char> = Vec::new();
    let mut b0: Vec<char> = Vec::new();
    let mut b1: Vec<char> = Vec::new();
    let mut ent: Vec<char> = Vec::new();
    let mut key: Vec<char> = Vec::new();
    let mut is_entity = true;
    let mut i = p;
    while i < s.len()
        invariant
            p <= i <= s.len(),
            join_header(
                s@,
                p as int,
                (Seq::empty(), Seq::empty()),
                (Seq::empty(), Seq::empty()),
                Seq::empty(),
                Seq::empty(),
                true,
            ) == join_header(
                s@,
                i as int,
                (a0@, a1@),
                (b0@, b1@),
                ent@,
                key@,
                is_entity,
            ),
        decreases s.len() - i,
    {
        let c = s[i];
        if c == ' ' || c == '(' {
        } else if char_is_alphanumeric(c) || c == '_' {
            if is_entity {
                ent.push(c);
            } else {
                key.push(c);
            }
        } else if c == ':' {
            if a0.len() == 0 {
                a0 = ent;
            } else {
                b0 = ent;
            }
            ent = Vec::new();
            is_entity = false;
        } else if c == ',' {
            if a1.len() == 0 {
                a1 = key;
            } else {
                b1 = key;
            }
            key = Vec::new();
            is_entity = true;
        } else if c == ')' {
            return Ok(((a0, a1), (b0, key), i + 1));
        } else {
            return Err("Invalid char for Join".to_owned());
        }
        i = i + 1;
    }
    Err("Invalid char for Join".to_owned())
}

/// The message for an entity missing from its query of `JOIN`.
fn missing_entity(e: &Vec<char>, q: &Vec<char>) -> (r: String)
    ensures
        r@ == e@ + " must be present as entity tree key in `SELECT * FROM "@ + q@ + "`"@,
{
    let mut v = slice_chars(e, 0, e.len());
    assert(v@ =~= e@);
    let mid = chars_of(" must be present as entity tree key in `SELECT * FROM ");
    crate::text::append_chars(&mut v, &mid);
    crate::text::append_chars(&mut v, q);
    let tail = chars_of("`");
    crate::text::append_chars(&mut v, &tail);
    string_of(&v)
}

/// Executes `join`.
#[verifier::spinoff_prover]
#[verifier::rlimit(60)]
fn join_exec(s: &Vec<char>, p: usize) -> (r: Result<Wql, String>)
    requires
        p <= s.len(),
    ensures
        wql_result(r) == join(s@, p as int),
    decreases s@.len(), 0int,
{
    let (a, b, q) = match join_header_exec(s, p) {
        Err(e) => {
            return Err(e);
        },
        Ok(x) => x,
    };
    let (text, _) = skip_take_run(s, q, CharClass::WsOrOpenParen, CharClass::NotCloseParen);
    let parts = split_chars(&text, '|');
    if parts.len() != 2 {
        return Err("Join can only support 2 select queries".to_owned());
    }
    assert(parts@[0]@ == split_on(text@, '|')[0]);
    assert(parts@[1]@ == split_on(text@, '|')[1]);
    if !contains_chars(&parts[0], &a.0) {
        return Err(missing_entity(&a.0, &parts[0]));
    }
    if !contains_chars(&parts[1], &b.0) {
        return Err(missing_entity(&b.0, &parts[1]));
    }
    if !(parts[0].len() < s.len() && parts[1].len() < s.len()) {
        return Err(String::new());
    }
    let q0 = match parse_chars(&parts[0]) {
        Err(e) => {
            return Err(e);
        },
        Ok(x) => x,
    };
    let q1 = match parse_chars(&parts[1]) {
        Err(e) => {
            return Err(e);
        },
        Ok(x) => x,
    };
    let mut qs: Vec<Wql> = Vec::new();
    proof {
        lemma_wql_seq_push(qs@, q0);
    }
    qs.push(q0);
    proof {
        lemma_wql_seq_push(qs@, q1);
    }
    qs.push(q1);
    assert(wql_seq_view(qs@) =~= seq![q0@, q1@]);
    Ok(Wql::Join((string_of(&a.0), string_of(&a.1)), (string_of(&b.0), string_of(&b.1)), qs))
}

/// Parses a WQL statement; leading whitespace is ignored.
pub fn parse_wql(s: &str) -> (r: Result<Wql, String>)
    ensures
        wql_result(r) == wql_of(s@),
{
    let chars = chars_of(s);
    parse_chars(&chars)
}

impl std::str::FromStr for Wql {
    type Err = String;

    fn from_str(s: &str) -> (r: Result<Wql, String>)
        ensures
            wql_result(r) == wql_of(s@),
    {
        parse_wql(s)
    }
}

} // verus!
