//! `WHERE {...}` clauses of a `SELECT`.

use vstd::prelude::*;
use crate::ast::{
    clause_seq_view, lemma_clause_seq_push, Clause, ClauseV, Function, Value,
};
use crate::statements::{non_empty_exec, token_value, token_value_exec};
use crate::text::{is_text, lower, next_char, non_empty, skip_take, skip_take_run, slice_chars, split_chars, split_on, starts_with, starts_with_chars, string_of, to_lowercase, trim, trim_chars, words, words_exec, CharClass, chars_eq};
use crate::types::{types_seq_view, lemma_seq_view_push, Types, TypesV};

verus! {

/// `Function::from_str`: the function named by a word, in any case.
pub open spec fn function_of(t: Seq<char>) -> Function {
    let l = lower(t);
    if l == "=="@ {
        Function::Eq
    } else if l == ">="@ {
        Function::GEq
    } else if l == ">"@ {
        Function::G
    } else if l == "<="@ {
        Function::LEq
    } else if l == "<"@ {
        Function::L
    } else if l == "!="@ || l == "<>"@ {
        Function::NotEq
    } else if l == "like"@ {
        Function::Like
    } else if l == "between"@ {
        Function::Between
    } else if l == "in"@ {
        Function::In
    } else {
        Function::Error
    }
}

/// Executes `function_of`.
pub fn function_of_exec(t: &Vec<char>) -> (r: Function)
    ensures
        r == function_of(t@),
{
    let l = to_lowercase(t);
    if is_text(&l, "==") {
        Function::Eq
    } else if is_text(&l, ">=") {
        Function::GEq
    } else if is_text(&l, ">") {
        Function::G
    } else if is_text(&l, "<=") {
        Function::LEq
    } else if is_text(&l, "<") {
        Function::L
    } else if is_text(&l, "!=") || is_text(&l, "<>") {
        Function::NotEq
    } else if is_text(&l, "like") {
        Function::Like
    } else if is_text(&l, "between") {
        Function::Between
    } else if is_text(&l, "in") {
        Function::In
    } else {
        Function::Error
    }
}

/// `?* entity:key value` or `?* entity:key ?variable`.
pub open spec fn entity_definition(name: Seq<char>, c: Seq<char>) -> ClauseV {
    let el = words(c);
    if el.len() != 3 {
        ClauseV::Error
    } else {
        let last = el[2];
        let ek = split_on(el[1], ':');
        if ek.len() != 2 || ek[0] != name {
            ClauseV::Error
        } else if starts_with(last, "?"@) {
            ClauseV::ValueAttribution(ek[0], ek[1], last)
        } else {
            match token_value(last) {
                Ok(v) => ClauseV::ContainsKeyValue(ek[0], ek[1], v),
                Err(_) => ClauseV::Error,
            }
        }
    }
}

/// The values of the tokens that are not empty and that parse, in order.
pub open spec fn ok_values(ts: Seq<Seq<char>>) -> Seq<TypesV>
    decreases ts.len(),
{
    if ts.len() == 0 {
        Seq::empty()
    } else if ts.last().len() == 0 {
        ok_values(ts.drop_last())
    } else {
        match token_value(ts.last()) {
            Ok(v) => ok_values(ts.drop_last()).push(v),
            Err(_) => ok_values(ts.drop_last()),
        }
    }
}

/// The pieces of the inside of `(or ...)` after its first two characters:
/// each `(...)` group is a piece, and so is each text before a `,`; text after
/// the last `)` or `,` is dropped.
pub open spec fn or_pieces(y: Seq<char>, p: int, acc: Seq<Seq<char>>, cur: Seq<char>) -> Seq<
    Seq<char>,
>
    decreases y.len() - p,
{
    match next_char(y, p) {
        None => acc,
        Some((c, q)) => if c == ',' {
            or_pieces(y, q, acc.push(cur), Seq::empty())
        } else if c == ')' {
            or_pieces(y, q, acc.push(cur.push(')')), Seq::empty())
        } else if c == '(' {
            or_pieces(y, q, acc, seq!['('])
        } else {
            or_pieces(y, q, acc, cur.push(c))
        },
    }
}

/// A clause from its text.
pub open spec fn set_clause(name: Seq<char>, t: Seq<char>) -> ClauseV
    decreases t.len(), 2int, 0int,
{
    let c = skip_take(t, 0, CharClass::Ws, CharClass::NotComma).0;
    if starts_with(c, "?*"@) {
        entity_definition(name, c)
    } else if c.len() >= 2 && c[0] == '(' && c.last() == ')' && c.len() <= t.len() {
        clause_function(name, c.subrange(1, c.len() - 1))
    } else {
        ClauseV::Error
    }
}

/// The inside of a `(function key args...)` clause.
pub open spec fn clause_function(name: Seq<char>, x: Seq<char>) -> ClauseV
    decreases x.len(), 1int, 0int,
{
    let args = words(x);
    if args.len() < 3 {
        ClauseV::Error
    } else {
        let f0 = lower(args[0]);
        if f0 == ">="@ || f0 == ">"@ || f0 == "=="@ || f0 == "<="@ || f0 == "<"@ || f0 == "like"@ {
            let function = function_of(args[0]);
            if function == Function::Error {
                ClauseV::Error
            } else {
                match token_value(args[2]) {
                    Ok(v) => ClauseV::SimpleComparisonFunction(function, args[1], v),
                    Err(_) => ClauseV::Error,
                }
            }
        } else if f0 == "in"@ || f0 == "between"@ {
            let function = function_of(args[0]);
            let values = ok_values(args.subrange(2, args.len() as int));
            if (function == Function::Between && values.len() != 2) || values.contains(
                TypesV::Nil,
            ) {
                ClauseV::Error
            } else {
                ClauseV::ComplexComparisonFunctions(function, args[1], values)
            }
        } else if f0 == "or"@ {
            ClauseV::Or(Function::Or, or_clauses(name, x))
        } else {
            ClauseV::Error
        }
    }
}

/// The clauses of `(or ...)`.
pub open spec fn or_clauses(name: Seq<char>, x: Seq<char>) -> Seq<ClauseV>
    decreases x.len(), 0int, 0int,
{
    if x.len() < 2 {
        Seq::empty()
    } else {
        let y = x.subrange(2, x.len() as int);
        set_clauses(name, non_empty(or_pieces(y, 0, Seq::empty(), Seq::empty())), x.len() - 1)
    }
}

/// The clauses of the trimmed pieces, each shorter than `bound`.
pub open spec fn set_clauses(name: Seq<char>, pieces: Seq<Seq<char>>, bound: int) -> Seq<ClauseV>
    decreases bound, 0int, pieces.len(),
{
    if pieces.len() == 0 {
        Seq::empty()
    } else {
        let t = trim(pieces.last());
        set_clauses(name, pieces.drop_last(), bound).push(
            if t.len() < bound {
                set_clause(name, t)
            } else {
                ClauseV::Error
            },
        )
    }
}

/// Executes `entity_definition`.
fn entity_definition_exec(name: &Vec<char>, c: &Vec<char>) -> (r: Clause)
    ensures
        r@ == entity_definition(name@, c@),
{
    let el = words_exec(c);
    if el.len() != 3 {
        return Clause::Error;
    }
    let last = &el[2];
    let ek = split_chars(&el[1], ':');
    if ek.len() != 2 || !chars_eq(&ek[0], name) {
        return Clause::Error;
    }
    let q = vec!['?'];
    proof {
        assert(q@ =~= "?"@) by {
            reveal_strlit("?");
        }
    }
    if starts_with_chars(last, &q) {
        Clause::ValueAttribution(string_of(&ek[0]), string_of(&ek[1]), Value(string_of(last)))
    } else {
        match token_value_exec(last) {
            Ok(v) => Clause::ContainsKeyValue(string_of(&ek[0]), string_of(&ek[1]), v),
            Err(_) => Clause::Error,
        }
    }
}

/// Executes `ok_values` on the tokens from position `from` on.
fn ok_values_exec(ts: &Vec<Vec<char>>, from: usize) -> (r: Vec<Types>)
    requires
        from <= ts.len(),
    ensures
        types_seq_view(r@) == ok_values(
            ts@.map_values(|x: Vec<char>| x@).subrange(from as int, ts@.len() as int),
        ),
{
    let ghost all = ts@.map_values(|x: Vec<char>| x@).subrange(from as int, ts@.len() as int);
    let mut r: Vec<Types> = Vec::new();
    let mut i = from;
    while i < ts.len()
        invariant
            from <= i <= ts.len(),
            all == ts@.map_values(|x: Vec<char>| x@).subrange(from as int, ts@.len() as int),
            types_seq_view(r@) == ok_values(all.subrange(0, i - from)),
        decreases ts.len() - i,
    {
        assert(all.subrange(0, i + 1 - from).drop_last() =~= all.subrange(0, i - from));
        assert(all.subrange(0, i + 1 - from).last() == ts@[i as int]@);
        if ts[i].len() > 0 {
            match token_value_exec(&ts[i]) {
                Ok(v) => {
                    proof {
                        lemma_seq_view_push(r@, v);
                    }
                    r.push(v);
                },
                Err(_) => {},
            }
        }
        i = i + 1;
    }
    assert(all.subrange(0, ts.len() - from) =~= all);
    r
}

/// Executes `or_pieces` from the start with nothing collected.
fn or_pieces_exec(y: &Vec<char>) -> (r: Vec<Vec<char>>)
    ensures
        r@.map_values(|x: Vec<char>| x@) == or_pieces(y@, 0, Seq::empty(), Seq::empty()),
{
    let mut acc: Vec<Vec<char>> = Vec::new();
    let mut cur: Vec<char> = Vec::new();
    let mut i: usize = 0;
    assert(acc@.map_values(|x: Vec<char>| x@) =~= Seq::<Seq<char>>::empty());
    while i < y.len()
        invariant
            i <= y.len(),
            or_pieces(y@, 0, Seq::empty(), Seq::empty()) == or_pieces(
                y@,
                i as int,
                acc@.map_values(|x: Vec<char>| x@),
                cur@,
            ),
        decreases y.len() - i,
    {
        let c = y[i];
        let ghost prev = acc@.map_values(|x: Vec<char>| x@);
        if c == ',' {
            let ghost cv = cur@;
            acc.push(cur);
            cur = Vec::new();
            assert(acc@.map_values(|x: Vec<char>| x@) =~= prev.push(cv));
        } else if c == ')' {
            cur.push(')');
            let ghost cv = cur@;
            acc.push(cur);
            cur = Vec::new();
            assert(acc@.map_values(|x: Vec<char>| x@) =~= prev.push(cv));
        } else if c == '(' {
            cur = vec!['('];
            assert(cur@ =~= seq!['(']);
        } else {
            cur.push(c);
        }
        i = i + 1;
    }
    acc
}

/// Executes `set_clause`.
pub fn set_clause_exec(name: &Vec<char>, t: &Vec<char>) -> (r: Clause)
    ensures
        r@ == set_clause(name@, t@),
    decreases t@.len(), 2int, 0int,
{
    let (c, _) = skip_take_run(t, 0, CharClass::Ws, CharClass::NotComma);
    let star = vec!['?', '*'];
    proof {
        assert(star@ =~= "?*"@) by {
            reveal_strlit("?*");
        }
    }
    if starts_with_chars(&c, &star) {
        entity_definition_exec(name, &c)
    } else if c.len() >= 2 && c[0] == '(' && c[c.len() - 1] == ')' && c.len() <= t.len() {
        let x = slice_chars(&c, 1, c.len() - 1);
        clause_function_exec(name, &x)
    } else {
        Clause::Error
    }
}

/// Executes `clause_function`.
pub fn clause_function_exec(name: &Vec<char>, x: &Vec<char>) -> (r: Clause)
    ensures
        r@ == clause_function(name@, x@),
    decreases x@.len(), 1int, 0int,
{
    let args = words_exec(x);
    if args.len() < 3 {
        return Clause::Error;
    }
    assert(args@[0]@ == words(x@)[0]);
    let f0 = to_lowercase(&args[0]);
    if is_text(&f0, ">=") || is_text(&f0, ">") || is_text(&f0, "==") || is_text(&f0, "<=")
        || is_text(&f0, "<") || is_text(&f0, "like") {
        let function = function_of_exec(&args[0]);
        if function == Function::Error {
            Clause::Error
        } else {
            match token_value_exec(&args[2]) {
                Ok(v) => Clause::SimpleComparisonFunction(function, string_of(&args[1]), v),
                Err(_) => Clause::Error,
            }
        }
    } else if is_text(&f0, "in") || is_text(&f0, "between") {
        let function = function_of_exec(&args[0]);
        let values = ok_values_exec(&args, 2);
        assert(args@.map_values(|x: Vec<char>| x@).subrange(2, args@.len() as int) =~= words(
            x@,
        ).subrange(2, words(x@).len() as int));
        let mut has_nil = false;
        let mut i: usize = 0;
        proof {
            crate::types::lemma_seq_view(values@);
        }
        while i < values.len()
            invariant
                i <= values.len(),
                types_seq_view(values@).len() == values@.len(),
                forall|j: int|
                    0 <= j < values@.len() ==> #[trigger] types_seq_view(values@)[j]
                        == crate::types::types_view(values@[j]),
                has_nil == exists|j: int| 0 <= j < i && types_seq_view(values@)[j] == TypesV::Nil,
            decreases values.len() - i,
        {
            proof {
                crate::types::lemma_nil_view(values@[i as int]);
                assert(types_seq_view(values@)[i as int] == crate::types::types_view(values@[i as int]));
            }
            match &values[i] {
                Types::Nil => {
                    has_nil = true;
                },
                _ => {},
            }
            i = i + 1;
        }
        if (function == Function::Between && values.len() != 2) || has_nil {
            Clause::Error
        } else {
            Clause::ComplexComparisonFunctions(function, string_of(&args[1]), values)
        }
    } else if is_text(&f0, "or") {
        Clause::Or(Function::Or, or_clauses_exec(name, x))
    } else {
        Clause::Error
    }
}

/// Executes `or_clauses`.
pub fn or_clauses_exec(name: &Vec<char>, x: &Vec<char>) -> (r: Vec<Clause>)
    ensures
        clause_seq_view(r@) == or_clauses(name@, x@),
    decreases x@.len(), 0int, 0int,
{
    if x.len() < 2 {
        return Vec::new();
    }
    let y = slice_chars(x, 2, x.len());
    let pieces = or_pieces_exec(&y);
    let kept = non_empty_exec(&pieces);
    set_clauses_exec(name, &kept, x.len() - 1)
}

/// Executes `set_clauses`.
pub fn set_clauses_exec(name: &Vec<char>, pieces: &Vec<Vec<char>>, bound: usize) -> (r: Vec<
    Clause,
>)
    ensures
        clause_seq_view(r@) == set_clauses(
            name@,
            pieces@.map_values(|x: Vec<char>| x@),
            bound as int,
        ),
    decreases bound, 0int, pieces@.len(),
{
    let ghost all = pieces@.map_values(|x: Vec<char>| x@);
    let mut r: Vec<Clause> = Vec::new();
    let mut i: usize = 0;
    while i < pieces.len()
        invariant
            i <= pieces.len(),
            all == pieces@.map_values(|x: Vec<char>| x@),
            clause_seq_view(r@) == set_clauses(name@, all.subrange(0, i as int), bound as int),
        decreases pieces.len() - i,
    {
        assert(all.subrange(0, i + 1).drop_last() =~= all.subrange(0, i as int));
        assert(all.subrange(0, i + 1).last() == pieces@[i as int]@);
        let t = trim_chars(&pieces[i]);
        let c = if t.len() < bound {
            set_clause_exec(name, &t)
        } else {
            Clause::Error
        };
        proof {
            lemma_clause_seq_push(r@, c);
        }
        r.push(c);
        i = i + 1;
    }
    assert(all.subrange(0, pieces.len() as int) =~= all);
    r
}

} // verus!
