//! Composite values in WQL: vectors `[...]`, entity maps `{key: value, ...}`
//! and sets of names `#{a, b,}`.

use vstd::prelude::*;
use crate::text::{
    char_is_whitespace, next_char, step_of, take_run, take_while, CharClass, Step, is_ws,
};
use crate::types::{lemma_seq_view_push, strings_view, types_seq_view, Entity, Types, TypesV};
use crate::values::{parse_value, parse_value_exec, read_str_exec, read_str_from};
use crate::ast::TextMap;
use crate::text::string_of;

verus! {

/// A key name: the character read and the word characters after it; the
/// character that ends the word is consumed.
pub open spec fn parse_key(s: Seq<char>, p: int, c: char) -> (Seq<char>, int) {
    let (rest, q) = take_while(s, p, CharClass::Word);
    (seq![c] + rest, q)
}

/// Executes `parse_key`.
pub fn parse_key_exec(s: &Vec<char>, p: usize, c: char) -> (r: (String, usize))
    requires
        p <= s.len(),
    ensures
        (r.0@, r.1 as int) == parse_key(s@, p as int, c),
        p <= r.1 <= s.len(),
{
    let (rest, q) = take_run(s, p, CharClass::Word);
    let mut v = vec![c];
    let mut i: usize = 0;
    while i < rest.len()
        invariant
            i <= rest.len(),
            v@ == seq![c] + rest@.subrange(0, i as int),
        decreases rest.len() - i,
    {
        v.push(rest[i]);
        i = i + 1;
        assert(v@ =~= seq![c] + rest@.subrange(0, i as int));
    }
    assert(rest@.subrange(0, rest@.len() as int) =~= rest@);
    (crate::text::string_of(&v), q)
}

/// The rest of a vector after its `[`: values separated by whitespace or
/// `,`, nested vectors and maps, up to the closing `]`.
pub open spec fn read_vec_from(s: Seq<char>, p: int, acc: Seq<TypesV>) -> Step<Seq<TypesV>>
    decreases s.len() - p,
{
    match next_char(s, p) {
        None => Step::Fail("None could not be parsed at char"@),
        Some((c, q)) => if c == ']' {
            Step::Done(acc, q)
        } else if c == '[' {
            match read_vec_from(s, q, Seq::empty()) {
                Step::Done(v, q2) => if p < q2 <= s.len() {
                    read_vec_from(s, q2, acc.push(TypesV::Vector(v)))
                } else {
                    Step::Fail(Seq::empty())
                },
                Step::Fail(e) => Step::Fail(e),
            }
        } else if c == '{' {
            match read_map_body(s, q, None, Map::empty()) {
                Step::Done(m, q2) => if p < q2 <= s.len() {
                    read_vec_from(s, q2, acc.push(TypesV::Mapping(m)))
                } else {
                    Step::Fail(Seq::empty())
                },
                Step::Fail(e) => Step::Fail(e),
            }
        } else if !is_ws(c) && c != ',' {
            match parse_value(s, q, c) {
                Step::Done(t, q2) => if p < q2 <= s.len() {
                    read_vec_from(s, q2, acc.push(t))
                } else {
                    Step::Fail(Seq::empty())
                },
                Step::Fail(e) => Step::Fail(e),
            }
        } else {
            read_vec_from(s, q, acc)
        },
    }
}

/// The rest of an entity map after its `{`: keys and values alternate,
/// separated by whitespace or `,`, up to the closing `}`. `key` is a key
/// read and waiting for its value.
pub open spec fn read_map_body(
    s: Seq<char>,
    p: int,
    key: Option<Seq<char>>,
    acc: Map<Seq<char>, TypesV>,
) -> Step<Map<Seq<char>, TypesV>>
    decreases s.len() - p,
{
    match next_char(s, p) {
        None => Step::Fail("Entity HashMap could not be created"@),
        Some((c, q)) => if c == '}' {
            Step::Done(acc, q)
        } else if c == '{' {
            match key {
                Some(k) => match read_map_body(s, q, None, Map::empty()) {
                    Step::Done(m, q2) => if p < q2 <= s.len() {
                        read_map_body(s, q2, None, acc.insert(k, TypesV::Mapping(m)))
                    } else {
                        Step::Fail(Seq::empty())
                    },
                    Step::Fail(e) => Step::Fail(e),
                },
                None => Step::Fail("Key must be an alphanumeric value"@),
            }
        } else if c == '[' {
            match key {
                Some(k) => match read_vec_from(s, q, Seq::empty()) {
                    Step::Done(v, q2) => if p < q2 <= s.len() {
                        read_map_body(s, q2, None, acc.insert(k, TypesV::Vector(v)))
                    } else {
                        Step::Fail(Seq::empty())
                    },
                    Step::Fail(e) => Step::Fail(e),
                },
                None => Step::Fail("Key must be an alphanumeric value"@),
            }
        } else if !is_ws(c) && c != ',' {
            match key {
                Some(k) => match parse_value(s, q, c) {
                    Step::Done(t, q2) => if p < q2 <= s.len() {
                        read_map_body(s, q2, None, acc.insert(k, t))
                    } else {
                        Step::Fail(Seq::empty())
                    },
                    Step::Fail(e) => Step::Fail(e),
                },
                None => {
                    let (k, q2) = parse_key(s, q, c);
                    if p < q2 <= s.len() {
                        read_map_body(s, q2, Some(k), acc)
                    } else {
                        Step::Fail(Seq::empty())
                    }
                },
            }
        } else {
            read_map_body(s, q, key, acc)
        },
    }
}

/// `read_map`: an entity map, which must start right at the cursor with `{`.
pub open spec fn read_map(s: Seq<char>, p: int) -> Step<Map<Seq<char>, TypesV>> {
    match next_char(s, p) {
        Some((c, q)) => if c == '{' {
            read_map_body(s, q, None, Map::empty())
        } else {
            Step::Fail("Entity map should start with `{` and end with `}`"@)
        },
        None => Step::Fail("Entity map should start with `{` and end with `}`"@),
    }
}

/// Executes `read_vec_from` from an empty vector.
pub fn read_vec_exec(s: &Vec<char>, p: usize) -> (r: Result<(Vec<Types>, usize), String>)
    requires
        p <= s.len(),
    ensures
        match r {
            Ok((v, q)) => read_vec_from(s@, p as int, Seq::empty()) == Step::Done(
                types_seq_view(v@),
                q as int,
            ) && p < q <= s.len(),
            Err(e) => read_vec_from(s@, p as int, Seq::empty()) == Step::<Seq<TypesV>>::Fail(e@),
        },
    decreases s.len() - p,
{
    let mut acc: Vec<Types> = Vec::new();
    let mut i = p;
    loop
        invariant
            p <= i <= s.len(),
            read_vec_from(s@, p as int, Seq::empty()) == read_vec_from(
                s@,
                i as int,
                types_seq_view(acc@),
            ),
        decreases s.len() - i,
    {
        if i >= s.len() {
            return Err("None could not be parsed at char".to_owned());
        }
        let c = s[i];
        let q = i + 1;
        let ghost before = acc@;
        if c == ']' {
            return Ok((acc, q));
        } else if c == '[' {
            match read_vec_exec(s, q) {
                Ok((v, q2)) => {
                    proof {
                        lemma_seq_view_push(before, Types::Vector(v));
                    }
                    acc.push(Types::Vector(v));
                    i = q2;
                },
                Err(e) => {
                    return Err(e);
                },
            }
        } else if c == '{' {
            match read_map_body_exec(s, q) {
                Ok((m, q2)) => {
                    proof {
                        lemma_seq_view_push(before, Types::Mapping(m));
                    }
                    acc.push(Types::Mapping(m));
                    i = q2;
                },
                Err(e) => {
                    return Err(e);
                },
            }
        } else if !char_is_whitespace(c) && c != ',' {
            match parse_value_exec(s, q, c) {
                Ok((t, q2)) => {
                    proof {
                        lemma_seq_view_push(before, t);
                    }
                    acc.push(t);
                    i = q2;
                },
                Err(e) => {
                    return Err(e);
                },
            }
        } else {
            i = q;
        }
    }
}

/// Executes `read_map_body` from no pending key and an empty map.
pub fn read_map_body_exec(s: &Vec<char>, p: usize) -> (r: Result<(Entity, usize), String>)
    requires
        p <= s.len(),
    ensures
        match r {
            Ok((m, q)) => read_map_body(s@, p as int, None, Map::empty()) == Step::Done(m@, q as int)
                && p < q <= s.len() && m.wf(),
            Err(e) => read_map_body(s@, p as int, None, Map::empty()) == Step::<
                Map<Seq<char>, TypesV>,
            >::Fail(e@),
        },
    decreases s.len() - p,
{
    let mut acc = Entity::new();
    let mut key: Option<String> = None;
    let mut i = p;
    loop
        invariant
            p <= i <= s.len(),
            acc.wf(),
            read_map_body(s@, p as int, None, Map::empty()) == read_map_body(
                s@,
                i as int,
                match key {
                    Some(k) => Some(k@),
                    None => None,
                },
                acc@,
            ),
        decreases s.len() - i,
    {
        if i >= s.len() {
            return Err("Entity HashMap could not be created".to_owned());
        }
        let c = s[i];
        let q = i + 1;
        if c == '}' {
            return Ok((acc, q));
        } else if c == '{' {
            match key {
                Some(k) => match read_map_body_exec(s, q) {
                    Ok((m, q2)) => {
                        acc.insert(k, Types::Mapping(m));
                        key = None;
                        i = q2;
                    },
                    Err(e) => {
                        return Err(e);
                    },
                },
                None => {
                    return Err("Key must be an alphanumeric value".to_owned());
                },
            }
        } else if c == '[' {
            match key {
                Some(k) => match read_vec_exec(s, q) {
                    Ok((v, q2)) => {
                        proof {
                            crate::types::lemma_vector_view(v);
                        }
                        acc.insert(k, Types::Vector(v));
                        key = None;
                        i = q2;
                    },
                    Err(e) => {
                        return Err(e);
                    },
                },
                None => {
                    return Err("Key must be an alphanumeric value".to_owned());
                },
            }
        } else if !char_is_whitespace(c) && c != ',' {
            match key {
                Some(k) => match parse_value_exec(s, q, c) {
                    Ok((t, q2)) => {
                        acc.insert(k, t);
                        key = None;
                        i = q2;
                    },
                    Err(e) => {
                        return Err(e);
                    },
                },
                None => {
                    let (k, q2) = parse_key_exec(s, q, c);
                    key = Some(k);
                    i = q2;
                },
            }
        } else {
            i = q;
        }
    }
}

/// Executes `read_map`.
pub fn read_map_exec(s: &Vec<char>, p: usize) -> (r: Result<(Entity, usize), String>)
    requires
        p <= s.len(),
    ensures
        match r {
            Ok((m, q)) => read_map(s@, p as int) == Step::Done(m@, q as int) && p < q <= s.len()
                && m.wf(),
            Err(e) => read_map(s@, p as int) == Step::<Map<Seq<char>, TypesV>>::Fail(e@),
        },
{
    if p < s.len() && s[p] == '{' {
        read_map_body_exec(s, p + 1)
    } else {
        Err("Entity map should start with `{` and end with `}`".to_owned())
    }
}

/// The rest of a set of names after its `{`: names separated by whitespace
/// or `,`, up to the closing `}`.
pub open spec fn read_args_from(s: Seq<char>, p: int, acc: Seq<Seq<char>>) -> Step<
    Seq<Seq<char>>,
>
    decreases s.len() - p,
{
    match next_char(s, p) {
        None => Step::Fail("None could not be parsed at char"@),
        Some((c, q)) => if c == '}' {
            Step::Done(acc, q)
        } else if !is_ws(c) && c != ',' {
            let (k, q2) = parse_key(s, q, c);
            if p < q2 <= s.len() {
                read_args_from(s, q2, acc.push(k))
            } else {
                Step::Fail(Seq::empty())
            }
        } else {
            read_args_from(s, q, acc)
        },
    }
}

/// `read_args`: a set of names that must start right at the cursor with `{`.
pub open spec fn read_args(s: Seq<char>, p: int) -> Step<Seq<Seq<char>>> {
    match next_char(s, p) {
        Some((c, q)) => if c == '{' {
            read_args_from(s, q, Seq::empty())
        } else {
            Step::Fail("SELECT arguments set should start with `#{` and end with `}`"@)
        },
        None => Step::Fail("SELECT arguments set should start with `#{` and end with `}`"@),
    }
}

/// Executes `read_args`.
pub fn read_args_exec(s: &Vec<char>, p: usize) -> (r: Result<(Vec<String>, usize), String>)
    requires
        p <= s.len(),
    ensures
        match r {
            Ok((v, q)) => read_args(s@, p as int) == Step::Done(strings_view(v@), q as int) && p
                < q <= s.len(),
            Err(e) => read_args(s@, p as int) == Step::<Seq<Seq<char>>>::Fail(e@),
        },
{
    if !(p < s.len() && s[p] == '{') {
        return Err("SELECT arguments set should start with `#{` and end with `}`".to_owned());
    }
    let mut acc: Vec<String> = Vec::new();
    let mut i = p + 1;
    assert(strings_view(acc@) =~= Seq::<Seq<char>>::empty());
    loop
        invariant
            p < i <= s.len(),
            read_args(s@, p as int) == read_args_from(s@, i as int, strings_view(acc@)),
        decreases s.len() - i,
    {
        if i >= s.len() {
            return Err("None could not be parsed at char".to_owned());
        }
        let c = s[i];
        if c == '}' {
            return Ok((acc, i + 1));
        } else if !char_is_whitespace(c) && c != ',' {
            let (k, q2) = parse_key_exec(s, i + 1, c);
            let ghost before = acc@;
            acc.push(k);
            assert(strings_view(acc@) =~= strings_view(before).push(k@));
            i = q2;
        } else {
            i = i + 1;
        }
    }
}

/// A text value of `CHECK`: the characters of a quoted string, or the
/// unquoted token that starts with `c`.
pub open spec fn text_value(s: Seq<char>, p: int, c: char) -> Step<Seq<char>> {
    if c == '"' {
        read_str_from(s, p, false, Seq::empty())
    } else {
        let (rest, q) = take_while(s, p, CharClass::ValueChar);
        Step::Done(seq![c] + rest, q)
    }
}

/// The rest of a map of texts after its `{` (as in `read_map_body`, values
/// being texts).
pub open spec fn read_text_body(
    s: Seq<char>,
    p: int,
    key: Option<Seq<char>>,
    acc: Map<Seq<char>, Seq<char>>,
) -> Step<Map<Seq<char>, Seq<char>>>
    decreases s.len() - p,
{
    match next_char(s, p) {
        None => Step::Fail("Entity HashMap could not be created"@),
        Some((c, q)) => if c == '}' {
            Step::Done(acc, q)
        } else if !is_ws(c) && c != ',' {
            match key {
                Some(k) => match text_value(s, q, c) {
                    Step::Done(t, q2) => if p < q2 <= s.len() {
                        read_text_body(s, q2, None, acc.insert(k, t))
                    } else {
                        Step::Fail(Seq::empty())
                    },
                    Step::Fail(e) => Step::Fail(e),
                },
                None => {
                    let (k, q2) = parse_key(s, q, c);
                    if p < q2 <= s.len() {
                        read_text_body(s, q2, Some(k), acc)
                    } else {
                        Step::Fail(Seq::empty())
                    }
                },
            }
        } else {
            read_text_body(s, q, key, acc)
        },
    }
}

/// A map of texts, which must start right at the cursor with `{`.
pub open spec fn read_text_map(s: Seq<char>, p: int) -> Step<Map<Seq<char>, Seq<char>>> {
    match next_char(s, p) {
        Some((c, q)) => if c == '{' {
            read_text_body(s, q, None, Map::empty())
        } else {
            Step::Fail("Entity map should start with `{` and end with `}`"@)
        },
        None => Step::Fail("Entity map should start with `{` and end with `}`"@),
    }
}

/// Executes `text_value`.
fn text_value_exec(s: &Vec<char>, p: usize, c: char) -> (r: Result<(String, usize), String>)
    requires
        p <= s.len(),
    ensures
        step_of(r) == text_value(s@, p as int, c),
        r matches Ok((_, q)) ==> p <= q <= s.len(),
{
    if c == '"' {
        match read_str_exec(s, p) {
            Ok((Types::String(t), q)) => Ok((t, q)),
            Ok(_) => Err(String::new()),
            Err(e) => Err(e),
        }
    } else {
        let (k, q) = parse_value_token(s, p, c);
        Ok((string_of(&k), q))
    }
}

/// The unquoted token that starts with `c`: `c` and the value characters
/// after it; the character that ends it is consumed.
pub fn parse_value_token(s: &Vec<char>, p: usize, c: char) -> (r: (Vec<char>, usize))
    requires
        p <= s.len(),
    ensures
        r.0@ == seq![c] + take_while(s@, p as int, CharClass::ValueChar).0,
        r.1 == take_while(s@, p as int, CharClass::ValueChar).1,
        p <= r.1 <= s.len(),
{
    let (rest, q) = take_run(s, p, CharClass::ValueChar);
    let mut v = vec![c];
    let mut i: usize = 0;
    while i < rest.len()
        invariant
            i <= rest.len(),
            v@ == seq![c] + rest@.subrange(0, i as int),
        decreases rest.len() - i,
    {
        v.push(rest[i]);
        i = i + 1;
        assert(v@ =~= seq![c] + rest@.subrange(0, i as int));
    }
    assert(rest@.subrange(0, rest@.len() as int) =~= rest@);
    (v, q)
}

/// The token that starts with `c` and goes on with characters of `cls`; the
/// character that ends it is consumed.
pub fn parse_value_token_class(s: &Vec<char>, p: usize, c: char, cls: CharClass) -> (r: (Vec<char>, usize))
    requires
        p <= s.len(),
    ensures
        r.0@ == seq![c] + take_while(s@, p as int, cls).0,
        r.1 == take_while(s@, p as int, cls).1,
        p <= r.1 <= s.len(),
{
    let (rest, q) = take_run(s, p, cls);
    let mut v = vec![c];
    let mut i: usize = 0;
    while i < rest.len()
        invariant
            i <= rest.len(),
            v@ == seq![c] + rest@.subrange(0, i as int),
        decreases rest.len() - i,
    {
        v.push(rest[i]);
        i = i + 1;
        assert(v@ =~= seq![c] + rest@.subrange(0, i as int));
    }
    assert(rest@.subrange(0, rest@.len() as int) =~= rest@);
    (v, q)
}

/// Executes `read_text_map`.
pub fn read_text_map_exec(s: &Vec<char>, p: usize) -> (r: Result<(TextMap, usize), String>)
    requires
        p <= s.len(),
    ensures
        match r {
            Ok((m, q)) => read_text_map(s@, p as int) == Step::Done(m@, q as int) && p < q
                <= s.len() && m.wf(),
            Err(e) => read_text_map(s@, p as int) == Step::<Map<Seq<char>, Seq<char>>>::Fail(e@),
        },
{
    if !(p < s.len() && s[p] == '{') {
        return Err("Entity map should start with `{` and end with `}`".to_owned());
    }
    let mut acc = TextMap::new();
    let mut key: Option<String> = None;
    let mut i = p + 1;
    loop
        invariant
            p < i <= s.len(),
            acc.wf(),
            read_text_map(s@, p as int) == read_text_body(
                s@,
                i as int,
                match key {
                    Some(k) => Some(k@),
                    None => None,
                },
                acc@,
            ),
        decreases s.len() - i,
    {
        if i >= s.len() {
            return Err("Entity HashMap could not be created".to_owned());
        }
        let c = s[i];
        if c == '}' {
            return Ok((acc, i + 1));
        } else if !char_is_whitespace(c) && c != ',' {
            match key {
                Some(k) => match text_value_exec(s, i + 1, c) {
                    Ok((t, q2)) => {
                        acc.insert(k, t);
                        key = None;
                        i = q2;
                    },
                    Err(e) => {
                        return Err(e);
                    },
                },
                None => {
                    let (k, q2) = parse_key_exec(s, i + 1, c);
                    key = Some(k);
                    i = q2;
                },
            }
        } else {
            i = i + 1;
        }
    }
}

} // verus!
