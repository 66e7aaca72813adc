//! The `Debug` text of values, as the database writes it in its messages and
//! compares it when it keeps values unique.

use vstd::prelude::*;
use crate::error::{debug_str, debug_string};
use crate::log::{uuid_text, uuid_to_string};
use crate::text::{append_str, string_of};
use crate::types::{Entity, Types};
use crate::auth::models::{all_ascii, bcrypt_hash, bcrypt_verify};

verus! {

/// `format!("{:?}", c)` of a character: quoted, with escapes.
pub uninterp spec fn debug_char(c: char) -> Seq<char>;

/// The decimal digits of a natural number, without leading zeros.
pub open spec fn decimal_digits(n: nat) -> Seq<char>
    decreases n,
{
    if n < 10 {
        seq![(('0' as int) + n) as char]
    } else {
        decimal_digits(n / 10).push((('0' as int) + n % 10) as char)
    }
}

/// `isize::to_string`: the decimal text of an integer, with `-` before a
/// negative one.
pub open spec fn int_text(i: isize) -> Seq<char> {
    if i < 0 {
        seq!['-'] + decimal_digits((-(i as int)) as nat)
    } else {
        decimal_digits(i as nat)
    }
}

/// The `Debug` text of the UTC date with these seconds and nanoseconds since
/// the Unix epoch (`2014-11-28T12:00:09Z`), empty where chrono has no such
/// date.
pub uninterp spec fn datetime_debug(secs: i64, nanos: u32) -> Seq<char>;

/// Calls `format!("{:?}", c)`; the result is named `debug_char(c)`.
#[verifier::external_body]
fn debug_char_string(c: char) -> (r: String)
    ensures
        r@ == debug_char(c),
{
    format!("{:?}", c)
}

/// The decimal digits of `n` (see `decimal_digits`).
fn digits_of(n: u128) -> (r: Vec<char>)
    ensures
        r@ == decimal_digits(n as nat),
    decreases n,
{
    let d: u8 = (n % 10) as u8;
    let c: char = (48u8 + d) as char;
    assert(c == (('0' as int) + (n % 10)) as char);
    if n < 10 {
        let r = vec![c];
        assert(r@ =~= decimal_digits(n as nat));
        r
    } else {
        let mut r = digits_of(n / 10);
        r.push(c);
        r
    }
}

/// `isize::to_string`: the decimal text of `i` (see `int_text`).
fn int_string(i: isize) -> (r: String)
    ensures
        r@ == int_text(i),
{
    if i < 0 {
        let m: i128 = i as i128;
        let n: u128 = (-m) as u128;
        let mut v: Vec<char> = vec!['-'];
        let ds = digits_of(n);
        crate::text::append_chars(&mut v, &ds);
        assert(v@ =~= int_text(i));
        string_of(&v)
    } else {
        let ds = digits_of(i as u128);
        string_of(&ds)
    }
}

/// Calls `chrono::DateTime::<Utc>::from_timestamp(secs, nanos)` and formats
/// the date with `{:?}`; where chrono returns `None` the result is empty. The
/// result is named `datetime_debug(secs, nanos)`.
#[verifier::external_body]
fn datetime_debug_string(secs: i64, nanos: u32) -> (r: String)
    ensures
        r@ == datetime_debug(secs, nanos),
{
    match chrono::DateTime::<chrono::Utc>::from_timestamp(secs, nanos) {
        Some(d) => format!("{:?}", d),
        None => String::new(),
    }
}

/// The items' texts separated by `, `.
pub open spec fn items_text(items: Seq<Seq<char>>) -> Seq<char>
    decreases items.len(),
{
    if items.len() == 0 {
        Seq::empty()
    } else if items.len() == 1 {
        items[0]
    } else {
        items_text(items.drop_last()) + ", "@ + items.last()
    }
}

/// The `Debug` text of a value: the kind, then its contents in brackets; a
/// map lists its keys and values in the order the entity keeps them.
pub open spec fn debug_text(t: Types) -> Seq<char>
    decreases t,
{
    match t {
        Types::Char(c) => "Char("@ + debug_char(c) + ")"@,
        Types::Integer(i) => "Integer("@ + int_text(i) + ")"@,
        Types::String(s) => "String("@ + debug_str(s@) + ")"@,
        Types::Uuid(u) => "Uuid("@ + uuid_text(u) + ")"@,
        Types::Float(f, _) => "Float("@ + f@ + ")"@,
        Types::Boolean(b) => if b {
            "Boolean(true)"@
        } else {
            "Boolean(false)"@
        },
        Types::Vector(v) => "Vector(["@ + items_text(vector_texts(v@)) + "])"@,
        Types::Mapping(e) => "Map({"@ + items_text(pair_texts(e)) + "})"@,
        Types::Hash(h) => "Hash("@ + debug_str(h@) + ")"@,
        Types::Precise(p) => "Precise("@ + debug_str(p@) + ")"@,
        Types::DateTime(s, n) => "DateTime("@ + datetime_debug(s, n) + ")"@,
        Types::Nil => "Nil"@,
    }
}

/// The texts of the values of a vector.
pub open spec fn vector_texts(v: Seq<Types>) -> Seq<Seq<char>>
    decreases v,
{
    if v.len() == 0 {
        Seq::empty()
    } else {
        vector_texts(v.drop_last()).push(debug_text(v.last()))
    }
}

/// The texts `"key": value` of the pairs of an entity.
pub open spec fn pair_texts(e: Entity) -> Seq<Seq<char>>
    decreases e,
{
    pair_texts_of(e.keys@, e.values@)
}

pub open spec fn pair_texts_of(keys: Seq<String>, values: Seq<Types>) -> Seq<Seq<char>>
    decreases values,
{
    if values.len() == 0 || keys.len() == 0 {
        Seq::empty()
    } else {
        pair_texts_of(keys.drop_last(), values.drop_last()).push(
            debug_str(keys.last()@) + ": "@ + debug_text(values.last()),
        )
    }
}

fn push_items(v: &mut Vec<char>, items: &Vec<String>)
    ensures
        final(v)@ == old(v)@ + items_text(items@.map_values(|s: String| s@)),
{
    let ghost is = items@.map_values(|s: String| s@);
    let ghost start = v@;
    let mut i: usize = 0;
    assert(items_text(is.subrange(0, 0)) =~= Seq::<char>::empty());
    assert(v@ =~= start + items_text(is.subrange(0, 0)));
    while i < items.len()
        invariant
            i <= items.len(),
            is == items@.map_values(|s: String| s@),
            v@ == start + items_text(is.subrange(0, i as int)),
        decreases items.len() - i,
    {
        if i > 0 {
            append_str(v, ", ");
        }
        append_str(v, items[i].as_str());
        assert(is.subrange(0, i + 1).drop_last() =~= is.subrange(0, i as int));
        assert(is.subrange(0, i + 1).last() == items@[i as int]@);
        assert(i == 0 ==> is.subrange(0, i + 1)[0] == items@[i as int]@);
        assert(v@ =~= start + items_text(is.subrange(0, i + 1)));
        i = i + 1;
    }
    assert(is.subrange(0, items.len() as int) =~= is);
}

fn wrap(a: &str, mid: &str, b: &str) -> (r: String)
    ensures
        r@ == a@ + mid@ + b@,
{
    let mut v: Vec<char> = Vec::new();
    append_str(&mut v, a);
    append_str(&mut v, mid);
    append_str(&mut v, b);
    assert(v@ =~= a@ + mid@ + b@);
    string_of(&v)
}

/// The `Debug` text of a value.
pub fn types_debug(t: &Types) -> (r: String)
    ensures
        r@ == debug_text(*t),
    decreases t,
{
    match t {
        Types::Char(c) => wrap("Char(", debug_char_string(*c).as_str(), ")"),
        Types::Integer(i) => wrap("Integer(", int_string(*i).as_str(), ")"),
        Types::String(s) => wrap("String(", debug_string(s.as_str()).as_str(), ")"),
        Types::Uuid(u) => wrap("Uuid(", uuid_to_string(*u).as_str(), ")"),
        Types::Float(f, _) => wrap("Float(", f.as_str(), ")"),
        Types::Boolean(b) => if *b {
            String::from_str("Boolean(true)")
        } else {
            String::from_str("Boolean(false)")
        },
        Types::Vector(items) => {
            proof {
                assert(decreases_to!(t => items));
            }
            let texts = vector_debug(items);
            let mut v: Vec<char> = Vec::new();
            append_str(&mut v, "Vector([");
            push_items(&mut v, &texts);
            append_str(&mut v, "])");
            string_of(&v)
        },
        Types::Mapping(e) => {
            proof {
                assert(decreases_to!(t => e));
            }
            let texts = pair_debug(e);
            let mut v: Vec<char> = Vec::new();
            append_str(&mut v, "Map({");
            push_items(&mut v, &texts);
            append_str(&mut v, "})");
            string_of(&v)
        },
        Types::Hash(h) => wrap("Hash(", debug_string(h.as_str()).as_str(), ")"),
        Types::Precise(p) => wrap("Precise(", debug_string(p.as_str()).as_str(), ")"),
        Types::DateTime(s, n) => wrap("DateTime(", datetime_debug_string(*s, *n).as_str(), ")"),
        Types::Nil => String::from_str("Nil"),
    }
}

fn vector_debug(items: &Vec<Types>) -> (r: Vec<String>)
    ensures
        r@.map_values(|s: String| s@) == vector_texts(items@),
    decreases items,
{
    let mut texts: Vec<String> = Vec::new();
    let mut i: usize = 0;
    while i < items.len()
        invariant
            i <= items.len(),
            texts@.map_values(|s: String| s@) == vector_texts(items@.subrange(0, i as int)),
        decreases items.len() - i,
    {
        proof {
            assert(decreases_to!(items => items@));
            assert(decreases_to!(items@ => items@[i as int]));
        }
        let d = types_debug(&items[i]);
        let ghost before = texts@;
        let ghost dv = d@;
        texts.push(d);
        assert(items@.subrange(0, i + 1).drop_last() =~= items@.subrange(0, i as int));
        assert(texts@.map_values(|s: String| s@) =~= before.map_values(|s: String| s@).push(dv));
        i = i + 1;
    }
    assert(items@.subrange(0, items.len() as int) =~= items@);
    texts
}

fn pair_debug(e: &Entity) -> (r: Vec<String>)
    ensures
        r@.map_values(|s: String| s@) == pair_texts(*e),
    decreases e,
{
    let ks = &e.keys;
    let vs = &e.values;
    let kl = ks.len();
    let vl = vs.len();
    let n = if kl < vl {
        kl
    } else {
        vl
    };
    proof {
        lemma_pair_texts_len(ks@, vs@);
    }
    let ghost all = pair_texts(*e);
    let mut built: Vec<String> = Vec::new();
    let mut i: usize = 0;
    while i < n
        invariant
            n <= kl == ks@.len(),
            n <= vl == vs@.len(),
            i <= n,
            *ks == e.keys,
            *vs == e.values,
            all == pair_texts(*e),
            all.len() == n,
            forall|j: int| 0 <= j < n ==> #[trigger] all[j] == debug_str(ks@[kl - n + j]@) + ": "@
                + debug_text(vs@[vl - n + j]),
            built@.map_values(|s: String| s@) == all.subrange(0, i as int),
        decreases n - i,
    {
        let k = &ks[kl - n + i];
        proof {
            assert(decreases_to!(e => e.values));
            assert(decreases_to!(e.values => e.values@));
            assert(decreases_to!(e.values@ => e.values@[vl - n + i]));
        }
        let dv = types_debug(&vs[vl - n + i]);
        let dk = debug_string(k.as_str());
        let mut c: Vec<char> = Vec::new();
        append_str(&mut c, dk.as_str());
        append_str(&mut c, ": ");
        append_str(&mut c, dv.as_str());
        let s = string_of(&c);
        let ghost before = built@;
        let ghost sv = s@;
        built.push(s);
        assert(sv == all[i as int]);
        assert(built@.map_values(|s: String| s@) =~= before.map_values(|s: String| s@).push(sv));
        assert(built@.map_values(|s: String| s@) =~= all.subrange(0, i + 1));
        i = i + 1;
    }
    assert(all.subrange(0, n as int) =~= all);
    built
}

proof fn lemma_pair_texts_len(keys: Seq<String>, values: Seq<Types>)
    ensures
        ({
            let n = if keys.len() < values.len() {
                keys.len()
            } else {
                values.len()
            };
            &&& pair_texts_of(keys, values).len() == n
            &&& forall|j: int|
                0 <= j < n ==> #[trigger] pair_texts_of(keys, values)[j] == debug_str(
                    keys[keys.len() - n + j]@,
                ) + ": "@ + debug_text(values[values.len() - n + j])
        }),
    decreases values.len(),
{
    if values.len() > 0 && keys.len() > 0 {
        lemma_pair_texts_len(keys.drop_last(), values.drop_last());
    }
}

/// `DateTime::<Utc>::from_timestamp(secs, nanos)` written with `to_string`
/// (empty where chrono gives no date).
pub uninterp spec fn datetime_text(secs: i64, nanos: u32) -> Seq<char>;

/// Calls `chrono::DateTime::<Utc>::from_timestamp(secs, nanos)` and writes the
/// date with `to_string`; where chrono returns `None` the result is empty.
/// The result is named `datetime_text(secs, nanos)`.
#[verifier::external_body]
fn datetime_string(secs: i64, nanos: u32) -> (r: String)
    ensures
        r@ == datetime_text(secs, nanos),
{
    match chrono::DateTime::<chrono::Utc>::from_timestamp(secs, nanos) {
        Some(d) => d.to_string(),
        None => String::new(),
    }
}

/// The text that `ENCRYPT` hashes for a value: a character, an integer, a
/// string, a date, an identifier, a boolean or a precise number written
/// plainly; a vector or a map by the `Debug` text of its contents (a map in
/// the order the entity keeps its keys). `None` for a float, hashed by its
/// bits where floating-point numbers are handled. A hash and `Nil` cannot be
/// hashed.
pub open spec fn hash_text(t: Types) -> Result<Option<Seq<char>>, Seq<char>> {
    match t {
        Types::Char(c) => Ok(Some(seq![c])),
        Types::Integer(i) => Ok(Some(int_text(i))),
        Types::String(s) => Ok(Some(s@)),
        Types::DateTime(s, n) => Ok(Some(datetime_text(s, n))),
        Types::Uuid(u) => Ok(Some(uuid_text(u))),
        Types::Float(_, _) => Ok(None),
        Types::Boolean(b) => Ok(Some(if b { "true"@ } else { "false"@ })),
        Types::Vector(v) => Ok(Some("["@ + items_text(vector_texts(v@)) + "]"@)),
        Types::Mapping(e) => Ok(Some("{"@ + items_text(pair_texts(e)) + "}"@)),
        Types::Precise(p) => Ok(Some(p@)),
        Types::Hash(_) => Err("Hash cannot be hashed"@),
        Types::Nil => Err("Nil cannot be hashed"@),
    }
}

/// The text that `ENCRYPT` hashes for a value (see `hash_text`).
pub fn hash_input(t: &Types) -> (r: Result<Option<String>, String>)
    ensures
        match (r, hash_text(*t)) {
            (Ok(Some(x)), Ok(Some(y))) => x@ == y,
            (Ok(None), Ok(None)) => true,
            (Err(x), Err(y)) => x@ == y,
            _ => false,
        },
{
    match t {
        Types::Char(c) => {
            let v = vec![*c];
            assert(v@ =~= seq![*c]);
            Ok(Some(string_of(&v)))
        },
        Types::Integer(i) => Ok(Some(int_string(*i))),
        Types::String(s) => Ok(Some(s.clone())),
        Types::DateTime(s, n) => Ok(Some(datetime_string(*s, *n))),
        Types::Uuid(u) => Ok(Some(uuid_to_string(*u))),
        Types::Float(_, _) => Ok(None),
        Types::Boolean(b) => if *b {
            Ok(Some(String::from_str("true")))
        } else {
            Ok(Some(String::from_str("false")))
        },
        Types::Vector(items) => {
            let texts = vector_debug(items);
            let mut v: Vec<char> = Vec::new();
            append_str(&mut v, "[");
            push_items(&mut v, &texts);
            append_str(&mut v, "]");
            Ok(Some(string_of(&v)))
        },
        Types::Mapping(e) => {
            let texts = pair_debug(e);
            let mut v: Vec<char> = Vec::new();
            append_str(&mut v, "{");
            push_items(&mut v, &texts);
            append_str(&mut v, "}");
            Ok(Some(string_of(&v)))
        },
        Types::Precise(p) => Ok(Some(p.clone())),
        Types::Hash(_) => Err(String::from_str("Hash cannot be hashed")),
        Types::Nil => Err(String::from_str("Nil cannot be hashed")),
    }
}

/// Hashes the text with bcrypt at `cost` (see `bcrypt_hash`): an `Ok` is a
/// `Hash` that is ASCII and that bcrypt verifies against `text`; a cost
/// outside 4 to 31, or a text holding NUL, is an error.
pub fn hash_value(text: &str, cost: u32) -> (r: Result<Types, String>)
    ensures
        cost < 4 || cost > 31 ==> r is Err,
        text@.contains('\0') ==> r is Err,
        r matches Ok(h) ==> (h matches Types::Hash(s) && all_ascii(s@) && bcrypt_verify(text@, s@)
            == Some(true)),
{
    match bcrypt_hash(text, cost) {
        Ok(h) => Ok(Types::Hash(h)),
        Err(e) => Err(e),
    }
}

/// `ENCRYPT` of a value at `cost`: a hash or `Nil` is refused with the text
/// of `hash_text`; a float is `Ok(None)`, left to be hashed by its bits
/// where floating-point numbers are handled; any other value is hashed from
/// its text (see `hash_text` and `hash_value`).
pub fn to_hash(t: &Types, cost: u32) -> (r: Result<Option<Types>, String>)
    ensures
        match hash_text(*t) {
            Err(m) => r matches Err(e) && e@ == m,
            Ok(None) => r matches Ok(None),
            Ok(Some(x)) => {
                &&& r is Ok ==> (r matches Ok(Some(Types::Hash(s))) && all_ascii(s@) && bcrypt_verify(
                    x,
                    s@,
                ) == Some(true))
                &&& (cost < 4 || cost > 31 || x.contains('\0')) ==> r is Err
            },
        },
{
    match hash_input(t) {
        Err(e) => Err(e),
        Ok(None) => Ok(None),
        Ok(Some(x)) => match hash_value(x.as_str(), cost) {
            Ok(h) => Ok(Some(h)),
            Err(e) => Err(e),
        },
    }
}

} // verus!
