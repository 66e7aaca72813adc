//! Characters and character sequences: the Unicode classifications and case
//! mappings of std, and the tokenizing primitives that the parser is built on.

use vstd::prelude::*;

verus! {

/// `char::is_whitespace`: whether the character has the Unicode `White_Space`
/// property (U+0009 to U+000D, U+0020, U+0085, U+00A0, U+1680, U+2000 to
/// U+200A, U+2028, U+2029, U+202F, U+205F and U+3000).
pub open spec fn is_ws(c: char) -> bool {
    let n = c as u32;
    ||| 0x9 <= n <= 0xd
    ||| n == 0x20
    ||| n == 0x85
    ||| n == 0xa0
    ||| n == 0x1680
    ||| 0x2000 <= n <= 0x200a
    ||| n == 0x2028
    ||| n == 0x2029
    ||| n == 0x202f
    ||| n == 0x205f
    ||| n == 0x3000
}

/// `char::is_alphanumeric`: Unicode `Alphabetic` or numeric.
pub uninterp spec fn is_alnum(c: char) -> bool;

/// `char::is_alphabetic`: Unicode `Alphabetic` property.
pub uninterp spec fn is_alpha(c: char) -> bool;

/// `str::to_uppercase` applied to the string holding these characters.
pub uninterp spec fn upper(s: Seq<char>) -> Seq<char>;

/// `str::to_lowercase` applied to the string holding these characters.
pub uninterp spec fn lower(s: Seq<char>) -> Seq<char>;

/// `char::is_whitespace`: whether `c` has the Unicode `White_Space` property
/// (see `is_ws`).
pub(crate) fn char_is_whitespace(c: char) -> (r: bool)
    ensures
        r == is_ws(c),
{
    let n = c as u32;
    (0x9 <= n && n <= 0xd) || n == 0x20 || n == 0x85 || n == 0xa0 || n == 0x1680 || (0x2000 <= n
        && n <= 0x200a) || n == 0x2028 || n == 0x2029 || n == 0x202f || n == 0x205f || n == 0x3000
}

/// Whether `c` is an ASCII letter or digit.
pub open spec fn ascii_alnum(c: char) -> bool {
    ('a' <= c <= 'z') || ('A' <= c <= 'Z') || ('0' <= c <= '9')
}

/// Whether `c` is an ASCII letter.
pub open spec fn ascii_alpha(c: char) -> bool {
    ('a' <= c <= 'z') || ('A' <= c <= 'Z')
}

/// Calls `char::is_alphanumeric`; the result is named `is_alnum`. Of an
/// ASCII character it holds exactly for the letters and digits (those are
/// the ASCII characters with the Unicode `Alphabetic` or numeric property).
#[verifier::external_body]
pub(crate) fn char_is_alphanumeric(c: char) -> (r: bool)
    ensures
        r == is_alnum(c),
        (c as u32) < 128 ==> (r <==> ascii_alnum(c)),
{
    c.is_alphanumeric()
}

/// Calls `char::is_alphabetic`; the result is named `is_alpha`. Of an ASCII
/// character it holds exactly for the letters.
#[verifier::external_body]
pub(crate) fn char_is_alphabetic(c: char) -> (r: bool)
    ensures
        r == is_alpha(c),
        (c as u32) < 128 ==> (r <==> ascii_alpha(c)),
{
    c.is_alphabetic()
}

/// Calls `str::to_uppercase` on the string made of `s`; the characters of the
/// result are named `upper(s@)`.
#[verifier::external_body]
pub(crate) fn to_uppercase(s: &Vec<char>) -> (r: Vec<char>)
    ensures
        r@ == upper(s@),
{
    s.iter().collect::<String>().to_uppercase().chars().collect()
}

/// Calls `str::to_lowercase` on the string made of `s`; the characters of the
/// result are named `lower(s@)`.
#[verifier::external_body]
pub(crate) fn to_lowercase(s: &Vec<char>) -> (r: Vec<char>)
    ensures
        r@ == lower(s@),
{
    s.iter().collect::<String>().to_lowercase().chars().collect()
}

/// The characters of a string slice, in order (`str::chars`, collected).
#[verifier::external_body]
pub(crate) fn chars_of(s: &str) -> (r: Vec<char>)
    ensures
        r@ == s@,
{
    s.chars().collect()
}

/// The string made of the given characters (`String::from_iter`).
#[verifier::external_body]
pub(crate) fn string_of(v: &Vec<char>) -> (r: String)
    ensures
        r@ == v@,
{
    v.iter().collect()
}

/// The character classes that tokens are made of.
#[derive(Clone, Copy, Debug, PartialEq, Eq)]
pub enum CharClass {
    /// Anything but whitespace.
    NotWs,
    /// Whitespace.
    Ws,
    /// Alphanumeric characters and `_`: names of entities and keys.
    Word,
    /// Alphanumeric characters and `-`: identifiers.
    IdChar,
    /// Alphabetic characters.
    Alpha,
    /// Anything but `)`.
    NotCloseParen,
    /// Whitespace or `(`.
    WsOrOpenParen,
    /// Anything but whitespace and `,`: a scalar value.
    ValueChar,
    /// ASCII digits.
    Digit,
    /// Anything but `,`.
    NotComma,
}

/// Whether `c` belongs to the class.
pub open spec fn holds(cls: CharClass, c: char) -> bool {
    match cls {
        CharClass::NotWs => !is_ws(c),
        CharClass::Ws => is_ws(c),
        CharClass::Word => is_alnum(c) || c == '_',
        CharClass::IdChar => is_alnum(c) || c == '-',
        CharClass::Alpha => is_alpha(c),
        CharClass::NotCloseParen => c != ')',
        CharClass::WsOrOpenParen => is_ws(c) || c == '(',
        CharClass::ValueChar => !is_ws(c) && c != ',',
        CharClass::Digit => '0' <= c && c <= '9',
        CharClass::NotComma => c != ',',
    }
}

/// Decides `holds(cls, c)`.
pub fn class_holds(cls: CharClass, c: char) -> (r: bool)
    ensures
        r == holds(cls, c),
{
    match cls {
        CharClass::NotWs => !char_is_whitespace(c),
        CharClass::Ws => char_is_whitespace(c),
        CharClass::Word => char_is_alphanumeric(c) || c == '_',
        CharClass::IdChar => char_is_alphanumeric(c) || c == '-',
        CharClass::Alpha => char_is_alphabetic(c),
        CharClass::NotCloseParen => c != ')',
        CharClass::WsOrOpenParen => char_is_whitespace(c) || c == '(',
        CharClass::ValueChar => !char_is_whitespace(c) && c != ',',
        CharClass::Digit => '0' <= c && c <= '9',
        CharClass::NotComma => c != ',',
    }
}

/// The first position at or after `p` whose character is not in the class,
/// or the length of `s` when there is none.
pub open spec fn run_end(s: Seq<char>, p: int, cls: CharClass) -> int
    decreases s.len() - p,
{
    if p >= s.len() {
        s.len() as int
    } else if p < 0 {
        run_end(s, 0, cls)
    } else if holds(cls, s[p]) {
        run_end(s, p + 1, cls)
    } else {
        p
    }
}

/// The position that follows a run ending at `e`: the character that ended
/// the run is consumed with it (as `Iterator::take_while` does).
pub open spec fn after(s: Seq<char>, e: int) -> int {
    if e < s.len() {
        e + 1
    } else {
        s.len() as int
    }
}

/// `take_while` on a character cursor at `p`: the run of characters in the
/// class, and the position after the character that stopped it.
pub open spec fn take_while(s: Seq<char>, p: int, cls: CharClass) -> (Seq<char>, int) {
    let e = run_end(s, p, cls);
    (s.subrange(p, e), after(s, e))
}

/// `skip_while(skip).take_while(take)` on a character cursor at `p`.
pub open spec fn skip_take(s: Seq<char>, p: int, skip: CharClass, take: CharClass) -> (
    Seq<char>,
    int,
) {
    take_while(s, run_end(s, p, skip), take)
}

pub proof fn lemma_run_end(s: Seq<char>, p: int, cls: CharClass)
    requires
        0 <= p <= s.len(),
    ensures
        p <= run_end(s, p, cls) <= s.len(),
        forall|i: int| p <= i < run_end(s, p, cls) ==> holds(cls, #[trigger] s[i]),
        run_end(s, p, cls) < s.len() ==> !holds(cls, s[run_end(s, p, cls)]),
    decreases s.len() - p,
{
    if p < s.len() && holds(cls, s[p]) {
        lemma_run_end(s, p + 1, cls);
    }
}

/// Computes `run_end`.
pub fn find_run_end(s: &Vec<char>, p: usize, cls: CharClass) -> (e: usize)
    requires
        p <= s.len(),
    ensures
        e == run_end(s@, p as int, cls),
        p <= e <= s.len(),
{
    let mut i = p;
    while i < s.len() && class_holds(cls, s[i])
        invariant
            p <= i <= s.len(),
            run_end(s@, i as int, cls) == run_end(s@, p as int, cls),
        decreases s.len() - i,
    {
        i = i + 1;
    }
    proof {
        lemma_run_end(s@, i as int, cls);
    }
    i
}

/// The characters `s[from..to]`.
pub fn slice_chars(s: &Vec<char>, from: usize, to: usize) -> (r: Vec<char>)
    requires
        from <= to <= s.len(),
    ensures
        r@ == s@.subrange(from as int, to as int),
{
    let mut r: Vec<char> = Vec::new();
    let mut i = from;
    while i < to
        invariant
            from <= i <= to <= s.len(),
            r@ == s@.subrange(from as int, i as int),
        decreases to - i,
    {
        r.push(s[i]);
        i = i + 1;
        assert(r@ =~= s@.subrange(from as int, i as int));
    }
    r
}

/// Executes `take_while`.
pub fn take_run(s: &Vec<char>, p: usize, cls: CharClass) -> (r: (Vec<char>, usize))
    requires
        p <= s.len(),
    ensures
        (r.0@, r.1 as int) == take_while(s@, p as int, cls),
        p <= r.1 <= s.len(),
        r.0@.len() > 0 ==> p < r.1,
{
    let e = find_run_end(s, p, cls);
    let tok = slice_chars(s, p, e);
    let next = if e < s.len() {
        e + 1
    } else {
        s.len()
    };
    (tok, next)
}

/// Executes `skip_take`.
pub fn skip_take_run(s: &Vec<char>, p: usize, skip: CharClass, take: CharClass) -> (r: (
    Vec<char>,
    usize,
))
    requires
        p <= s.len(),
    ensures
        (r.0@, r.1 as int) == skip_take(s@, p as int, skip, take),
        p <= r.1 <= s.len(),
        r.0@.len() > 0 ==> p < r.1,
{
    let k = find_run_end(s, p, skip);
    take_run(s, k, take)
}

/// Whether two character vectors hold the same characters.
pub fn chars_eq(a: &Vec<char>, b: &Vec<char>) -> (r: bool)
    ensures
        r == (a@ == b@),
{
    if a.len() != b.len() {
        return false;
    }
    let mut i: usize = 0;
    while i < a.len()
        invariant
            a.len() == b.len(),
            i <= a.len(),
            forall|j: int| 0 <= j < i ==> a@[j] == b@[j],
        decreases a.len() - i,
    {
        if a[i] != b[i] {
            return false;
        }
        i = i + 1;
    }
    assert(a@ =~= b@);
    true
}

/// Whether the upper-cased token is the keyword `kw`.
pub fn upper_is(tok: &Vec<char>, kw: &str) -> (r: bool)
    ensures
        r == (upper(tok@) == kw@),
{
    let u = to_uppercase(tok);
    let k = chars_of(kw);
    chars_eq(&u, &k)
}

/// Whether the token is exactly the text `kw`.
pub fn is_text(tok: &Vec<char>, kw: &str) -> (r: bool)
    ensures
        r == (tok@ == kw@),
{
    let k = chars_of(kw);
    chars_eq(tok, &k)
}

/// The end of `s[..e]` once trailing whitespace is dropped.
pub open spec fn trimmed_end(s: Seq<char>, e: int) -> int
    decreases e,
{
    if e <= 0 {
        0
    } else if is_ws(s[e - 1]) {
        trimmed_end(s, e - 1)
    } else {
        e
    }
}

/// `str::trim`: the characters with leading and trailing whitespace removed.
pub open spec fn trim(s: Seq<char>) -> Seq<char> {
    let a = run_end(s, 0, CharClass::Ws);
    let b = trimmed_end(s, s.len() as int);
    if b <= a {
        Seq::empty()
    } else {
        s.subrange(a, b)
    }
}

/// Executes `trim`.
pub fn trim_chars(s: &Vec<char>) -> (r: Vec<char>)
    ensures
        r@ == trim(s@),
{
    let a = find_run_end(s, 0, CharClass::Ws);
    let mut b = s.len();
    while b > 0 && char_is_whitespace(s[b - 1])
        invariant
            b <= s.len(),
            trimmed_end(s@, b as int) == trimmed_end(s@, s.len() as int),
        decreases b,
    {
        b = b - 1;
    }
    if b <= a {
        Vec::new()
    } else {
        slice_chars(s, a, b)
    }
}

/// The outcome of a parsing step on a character cursor: a result and the
/// position after it, or an error message.
pub enum Step<T> {
    Done(T, int),
    Fail(Seq<char>),
}

/// The outcome that an executed step with a viewable result stands for.
pub open spec fn step_of<T: View>(r: Result<(T, usize), String>) -> Step<T::V> {
    match r {
        Ok((v, q)) => Step::Done(v@, q as int),
        Err(e) => Step::Fail(e@),
    }
}

/// The character at the cursor and the position after it, as
/// `Iterator::next` gives them.
pub open spec fn next_char(s: Seq<char>, p: int) -> Option<(char, int)> {
    if 0 <= p < s.len() {
        Some((s[p], p + 1))
    } else {
        None
    }
}

/// The string `a` followed by `mid`.
pub fn concat2(a: &str, mid: &Vec<char>) -> (r: String)
    ensures
        r@ == a@ + mid@,
{
    let mut v = chars_of(a);
    let mut i: usize = 0;
    let ghost start = v@;
    while i < mid.len()
        invariant
            i <= mid.len(),
            v@ == start + mid@.subrange(0, i as int),
        decreases mid.len() - i,
    {
        v.push(mid[i]);
        i = i + 1;
        assert(v@ =~= start + mid@.subrange(0, i as int));
    }
    assert(mid@.subrange(0, mid@.len() as int) =~= mid@);
    string_of(&v)
}

/// The string `mid` followed by `b`.
pub fn concat_after(mid: &Vec<char>, b: &str) -> (r: String)
    ensures
        r@ == mid@ + b@,
{
    let mut v = slice_chars(mid, 0, mid.len());
    assert(v@ =~= mid@);
    let tail = chars_of(b);
    let ghost start = v@;
    let mut j: usize = 0;
    while j < tail.len()
        invariant
            j <= tail.len(),
            v@ == start + tail@.subrange(0, j as int),
        decreases tail.len() - j,
    {
        v.push(tail[j]);
        j = j + 1;
        assert(v@ =~= start + tail@.subrange(0, j as int));
    }
    assert(tail@.subrange(0, tail@.len() as int) =~= tail@);
    string_of(&v)
}

/// `str::split` on a separator character: the pieces between separators, in
/// order (there is one more piece than separators).
pub open spec fn split_on(s: Seq<char>, sep: char) -> Seq<Seq<char>>
    decreases s.len(),
{
    if s.len() == 0 {
        seq![Seq::empty()]
    } else {
        let rest = split_on(s.drop_last(), sep);
        if s.last() == sep {
            rest.push(Seq::empty())
        } else {
            rest.update(rest.len() - 1, rest.last().push(s.last()))
        }
    }
}

pub proof fn lemma_split_on_nonempty(s: Seq<char>, sep: char)
    ensures
        split_on(s, sep).len() >= 1,
    decreases s.len(),
{
    if s.len() > 0 {
        lemma_split_on_nonempty(s.drop_last(), sep);
    }
}

/// Executes `split_on`.
pub fn split_chars(s: &Vec<char>, sep: char) -> (r: Vec<Vec<char>>)
    ensures
        r@.map_values(|x: Vec<char>| x@) == split_on(s@, sep),
{
    let mut r: Vec<Vec<char>> = Vec::new();
    r.push(Vec::new());
    let mut i: usize = 0;
    assert(s@.subrange(0, 0) =~= Seq::<char>::empty());
    assert(r@.map_values(|x: Vec<char>| x@) =~= split_on(s@.subrange(0, 0), sep));
    while i < s.len()
        invariant
            i <= s.len(),
            r@.len() >= 1,
            r@.map_values(|x: Vec<char>| x@) == split_on(s@.subrange(0, i as int), sep),
        decreases s.len() - i,
    {
        let c = s[i];
        let ghost prev = r@.map_values(|x: Vec<char>| x@);
        assert(s@.subrange(0, i + 1).drop_last() =~= s@.subrange(0, i as int));
        if c == sep {
            r.push(Vec::new());
            assert(r@.map_values(|x: Vec<char>| x@) =~= prev.push(Seq::empty()));
        } else {
            let last = r.len() - 1;
            let mut piece = r.pop().unwrap();
            piece.push(c);
            r.push(piece);
            assert(r@.map_values(|x: Vec<char>| x@) =~= prev.update(
                prev.len() - 1,
                prev.last().push(c),
            ));
        }
        i = i + 1;
    }
    assert(s@.subrange(0, s@.len() as int) =~= s@);
    r
}

/// The pieces that are not empty, in order.
pub open spec fn non_empty(ss: Seq<Seq<char>>) -> Seq<Seq<char>>
    decreases ss.len(),
{
    if ss.len() == 0 {
        Seq::empty()
    } else if ss.last().len() == 0 {
        non_empty(ss.drop_last())
    } else {
        non_empty(ss.drop_last()).push(ss.last())
    }
}

/// The words of a text split at each space, the empty ones dropped and the
/// others trimmed (as `split(' ').filter(|c| !c.is_empty()).map(str::trim)`).
pub open spec fn words(s: Seq<char>) -> Seq<Seq<char>> {
    non_empty(split_on(s, ' ')).map_values(|w: Seq<char>| trim(w))
}

/// Executes `words`.
pub fn words_exec(s: &Vec<char>) -> (r: Vec<Vec<char>>)
    ensures
        r@.map_values(|x: Vec<char>| x@) == words(s@),
{
    let pieces = split_chars(s, ' ');
    let ghost ps = split_on(s@, ' ');
    let mut r: Vec<Vec<char>> = Vec::new();
    let mut i: usize = 0;
    while i < pieces.len()
        invariant
            i <= pieces.len(),
            pieces@.map_values(|x: Vec<char>| x@) == ps,
            r@.map_values(|x: Vec<char>| x@) == non_empty(ps.subrange(0, i as int)).map_values(
                |w: Seq<char>| trim(w),
            ),
        decreases pieces.len() - i,
    {
        let ghost prev = r@.map_values(|x: Vec<char>| x@);
        assert(ps.subrange(0, i + 1).drop_last() =~= ps.subrange(0, i as int));
        assert(ps[i as int] == pieces@[i as int]@);
        if pieces[i].len() > 0 {
            let t = trim_chars(&pieces[i]);
            r.push(t);
            let ghost ne = non_empty(ps.subrange(0, i as int));
            assert(non_empty(ps.subrange(0, i + 1)) == ne.push(ps[i as int]));
            assert(ne.push(ps[i as int]).map_values(|w: Seq<char>| trim(w)) =~= ne.map_values(
                |w: Seq<char>| trim(w),
            ).push(trim(ps[i as int])));
            assert(r@.map_values(|x: Vec<char>| x@) =~= non_empty(
                ps.subrange(0, i + 1),
            ).map_values(|w: Seq<char>| trim(w)));
        } else {
            assert(r@.map_values(|x: Vec<char>| x@) =~= non_empty(
                ps.subrange(0, i + 1),
            ).map_values(|w: Seq<char>| trim(w)));
        }
        i = i + 1;
    }
    assert(ps.subrange(0, pieces@.len() as int) =~= ps);
    r
}

/// `s` starts with `t`.
pub open spec fn starts_with(s: Seq<char>, t: Seq<char>) -> bool {
    t.len() <= s.len() && s.subrange(0, t.len() as int) == t
}

/// `t` occurs in `s`.
pub open spec fn contains_seq(s: Seq<char>, t: Seq<char>) -> bool {
    exists|i: int| 0 <= i && i + t.len() <= s.len() && #[trigger] s.subrange(i, i + t.len()) == t
}

/// Whether `t` occurs in `s` at position `i`.
fn occurs_at(s: &Vec<char>, t: &Vec<char>, i: usize) -> (r: bool)
    requires
        i + t.len() <= s.len(),
    ensures
        r == (s@.subrange(i as int, i + t.len()) == t@),
{
    let mut j: usize = 0;
    while j < t.len()
        invariant
            j <= t.len(),
            i + t.len() <= s.len(),
            forall|k: int| 0 <= k < j ==> s@[i + k] == t@[k],
        decreases t.len() - j,
    {
        if s[i + j] != t[j] {
            assert(s@.subrange(i as int, i + t.len())[j as int] != t@[j as int]);
            return false;
        }
        j = j + 1;
    }
    assert(s@.subrange(i as int, i + t.len()) =~= t@);
    true
}

/// Executes `contains_seq`.
pub fn contains_chars(s: &Vec<char>, t: &Vec<char>) -> (r: bool)
    ensures
        r == contains_seq(s@, t@),
{
    if t.len() > s.len() {
        return false;
    }
    let mut i: usize = 0;
    while i <= s.len() - t.len()
        invariant
            t.len() <= s.len(),
            i <= s.len() - t.len() + 1,
            forall|k: int| 0 <= k < i ==> #[trigger] s@.subrange(k, k + t.len()) != t@,
        decreases s.len() - t.len() + 1 - i,
    {
        if occurs_at(s, t, i) {
            return true;
        }
        if i == s.len() - t.len() {
            return false;
        }
        i = i + 1;
    }
    false
}

/// Executes `starts_with`.
pub fn starts_with_chars(s: &Vec<char>, t: &Vec<char>) -> (r: bool)
    ensures
        r == starts_with(s@, t@),
{
    if t.len() > s.len() {
        return false;
    }
    occurs_at(s, t, 0)
}

/// Appends the characters of `w` to `v`.
pub fn append_chars(v: &mut Vec<char>, w: &Vec<char>)
    ensures
        final(v)@ == old(v)@ + w@,
{
    let ghost start = v@;
    let mut j: usize = 0;
    while j < w.len()
        invariant
            j <= w.len(),
            v@ == start + w@.subrange(0, j as int),
        decreases w.len() - j,
    {
        v.push(w[j]);
        j = j + 1;
        assert(v@ =~= start + w@.subrange(0, j as int));
    }
    assert(w@.subrange(0, w@.len() as int) =~= w@);
}

/// Appends the characters of the string `w` to `v`.
pub fn append_str(v: &mut Vec<char>, w: &str)
    ensures
        final(v)@ == old(v)@ + w@,
{
    let c = chars_of(w);
    append_chars(v, &c);
}

/// Whether two strings hold the same characters.
pub fn str_eq(a: &str, b: &str) -> (r: bool)
    ensures
        r == (a@ == b@),
{
    let x = chars_of(a);
    let y = chars_of(b);
    chars_eq(&x, &y)
}

/// `s` ends with `t`.
pub open spec fn ends_with(s: Seq<char>, t: Seq<char>) -> bool {
    t.len() <= s.len() && s.subrange(s.len() - t.len(), s.len() as int) == t
}

/// Executes `ends_with`.
pub fn ends_with_chars(s: &Vec<char>, t: &Vec<char>) -> (r: bool)
    ensures
        r == ends_with(s@, t@),
{
    if t.len() > s.len() {
        return false;
    }
    occurs_at(s, t, s.len() - t.len())
}

/// `s` without any occurrence of `c` (`str::replace(c, "")`).
pub open spec fn remove_char(s: Seq<char>, c: char) -> Seq<char>
    decreases s.len(),
{
    if s.len() == 0 {
        s
    } else if s.last() == c {
        remove_char(s.drop_last(), c)
    } else {
        remove_char(s.drop_last(), c).push(s.last())
    }
}

/// Executes `remove_char`.
pub fn remove_char_exec(s: &Vec<char>, c: char) -> (r: Vec<char>)
    ensures
        r@ == remove_char(s@, c),
{
    let mut r: Vec<char> = Vec::new();
    let mut i: usize = 0;
    while i < s.len()
        invariant
            i <= s.len(),
            r@ == remove_char(s@.subrange(0, i as int), c),
        decreases s.len() - i,
    {
        assert(s@.subrange(0, i + 1).drop_last() =~= s@.subrange(0, i as int));
        if s[i] != c {
            r.push(s[i]);
        }
        i = i + 1;
    }
    assert(s@.subrange(0, s.len() as int) =~= s@);
    r
}

} // verus!
