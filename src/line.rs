use vstd::prelude::*;

use crate::error::{missing_separator_message, whitespace_in_key_message, Error};

verus! {

/// The characters with Unicode's `White_Space` property.
pub open spec fn is_whitespace(c: char) -> bool {
    let u = c as u32;
    ||| 0x9 <= u <= 0xD
    ||| u == 0x20
    ||| u == 0x85
    ||| u == 0xA0
    ||| u == 0x1680
    ||| 0x2000 <= u <= 0x200A
    ||| u == 0x2028
    ||| u == 0x2029
    ||| u == 0x202F
    ||| u == 0x205F
    ||| u == 0x3000
}

/// `s` without its leading whitespace.
pub open spec fn trim_start(s: Seq<char>) -> Seq<char>
    decreases s.len(),
{
    if s.len() > 0 && is_whitespace(s[0]) {
        trim_start(s.drop_first())
    } else {
        s
    }
}

/// Position of the first `x` in `s`, or `s.len()` when `s` holds none.
pub open spec fn first_index<A>(s: Seq<A>, x: A) -> int
    decreases s.len(),
{
    if s.len() == 0 || s[0] == x {
        0
    } else {
        1 + first_index(s.drop_first(), x)
    }
}

/// The rule that a malformed line breaks.
pub enum SyntaxFault {
    MissingSeparator,
    WhitespaceInKey,
}

/// The message that reports `f`.
pub open spec fn message_of(f: SyntaxFault) -> Seq<char> {
    match f {
        SyntaxFault::MissingSeparator => missing_separator_message(),
        SyntaxFault::WhitespaceInKey => whitespace_in_key_message(),
    }
}

/// What a single line of a `.env` file amounts to.
pub enum LineKind {
    /// Blank, or a comment: nothing to add.
    Skip,
    /// A key and its value.
    Pair(Seq<char>, Seq<char>),
    /// A line that breaks the format.
    Malformed(SyntaxFault),
}

/// The meaning of `line`: after leading whitespace, empty or `#...` is skipped; otherwise the
/// text splits at its first `=` into a key, which may hold no whitespace, and the verbatim rest.
pub open spec fn classify(line: Seq<char>) -> LineKind {
    let t = trim_start(line);
    let i = first_index(t, '=');
    if t.len() == 0 || t[0] == '#' {
        LineKind::Skip
    } else if i == t.len() {
        LineKind::Malformed(SyntaxFault::MissingSeparator)
    } else if exists|j: int| 0 <= j < i && is_whitespace(#[trigger] t[j]) {
        LineKind::Malformed(SyntaxFault::WhitespaceInKey)
    } else {
        LineKind::Pair(t.take(i), t.skip(i + 1))
    }
}

/// Does `r` report what `classify` says of `line`?
pub open spec fn line_result(line: Seq<char>, r: Result<Option<(String, String)>, Error>) -> bool {
    match classify(line) {
        LineKind::Skip => r is Ok && r->Ok_0 is None,
        LineKind::Pair(k, v) => {
            &&& r is Ok
            &&& r->Ok_0 is Some
            &&& r->Ok_0->Some_0.0@ == k
            &&& r->Ok_0->Some_0.1@ == v
        },
        LineKind::Malformed(f) => r is Err && r->Err_0.is_syntax(message_of(f)),
    }
}

/// Relies on `char::is_whitespace`: true exactly for the `White_Space` characters.
#[verifier::external_body]
fn char_is_whitespace(c: char) -> (r: bool)
    ensures
        r == is_whitespace(c),
{
    c.is_whitespace()
}

/// Relies on `str::chars`, collected into a `Vec`: the characters of `s` in order.
#[verifier::external_body]
fn chars_of(s: &str) -> (r: Vec<char>)
    ensures
        r@ == s@,
{
    s.chars().collect()
}

/// Relies on `String::push`: appends one character.
#[verifier::external_body]
fn push_char(s: &mut String, c: char)
    ensures
        final(s)@ == old(s)@.push(c),
{
    s.push(c)
}

/// `first_index` lands within `s`, or just past its end.
pub proof fn lemma_first_index_bounds<A>(s: Seq<A>, x: A)
    ensures
        0 <= first_index(s, x) <= s.len(),
        first_index(s, x) < s.len() ==> s[first_index(s, x)] == x,
    decreases s.len(),
{
    if s.len() > 0 && s[0] != x {
        lemma_first_index_bounds(s.drop_first(), x);
    }
}

/// `first_index` is the position `m` when no `x` comes before `m` and `x` stands there (or
/// `m` is the end).
pub proof fn lemma_first_index<A>(s: Seq<A>, x: A, m: int)
    requires
        0 <= m <= s.len(),
        forall|k: int| 0 <= k < m ==> s[k] != x,
        m == s.len() || s[m] == x,
    ensures
        first_index(s, x) == m,
    decreases m,
{
    if m > 0 {
        assert(s[0] != x);
        lemma_first_index(s.drop_first(), x, m - 1);
    }
}

/// The characters `cs[from..to]` as a `String`.
fn string_of(cs: &Vec<char>, from: usize, to: usize) -> (r: String)
    requires
        from <= to <= cs@.len(),
    ensures
        r@ == cs@.subrange(from as int, to as int),
{
    let mut r = String::new();
    let mut i = from;
    while i < to
        invariant
            from <= i <= to <= cs@.len(),
            r@ == cs@.subrange(from as int, i as int),
        decreases to - i,
    {
        push_char(&mut r, cs[i]);
        assert(r@ =~= cs@.subrange(from as int, i + 1));
        i = i + 1;
    }
    r
}

/// Reads one line of a `.env` file: `None` for a blank or comment line, the key and value of
/// a `KEY=VALUE` line, or a syntax error.
pub fn parse_line(line: &str) -> (r: Result<Option<(String, String)>, Error>)
    ensures
        line_result(line@, r),
{
    let cs = chars_of(line);
    let n = cs.len();
    let mut i: usize = 0;
    assert(cs@.skip(0) =~= cs@);
    while i < n
        invariant
            i <= n == cs@.len(),
            cs@ == line@,
            trim_start(line@) == trim_start(cs@.skip(i as int)),
        ensures
            i <= n,
            trim_start(line@) == trim_start(cs@.skip(i as int)),
            i == n || !is_whitespace(cs@[i as int]),
        decreases n - i,
    {
        if !char_is_whitespace(cs[i]) {
            break;
        }
        assert(cs@.skip(i as int).drop_first() =~= cs@.skip(i + 1));
        i = i + 1;
    }
    let ghost t = cs@.skip(i as int);
    proof {
        if i < n {
            assert(t[0] == cs@[i as int]);
        }
    }
    assert(trim_start(line@) == t);
    if i == n || cs[i] == '#' {
        return Ok(None);
    }
    let mut j: usize = i;
    let mut spaced = false;
    while j < n
        invariant
            i <= j <= n == cs@.len(),
            t == cs@.skip(i as int),
            forall|k: int| i <= k < j ==> cs@[k] != '=',
            spaced == exists|k: int| i <= k < j && is_whitespace(#[trigger] cs@[k]),
        ensures
            i <= j <= n,
            forall|k: int| i <= k < j ==> cs@[k] != '=',
            spaced == exists|k: int| i <= k < j && is_whitespace(#[trigger] cs@[k]),
            j == n || cs@[j as int] == '=',
        decreases n - j,
    {
        if cs[j] == '=' {
            break;
        }
        if char_is_whitespace(cs[j]) {
            spaced = true;
        }
        j = j + 1;
    }
    proof {
        lemma_first_index(t, '=', j - i);
        if spaced {
            let k = choose|k: int| i <= k < j && is_whitespace(#[trigger] cs@[k]);
            assert(is_whitespace(t[k - i]));
        } else {
            assert forall|k: int| 0 <= k < j - i implies !is_whitespace(#[trigger] t[k]) by {
                assert(t[k] == cs@[k + i]);
            }
        }
    }
    if j == n {
        return Err(Error::new("key and value must be separated by `=`"));
    }
    if spaced {
        return Err(Error::new("key cannot contain whitespaces"));
    }
    let key = string_of(&cs, i, j);
    let value = string_of(&cs, j + 1, n);
    assert(t.take(j - i) =~= cs@.subrange(i as int, j as int));
    assert(t.skip(j - i + 1) =~= cs@.subrange(j + 1, n as int));
    Ok(Some((key, value)))
}

/// A line that is empty, or starts with `#`, once its leading whitespace is gone, is skipped:
/// it gives neither a pair nor an error.
pub proof fn lemma_blank_or_comment_skipped(line: Seq<char>)
    requires
        trim_start(line).len() == 0 || trim_start(line)[0] == '#',
    ensures
        classify(line) == LineKind::Skip,
{
}

/// A line splits at its first `=` only: when the text after leading whitespace is a key without
/// `=` or whitespace (and not a comment), then `=`, then any value, the line gives exactly that
/// key and that value, untrimmed, further `=` and `#` included.
pub proof fn lemma_split_at_first_separator(line: Seq<char>, key: Seq<char>, value: Seq<char>)
    requires
        trim_start(line) == key + seq!['='] + value,
        !key.contains('='),
        forall|j: int| 0 <= j < key.len() ==> !is_whitespace(#[trigger] key[j]),
        key.len() == 0 || key[0] != '#',
    ensures
        classify(line) == LineKind::Pair(key, value),
{
    let t = trim_start(line);
    assert forall|k: int| 0 <= k < key.len() implies t[k] != '=' by {
        assert(t[k] == key[k]);
        if key[k] == '=' {
            assert(key.contains('='));
        }
    }
    assert(t[key.len() as int] == '=');
    lemma_first_index(t, '=', key.len() as int);
    assert(t.take(key.len() as int) =~= key);
    assert(t.skip(key.len() as int + 1) =~= value);
    if key.len() == 0 {
        assert(t[0] == '=');
    } else {
        assert(t[0] == key[0]);
    }
}

/// A line that is neither blank nor a comment and holds no `=` is a syntax error.
pub proof fn lemma_missing_separator(line: Seq<char>)
    requires
        trim_start(line).len() > 0,
        trim_start(line)[0] != '#',
        !trim_start(line).contains('='),
    ensures
        classify(line) == LineKind::Malformed(SyntaxFault::MissingSeparator),
{
    let t = trim_start(line);
    assert forall|k: int| 0 <= k < t.len() implies t[k] != '=' by {
        if t[k] == '=' {
            assert(t.contains('='));
        }
    }
    lemma_first_index(t, '=', t.len() as int);
}

/// A line whose key (the text before its first `=`) holds a whitespace character is a syntax
/// error, whatever its value.
pub proof fn lemma_whitespace_in_key(line: Seq<char>, key: Seq<char>, value: Seq<char>)
    requires
        trim_start(line) == key + seq!['='] + value,
        !key.contains('='),
        exists|j: int| 0 <= j < key.len() && is_whitespace(#[trigger] key[j]),
        key.len() == 0 || key[0] != '#',
    ensures
        classify(line) == LineKind::Malformed(SyntaxFault::WhitespaceInKey),
{
    let t = trim_start(line);
    assert forall|k: int| 0 <= k < key.len() implies t[k] != '=' by {
        assert(t[k] == key[k]);
        if key[k] == '=' {
            assert(key.contains('='));
        }
    }
    assert(t[key.len() as int] == '=');
    lemma_first_index(t, '=', key.len() as int);
    let j = choose|j: int| 0 <= j < key.len() && is_whitespace(#[trigger] key[j]);
    assert(t[j] == key[j]);
    assert(t[0] == key[0]);
}

} // verus!
