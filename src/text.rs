use vstd::prelude::*;

use vstd::utf8::{decode_utf8, valid_utf8};

use crate::error::Error;
use crate::line::{
    classify, first_index, is_whitespace, lemma_first_index, lemma_first_index_bounds, message_of,
    parse_line, trim_start, LineKind, SyntaxFault,
};

verus! {

/// `b` without one `\r` at its end.
pub open spec fn strip_cr(b: Seq<u8>) -> Seq<u8> {
    if b.len() > 0 && b.last() == 13u8 {
        b.drop_last()
    } else {
        b
    }
}

/// The lines of `b`: split at each `\n`, which is dropped together with a `\r` just before it;
/// a last line without `\n` is kept as it is, and no empty line follows a final `\n`.
pub open spec fn lines_of(b: Seq<u8>) -> Seq<Seq<u8>>
    decreases b.len(),
    via lines_of_decreases
{
    if b.len() == 0 {
        seq![]
    } else {
        let n = first_index(b, 10u8);
        if n == b.len() {
            seq![b]
        } else {
            seq![strip_cr(b.take(n))] + lines_of(b.skip(n + 1))
        }
    }
}

#[via_fn]
proof fn lines_of_decreases(b: Seq<u8>) {
    lemma_first_index_bounds(b, 10u8);
}

/// Why a whole input is refused.
pub enum TextFault {
    /// A line is not valid UTF-8.
    NotText,
    /// A line breaks the format.
    Syntax(SyntaxFault),
}

/// `ps` followed by the pairs of `r`, or the failure of `r`.
pub open spec fn prepend(
    ps: Seq<(Seq<char>, Seq<char>)>,
    r: Result<Seq<(Seq<char>, Seq<char>)>, TextFault>,
) -> Result<Seq<(Seq<char>, Seq<char>)>, TextFault> {
    match r {
        Ok(qs) => Ok(ps + qs),
        Err(f) => Err(f),
    }
}

/// The pairs of `lines` in order, or the failure of the first line that is not text or is
/// malformed.
pub open spec fn parse_lines(lines: Seq<Seq<u8>>) -> Result<
    Seq<(Seq<char>, Seq<char>)>,
    TextFault,
>
    decreases lines.len(),
{
    if lines.len() == 0 {
        Ok(seq![])
    } else if !valid_utf8(lines[0]) {
        Err(TextFault::NotText)
    } else {
        match classify(decode_utf8(lines[0])) {
            LineKind::Skip => parse_lines(lines.drop_first()),
            LineKind::Pair(k, v) => prepend(seq![(k, v)], parse_lines(lines.drop_first())),
            LineKind::Malformed(f) => Err(TextFault::Syntax(f)),
        }
    }
}

/// The meaning of a whole `.env` input.
pub open spec fn parse_text(b: Seq<u8>) -> Result<Seq<(Seq<char>, Seq<char>)>, TextFault> {
    parse_lines(lines_of(b))
}

/// The key/value pairs that `v` holds, as character sequences.
pub open spec fn pairs_view(v: Seq<(String, String)>) -> Seq<(Seq<char>, Seq<char>)> {
    v.map_values(|p: (String, String)| (p.0@, p.1@))
}

/// Does `r` report what `parse_text` says of `b`?
pub open spec fn text_result(b: Seq<u8>, r: Result<Vec<(String, String)>, Error>) -> bool {
    match parse_text(b) {
        Ok(ps) => r is Ok && pairs_view(r->Ok_0@) == ps,
        Err(TextFault::NotText) => r is Err && r->Err_0.is_io(),
        Err(TextFault::Syntax(f)) => r is Err && r->Err_0.is_syntax(message_of(f)),
    }
}

/// Relies on `std::str::from_utf8`: text exactly when the bytes are valid UTF-8, and then the
/// characters they encode; its `Utf8Error` is wrapped as an `InvalidData` I/O error, as
/// `BufRead::lines` reports such a line.
#[verifier::external_body]
fn decode(b: &[u8]) -> (r: Result<&str, std::io::Error>)
    ensures
        r is Ok <==> valid_utf8(b@),
        r is Ok ==> r->Ok_0@ == decode_utf8(b@),
{
    match std::str::from_utf8(b) {
        Ok(s) => Ok(s),
        Err(e) => Err(std::io::Error::new(std::io::ErrorKind::InvalidData, e)),
    }
}

/// Reads a whole `.env` input: the key/value pairs of its lines in order, or the error of the
/// first line that is not UTF-8 or breaks the format (and then no pair at all).
pub fn parse(input: &[u8]) -> (r: Result<Vec<(String, String)>, Error>)
    ensures
        text_result(input@, r),
{
    let n = input.len();
    let mut env: Vec<(String, String)> = Vec::new();
    let mut pos: usize = 0;
    assert(input@.skip(0) =~= input@);
    assert(pairs_view(env@) =~= seq![]);
    while pos < n
        invariant
            pos <= n == input@.len(),
            prepend(pairs_view(env@), parse_text(input@.skip(pos as int))) == parse_text(input@),
        decreases n - pos,
    {
        let ghost rest = input@.skip(pos as int);
        let mut e: usize = pos;
        while e < n
            invariant
                pos <= e <= n == input@.len(),
                forall|k: int| pos <= k < e ==> input@[k] != 10u8,
            ensures
                pos <= e <= n,
                forall|k: int| pos <= k < e ==> input@[k] != 10u8,
                e == n || input@[e as int] == 10u8,
            decreases n - e,
        {
            if input[e] == 10u8 {
                break;
            }
            e = e + 1;
        }
        let next: usize = if e < n { e + 1 } else { n };
        let mut stop: usize = e;
        if e < n && e > pos && input[e - 1] == 13u8 {
            stop = e - 1;
        }
        let bytes = &input[pos..stop];
        proof {
            lemma_first_index(rest, 10u8, e - pos);
            if e < n {
                assert(strip_cr(rest.take(e - pos)) =~= bytes@);
                assert(rest.skip(e - pos + 1) =~= input@.skip(next as int));
            } else {
                assert(rest =~= bytes@);
                assert(input@.skip(next as int) =~= seq![]);
                assert(lines_of(rest) =~= seq![bytes@] + lines_of(input@.skip(next as int)));
            }
            let ls = lines_of(rest);
            assert(ls[0] == bytes@);
            assert(ls.drop_first() =~= lines_of(input@.skip(next as int)));
        }
        match decode(bytes) {
            Err(cause) => {
                return Err(Error::from_io_error(cause));
            },
            Ok(s) => {
                match parse_line(s) {
                    Err(err) => {
                        return Err(err);
                    },
                    Ok(None) => {},
                    Ok(Some(p)) => {
                        let ghost before = pairs_view(env@);
                        env.push(p);
                        proof {
                            assert(pairs_view(env@) =~= before + seq![(p.0@, p.1@)]);
                            let tail = parse_text(input@.skip(next as int));
                            if tail is Ok {
                                assert(before + (seq![(p.0@, p.1@)] + tail->Ok_0)
                                    =~= pairs_view(env@) + tail->Ok_0);
                            }
                        }
                    },
                }
            },
        }
        pos = next;
    }
    assert(input@.skip(n as int) =~= seq![]);
    assert(pairs_view(env@) + seq![] =~= pairs_view(env@));
    Ok(env)
}

/// Parsing depends on the input alone: two results that both meet `parse`'s contract on the same
/// bytes agree, on success the same pairs in the same order, on failure an error of the same kind
/// and message.
pub proof fn lemma_parse_deterministic(
    b: Seq<u8>,
    r1: Result<Vec<(String, String)>, Error>,
    r2: Result<Vec<(String, String)>, Error>,
)
    requires
        text_result(b, r1),
        text_result(b, r2),
    ensures
        r1 is Ok <==> r2 is Ok,
        r1 is Ok ==> pairs_view(r1->Ok_0@) == pairs_view(r2->Ok_0@),
        r1 is Err ==> (r1->Err_0.is_io() <==> r2->Err_0.is_io()),
        r1 is Err && r1->Err_0.detail is Error ==> r2->Err_0.detail is Error
            && r1->Err_0.detail->Error_0@ == r2->Err_0.detail->Error_0@,
{
}

/// No key that parsing returns holds a whitespace character.
pub proof fn lemma_keys_have_no_whitespace(lines: Seq<Seq<u8>>)
    ensures
        parse_lines(lines) is Ok ==> forall|i: int, j: int|
            0 <= i < parse_lines(lines)->Ok_0.len() && 0 <= j < parse_lines(lines)->Ok_0[i].0.len()
                ==> !is_whitespace(#[trigger] parse_lines(lines)->Ok_0[i].0[j]),
    decreases lines.len(),
{
    if lines.len() > 0 && valid_utf8(lines[0]) {
        lemma_keys_have_no_whitespace(lines.drop_first());
        let t = trim_start(decode_utf8(lines[0]));
        let k = first_index(t, '=');
        if let LineKind::Pair(key, value) = classify(decode_utf8(lines[0])) {
            if parse_lines(lines) is Ok {
                let ps = parse_lines(lines)->Ok_0;
                let qs = parse_lines(lines.drop_first())->Ok_0;
                assert(ps == seq![(key, value)] + qs);
                assert forall|i: int, j: int|
                    0 <= i < ps.len() && 0 <= j < ps[i].0.len() implies !is_whitespace(
                    #[trigger] ps[i].0[j],
                ) by {
                    if i == 0 {
                        lemma_first_index_bounds(t, '=');
                        assert(key == t.take(k));
                        assert(key[j] == t[j]);
                    } else {
                        assert(ps[i] == qs[i - 1]);
                    }
                }
            }
        }
    }
}

} // verus!
