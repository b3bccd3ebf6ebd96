//! Bounds-checked access to a byte buffer through a read position.
//!
//! The buffer is never written. A position is an index into it, or the
//! buffer's length when everything has been read. Each function says where the
//! position stands afterwards, on success and on failure alike.

use vstd::prelude::*;
use crate::error::ParseError;

verus! {

/// The space byte.
pub const SP: u8 = 32;

/// Carriage return.
pub const CR: u8 = 13;

/// Line feed.
pub const LF: u8 = 10;

/// The colon byte.
pub const COLON: u8 = 58;

/// Moves the position forward by `increment_by`, unless that would leave the
/// buffer; then nothing moves.
pub fn increment_position(bytes: &Vec<u8>, position: &mut usize, increment_by: usize) -> (res:
    Result<(), ParseError>)
    ensures
        *old(position) + increment_by <= bytes@.len() ==> res == Ok::<(), ParseError>(())
            && *final(position) == *old(position) + increment_by,
        *old(position) + increment_by > bytes@.len() ==> res == Err::<(), ParseError>(
            ParseError::UnexpectedEnd,
        ) && *final(position) == *old(position),
{
    if *position > bytes.len() || increment_by > bytes.len() - *position {
        return Err(ParseError::UnexpectedEnd);
    }
    *position = *position + increment_by;
    Ok(())
}

/// Reads the byte at the position and steps over it. At the end of the buffer
/// nothing is read and nothing moves.
pub fn get_byte(bytes: &Vec<u8>, position: &mut usize) -> (res: Result<u8, ParseError>)
    ensures
        *old(position) < bytes@.len() ==> res == Ok::<u8, ParseError>(
            bytes@[*old(position) as int],
        ) && *final(position) == *old(position) + 1,
        *old(position) >= bytes@.len() ==> res == Err::<u8, ParseError>(
            ParseError::UnexpectedEnd,
        ) && *final(position) == *old(position),
{
    if *position >= bytes.len() {
        return Err(ParseError::UnexpectedEnd);
    }
    let byte = bytes[*position];
    *position = *position + 1;
    Ok(byte)
}

/// Reads the byte that lies `offset` places after the position, without moving.
pub fn peek_byte_at_offset(bytes: &Vec<u8>, position: &usize, offset: usize) -> (res: Result<
    u8,
    ParseError,
>)
    ensures
        *position + offset < bytes@.len() ==> res == Ok::<u8, ParseError>(
            bytes@[*position + offset],
        ),
        *position + offset >= bytes@.len() ==> res == Err::<u8, ParseError>(
            ParseError::UnexpectedEnd,
        ),
{
    if *position >= bytes.len() || offset >= bytes.len() - *position {
        return Err(ParseError::UnexpectedEnd);
    }
    Ok(bytes[*position + offset])
}

/// The number of positions `i, i + 1, ..` of `lit` on which the buffer, read
/// from `pos + i` on, holds the byte that `lit` holds, up to the first position
/// where they differ or one of the two ends.
pub open spec fn agreement_from(s: Seq<u8>, pos: int, lit: Seq<u8>, i: int) -> nat
    decreases lit.len() - i,
{
    if 0 <= i < lit.len() && 0 <= pos + i < s.len() && s[pos + i] == lit[i] {
        1 + agreement_from(s, pos, lit, i + 1)
    } else {
        0
    }
}

/// How many leading bytes of `lit` the buffer holds at `pos`.
pub open spec fn agreement(s: Seq<u8>, pos: int, lit: Seq<u8>) -> nat {
    agreement_from(s, pos, lit, 0)
}

/// What matching `lit` at `pos` yields, and where the position stands then.
///
/// The bytes are compared in order. `Ok(true)`: all of `lit` was found and
/// consumed. `Ok(false)`: the first differing byte was consumed too.
/// `UnexpectedEnd`: the buffer ended before a differing byte was met.
pub open spec fn literal_at(s: Seq<u8>, pos: int, lit: Seq<u8>) -> (Result<bool, ParseError>, int) {
    let a = agreement(s, pos, lit);
    if a == lit.len() {
        (Ok(true), pos + a)
    } else if pos + a >= s.len() {
        (Err(ParseError::UnexpectedEnd), pos + a)
    } else {
        (Ok(false), pos + a + 1)
    }
}

/// Matches the bytes of `check` against the buffer, one read at a time, and
/// stops at the first that differs. Bytes read stay consumed, whatever came
/// of the match.
pub fn check_bytes(bytes: &Vec<u8>, position: &mut usize, check: &[u8]) -> (res: Result<
    bool,
    ParseError,
>)
    ensures
        (res, *final(position) as int) == literal_at(bytes@, *old(position) as int, check@),
{
    let ghost start = *position as int;
    let mut i: usize = 0;
    while i < check.len()
        invariant
            0 <= i <= check@.len(),
            start == *old(position),
            *position == start + i,
            i > 0 ==> *position <= bytes@.len(),
            agreement(bytes@, start, check@) == i + agreement_from(bytes@, start, check@, i as int),
        decreases check@.len() - i,
    {
        let byte = get_byte(bytes, position)?;
        if byte != check[i] {
            return Ok(false);
        }
        i = i + 1;
    }
    Ok(true)
}

/// Steps over one space if the position stands on one. At the end of the
/// buffer there is no byte to look at, and the call fails.
pub fn skip_white_space(bytes: &Vec<u8>, position: &mut usize) -> (res: Result<(), ParseError>)
    ensures
        *old(position) >= bytes@.len() ==> res == Err::<(), ParseError>(
            ParseError::UnexpectedEnd,
        ) && *final(position) == *old(position),
        *old(position) < bytes@.len() ==> res == Ok::<(), ParseError>(()) && *final(position) == (
        if bytes@[*old(position) as int] == SP {
            *old(position) + 1
        } else {
            *old(position) as int
        }),
{
    if peek_byte_at_offset(bytes, position, 0)? == SP {
        increment_position(bytes, position, 1)?;
    }
    Ok(())
}

/// The first index at or after `from` where the buffer holds `b`, or the
/// buffer's length if there is none (`from` itself if it lies past the end).
pub open spec fn find_byte(s: Seq<u8>, from: int, b: u8) -> int
    decreases s.len() - from,
{
    if from < 0 || from >= s.len() {
        from
    } else if s[from] == b {
        from
    } else {
        find_byte(s, from + 1, b)
    }
}

/// The first index at or after `from` where CR stands directly before LF, or
/// the buffer's length if there is none (`from` itself if it lies past the end).
pub open spec fn find_crlf(s: Seq<u8>, from: int) -> int
    decreases s.len() - from,
{
    if from < 0 || from >= s.len() {
        from
    } else if s[from] == CR && from + 1 < s.len() && s[from + 1] == LF {
        from
    } else {
        find_crlf(s, from + 1)
    }
}

/// Whether the buffer holds, `i` places after `pos`, the byte that `lit` holds
/// at `i`.
pub open spec fn same_at(s: Seq<u8>, pos: int, lit: Seq<u8>, i: int) -> bool {
    0 <= i < lit.len() && 0 <= pos + i < s.len() && s[pos + i] == lit[i]
}

/// Whether the buffer holds the whole of `lit` at `pos`, byte for byte.
pub open spec fn holds_at(s: Seq<u8>, pos: int, lit: Seq<u8>) -> bool {
    0 <= pos && pos + lit.len() <= s.len() && s.subrange(pos, pos + lit.len()) == lit
}

/// An agreement never exceeds the literal nor runs past the buffer.
pub proof fn lemma_agreement_bounds(s: Seq<u8>, pos: int, lit: Seq<u8>, i: int)
    requires
        0 <= i <= lit.len(),
    ensures
        i + agreement_from(s, pos, lit, i) <= lit.len(),
        agreement_from(s, pos, lit, i) > 0 ==> 0 <= pos + i && pos + i + agreement_from(
            s,
            pos,
            lit,
            i,
        ) <= s.len(),
    decreases lit.len() - i,
{
    if 0 <= i < lit.len() && 0 <= pos + i < s.len() && s[pos + i] == lit[i] {
        lemma_agreement_bounds(s, pos, lit, i + 1);
    }
}

/// What an agreement counts: the bytes it covers are the same in the buffer
/// and in the literal, and the byte after them, if both have one, is not.
pub proof fn lemma_agreement_meaning(s: Seq<u8>, pos: int, lit: Seq<u8>, i: int)
    requires
        0 <= i <= lit.len(),
    ensures
        forall|j: int|
            i <= j && j < i + agreement_from(s, pos, lit, i) ==> #[trigger] same_at(s, pos, lit, j),
        !same_at(s, pos, lit, i + agreement_from(s, pos, lit, i)),
    decreases lit.len() - i,
{
    if same_at(s, pos, lit, i) {
        lemma_agreement_meaning(s, pos, lit, i + 1);
    }
}

/// The agreement is the whole literal exactly where the buffer holds the
/// literal.
pub proof fn lemma_agreement_whole(s: Seq<u8>, pos: int, lit: Seq<u8>)
    requires
        0 <= pos,
        pos <= s.len() || lit.len() > 0,
    ensures
        agreement(s, pos, lit) == lit.len() <==> holds_at(s, pos, lit),
{
    lemma_agreement_meaning(s, pos, lit, 0);
    lemma_agreement_bounds(s, pos, lit, 0);
    let a = agreement(s, pos, lit);
    if a == lit.len() {
        if a > 0 {
            assert(same_at(s, pos, lit, a - 1));
        }
        assert forall|j: int| 0 <= j < lit.len() implies s.subrange(pos, pos + lit.len())[j]
            == lit[j] by {
            assert(same_at(s, pos, lit, j));
        }
        assert(s.subrange(pos, pos + lit.len()) =~= lit);
    }
    if holds_at(s, pos, lit) && a < lit.len() {
        assert(s.subrange(pos, pos + lit.len())[a as int] == lit[a as int]);
        assert(same_at(s, pos, lit, a as int));
    }
}

/// An agreement from `i` that reaches `k` is the distance to `k` and the
/// agreement from `k`.
pub proof fn lemma_agreement_count(s: Seq<u8>, pos: int, lit: Seq<u8>, k: int, i: int)
    requires
        0 <= i <= k,
        k - i <= agreement_from(s, pos, lit, i),
    ensures
        agreement_from(s, pos, lit, i) == (k - i) + agreement_from(s, pos, lit, k),
    decreases k - i,
{
    if i < k {
        lemma_agreement_count(s, pos, lit, k, i + 1);
    }
}

/// Counting an agreement from position `i` of the literal is counting the
/// agreement of the rest of the literal, `k` bytes further on in the buffer.
pub proof fn lemma_agreement_shift(s: Seq<u8>, pos: int, lit: Seq<u8>, k: int, i: int)
    requires
        0 <= pos,
        0 <= k <= i <= lit.len(),
    ensures
        agreement_from(s, pos, lit, i) == agreement_from(
            s,
            pos + k,
            lit.subrange(k, lit.len() as int),
            i - k,
        ),
    decreases lit.len() - i,
{
    let rest = lit.subrange(k, lit.len() as int);
    if i < lit.len() {
        assert(rest[i - k] == lit[i]);
        lemma_agreement_shift(s, pos, lit, k, i + 1);
    }
}

/// An agreement of at least `k` bytes is `k` and what the rest of the literal
/// agrees on, `k` bytes further on.
pub proof fn lemma_agreement_split(s: Seq<u8>, pos: int, lit: Seq<u8>, k: int)
    requires
        0 <= pos,
        0 <= k <= agreement(s, pos, lit),
    ensures
        k <= lit.len(),
        agreement(s, pos, lit) == k + agreement(s, pos + k, lit.subrange(k, lit.len() as int)),
{
    lemma_agreement_bounds(s, pos, lit, 0);
    lemma_agreement_count(s, pos, lit, k, 0);
    lemma_agreement_shift(s, pos, lit, k, k);
}

/// The start of a literal agrees with the buffer as far as the literal does,
/// or as far as the start goes.
pub proof fn lemma_agreement_prefix(s: Seq<u8>, pos: int, lit: Seq<u8>, k: int, i: int)
    requires
        0 <= i <= k <= lit.len(),
    ensures
        agreement_from(s, pos, lit.subrange(0, k), i) == if agreement_from(s, pos, lit, i) <= k
            - i {
            agreement_from(s, pos, lit, i)
        } else {
            (k - i) as nat
        },
    decreases k - i,
{
    let start = lit.subrange(0, k);
    if i < k {
        assert(start[i] == lit[i]);
        lemma_agreement_prefix(s, pos, lit, k, i + 1);
    }
}

/// What `find_byte` finds: no `b` stands between `from` and the index it
/// gives, and `b` stands at that index unless it is the buffer's end.
pub proof fn lemma_find_byte(s: Seq<u8>, from: int, b: u8)
    requires
        0 <= from <= s.len(),
    ensures
        from <= find_byte(s, from, b) <= s.len(),
        find_byte(s, from, b) < s.len() ==> s[find_byte(s, from, b)] == b,
        forall|i: int| from <= i < find_byte(s, from, b) ==> s[i] != b,
    decreases s.len() - from,
{
    if from < s.len() && s[from] != b {
        lemma_find_byte(s, from + 1, b);
    }
}

/// What `find_crlf` finds: no CR LF begins between `from` and the index it
/// gives, and one begins at that index unless it is the buffer's end.
pub proof fn lemma_find_crlf(s: Seq<u8>, from: int)
    requires
        0 <= from <= s.len(),
    ensures
        from <= find_crlf(s, from) <= s.len(),
        find_crlf(s, from) < s.len() ==> find_crlf(s, from) + 1 < s.len() && s[find_crlf(s, from)]
            == CR && s[find_crlf(s, from) + 1] == LF,
        forall|i: int|
            from <= i < find_crlf(s, from) ==> !(#[trigger] s[i] == CR && i + 1 < s.len() && s[i + 1]
                == LF),
    decreases s.len() - from,
{
    if from < s.len() && !(s[from] == CR && from + 1 < s.len() && s[from + 1] == LF) {
        lemma_find_crlf(s, from + 1);
    }
}

} // verus!
