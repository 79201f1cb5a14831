//! The line-oriented text view of a file's bytes.

use vstd::prelude::*;
use vstd::slice::*;
use vstd::string::*;
use vstd::utf8::*;

use crate::text::from_utf8;

verus! {

/// The byte that ends a line.
pub const NEWLINE: u8 = 10;

/// The byte that may precede the newline and then belongs to the line end.
pub const CARRIAGE_RETURN: u8 = 13;

/// Index of the first newline in `bytes`, or their length when there is none.
pub open spec fn first_newline(bytes: Seq<u8>) -> int
    decreases bytes.len(),
{
    if bytes.len() == 0 || bytes[0] == NEWLINE {
        0
    } else {
        1 + first_newline(bytes.drop_first())
    }
}

/// A line without the carriage return that ended it.
pub open spec fn without_return(line: Seq<u8>) -> Seq<u8> {
    if line.len() > 0 && line.last() == CARRIAGE_RETURN {
        line.drop_last()
    } else {
        line
    }
}

/// The lines of a file: the runs of bytes that newlines end, each without
/// its newline and without a carriage return before it, and what follows
/// the last newline if anything does.
pub open spec fn lines_of(bytes: Seq<u8>) -> Seq<Seq<u8>>
    decreases bytes.len(),
{
    if bytes.len() == 0 {
        Seq::empty()
    } else if 0 <= first_newline(bytes) < bytes.len() {
        seq![without_return(bytes.subrange(0, first_newline(bytes)))] + lines_of(
            bytes.subrange(first_newline(bytes) + 1, bytes.len() as int),
        )
    } else {
        seq![bytes]
    }
}

/// The lines up to the first that is not text, decoded.
pub open spec fn decoded_prefix(lines: Seq<Seq<u8>>) -> Seq<Seq<char>>
    decreases lines.len(),
{
    if lines.len() == 0 || !valid_utf8(lines[0]) {
        Seq::empty()
    } else {
        seq![decode_utf8(lines[0])] + decoded_prefix(lines.drop_first())
    }
}

/// The text lines of a file: its lines, decoded, up to the first line that
/// is not well-formed UTF-8.
pub open spec fn text_lines_of(bytes: Seq<u8>) -> Seq<Seq<char>> {
    decoded_prefix(lines_of(bytes))
}

/// The views of a run of strings.
pub open spec fn string_views(strings: Seq<String>) -> Seq<Seq<char>> {
    strings.map_values(|s: String| s@)
}

proof fn lemma_first_newline_found(bytes: Seq<u8>, at: int)
    requires
        0 <= at <= bytes.len(),
        forall|i: int| 0 <= i < at ==> bytes[i] != NEWLINE,
        at < bytes.len() ==> bytes[at] == NEWLINE,
    ensures
        first_newline(bytes) == at,
    decreases bytes.len(),
{
    if bytes.len() != 0 && bytes[0] != NEWLINE {
        let rest = bytes.drop_first();
        assert forall|i: int| 0 <= i < at - 1 implies rest[i] != NEWLINE by {
            assert(rest[i] == bytes[i + 1]);
        }
        lemma_first_newline_found(rest, at - 1);
    }
}

/// Splits the bytes of a file into lines and decodes them, stopping
/// before the first line that is not text.
pub fn text_lines(bytes: &[u8]) -> (lines: Vec<String>)
    ensures
        string_views(lines@) == text_lines_of(bytes@),
{
    let mut lines: Vec<String> = Vec::new();
    let total = bytes.len();
    let mut start: usize = 0;
    assert(bytes@.subrange(0, total as int) =~= bytes@);
    assert(string_views(lines@) =~= Seq::<Seq<char>>::empty());
    while start < total
        invariant
            start <= total,
            total == bytes@.len(),
            text_lines_of(bytes@) =~= string_views(lines@) + text_lines_of(
                bytes@.subrange(start as int, total as int),
            ),
        decreases total - start,
    {
        let ghost rest = bytes@.subrange(start as int, total as int);
        let mut end: usize = start;
        while end < total && bytes[end] != NEWLINE
            invariant
                start <= end <= total,
                total == bytes@.len(),
                forall|i: int| start <= i < end ==> bytes@[i] != NEWLINE,
            decreases total - end,
        {
            end = end + 1;
        }
        proof {
            assert forall|i: int| 0 <= i < end - start implies rest[i] != NEWLINE by {
                assert(rest[i] == bytes@[start + i]);
            }
            lemma_first_newline_found(rest, end - start);
        }
        let ended = end < total;
        let mut stop: usize = end;
        if ended && stop > start && bytes[stop - 1] == CARRIAGE_RETURN {
            stop = stop - 1;
        }
        let raw = slice_to_vec(slice_subrange(bytes, start, stop));
        let next: usize = if ended {
            end + 1
        } else {
            total
        };
        proof {
            let after = bytes@.subrange(next as int, total as int);
            if ended {
                assert(rest.subrange(0, end - start) =~= bytes@.subrange(start as int, end as int));
                assert(raw@ =~= without_return(rest.subrange(0, end - start)));
                assert(rest.subrange(end - start + 1, rest.len() as int) =~= after);
                assert(lines_of(rest) == seq![raw@] + lines_of(after));
            } else {
                assert(raw@ =~= rest);
                assert(after =~= Seq::<u8>::empty());
                assert(lines_of(rest) =~= seq![raw@] + lines_of(after));
            }
            assert(lines_of(rest)[0] == raw@);
            assert(lines_of(rest).drop_first() =~= lines_of(after));
        }
        match from_utf8(raw) {
            Some(text) => {
                let ghost before = lines@;
                lines.push(text);
                assert(string_views(lines@) =~= string_views(before).push(text@));
            },
            None => {
                assert(text_lines_of(rest) =~= Seq::<Seq<char>>::empty());
                return lines;
            },
        }
        start = next;
    }
    assert(text_lines_of(bytes@.subrange(start as int, total as int)) =~= Seq::<
        Seq<char>,
    >::empty());
    lines
}

} // verus!
