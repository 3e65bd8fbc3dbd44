//! How much of a listing fits on a terminal.

use vstd::prelude::*;
use vstd::string::StringSliceAdditionalSpecFns;

verus! {

/// How many entries a listing shows where no number is asked for.
pub const DEFAULT_LIST_LIMIT: usize = 10;

/// The byte that ends a line.
pub const NEWLINE: u8 = 0x0A;

/// The rows that a line of `length` bytes takes on a terminal that is
/// `width` columns wide. An empty line takes none.
pub open spec fn rows_of_line(length: int, width: int) -> int {
    (length + width - 1) / width
}

/// The length of the line that `bytes` ends in: the bytes after the last
/// newline.
pub open spec fn open_line(bytes: Seq<u8>) -> int
    decreases bytes.len(),
{
    if bytes.len() == 0 || bytes.last() == NEWLINE {
        0
    } else {
        1 + open_line(bytes.drop_last())
    }
}

/// The rows that the lines of `bytes` take which a newline has ended.
pub open spec fn closed_rows(bytes: Seq<u8>, width: int) -> int
    decreases bytes.len(),
{
    if bytes.len() == 0 {
        0
    } else if bytes.last() == NEWLINE {
        closed_rows(bytes.drop_last(), width) + rows_of_line(
            open_line(bytes.drop_last()),
            width,
        )
    } else {
        closed_rows(bytes.drop_last(), width)
    }
}

/// The rows that an entry of a listing takes: one above it, one below it,
/// and those of its lines.
pub open spec fn rows_of(bytes: Seq<u8>, width: int) -> int {
    2 + closed_rows(bytes, width) + rows_of_line(open_line(bytes), width)
}

/// How many entries of a listing are shown: entries are shown from the
/// first on, as long as fewer than `limit` were shown and the rows shown
/// so far leave at least one of the `height` rows free.
pub open spec fn shown_entries(
    entries: Seq<Seq<u8>>,
    limit: int,
    width: int,
    height: int,
) -> int
    decreases entries.len(),
{
    if entries.len() == 0 || limit <= 0 || height <= 0 {
        0
    } else {
        1 + shown_entries(
            entries.drop_first(),
            limit - 1,
            width,
            height - rows_of(entries[0], width),
        )
    }
}

/// The bytes of each entry of a listing.
pub open spec fn bytes_of(entries: Seq<Seq<char>>) -> Seq<Seq<u8>> {
    entries.map_values(|entry: Seq<char>| vstd::utf8::encode_utf8(entry))
}

/// The lines of an entry take no row but for their bytes.
proof fn lemma_rows_bounded(bytes: Seq<u8>, width: int)
    requires
        width > 0,
    ensures
        0 <= open_line(bytes) <= bytes.len(),
        0 <= closed_rows(bytes, width),
        closed_rows(bytes, width) + open_line(bytes) <= bytes.len(),
    decreases bytes.len(),
{
    if bytes.len() > 0 {
        let before = bytes.drop_last();
        lemma_rows_bounded(before, width);
        let n = open_line(before);
        assert(0 <= (n + width - 1) / width <= n) by (nonlinear_arith)
            requires
                0 <= n,
                width > 0,
        ;
    }
}

/// The rows that an entry takes on a terminal `width` columns wide.
pub fn entry_rows(entry: &str, width: usize) -> (rows: u128)
    requires
        width > 0,
    ensures
        rows == rows_of(entry.spec_bytes(), width as int),
{
    let bytes = entry.as_bytes();
    let mut closed: u128 = 0;
    let mut open: u128 = 0;
    let mut i: usize = 0;
    while i < bytes.len()
        invariant
            i <= bytes.len(),
            width > 0,
            closed == closed_rows(bytes@.subrange(0, i as int), width as int),
            open == open_line(bytes@.subrange(0, i as int)),
        decreases bytes.len() - i,
    {
        proof {
            lemma_rows_bounded(bytes@.subrange(0, i as int), width as int);
            assert(bytes@.subrange(0, i + 1).drop_last() =~= bytes@.subrange(0, i as int));
        }
        if bytes[i] == NEWLINE {
            closed = closed + (open + width as u128 - 1) / width as u128;
            open = 0;
        } else {
            open = open + 1;
        }
        i += 1;
    }
    proof {
        assert(bytes@.subrange(0, bytes.len() as int) =~= bytes@);
        lemma_rows_bounded(bytes@, width as int);
    }
    2 + closed + (open + width as u128 - 1) / width as u128
}

/// How many entries of a listing to show on a terminal `width` columns
/// wide and `height` rows high, where at most `limit` are asked for.
pub fn page_length(lines: &Vec<String>, limit: usize, width: usize, height: usize) -> (count:
    usize)
    requires
        width > 0,
    ensures
        count == shown_entries(
            bytes_of(lines.deep_view()),
            limit as int,
            width as int,
            height as int,
        ),
        count <= lines.len(),
        count <= limit,
{
    let ghost entries = bytes_of(lines.deep_view());
    let mut left: u128 = height as u128;
    let mut count: usize = 0;
    assert(entries.subrange(0, entries.len() as int) =~= entries);
    while count < lines.len() && count < limit && left > 0
        invariant
            count <= lines.len(),
            count <= limit,
            width > 0,
            entries == bytes_of(lines.deep_view()),
            left <= height,
            shown_entries(entries, limit as int, width as int, height as int) == count
                + shown_entries(
                entries.subrange(count as int, entries.len() as int),
                limit - count,
                width as int,
                left as int,
            ),
        decreases lines.len() - count,
    {
        let ghost rest = entries.subrange(count as int, entries.len() as int);
        let ghost after = entries.subrange(count + 1, entries.len() as int);
        let ghost had = left as int;
        let rows = entry_rows(lines[count].as_str(), width);
        proof {
            assert(rest.drop_first() =~= after);
            assert(shown_entries(rest, limit - count, width as int, had) == 1 + shown_entries(
                after,
                limit - count - 1,
                width as int,
                had - rows,
            ));
        }
        if rows >= left {
            left = 0;
        } else {
            left = left - rows;
        }
        count += 1;
    }
    count
}

} // verus!
