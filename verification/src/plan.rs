//! Dividing a resource of known size into byte ranges.

use vstd::prelude::*;

use crate::error::DownloadError;

verus! {

/// One part of the resource: the bytes from `start_offset` to `end_offset`,
/// both included, fetched as part number `index`.
#[derive(Clone, Copy, Debug, PartialEq, Eq, Structural)]
pub struct ByteRange {
    pub index: i64,
    pub start_offset: i64,
    pub end_offset: i64,
}

/// The number of bytes in every part: the quotient, rounded down.
pub open spec fn part_size(total: int, parts: int) -> int {
    total / parts
}

/// The first byte of part `i`.
pub open spec fn part_start(total: int, parts: int, i: int) -> int {
    i * part_size(total, parts)
}

/// The last byte of part `i`.
pub open spec fn part_end(total: int, parts: int, i: int) -> int {
    (i + 1) * part_size(total, parts) - 1
}

/// The number of leading bytes that the parts cover together. The
/// `total % parts` bytes behind them belong to no part.
pub open spec fn covered_len(total: int, parts: int) -> int {
    parts * part_size(total, parts)
}

impl ByteRange {
    /// `self` is part `i` of a resource of `total` bytes divided in `parts`.
    pub open spec fn is_part(self, total: int, parts: int, i: int) -> bool {
        &&& self.index == i
        &&& self.start_offset == part_start(total, parts, i)
        &&& self.end_offset == part_end(total, parts, i)
    }

    /// The range holds at least one byte and starts at or after byte 0.
    pub open spec fn well_formed(self) -> bool {
        0 <= self.index && 0 <= self.start_offset <= self.end_offset
    }

    /// The number of bytes in the range.
    pub open spec fn spec_len(self) -> int {
        self.end_offset - self.start_offset + 1
    }
}

/// `ranges` is the division of `total` bytes in `parts` parts, in index order.
pub open spec fn is_plan(ranges: Seq<ByteRange>, total: int, parts: int) -> bool {
    &&& ranges.len() == parts
    &&& forall|i: int| 0 <= i < ranges.len() ==> (#[trigger] ranges[i]).is_part(total, parts, i)
}

/// Every range holds at least one byte, and each range ends before the next
/// one starts: the ranges rise strictly and none overlaps another.
pub open spec fn is_ordered(ranges: Seq<ByteRange>) -> bool {
    &&& forall|i: int| 0 <= i < ranges.len() ==> (#[trigger] ranges[i]).well_formed()
    &&& forall|i: int, j: int|
        0 <= i < j < ranges.len() ==> (#[trigger] ranges[i]).end_offset < (
        #[trigger] ranges[j]).start_offset
}

/// Every part up to `parts` ends within the resource.
pub proof fn lemma_part_within(total: int, parts: int, i: int)
    requires
        total > 0,
        parts > 0,
        0 <= i < parts,
    ensures
        0 <= part_size(total, parts) <= total,
        0 <= part_start(total, parts, i) <= total,
        -1 <= part_end(total, parts, i) < total,
        part_end(total, parts, i) == part_start(total, parts, i) + part_size(total, parts) - 1,
{
    let size = total / parts;
    assert(0 <= size && size * parts <= total) by (nonlinear_arith)
        requires
            total > 0,
            parts > 0,
            size == total / parts,
    ;
    assert(0 <= i * size && (i + 1) * size <= parts * size && (i + 1) * size == i * size + size
        && parts * size == size * parts) by (nonlinear_arith)
        requires
            0 <= i < parts,
            0 <= size,
    ;
}

/// The ranges of a plan lie end to end: the first starts at byte 0, each
/// next one starts right behind the one before it, all have the same size,
/// and the last ends where the covered span ends.
pub proof fn lemma_plan_contiguous(ranges: Seq<ByteRange>, total: int, parts: int)
    requires
        total > 0,
        parts >= 1,
        is_plan(ranges, total, parts),
    ensures
        ranges.len() == parts,
        ranges[0].start_offset == 0,
        forall|i: int| 0 <= i < parts ==> (#[trigger] ranges[i]).spec_len() == part_size(total, parts),
        forall|i: int|
            0 <= i < parts - 1 ==> (#[trigger] ranges[i + 1]).start_offset == ranges[i].end_offset + 1,
        ranges[parts - 1].end_offset == covered_len(total, parts) - 1,
        covered_len(total, parts) == total - total % parts,
{
    let size = part_size(total, parts);
    assert(ranges[0].is_part(total, parts, 0));
    assert(0 * size == 0) by (nonlinear_arith);
    assert forall|i: int| 0 <= i < parts implies (#[trigger] ranges[i]).spec_len() == size by {
        assert(ranges[i].is_part(total, parts, i));
        lemma_part_within(total, parts, i);
    }
    assert forall|i: int| 0 <= i < parts - 1 implies (#[trigger] ranges[i + 1]).start_offset
        == ranges[i].end_offset + 1 by {
        assert(ranges[i].is_part(total, parts, i));
        assert(ranges[i + 1].is_part(total, parts, i + 1));
    }
    assert(ranges[parts - 1].is_part(total, parts, parts - 1));
    assert((parts - 1 + 1) * size == parts * size);
    assert(parts * (total / parts) == total - total % parts) by (nonlinear_arith)
        requires
            parts >= 1,
    ;
}

/// Where the resource has at least as many bytes as the plan has parts,
/// the plan has exactly `parts` ranges, every range holds at least one byte
/// of the resource, and every range ends before the next one starts.
///
/// A resource of fewer bytes than parts is left out: its ranges are empty,
/// each running from 0 to -1.
pub proof fn lemma_plan_ordered(ranges: Seq<ByteRange>, total: int, parts: int)
    requires
        total > 0,
        parts >= 1,
        parts <= total,
        is_plan(ranges, total, parts),
    ensures
        ranges.len() == parts,
        is_ordered(ranges),
        forall|i: int| 0 <= i < parts ==> (#[trigger] ranges[i]).end_offset < total,
{
    let size = part_size(total, parts);
    assert(size >= 1) by (nonlinear_arith)
        requires
            1 <= parts <= total,
            size == total / parts,
    ;
    assert forall|i: int| 0 <= i < parts implies (#[trigger] ranges[i]).well_formed()
        && ranges[i].end_offset < total by {
        assert(ranges[i].is_part(total, parts, i));
        lemma_part_within(total, parts, i);
    }
    assert forall|i: int, j: int| 0 <= i < j < parts implies (#[trigger] ranges[i]).end_offset < (
    #[trigger] ranges[j]).start_offset by {
        assert(ranges[i].is_part(total, parts, i));
        assert(ranges[j].is_part(total, parts, j));
        assert((i + 1) * size <= j * size) by (nonlinear_arith)
            requires
                0 <= i < j,
                size >= 1,
        ;
    }
}

/// A plan of one part is one range that covers the whole resource, from
/// byte 0 to the last byte.
pub proof fn lemma_single_part_is_whole(ranges: Seq<ByteRange>, total: int)
    requires
        total > 0,
        is_plan(ranges, total, 1),
    ensures
        ranges.len() == 1,
        ranges[0].index == 0,
        ranges[0].start_offset == 0,
        ranges[0].end_offset == total - 1,
        covered_len(total, 1) == total,
{
    assert(ranges[0].is_part(total, 1, 0));
}

/// Divides `total_size` bytes into `part_count` ranges of equal size.
///
/// The size of a part is the quotient rounded down, so the last
/// `total_size % part_count` bytes of the resource lie in no range. Where
/// `total_size < part_count` the parts are empty: each runs from 0 to -1.
pub fn plan_ranges(total_size: i64, part_count: i64) -> (result: Result<Vec<ByteRange>, DownloadError>)
    ensures
        part_count <= 0 ==> result == Err::<Vec<ByteRange>, DownloadError>(
            DownloadError::InvalidPartCountError,
        ),
        part_count > 0 && total_size <= 0 ==> result == Err::<Vec<ByteRange>, DownloadError>(
            DownloadError::InvalidSizeError,
        ),
        part_count > 0 && total_size > 0 ==> result is Ok && is_plan(
            result->Ok_0@,
            total_size as int,
            part_count as int,
        ),
        0 < part_count <= total_size ==> is_ordered(result->Ok_0@),
        part_count == 1 && total_size > 0 ==> result->Ok_0@ == seq![
            ByteRange { index: 0, start_offset: 0, end_offset: (total_size - 1) as i64 },
        ],
{
    if part_count <= 0 {
        return Err(DownloadError::InvalidPartCountError);
    }
    if total_size <= 0 {
        return Err(DownloadError::InvalidSizeError);
    }
    let size: i64 = total_size / part_count;
    let mut ranges: Vec<ByteRange> = Vec::new();
    let mut i: i64 = 0;
    while i < part_count
        invariant
            total_size > 0,
            part_count > 0,
            0 <= i <= part_count,
            size == part_size(total_size as int, part_count as int),
            ranges@.len() == i,
            forall|k: int|
                0 <= k < i ==> (#[trigger] ranges@[k]).is_part(
                    total_size as int,
                    part_count as int,
                    k,
                ),
        decreases part_count - i,
    {
        proof {
            lemma_part_within(total_size as int, part_count as int, i as int);
        }
        let start: i64 = i * size;
        let end: i64 = start + size - 1;
        ranges.push(ByteRange { index: i, start_offset: start, end_offset: end });
        i = i + 1;
    }
    proof {
        if part_count <= total_size {
            lemma_plan_ordered(ranges@, total_size as int, part_count as int);
        }
        if part_count == 1 {
            lemma_single_part_is_whole(ranges@, total_size as int);
            assert(ranges@ =~= seq![
                ByteRange { index: 0, start_offset: 0, end_offset: (total_size - 1) as i64 },
            ]);
        }
    }
    Ok(ranges)
}

} // verus!
