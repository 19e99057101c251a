//! Putting the fetched parts together, in index order, into the final file.

use vstd::prelude::*;

use crate::error::DownloadError;
use crate::fetch::{part_file_name, part_file_text};
use crate::plan::{covered_len, is_plan, lemma_part_within, part_size, ByteRange};

verus! {

/// The names of the temporary files of a download in `part_count` parts, in
/// the order in which they are merged.
pub fn part_file_names(file_name: &str, part_count: i64) -> (names: Vec<String>)
    ensures
        names@.len() == if part_count > 0 {
            part_count as int
        } else {
            0
        },
        forall|i: int|
            0 <= i < names@.len() ==> (#[trigger] names@[i])@ == part_file_text(file_name@, i),
{
    let mut names: Vec<String> = Vec::new();
    let mut index: i64 = 0;
    while index < part_count
        invariant
            0 <= index,
            index <= part_count || index == 0,
            names@.len() == index,
            forall|i: int|
                0 <= i < names@.len() ==> (#[trigger] names@[i])@ == part_file_text(file_name@, i),
        decreases part_count - index,
    {
        names.push(part_file_name(file_name, index));
        index = index + 1;
    }
    names
}

/// Part `i` was fetched and is there to be merged.
pub open spec fn part_present(parts: Seq<Option<Vec<u8>>>, i: int) -> bool {
    0 <= i < parts.len() && parts[i] is Some
}

/// Every part before `k` is there.
pub open spec fn all_present_before(parts: Seq<Option<Vec<u8>>>, k: int) -> bool {
    forall|j: int| 0 <= j < k ==> #[trigger] part_present(parts, j)
}

/// The bytes of the first `count` parts, part by part.
pub open spec fn part_contents(parts: Seq<Option<Vec<u8>>>, count: int) -> Seq<Seq<u8>> {
    Seq::new(
        if count > 0 {
            count as nat
        } else {
            0
        },
        |i: int| parts[i]->Some_0@,
    )
}

/// Appends `bytes` to `merged`.
fn append_bytes(merged: &mut Vec<u8>, bytes: &Vec<u8>)
    ensures
        final(merged)@ == old(merged)@ + bytes@,
{
    let mut i: usize = 0;
    while i < bytes.len()
        invariant
            0 <= i <= bytes@.len(),
            merged@ == old(merged)@ + bytes@.take(i as int),
        decreases bytes@.len() - i,
    {
        merged.push(bytes[i]);
        assert(bytes@.take(i + 1) =~= bytes@.take(i as int).push(bytes@[i as int]));
        i = i + 1;
    }
    assert(bytes@.take(bytes@.len() as int) =~= bytes@);
}

/// Merges the parts of a download in `part_count` parts: `parts[i]` holds
/// the bytes of part `i`, or nothing where that part is missing.
///
/// The result is the parts' bytes one after the other, in index order. A
/// part that is missing, or that `parts` is too short to hold, fails the
/// merge with the lowest such index: no part is ever skipped.
pub fn merge_parts(part_count: i64, parts: &Vec<Option<Vec<u8>>>) -> (result: Result<
    Vec<u8>,
    DownloadError,
>)
    ensures
        all_present_before(parts@, part_count as int) ==> result is Ok && result->Ok_0@
            == part_contents(parts@, part_count as int).flatten(),
        forall|k: int|
            0 <= k < part_count && !#[trigger] part_present(parts@, k) && all_present_before(
                parts@,
                k,
            ) ==> result == Err::<Vec<u8>, DownloadError>(DownloadError::MissingPartError(k as i64)),
{
    let mut merged: Vec<u8> = Vec::new();
    let mut index: i64 = 0;
    let mut i: usize = 0;
    assert(part_contents(parts@, 0) =~= Seq::<Seq<u8>>::empty());
    while index < part_count
        invariant
            0 <= index,
            index <= part_count || index == 0,
            i == index,
            i <= parts@.len(),
            all_present_before(parts@, index as int),
            merged@ == part_contents(parts@, index as int).flatten(),
        decreases part_count - index,
    {
        let missing = if i >= parts.len() {
            true
        } else {
            parts[i].is_none()
        };
        if missing {
            assert(!part_present(parts@, index as int));
            assert forall|k: int|
                0 <= k < part_count && !#[trigger] part_present(parts@, k) && all_present_before(
                    parts@,
                    k,
                ) implies k == index by {
                if index < k {
                    assert(part_present(parts@, index as int));
                }
            }
            return Err(DownloadError::MissingPartError(index));
        }
        assert(part_present(parts@, index as int));
        match &parts[i] {
            Some(bytes) => {
                append_bytes(&mut merged, bytes);
                proof {
                    let before = part_contents(parts@, index as int);
                    assert(part_contents(parts@, index + 1) =~= before.push(bytes@));
                    before.lemma_flatten_push(bytes@);
                }
            },
            None => {},
        }
        index = index + 1;
        i = i + 1;
    }
    assert forall|k: int|
        0 <= k < part_count && !#[trigger] part_present(parts@, k) implies false by {
        assert(part_present(parts@, k));
    }
    assert(part_contents(parts@, part_count as int) =~= part_contents(parts@, index as int));
    Ok(merged)
}

/// The bytes that a request for `range` is answered with by a server that
/// holds `data`.
pub open spec fn range_bytes(data: Seq<u8>, range: ByteRange) -> Seq<u8> {
    data.subrange(range.start_offset as int, range.end_offset + 1)
}

/// `fetched` holds, part by part, the bytes of `data` that the ranges ask for.
pub open spec fn fetched_from(fetched: Seq<Seq<u8>>, data: Seq<u8>, ranges: Seq<ByteRange>) -> bool {
    &&& fetched.len() == ranges.len()
    &&& forall|i: int| 0 <= i < fetched.len() ==> #[trigger] fetched[i] == range_bytes(data, ranges[i])
}

/// The first `k` parts, put together, are the first `k` part sizes of bytes.
proof fn lemma_merged_prefix(data: Seq<u8>, ranges: Seq<ByteRange>, fetched: Seq<Seq<u8>>, parts: int, k: int)
    requires
        data.len() > 0,
        parts >= 1,
        is_plan(ranges, data.len() as int, parts),
        fetched_from(fetched, data, ranges),
        0 <= k <= parts,
    ensures
        0 <= k * part_size(data.len() as int, parts) <= data.len(),
        fetched.take(k).flatten() == data.subrange(0, k * part_size(data.len() as int, parts)),
    decreases k,
{
    let total = data.len() as int;
    let size = part_size(total, parts);
    if k == 0 {
        assert(fetched.take(0) =~= Seq::<Seq<u8>>::empty());
        assert(0 * size == 0) by (nonlinear_arith);
        assert(data.subrange(0, 0) =~= Seq::<u8>::empty());
    } else {
        lemma_merged_prefix(data, ranges, fetched, parts, k - 1);
        lemma_part_within(total, parts, k - 1);
        assert(ranges[k - 1].is_part(total, parts, k - 1));
        assert((k - 1 + 1) * size == k * size);
        assert(fetched[k - 1] == data.subrange((k - 1) * size, k * size));
        assert(fetched.take(k) =~= fetched.take(k - 1).push(fetched[k - 1]));
        fetched.take(k - 1).lemma_flatten_push(fetched[k - 1]);
        assert(data.subrange(0, (k - 1) * size) + data.subrange((k - 1) * size, k * size)
            =~= data.subrange(0, k * size));
    }
}

/// Fetching every planned range of a resource and merging the parts gives
/// back the resource itself, as far as the parts cover it: all of it but the
/// last `total % parts` bytes.
pub proof fn lemma_merge_restores_covered_span(
    data: Seq<u8>,
    ranges: Seq<ByteRange>,
    fetched: Seq<Seq<u8>>,
    parts: int,
)
    requires
        data.len() > 0,
        parts >= 1,
        is_plan(ranges, data.len() as int, parts),
        fetched_from(fetched, data, ranges),
    ensures
        0 <= covered_len(data.len() as int, parts) <= data.len(),
        covered_len(data.len() as int, parts) == data.len() - data.len() % (parts as nat),
        fetched.flatten() == data.subrange(0, covered_len(data.len() as int, parts)),
{
    let total = data.len() as int;
    lemma_merged_prefix(data, ranges, fetched, parts, parts);
    assert(fetched.take(parts) =~= fetched);
    assert(parts * (total / parts) == total - total % parts) by (nonlinear_arith)
        requires
            parts >= 1,
    ;
}

/// Two runs against the same resource, with the same plan, end with the
/// same merged bytes.
pub proof fn lemma_merge_is_repeatable(
    data: Seq<u8>,
    ranges: Seq<ByteRange>,
    first: Seq<Seq<u8>>,
    second: Seq<Seq<u8>>,
    parts: int,
)
    requires
        data.len() > 0,
        parts >= 1,
        is_plan(ranges, data.len() as int, parts),
        fetched_from(first, data, ranges),
        fetched_from(second, data, ranges),
    ensures
        first.flatten() == second.flatten(),
{
    lemma_merge_restores_covered_span(data, ranges, first, parts);
    lemma_merge_restores_covered_span(data, ranges, second, parts);
}

} // verus!
