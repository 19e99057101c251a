//! What each part fetch is asked to do, and how the outcomes of all part
//! fetches decide whether the download may go on to the merge.

use vstd::prelude::*;

use crate::decimal::{decimal_text, push_decimal};
use crate::error::DownloadError;
use crate::plan::ByteRange;
use crate::status::{is_success, status_is_success};

verus! {

/// The value of the `Range` header that asks for the bytes from `start` to
/// `end`, both included: `bytes=<start>-<end>`.
pub open spec fn range_header_text(start: int, end: int) -> Seq<char> {
    seq!['b', 'y', 't', 'e', 's', '='] + decimal_text(start) + seq!['-'] + decimal_text(end)
}

/// The name of the temporary file that holds part `index` of the file
/// `file_name`: `<file_name>.<index>`.
pub open spec fn part_file_text(file_name: Seq<char>, index: int) -> Seq<char> {
    file_name + seq!['.'] + decimal_text(index)
}

/// The `Range` header value for `range`.
pub fn range_header(range: &ByteRange) -> (header: String)
    ensures
        header@ == range_header_text(range.start_offset as int, range.end_offset as int),
{
    proof {
        reveal_strlit("bytes=");
        reveal_strlit("-");
    }
    let mut header = String::from_str("bytes=");
    assert(header@ =~= seq!['b', 'y', 't', 'e', 's', '=']);
    push_decimal(&mut header, range.start_offset);
    header.append("-");
    assert("-"@ =~= seq!['-']);
    push_decimal(&mut header, range.end_offset);
    header
}

/// The name of the temporary file for part `index` of `file_name`.
pub fn part_file_name(file_name: &str, index: i64) -> (name: String)
    ensures
        name@ == part_file_text(file_name@, index as int),
{
    proof {
        reveal_strlit(".");
    }
    let mut name = String::from_str(file_name);
    name.append(".");
    assert("."@ =~= seq!['.']);
    push_decimal(&mut name, index);
    name
}

/// The work of one part fetch: which bytes to ask for, with which header,
/// and where to keep them.
#[derive(Debug)]
pub struct FetchTask {
    pub range: ByteRange,
    pub range_header: String,
    pub part_file: String,
}

impl Clone for FetchTask {
    fn clone(&self) -> (copy: Self)
        ensures
            copy == *self,
    {
        FetchTask {
            range: self.range,
            range_header: self.range_header.clone(),
            part_file: self.part_file.clone(),
        }
    }
}

impl FetchTask {
    /// The task fetches `range` of the file `file_name`.
    pub open spec fn is_for(self, file_name: Seq<char>, range: ByteRange) -> bool {
        &&& self.range == range
        &&& self.range_header@ == range_header_text(
            range.start_offset as int,
            range.end_offset as int,
        )
        &&& self.part_file@ == part_file_text(file_name, range.index as int)
    }
}

/// One task for each range, in the order of the ranges.
pub fn fetch_tasks(file_name: &str, ranges: &Vec<ByteRange>) -> (tasks: Vec<FetchTask>)
    ensures
        tasks@.len() == ranges@.len(),
        forall|i: int| 0 <= i < tasks@.len() ==> (#[trigger] tasks@[i]).is_for(file_name@, ranges@[i]),
{
    let mut tasks: Vec<FetchTask> = Vec::new();
    let mut i: usize = 0;
    while i < ranges.len()
        invariant
            0 <= i <= ranges@.len(),
            tasks@.len() == i,
            forall|k: int| 0 <= k < i ==> (#[trigger] tasks@[k]).is_for(file_name@, ranges@[k]),
        decreases ranges@.len() - i,
    {
        let range = ranges[i];
        let task = FetchTask {
            range,
            range_header: range_header(&range),
            part_file: part_file_name(file_name, range.index),
        };
        tasks.push(task);
        i = i + 1;
    }
    tasks
}

/// Reads the status of the answer to a part request: the body is kept only
/// where the status is a success (2xx); any other status fails the part.
pub fn check_part_status(status: u16) -> (outcome: Result<(), DownloadError>)
    ensures
        is_success(status) ==> outcome == Ok::<(), DownloadError>(()),
        !is_success(status) ==> outcome == Err::<(), DownloadError>(
            DownloadError::RemoteError(status),
        ),
{
    if status_is_success(status) {
        Ok(())
    } else {
        Err(DownloadError::RemoteError(status))
    }
}

/// No part before `k` failed.
pub open spec fn all_ok_before(outcomes: Seq<Result<(), DownloadError>>, k: int) -> bool {
    forall|j: int| 0 <= j < k && j < outcomes.len() ==> (#[trigger] outcomes[j]) is Ok
}

/// Decides, once every part fetch has ended, whether the parts may be
/// merged: only where none failed. Otherwise the failure of the part with
/// the lowest index is the failure of the download.
pub fn collect_outcomes(outcomes: &Vec<Result<(), DownloadError>>) -> (result: Result<
    (),
    DownloadError,
>)
    ensures
        all_ok_before(outcomes@, outcomes@.len() as int) ==> result is Ok,
        forall|k: int|
            0 <= k < outcomes@.len() && (#[trigger] outcomes@[k]) is Err && all_ok_before(
                outcomes@,
                k,
            ) ==> result == outcomes@[k],
{
    let mut i: usize = 0;
    while i < outcomes.len()
        invariant
            0 <= i <= outcomes@.len(),
            all_ok_before(outcomes@, i as int),
        decreases outcomes@.len() - i,
    {
        match outcomes[i] {
            Ok(_) => {},
            Err(error) => {
                assert forall|k: int|
                    0 <= k < outcomes@.len() && (#[trigger] outcomes@[k]) is Err && all_ok_before(
                        outcomes@,
                        k,
                    ) implies k == i by {
                    if k < i {
                        assert(outcomes@[k] is Ok);
                    }
                    if i < k {
                        assert(outcomes@[i as int] is Ok);
                    }
                }
                return Err(error);
            },
        }
        i = i + 1;
    }
    assert forall|k: int| 0 <= k < outcomes@.len() && (#[trigger] outcomes@[k]) is Err implies false by {
        assert(outcomes@[k] is Ok);
    }
    Ok(())
}

} // verus!
