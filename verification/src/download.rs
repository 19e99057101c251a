//! From the answer to the metadata probe to the list of part fetches.

use vstd::prelude::*;

use crate::error::DownloadError;
use crate::fetch::{fetch_tasks, FetchTask};
use crate::plan::plan_ranges;
use crate::probe::{header_bytes, interpret_probe, probe_outcome};
use crate::request::DownloadRequest;

verus! {

/// `tasks` fetches the file `file_name` of `total` bytes in `parts` parts:
/// task `i` asks for part `i` and keeps it in the temporary file of part `i`.
pub open spec fn is_task_list(tasks: Seq<FetchTask>, file_name: Seq<char>, total: int, parts: int) -> bool {
    &&& tasks.len() == parts
    &&& forall|i: int|
        0 <= i < tasks.len() ==> {
            &&& (#[trigger] tasks[i]).range.is_part(total, parts, i)
            &&& tasks[i].is_for(file_name, tasks[i].range)
        }
}

/// Decides what to fetch once the metadata probe has been answered with
/// `status` and, where the response has one, the content-length header value
/// `content_length`.
///
/// A probe that fails, or that finds an empty resource, fails the download
/// before any part fetch is planned.
pub fn plan_download(request: &DownloadRequest, status: u16, content_length: Option<&[u8]>) -> (result:
    Result<Vec<FetchTask>, DownloadError>)
    ensures
        match probe_outcome(status, header_bytes(content_length)) {
            Err(error) => result == Err::<Vec<FetchTask>, DownloadError>(error),
            Ok(metadata) => if metadata.total_size_bytes <= 0 {
                result == Err::<Vec<FetchTask>, DownloadError>(DownloadError::InvalidSizeError)
            } else {
                &&& result matches Ok(tasks)
                &&& is_task_list(
                    tasks@,
                    request.spec_file_name(),
                    metadata.total_size_bytes as int,
                    request.spec_part_count(),
                )
            },
        },
{
    let metadata = match interpret_probe(status, content_length) {
        Ok(metadata) => metadata,
        Err(error) => {
            return Err(error);
        },
    };
    let part_count = request.part_count();
    let ranges = match plan_ranges(metadata.total_size_bytes, part_count) {
        Ok(ranges) => ranges,
        Err(error) => {
            return Err(error);
        },
    };
    Ok(fetch_tasks(request.file_name(), &ranges))
}

} // verus!
