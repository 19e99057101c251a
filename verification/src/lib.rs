//! Planning and bookkeeping for downloading one resource in several
//! byte-range parts that are fetched side by side and merged in order.
//!
//! The crate performs no I/O. It decides what to request, how to name the
//! temporary part files, how to read the answer to a metadata probe, and how
//! the fetched parts are put together; the caller does the transfers.
//!
//! A download runs through these steps:
//!
//! 1. [`DownloadRequest::new`] takes the link and the number of parts.
//! 2. The caller sends a header-only request and hands the status and the
//!    content-length header to [`plan_download`], which answers with one
//!    [`FetchTask`] for each part.
//! 3. The caller runs the tasks, with [`check_part_status`] deciding whether
//!    a response body is kept, and hands all outcomes to
//!    [`collect_outcomes`].
//! 4. [`merge_parts`] puts the parts together.

pub mod decimal;
pub mod download;
pub mod error;
pub mod fetch;
pub mod merge;
pub mod plan;
pub mod probe;
pub mod request;
pub mod status;

pub use decimal::format_decimal;
pub use download::plan_download;
pub use error::DownloadError;
pub use fetch::{
    check_part_status,
    collect_outcomes,
    fetch_tasks,
    part_file_name,
    range_header,
    FetchTask,
};
pub use merge::{merge_parts, part_file_names};
pub use plan::{plan_ranges, ByteRange};
pub use probe::{interpret_probe, parse_content_length, ResourceMetadata};
pub use request::{file_name_from_segments, DownloadRequest};
pub use status::{status_is_client_error, status_is_server_error, status_is_success};
