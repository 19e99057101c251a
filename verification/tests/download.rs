use multipart_download::{plan_download, DownloadError, DownloadRequest, FetchTask};

fn request(part_count: i64) -> DownloadRequest {
    DownloadRequest::new("https://example.com/files/archive.zip".to_string(), part_count).unwrap()
}

fn error_of(result: Result<Vec<FetchTask>, DownloadError>) -> DownloadError {
    match result {
        Ok(tasks) => panic!("planned {} part fetches", tasks.len()),
        Err(error) => error,
    }
}

#[test]
fn probe_answer_becomes_one_task_for_each_part() {
    let tasks = plan_download(&request(10), 200, Some(b"1000")).unwrap();
    assert_eq!(tasks.len(), 10);
    for (i, task) in tasks.iter().enumerate() {
        let i = i as i64;
        assert_eq!(task.range.index, i);
        assert_eq!(task.range.start_offset, 100 * i);
        assert_eq!(task.range.end_offset, 100 * i + 99);
        assert_eq!(task.range_header, format!("bytes={}-{}", 100 * i, 100 * i + 99));
        assert_eq!(task.part_file, format!("archive.zip.{}", i));
    }
}

#[test]
fn tail_is_not_planned() {
    let tasks = plan_download(&request(10), 200, Some(b"1005")).unwrap();
    assert_eq!(tasks.len(), 10);
    assert_eq!(tasks[9].range_header, "bytes=900-999");
    assert_eq!(tasks[9].part_file, "archive.zip.9");
}

#[test]
fn whole_file_in_one_part() {
    let tasks = plan_download(&request(1), 200, Some(b"1005")).unwrap();
    assert_eq!(tasks.len(), 1);
    assert_eq!(tasks[0].range_header, "bytes=0-1004");
    assert_eq!(tasks[0].part_file, "archive.zip.0");
}

#[test]
fn not_found_aborts_before_any_fetch_is_planned() {
    assert_eq!(
        error_of(plan_download(&request(10), 404, Some(b"1000"))),
        DownloadError::RemoteError(404)
    );
    assert_eq!(error_of(plan_download(&request(10), 404, None)), DownloadError::RemoteError(404));
}

#[test]
fn server_error_aborts_the_download() {
    assert_eq!(
        error_of(plan_download(&request(10), 503, Some(b"1000"))),
        DownloadError::RemoteError(503)
    );
}

#[test]
fn missing_length_aborts_the_download() {
    assert_eq!(error_of(plan_download(&request(10), 200, None)), DownloadError::MissingLengthError);
}

#[test]
fn malformed_length_aborts_the_download() {
    assert_eq!(
        error_of(plan_download(&request(10), 200, Some(b"1000 bytes"))),
        DownloadError::MalformedLengthError
    );
    assert_eq!(
        error_of(plan_download(&request(10), 200, Some(b"-1"))),
        DownloadError::MalformedLengthError
    );
}

#[test]
fn empty_resource_aborts_the_download() {
    assert_eq!(error_of(plan_download(&request(10), 200, Some(b"0"))), DownloadError::InvalidSizeError);
}
