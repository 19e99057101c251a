use multipart_download::{
    fetch_tasks,
    format_decimal,
    part_file_name,
    part_file_names,
    plan_ranges,
    range_header,
    ByteRange,
};

#[test]
fn decimal_text_of_small_numbers() {
    assert_eq!(format_decimal(0), "0");
    assert_eq!(format_decimal(7), "7");
    assert_eq!(format_decimal(10), "10");
    assert_eq!(format_decimal(99), "99");
    assert_eq!(format_decimal(100), "100");
    assert_eq!(format_decimal(1234567890), "1234567890");
}

#[test]
fn decimal_text_of_negative_numbers() {
    assert_eq!(format_decimal(-1), "-1");
    assert_eq!(format_decimal(-10), "-10");
    assert_eq!(format_decimal(-305), "-305");
}

#[test]
fn decimal_text_at_the_limits() {
    assert_eq!(format_decimal(i64::MAX), "9223372036854775807");
    assert_eq!(format_decimal(i64::MIN), "-9223372036854775808");
}

#[test]
fn decimal_text_agrees_with_std() {
    let mut n: i64 = 1;
    for _ in 0..18 {
        assert_eq!(format_decimal(n), n.to_string());
        assert_eq!(format_decimal(-n), (-n).to_string());
        assert_eq!(format_decimal(n - 1), (n - 1).to_string());
        n *= 10;
    }
}

#[test]
fn range_header_names_both_ends() {
    let range = ByteRange { index: 1, start_offset: 100, end_offset: 199 };
    assert_eq!(range_header(&range), "bytes=100-199");
    let first = ByteRange { index: 0, start_offset: 0, end_offset: 0 };
    assert_eq!(range_header(&first), "bytes=0-0");
}

#[test]
fn range_header_of_an_empty_range() {
    let range = ByteRange { index: 4, start_offset: 0, end_offset: -1 };
    assert_eq!(range_header(&range), "bytes=0--1");
}

#[test]
fn part_file_name_appends_the_index() {
    assert_eq!(part_file_name("archive.zip", 0), "archive.zip.0");
    assert_eq!(part_file_name("archive.zip", 3), "archive.zip.3");
    assert_eq!(part_file_name("data", 12), "data.12");
    assert_eq!(part_file_name("", 7), ".7");
}

#[test]
fn part_file_names_are_in_index_order() {
    assert_eq!(part_file_names("a.bin", 3), vec!["a.bin.0", "a.bin.1", "a.bin.2"]);
    let names = part_file_names("movie.mkv", 12);
    assert_eq!(names.len(), 12);
    assert_eq!(names[9], "movie.mkv.9");
    assert_eq!(names[10], "movie.mkv.10");
    assert_eq!(names[11], "movie.mkv.11");
}

#[test]
fn part_file_names_of_no_parts() {
    assert!(part_file_names("a.bin", 0).is_empty());
    assert!(part_file_names("a.bin", -2).is_empty());
}

#[test]
fn one_task_for_each_range() {
    let ranges = plan_ranges(1000, 10).unwrap();
    let tasks = fetch_tasks("archive.zip", &ranges);
    assert_eq!(tasks.len(), 10);
    for (i, task) in tasks.iter().enumerate() {
        assert_eq!(task.range, ranges[i]);
        assert_eq!(task.range_header, format!("bytes={}-{}", 100 * i, 100 * i + 99));
        assert_eq!(task.part_file, format!("archive.zip.{}", i));
    }
}

#[test]
fn no_ranges_no_tasks() {
    assert!(fetch_tasks("archive.zip", &Vec::new()).is_empty());
}

#[test]
fn task_clone_keeps_every_field() {
    let ranges = plan_ranges(30, 3).unwrap();
    let tasks = fetch_tasks("f", &ranges);
    let copy = tasks[2].clone();
    assert_eq!(copy.range, tasks[2].range);
    assert_eq!(copy.range_header, "bytes=20-29");
    assert_eq!(copy.part_file, "f.2");
}
