use std::io::ErrorKind;
use wingman_core::ordered_pipeline::OrderedPipelineFaultV1;
use wingman_core::runner_ls::{
    format_local_time, human_size, listing_fault_outcome, listing_records, listing_sink_outcome, map_setup_fault,
    ListingCollectorV1, ListingEntryV1, ListingFailureV1, LocalTimeV1, FILE_ATTRIBUTE_ARCHIVE, FILE_ATTRIBUTE_HIDDEN,
    FILE_ATTRIBUTE_READONLY, FILE_ATTRIBUTE_REPARSE_POINT, FILE_ATTRIBUTE_SYSTEM,
};
use wingman_core::runner_readonly::ReadonlyExecutionErrorV1;
use wingman_core::text_stream::TextStreamWriteErrorV1;

fn file(name: &str, attributes: u32, size: u64) -> ListingEntryV1 {
    ListingEntryV1 {
        name: name.to_string(),
        attributes,
        directory: false,
        regular_file: true,
        size,
        modified: Ok("2024-03-05T07:08:09+02:00".to_string()),
    }
}

#[test]
fn human_sizes_use_binary_units() {
    assert_eq!(human_size(0), "0B");
    assert_eq!(human_size(1023), "1023B");
    assert_eq!(human_size(1024), "1.0KiB");
    assert_eq!(human_size(1536), "1.5KiB");
    assert_eq!(human_size(1_048_575), "1.0MiB");
    assert_eq!(human_size(5 * 1024 * 1024 * 1024), "5.0GiB");
    assert_eq!(human_size(u64::MAX), "16.0EiB");
}

#[test]
fn local_time_carries_its_offset() {
    let t = LocalTimeV1 { year: 2024, month: 3, day: 5, hour: 7, minute: 8, second: 9 };
    let minute: u64 = 600_000_000;
    assert_eq!(format_local_time(t, 0, 120 * minute), Ok("2024-03-05T07:08:09+02:00".to_string()));
    assert_eq!(format_local_time(t, 330 * minute, 0), Ok("2024-03-05T07:08:09-05:30".to_string()));
    assert_eq!(format_local_time(t, 5, 5), Ok("2024-03-05T07:08:09+00:00".to_string()));
    assert_eq!(format_local_time(t, 0, 1441 * minute), Err(ListingFailureV1::InvalidOffset));
}

#[test]
fn hidden_and_system_entries_need_all() {
    let mut plain = ListingCollectorV1::new(false);
    assert_eq!(plain.take_entry(file("a", FILE_ATTRIBUTE_HIDDEN, 1)), Ok(()));
    assert_eq!(plain.take_entry(file("b", FILE_ATTRIBUTE_SYSTEM, 1)), Ok(()));
    assert_eq!(plain.take_entry(file("c", FILE_ATTRIBUTE_ARCHIVE, 1)), Ok(()));
    let kept: Vec<String> = plain.into_entries().into_iter().map(|e| e.name).collect();
    assert_eq!(kept, vec!["c".to_string()]);

    let mut all = ListingCollectorV1::new(true);
    assert_eq!(all.take_entry(file("a", FILE_ATTRIBUTE_HIDDEN, 1)), Ok(()));
    assert_eq!(all.into_entries().len(), 1);
}

#[test]
fn long_lines_show_kind_attributes_size_and_time() {
    let mut dir = file("docs", FILE_ATTRIBUTE_READONLY, 0);
    dir.directory = true;
    dir.regular_file = false;
    let mut link = file("link", FILE_ATTRIBUTE_REPARSE_POINT, 7);
    link.regular_file = false;
    let entries = vec![file("big.bin", FILE_ATTRIBUTE_ARCHIVE, 2048), dir, link];
    let records = listing_records(entries, true, true).unwrap();
    let texts: Vec<&str> = records.iter().map(|r| r.text.as_str()).collect();
    assert_eq!(
        texts,
        vec![
            "- -A--- 2.0KiB 2024-03-05T07:08:09+02:00 big.bin",
            "d R---- - 2024-03-05T07:08:09+02:00 docs",
            "l ----- - 2024-03-05T07:08:09+02:00 link",
        ]
    );
    assert!(records.iter().all(|r| r.terminated));
}

#[test]
fn short_listing_is_names_and_a_failed_time_fails_long_listing() {
    let mut broken = file("b", 0, 1);
    broken.modified = Err(ListingFailureV1::TimeZoneConversion);
    let names = listing_records(vec![file("a", 0, 1), broken], false, false).unwrap();
    assert_eq!(names.iter().map(|r| r.text.as_str()).collect::<Vec<_>>(), vec!["a", "b"]);
    let mut broken = file("b", 0, 1);
    broken.modified = Err(ListingFailureV1::TimeZoneConversion);
    assert_eq!(
        listing_records(vec![file("a", 0, 1), broken], true, false).map(|v| v.len()),
        Err(ListingFailureV1::TimeZoneConversion)
    );
    assert_eq!(
        ListingFailureV1::TimeZoneConversion.diagnostic(),
        "wingman ls: last-write time zone conversion failed"
    );
}

#[test]
fn faults_after_listing_answer_as_documented() {
    assert_eq!(
        listing_fault_outcome(OrderedPipelineFaultV1::InvalidNumeric, false),
        Ok("wingman sort: invalid numeric data".to_string())
    );
    assert_eq!(
        listing_fault_outcome(OrderedPipelineFaultV1::Output { kind: ErrorKind::BrokenPipe }, true),
        Ok("wingman ls: redirection output failed and may be partial".to_string())
    );
    assert_eq!(
        listing_fault_outcome(OrderedPipelineFaultV1::Output { kind: ErrorKind::BrokenPipe }, false),
        Err(ReadonlyExecutionErrorV1::Output { kind: ErrorKind::BrokenPipe })
    );
    assert_eq!(
        listing_fault_outcome(OrderedPipelineFaultV1::Overflow, false),
        Err(ReadonlyExecutionErrorV1::Output { kind: ErrorKind::OutOfMemory })
    );
    assert_eq!(
        listing_fault_outcome(OrderedPipelineFaultV1::Unsupported, true),
        Err(ReadonlyExecutionErrorV1::UnsupportedPlan)
    );
    assert_eq!(map_setup_fault(OrderedPipelineFaultV1::SortResource), ReadonlyExecutionErrorV1::UnsupportedPlan);
    assert_eq!(
        listing_sink_outcome(TextStreamWriteErrorV1::Io { kind: ErrorKind::Other }, false),
        Err(ReadonlyExecutionErrorV1::Output { kind: ErrorKind::Other })
    );
}
