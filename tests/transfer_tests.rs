use ps3_update_core::transfer::{
    accepts_byte_ranges, is_success_status, split_ranges, Stage, TransferEvent, TransferPlan,
    TransferStep,
};
use ps3_update_core::types::DownloadMode;

#[test]
fn split_ranges_even_parts() {
    assert_eq!(split_ranges(1000, 4), vec![(0, 249), (250, 499), (500, 749), (750, 999)]);
}

#[test]
fn split_ranges_fewer_bytes_than_parts() {
    let r = split_ranges(3, 10);
    assert!(r.len() < 10);
    assert_eq!(r, vec![(0, 0), (1, 1), (2, 2)]);
}

#[test]
fn split_ranges_last_part_takes_the_tail() {
    assert_eq!(split_ranges(10, 3), vec![(0, 2), (3, 5), (6, 9)]);
    assert_eq!(split_ranges(7, 1), vec![(0, 6)]);
    let r = split_ranges(1001, 4);
    let covered: u64 = r.iter().map(|(s, e)| e - s + 1).sum();
    assert_eq!(covered, 1001);
    assert_eq!(r.last().unwrap().1, 1000);
}

#[test]
fn range_support_header() {
    assert!(accepts_byte_ranges(Some("bytes")));
    assert!(accepts_byte_ranges(Some("Bytes")));
    assert!(accepts_byte_ranges(Some("none, BYTES")));
    assert!(!accepts_byte_ranges(Some("none")));
    assert!(!accepts_byte_ranges(None));
}

#[test]
fn success_statuses() {
    assert!(is_success_status(200));
    assert!(is_success_status(206));
    assert!(!is_success_status(404));
    assert!(!is_success_status(199));
    assert!(!is_success_status(300));
}

#[test]
fn direct_mode_fetches_whole_then_finishes() {
    let (mut plan, step) = TransferPlan::start(DownloadMode::Direct);
    assert_eq!(step, TransferStep::FetchWhole);
    assert_eq!(plan.on_event(TransferEvent::WholeDone { failed: true }), TransferStep::Finish { failed: true });
    assert_eq!(plan.stage, Stage::Done);
    assert_eq!(plan.on_event(TransferEvent::WholeDone { failed: false }), TransferStep::Idle);
}

#[test]
fn multipart_success_finishes_without_fallback() {
    let (mut plan, step) = TransferPlan::start(DownloadMode::MultiPart { num_parts: 4 });
    assert_eq!(step, TransferStep::Probe);
    let s = plan.on_event(TransferEvent::Probed { content_length: Some(1000), accepts_ranges: true });
    assert_eq!(s, TransferStep::FetchRanges { total: 1000 });
    assert_eq!(plan.on_event(TransferEvent::RangesDone { any_failed: false }), TransferStep::Finish { failed: false });
}

#[test]
fn multipart_failures_fall_back_to_direct() {
    let cases = [
        TransferEvent::Probed { content_length: None, accepts_ranges: true },
        TransferEvent::Probed { content_length: Some(0), accepts_ranges: true },
        TransferEvent::Probed { content_length: Some(10), accepts_ranges: false },
        TransferEvent::ProbeFailed,
    ];
    for probe in cases {
        let (mut plan, _) = TransferPlan::start(DownloadMode::MultiPart { num_parts: 4 });
        assert_eq!(plan.on_event(probe), TransferStep::FetchWhole);
        assert_eq!(plan.on_event(TransferEvent::WholeDone { failed: false }), TransferStep::Finish { failed: false });
    }
    let (mut plan, _) = TransferPlan::start(DownloadMode::MultiPart { num_parts: 0 });
    assert_eq!(plan.on_event(TransferEvent::Probed { content_length: Some(10), accepts_ranges: true }), TransferStep::FetchWhole);
}

#[test]
fn failed_part_falls_back_and_direct_outcome_is_final() {
    let (mut plan, _) = TransferPlan::start(DownloadMode::MultiPart { num_parts: 2 });
    plan.on_event(TransferEvent::Probed { content_length: Some(100), accepts_ranges: true });
    assert_eq!(plan.on_event(TransferEvent::RangesDone { any_failed: true }), TransferStep::FetchWhole);
    assert_eq!(plan.on_event(TransferEvent::WholeDone { failed: true }), TransferStep::Finish { failed: true });
}
