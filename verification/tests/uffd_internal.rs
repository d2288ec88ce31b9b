use vmm::sparse::SeekRequest;
use vmm::uffd_internal::config::{config_from_paths, prefetch_offsets};
use vmm::uffd_internal::presence::{Backing, Layer, PresenceBitmap, PresenceScan};
use vmm::uffd_internal::regions::{
    find_by_addr, find_by_offset, layout_regions, page_base, GuestRegionUffdMapping,
};
use vmm::uffd_internal::serve::{
    prefetch_outcome, record_fault, remove_action, serve_outcome, CopyRequest, CopyResult, Memory,
    PrefetchOutcome, RemoveAction, ServeOutcome,
};
use vmm::uffd_internal::stats::{Stats, StatsSnapshot};
use vmm::uffd_internal::trace::{load_prefetch_offsets, Recorder};

#[test]
fn presence_bitmap_set_and_query() {
    let mut pm = PresenceBitmap::with_pages(130);
    for i in 0..130 {
        assert!(!pm.is_set(i));
    }
    pm.set(0);
    pm.set(65);
    pm.set(129);
    assert!(pm.is_set(0) && pm.is_set(65) && pm.is_set(129));
    assert!(!pm.is_set(1) && !pm.is_set(64) && !pm.is_set(128));
}

/// Answer the questions of a scan of a file with these data extents.
fn scan(size: u64, page_size: usize, extents: &[(i64, i64)]) -> PresenceBitmap {
    let mut scan = PresenceScan::new(size, page_size);
    loop {
        let answer = match scan.next() {
            SeekRequest::Data(off) => extents
                .iter()
                .find(|(_, end)| *end > off)
                .map(|(start, _)| off.max(*start))
                .unwrap_or(-1),
            SeekRequest::Hole(off) => extents
                .iter()
                .find(|(start, end)| *start <= off && off < *end)
                .map(|(_, end)| *end)
                .unwrap_or(-1),
            SeekRequest::Done => return scan.finish(),
        };
        scan.answer(answer);
    }
}

#[test]
fn scan_present_pages_marks_data_pages_not_holes() {
    let ps = 4096usize;
    // Data in pages 0 and 2; pages 1 and 3 are holes.
    let pm = scan((4 * ps) as u64, ps, &[(0, 4096), (8192, 12288)]);
    assert!(pm.is_set(0), "page 0 has data");
    assert!(!pm.is_set(1), "page 1 is a hole: must fall through to base");
    assert!(pm.is_set(2), "page 2 has data");
    assert!(!pm.is_set(3), "page 3 is a hole: must fall through to base");
}

#[test]
fn a_page_with_some_data_is_present() {
    let pm = scan(4 * 4096, 4096, &[(5000, 8193)]);
    assert!(!pm.is_set(0));
    assert!(pm.is_set(1));
    assert!(pm.is_set(2));
    assert!(!pm.is_set(3));
}

#[test]
fn data_without_a_next_hole_runs_to_the_end() {
    let mut scan = PresenceScan::new(3 * 4096 + 1, 4096);
    assert_eq!(scan.next(), SeekRequest::Data(0));
    scan.answer(4096);
    assert_eq!(scan.next(), SeekRequest::Hole(4096));
    scan.answer(-1);
    assert_eq!(scan.next(), SeekRequest::Done);
    let pm = scan.finish();
    assert!(!pm.is_set(0));
    assert!(pm.is_set(1) && pm.is_set(2) && pm.is_set(3));
    assert!(!pm.is_set(4));
    assert_eq!(PresenceScan::new(0, 4096).next(), SeekRequest::Done);
}

#[test]
fn recorder_writes_one_line_per_unique_offset_in_first_touch_order() {
    let mut contents = Vec::new();
    let mut r = Recorder::new();
    assert!(r.record(4096, &mut contents));
    assert!(r.record(8192, &mut contents));
    assert!(!r.record(4096, &mut contents));
    assert!(r.record(12288, &mut contents));
    assert!(!r.record(8192, &mut contents));
    assert_eq!(String::from_utf8(contents).unwrap(), "4096\n8192\n12288\n");
}

#[test]
fn load_prefetch_offsets_skips_blank_comment_and_misaligned() {
    let log = "# header comment\n\n0\n4096\n4097\n8192\n4096\nnot-a-number\n12288\n";
    let offsets = load_prefetch_offsets(log.as_bytes(), 4096);
    assert_eq!(offsets, vec![0, 4096, 8192, 12288]);
}

#[test]
fn load_prefetch_offsets_returns_empty_when_file_missing() {
    let cfg = config_from_paths(
        "mem.snap",
        None,
        Some("/nonexistent/path/that/does/not/exist.log"),
        None,
    );
    assert!(prefetch_offsets(&cfg, None, 4096).is_empty());
}

#[test]
fn access_log_lines_are_read_leniently() {
    let log = "  4096\t\r\n+8192\n\u{3000}12288\u{a0}\n-4096\n18446744073709551616\n0x1000\n4 096\n16384";
    assert_eq!(
        load_prefetch_offsets(log.as_bytes(), 4096),
        vec![4096, 8192, 12288, 16384]
    );
    // What follows a line that is not UTF-8 is not read.
    let mut bytes = b"4096\n".to_vec();
    bytes.extend_from_slice(&[0xFF, b'\n']);
    bytes.extend_from_slice(b"8192\n");
    assert_eq!(load_prefetch_offsets(&bytes, 4096), vec![4096]);
    assert_eq!(
        load_prefetch_offsets(b"18446744073709551615\n", 1),
        vec![u64::MAX]
    );
    assert!(load_prefetch_offsets(b"", 4096).is_empty());
}

#[test]
fn a_recorded_trace_replays() {
    let offsets = [0u64, 40960, 4096, u64::MAX - 4095, 8192];
    let mut log = Vec::new();
    let mut r = Recorder::new();
    for offset in offsets {
        r.record(offset, &mut log);
    }
    assert_eq!(load_prefetch_offsets(&log, 4096), offsets.to_vec());
    // Without its last lines it replays a prefix.
    let cut: Vec<u8> = log[..2 + 6].to_vec();
    assert_eq!(load_prefetch_offsets(&cut, 4096), vec![0, 40960]);
}

#[test]
fn recording_suppresses_prefetch() {
    let cfg = config_from_paths("s", Some("b"), Some("l"), Some("r"));
    assert!(prefetch_offsets(&cfg, Some(b"4096\n"), 4096).is_empty());
    let cfg = config_from_paths("s", Some("b"), Some("l"), None);
    assert_eq!(prefetch_offsets(&cfg, Some(b"4096\n"), 4096), vec![4096]);
    let cfg = config_from_paths("s", None, None, None);
    assert!(prefetch_offsets(&cfg, Some(b"4096\n"), 4096).is_empty());
}

#[test]
fn a_config_keeps_its_paths() {
    let cfg = config_from_paths("snap", Some("base"), Some("log"), Some("rec")).clone();
    assert_eq!(cfg.snapshot_path, "snap");
    assert_eq!(cfg.base_path.as_deref(), Some("base"));
    assert_eq!(cfg.access_log_path.as_deref(), Some("log"));
    assert_eq!(cfg.record_to.as_deref(), Some("rec"));
    let cfg = config_from_paths("snap", None, None, None);
    assert!(cfg.base_path.is_none() && cfg.access_log_path.is_none() && cfg.record_to.is_none());
}

fn mapping(base: u64, size: usize, offset: u64) -> GuestRegionUffdMapping {
    GuestRegionUffdMapping {
        base_host_virt_addr: base,
        size,
        offset,
        page_size: 4096,
        page_size_kib: 4096,
    }
}

#[test]
fn record_fault_skips_when_recorder_is_none() {
    // A call without a recorder must be a no-op even when the mappings table is empty.
    let mut stats = Stats::default();
    let mut log = Vec::new();
    record_fault(&mut None, &[], 4096, 0x1000, &mut stats, &mut log);
    assert_eq!(stats.recorded_offsets, 0);
    assert!(log.is_empty());
}

#[test]
fn record_fault_writes_file_offset_for_in_range_addr() {
    let mappings = vec![mapping(0x1000_0000, 0x4000, 0x2000)];
    let mut rec = Some(Recorder::new());
    let mut stats = Stats::default();
    let mut log = Vec::new();
    // Fault at virt 0x1000_1000: page-aligned to itself, in-region offset 0x1000, file
    // offset 0x2000 + 0x1000 = 0x3000.
    record_fault(&mut rec, &mappings, 4096, 0x1000_1000, &mut stats, &mut log);
    assert_eq!(String::from_utf8(log).unwrap(), "12288\n"); // 0x3000
    assert_eq!(stats.recorded_offsets, 1);
}

#[test]
fn record_fault_drops_addr_outside_any_region() {
    let mut rec = Some(Recorder::new());
    let mut stats = Stats::default();
    let mut log = Vec::new();
    record_fault(&mut rec, &[], 4096, 0x1000, &mut stats, &mut log);
    assert_eq!(String::from_utf8(log).unwrap(), "");
    assert_eq!(stats.recorded_offsets, 0);
}

#[test]
fn record_fault_counter_only_increments_on_new_offsets() {
    let mappings = vec![mapping(0x1000_0000, 0x4000, 0)];
    let mut rec = Some(Recorder::new());
    let mut stats = Stats::default();
    let mut log = Vec::new();
    record_fault(&mut rec, &mappings, 4096, 0x1000_0000, &mut stats, &mut log);
    record_fault(&mut rec, &mappings, 4096, 0x1000_0000, &mut stats, &mut log);
    record_fault(&mut rec, &mappings, 4096, 0x1000_1000, &mut stats, &mut log);
    assert_eq!(stats.recorded_offsets, 2);
}

#[test]
fn stats_are_copied_field_by_field() {
    let stats = Stats {
        faults_served: 1,
        faults_deferred: 2,
        faults_failed_transient: 3,
        prefetch_served: 4,
        prefetch_eexist: 5,
        prefetch_eagain: 6,
        prefetch_failed: 7,
        recorded_offsets: 8,
    };
    assert_eq!(
        stats.snapshot(),
        StatsSnapshot {
            faults_served: 1,
            faults_deferred: 2,
            faults_failed_transient: 3,
            prefetch_served: 4,
            prefetch_eexist: 5,
            prefetch_eagain: 6,
            prefetch_failed: 7,
            recorded_offsets: 8,
        }
    );
    assert_eq!(StatsSnapshot::default(), Stats::default().snapshot());
}

#[test]
fn pages_start_at_multiples_of_their_size() {
    assert_eq!(page_base(0x1234, 4096), 0x1000);
    assert_eq!(page_base(0x1000, 4096), 0x1000);
    assert_eq!(page_base(u64::MAX, 2 << 20), u64::MAX - (2 << 20) + 1);
}

#[test]
fn regions_follow_one_another_in_the_file() {
    let mappings = layout_regions(&[(0x7000, 0x3000), (0x1000, 0x2000)], 4096);
    assert_eq!(mappings, vec![mapping(0x7000, 0x3000, 0), mapping(0x1000, 0x2000, 0x3000)]);
    assert_eq!(find_by_addr(&mappings, 0x2fff), Some(mappings[1]));
    assert_eq!(find_by_addr(&mappings, 0x3000), None);
    assert_eq!(find_by_offset(&mappings, 0x2fff), Some(mappings[0]));
    assert_eq!(find_by_offset(&mappings, 0x3000), Some(mappings[1]));
    assert_eq!(find_by_offset(&mappings, 0x5000), None);
}

fn layered_memory() -> Memory {
    let mut present = PresenceBitmap::with_pages(5);
    present.set(3);
    Memory::new(
        layout_regions(&[(0x7000, 0x3000), (0x1000, 0x2000)], 4096),
        4096,
        Backing { present: Some(present) },
    )
}

#[test]
fn pages_come_from_the_overlay_or_the_base() {
    let memory = layered_memory();
    assert_eq!(
        memory.plan_fault(0x1234),
        Some(CopyRequest { layer: Layer::Overlay, src: 0x3000, dst: 0x1000, len: 4096 })
    );
    assert_eq!(
        memory.plan_fault(0x2fff),
        Some(CopyRequest { layer: Layer::Base, src: 0x4000, dst: 0x2000, len: 4096 })
    );
    assert_eq!(memory.plan_fault(0x3000), None);
    // Prefetching the offset of a fault copies the same page.
    assert_eq!(memory.plan_prefetch(0x3000), memory.plan_fault(0x1234));
    assert_eq!(memory.plan_prefetch(0x4000), memory.plan_fault(0x2fff));
    assert_eq!(memory.plan_prefetch(0x5000), None);

    // Without a base every page comes from the one file.
    let single = Memory::new(
        layout_regions(&[(0x7000, 0x3000)], 4096),
        4096,
        Backing { present: None },
    );
    assert_eq!(
        single.plan_fault(0x9fff),
        Some(CopyRequest { layer: Layer::Overlay, src: 0x2000, dst: 0x9000, len: 4096 })
    );
}

#[test]
fn a_page_without_a_presence_bit_has_no_known_layer() {
    // 65 pages of guest memory over an overlay file of one page.
    let mut present = PresenceBitmap::with_pages(1);
    present.set(0);
    let memory = Memory::new(
        layout_regions(&[(0, 65 * 4096)], 4096),
        4096,
        Backing { present: Some(present) },
    );
    let layer = |addr| memory.plan_fault(addr).unwrap().layer;
    assert_eq!(layer(0), Layer::Overlay);
    assert_eq!(layer(4096), Layer::Base);
    assert_eq!(layer(63 * 4096), Layer::Base);
    assert_eq!(layer(64 * 4096), Layer::Unknown);
    assert_eq!(memory.plan_prefetch(64 * 4096).unwrap().layer, Layer::Unknown);
}

#[test]
fn a_whole_scan_finds_the_pages_with_data() {
    // Data in [100, 200), [5000, 9000) and [20000, end of file).
    let mut scan = PresenceScan::new(6 * 4096, 4096);
    for (data, hole) in [(100, 200), (5000, 9000), (20000, -1)] {
        assert!(matches!(scan.next(), SeekRequest::Data(_)));
        scan.answer(data);
        assert_eq!(scan.next(), SeekRequest::Hole(data));
        scan.answer(hole);
    }
    assert_eq!(scan.next(), SeekRequest::Done);
    let present = scan.finish();
    let pages: Vec<usize> = (0..6).filter(|p| present.is_set(*p)).collect();
    assert_eq!(pages, vec![0, 1, 2, 4, 5]);
}

#[test]
fn copies_have_outcomes() {
    let eagain = (-11i32) as usize;
    assert_eq!(serve_outcome(CopyResult::Copied), ServeOutcome::Served);
    assert_eq!(serve_outcome(CopyResult::PartiallyCopied(0)), ServeOutcome::Deferred);
    assert_eq!(serve_outcome(CopyResult::PartiallyCopied(eagain)), ServeOutcome::Deferred);
    assert_eq!(
        serve_outcome(CopyResult::PartiallyCopied(2048)),
        ServeOutcome::FailedTransient
    );
    assert_eq!(serve_outcome(CopyResult::CopyFailed(17)), ServeOutcome::Served);
    assert_eq!(serve_outcome(CopyResult::CopyFailed(2)), ServeOutcome::FailedTransient);
    assert_eq!(serve_outcome(CopyResult::Failed), ServeOutcome::FailedTransient);

    assert_eq!(prefetch_outcome(CopyResult::Copied), PrefetchOutcome::Served);
    assert_eq!(prefetch_outcome(CopyResult::PartiallyCopied(0)), PrefetchOutcome::Eagain);
    assert_eq!(prefetch_outcome(CopyResult::PartiallyCopied(eagain)), PrefetchOutcome::Eagain);
    assert_eq!(prefetch_outcome(CopyResult::PartiallyCopied(1)), PrefetchOutcome::Failed);
    assert_eq!(prefetch_outcome(CopyResult::CopyFailed(17)), PrefetchOutcome::Eexist);
    assert_eq!(prefetch_outcome(CopyResult::CopyFailed(3)), PrefetchOutcome::Failed);
    assert_eq!(prefetch_outcome(CopyResult::Failed), PrefetchOutcome::Failed);
}

#[test]
fn only_whole_pages_are_unregistered() {
    assert_eq!(remove_action(0x2000, 0x2000, 4096), RemoveAction::Nothing);
    assert_eq!(remove_action(0x3000, 0x2000, 4096), RemoveAction::Nothing);
    assert_eq!(remove_action(0x2001, 0x3000, 4096), RemoveAction::Misaligned);
    assert_eq!(remove_action(0x2000, 0x3001, 4096), RemoveAction::Misaligned);
    assert_eq!(remove_action(0x2000, 0x5000, 4096), RemoveAction::Unregister(0x3000));
}
