use vmm::io_error::ENXIO;
use vmm::sparse::{
    AllocatedExtents, DataExtents, FiemapExtent, Runs, SeekRequest, FIEMAP_EXTENT_LAST,
    FIEMAP_EXTENT_UNWRITTEN,
};

#[test]
fn adjacent_extents_merge_into_one_run() {
    let mut got = Vec::new();
    let mut runs = Runs { pending: None };
    runs.push(0, 1024, &mut got);
    runs.push(1024, 4096, &mut got);
    runs.push(8192, 12288, &mut got);
    runs.finish(&mut got);
    assert_eq!(got, vec![(0, 4096), (8192, 12288)]);
}

fn extent(fe_logical: u64, fe_length: u64, fe_flags: u32) -> FiemapExtent {
    FiemapExtent { fe_logical, fe_length, fe_flags }
}

#[test]
fn the_extent_map_reports_written_blocks_and_skips_holes_and_preallocation() {
    const BLOCK: u64 = 4096;
    // Blocks 1 and 5 are written, block 3 is preallocated but never written.
    let map = [
        extent(BLOCK, BLOCK, 0),
        extent(3 * BLOCK, BLOCK, FIEMAP_EXTENT_UNWRITTEN),
        extent(5 * BLOCK, BLOCK, FIEMAP_EXTENT_LAST),
    ];
    let mut walk = AllocatedExtents::new(8 * BLOCK);
    assert_eq!(walk.request(), (0, 8 * BLOCK));
    let mut got = Vec::new();
    assert!(walk.absorb(&map, &mut got));
    let mut blocks: Vec<u64> = got
        .iter()
        .flat_map(|&(s, e)| s / BLOCK..e.div_ceil(BLOCK))
        .collect();
    blocks.sort_unstable();
    blocks.dedup();
    assert_eq!(blocks, vec![1, 5]);
}

#[test]
fn the_extent_map_is_read_in_batches() {
    let mut walk = AllocatedExtents::new(100);
    let mut got = Vec::new();
    assert!(!walk.absorb(&[extent(0, 10, 0), extent(10, 10, 0)], &mut got));
    assert_eq!(walk.request(), (20, 80));
    // An extent that starts before the batch counts from its start; the run goes on.
    assert!(!walk.absorb(&[extent(15, 15, 0)], &mut got));
    assert_eq!(walk.request(), (30, 70));
    assert!(got.is_empty());
    assert!(walk.absorb(&[extent(40, 500, 0)], &mut got));
    assert_eq!(got, vec![(0, 30), (40, 100)]);
}

#[test]
fn the_runs_of_a_whole_walk_are_separated_and_cover_the_data() {
    let batches = [
        vec![extent(0, 4, 0), extent(4, 4, FIEMAP_EXTENT_UNWRITTEN), extent(8, 4, 0)],
        vec![extent(12, 2, 0), extent(20, 5, 0)],
        vec![extent(30, 5, 0), extent(35, 100, 0)],
    ];
    let mut walk = AllocatedExtents::new(50);
    let mut got = Vec::new();
    let mut done = false;
    for batch in &batches {
        assert!(!done);
        done = walk.absorb(batch, &mut got);
    }
    assert!(done);
    assert_eq!(got, vec![(0, 4), (8, 14), (20, 25), (30, 50)]);
}

#[test]
fn the_extent_map_ends_when_it_does_not_get_on() {
    let mut got = Vec::new();
    let mut walk = AllocatedExtents::new(100);
    assert!(walk.absorb(&[], &mut got));
    assert!(got.is_empty());
    let mut walk = AllocatedExtents::new(100);
    assert!(walk.absorb(&[extent(0, 0, 0)], &mut got));
    assert!(got.is_empty());
    let mut walk = AllocatedExtents::new(100);
    assert!(walk.absorb(&[extent(90, u64::MAX, 0)], &mut got));
    assert_eq!(got, vec![(90, 100)]);
}

#[test]
fn data_extents_are_walked_to_the_end() {
    let mut walk = DataExtents::new(100);
    assert_eq!(walk.request, SeekRequest::Data(0));
    assert_eq!(walk.answer(Ok(10)), Ok(None));
    assert_eq!(walk.request, SeekRequest::Hole(10));
    assert_eq!(walk.answer(Ok(20)), Ok(Some((10, 20))));
    assert_eq!(walk.request, SeekRequest::Data(20));
    assert_eq!(walk.answer(Ok(50)), Ok(None));
    assert_eq!(walk.answer(Ok(150)), Ok(Some((50, 100))));
    assert_eq!(walk.request, SeekRequest::Done);
    assert_eq!(DataExtents::new(0).request, SeekRequest::Done);
}

#[test]
fn a_whole_walk_gives_the_extents_cut_at_the_size() {
    let mut walk = DataExtents::new(100);
    let mut got = Vec::new();
    for (data, hole) in [(0, 10), (20, 40), (90, 400)] {
        assert_eq!(walk.answer(Ok(data)), Ok(None));
        got.extend(walk.answer(Ok(hole)).unwrap());
    }
    assert_eq!(walk.request, SeekRequest::Done);
    assert_eq!(got, vec![(0, 10), (20, 40), (90, 100)]);
}

#[test]
fn no_more_data_is_no_failure() {
    let mut walk = DataExtents::new(100);
    assert_eq!(walk.answer(Err(ENXIO)), Ok(None));
    assert_eq!(walk.request, SeekRequest::Done);
    let mut walk = DataExtents::new(100);
    assert_eq!(walk.answer(Err(5)), Err(5));
    assert_eq!(walk.request, SeekRequest::Done);
    // For a hole there is no such answer.
    let mut walk = DataExtents::new(100);
    assert_eq!(walk.answer(Ok(0)), Ok(None));
    assert_eq!(walk.answer(Err(ENXIO)), Err(ENXIO));
}

#[test]
fn data_past_the_size_is_no_extent() {
    let mut walk = DataExtents::new(100);
    assert_eq!(walk.answer(Ok(100)), Ok(None));
    assert_eq!(walk.answer(Ok(200)), Ok(None));
    assert_eq!(walk.request, SeekRequest::Done);
}
