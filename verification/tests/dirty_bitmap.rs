use vmm::dirty_bitmap::DirtyBitmap;

// ── Construction ────────────────────────────────────────────────────────

#[test]
fn test_new_all_clean() {
    let bm = DirtyBitmap::new(128);
    assert_eq!(bm.dirty_block_count(), 0);
    for i in 0..128 {
        assert!(!bm.is_set(i));
    }
}

#[test]
fn test_new_zero_blocks() {
    let bm = DirtyBitmap::new(0);
    assert_eq!(bm.dirty_block_count(), 0);
    assert_eq!(bm.num_blocks(), 0);
}

#[test]
fn test_num_blocks() {
    let bm = DirtyBitmap::new(100);
    assert_eq!(bm.num_blocks(), 100);
}

// ── set / is_set ────────────────────────────────────────────────────────

#[test]
fn test_set_and_is_set() {
    let mut bm = DirtyBitmap::new(64);
    bm.set(0);
    assert!(bm.is_set(0));
    bm.set(63);
    assert!(bm.is_set(63));
}

#[test]
fn test_set_is_idempotent() {
    let mut bm = DirtyBitmap::new(64);
    bm.set(5);
    bm.set(5);
    assert!(bm.is_set(5));
    assert_eq!(bm.dirty_block_count(), 1);
}

#[test]
fn test_set_does_not_affect_neighbours() {
    let mut bm = DirtyBitmap::new(128);
    bm.set(10);
    assert!(!bm.is_set(9));
    assert!(!bm.is_set(11));
}

// ── clear ───────────────────────────────────────────────────────────────

#[test]
fn test_clear_dirty_block() {
    let mut bm = DirtyBitmap::new(64);
    bm.set(7);
    bm.clear(7);
    assert!(!bm.is_set(7));
    assert_eq!(bm.dirty_block_count(), 0);
}

#[test]
fn test_clear_already_clean_is_noop() {
    let mut bm = DirtyBitmap::new(64);
    bm.clear(20); // no-op, should not panic
    assert!(!bm.is_set(20));
}

// ── clear_all ───────────────────────────────────────────────────────────

#[test]
fn test_clear_all() {
    let mut bm = DirtyBitmap::new(200);
    for i in (0..200).step_by(3) {
        bm.set(i);
    }
    assert!(bm.dirty_block_count() > 0);
    bm.clear_all();
    assert_eq!(bm.dirty_block_count(), 0);
    for i in 0..200 {
        assert!(!bm.is_set(i));
    }
}

// ── dirty_block_count ───────────────────────────────────────────────────

#[test]
fn test_dirty_block_count_increments() {
    let mut bm = DirtyBitmap::new(128);
    for i in 0..10 {
        bm.set(i);
        assert_eq!(bm.dirty_block_count(), i + 1);
    }
}

#[test]
fn test_dirty_block_count_full() {
    let mut bm = DirtyBitmap::new(64);
    for i in 0..64 {
        bm.set(i);
    }
    assert_eq!(bm.dirty_block_count(), 64);
}

// ── Word boundary edge cases ─────────────────────────────────────────────

#[test]
fn test_word_boundary_block_63() {
    let mut bm = DirtyBitmap::new(128);
    bm.set(63); // last bit of first word
    assert!(bm.is_set(63));
    assert!(!bm.is_set(62));
    assert!(!bm.is_set(64));
}

#[test]
fn test_word_boundary_block_64() {
    let mut bm = DirtyBitmap::new(128);
    bm.set(64); // first bit of second word
    assert!(bm.is_set(64));
    assert!(!bm.is_set(63));
    assert!(!bm.is_set(65));
}

#[test]
fn test_non_multiple_of_64_num_blocks() {
    // 65 blocks → 2 words, but word[1] has only bit 0 valid
    let mut bm = DirtyBitmap::new(65);
    bm.set(64);
    assert!(bm.is_set(64));
    assert_eq!(bm.dirty_block_count(), 1);
    bm.clear_all();
    assert_eq!(bm.dirty_block_count(), 0);
}

// ── iter_dirty ──────────────────────────────────────────────────────────

#[test]
fn test_iter_dirty_empty() {
    let bm = DirtyBitmap::new(64);
    assert_eq!(bm.iter_dirty().into_iter().count(), 0);
}

#[test]
fn test_iter_dirty_single() {
    let mut bm = DirtyBitmap::new(64);
    bm.set(42);
    let dirty: Vec<usize> = bm.iter_dirty();
    assert_eq!(dirty, vec![42]);
}

#[test]
fn test_iter_dirty_multiple() {
    let mut bm = DirtyBitmap::new(200);
    let expected = vec![0usize, 63, 64, 127, 128, 199];
    for &i in &expected {
        bm.set(i);
    }
    let dirty: Vec<usize> = bm.iter_dirty();
    assert_eq!(dirty, expected);
}

#[test]
fn test_iter_dirty_excludes_padding_bits() {
    // 65 blocks: word[1] has 63 padding bits that must not appear.
    let mut bm = DirtyBitmap::new(65);
    bm.set(64);
    let dirty: Vec<usize> = bm.iter_dirty();
    assert_eq!(dirty, vec![64]);
}

#[test]
fn test_iter_dirty_count_matches_dirty_block_count() {
    let mut bm = DirtyBitmap::new(256);
    for i in (0..256).step_by(7) {
        bm.set(i);
    }
    assert_eq!(bm.iter_dirty().into_iter().count(), bm.dirty_block_count());
}

// ── Clone ───────────────────────────────────────────────────────────────

#[test]
fn test_clone_is_independent() {
    let mut bm = DirtyBitmap::new(64);
    bm.set(1);
    let mut clone = bm.clone();
    clone.set(2);
    // Original should not see the clone's write.
    assert!(!bm.is_set(2));
    assert_eq!(bm.dirty_block_count(), 1);
    assert_eq!(clone.dirty_block_count(), 2);
}
