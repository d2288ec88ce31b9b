//! The bitset of dirty disk blocks.
use vstd::prelude::*;

use crate::bits::{bit_at, lemma_clear_bit, lemma_set_bit, lemma_zero_word, ones_below};

verus! {

/// A compact bitset tracking which disk blocks have been written.
///
/// Block `n` is bit `n % 64` of word `n / 64`. The bits past the last block are
/// padding and always clear. The view is one `bool` per block.
#[derive(Debug)]
pub struct DirtyBitmap {
    words: Vec<u64>,
    num_blocks: usize,
}

/// How many entries of `s` are set.
pub open spec fn count_dirty(s: Seq<bool>) -> nat
    decreases s.len(),
{
    if s.len() == 0 {
        0
    } else {
        count_dirty(s.drop_last()) + if s.last() {
            1nat
        } else {
            0nat
        }
    }
}

/// The indices of the set entries of `s`, in ascending order.
pub open spec fn dirty_indices(s: Seq<bool>) -> Seq<int>
    decreases s.len(),
{
    if s.len() == 0 {
        Seq::empty()
    } else if s.last() {
        dirty_indices(s.drop_last()).push(s.len() - 1)
    } else {
        dirty_indices(s.drop_last())
    }
}

/// Words that hold `n` bits.
pub open spec fn words_for(n: int) -> int {
    (n + 63) / 64
}

/// The machine indices `s` as integers.
pub open spec fn as_ints(s: Seq<usize>) -> Seq<int> {
    s.map_values(|x: usize| x as int)
}

/// No more entries are set than there are.
pub proof fn lemma_count_bounded(s: Seq<bool>)
    ensures
        count_dirty(s) <= s.len(),
    decreases s.len(),
{
    if s.len() > 0 {
        lemma_count_bounded(s.drop_last());
    }
}

/// A prefix has no more set entries than the whole.
pub proof fn lemma_count_prefix(s: Seq<bool>, k: int)
    requires
        0 <= k <= s.len(),
    ensures
        count_dirty(s.take(k)) <= count_dirty(s),
    decreases s.len() - k,
{
    if k == s.len() {
        assert(s.take(k) =~= s);
    } else {
        lemma_count_prefix(s, k + 1);
        assert(s.take(k + 1).drop_last() =~= s.take(k));
    }
}

/// Clean entries at the end do not count.
proof fn lemma_count_clean_tail(s: Seq<bool>, k: int)
    requires
        0 <= k <= s.len(),
        forall|i: int| k <= i < s.len() ==> !s[i],
    ensures
        count_dirty(s.take(k)) == count_dirty(s),
    decreases s.len() - k,
{
    if k == s.len() {
        assert(s.take(k) =~= s);
    } else {
        lemma_count_clean_tail(s, k + 1);
        assert(s.take(k + 1).drop_last() =~= s.take(k));
        assert(s.take(k + 1).last() == s[k]);
    }
}

/// The dirty indices are strictly ascending, name exactly the dirty blocks, and
/// are as many as the dirty count says.
pub proof fn law_dirty_indices(s: Seq<bool>)
    ensures
        dirty_indices(s).len() == count_dirty(s),
        forall|i: int, j: int|
            0 <= i < j < dirty_indices(s).len() ==> dirty_indices(s)[i] < dirty_indices(s)[j],
        forall|k: int|
            0 <= k < dirty_indices(s).len() ==> 0 <= #[trigger] dirty_indices(s)[k] < s.len()
                && s[dirty_indices(s)[k]],
        forall|b: int| 0 <= b < s.len() && #[trigger] s[b] ==> dirty_indices(s).contains(b),
    decreases s.len(),
{
    if s.len() > 0 {
        let t = s.drop_last();
        law_dirty_indices(t);
        let prev = dirty_indices(t);
        let now = dirty_indices(s);
        assert forall|b: int| 0 <= b < s.len() && #[trigger] s[b] implies now.contains(b) by {
            if b < t.len() {
                assert(t[b]);
                let k = prev.index_of(b);
                assert(now[k] == b);
            } else {
                assert(now[now.len() - 1] == b);
            }
        }
        assert forall|k: int| 0 <= k < now.len() implies 0 <= #[trigger] now[k] < s.len() && s[now[k]] by {
            if k < prev.len() {
                assert(now[k] == prev[k]);
                assert(t[prev[k]]);
            }
        }
    }
}

impl Clone for DirtyBitmap {
    fn clone(&self) -> (copy: Self)
        ensures
            copy@ == self@,
            self.wf() ==> copy.wf(),
    {
        let copy = Self { words: self.words.clone(), num_blocks: self.num_blocks };
        assert(copy.words@ =~= self.words@);
        copy
    }
}

impl View for DirtyBitmap {
    type V = Seq<bool>;

    closed spec fn view(&self) -> Seq<bool> {
        Seq::new(self.num_blocks as nat, |i: int| bit_at(self.words@[i / 64], i % 64))
    }
}

impl DirtyBitmap {
    /// There is a word for every block, and no padding bit is set.
    pub closed spec fn wf(&self) -> bool {
        &&& self.words@.len() == words_for(self.num_blocks as int)
        &&& forall|w: int, b: int|
            0 <= w < self.words@.len() && 0 <= b < 64 && w * 64 + b >= self.num_blocks
                ==> !#[trigger] bit_at(self.words@[w], b)
    }

    /// Create a bitmap for a disk with `num_blocks` blocks, all clean.
    pub fn new(num_blocks: usize) -> (bitmap: Self)
        ensures
            bitmap.wf(),
            bitmap@ == Seq::new(num_blocks as nat, |i: int| false),
    {
        let num_words = num_blocks / 64 + if num_blocks % 64 == 0 {
            0usize
        } else {
            1usize
        };
        let bitmap = Self { words: vec![0u64; num_words], num_blocks };
        proof {
            assert forall|i: int| !#[trigger] bit_at(0, i) by {
                lemma_zero_word(i);
            }
            assert(bitmap@ =~= Seq::new(num_blocks as nat, |i: int| false));
        }
        bitmap
    }

    /// Mark block `block_idx` as dirty.
    pub fn set(&mut self, block_idx: usize)
        requires
            old(self).wf(),
            block_idx < old(self)@.len(),
        ensures
            final(self).wf(),
            final(self)@ == old(self)@.update(block_idx as int, true),
    {
        let w = block_idx / 64;
        let b = (block_idx % 64) as u64;
        let word = self.words[w];
        self.words[w] = word | (1u64 << b);
        proof {
            assert forall|i: int| #[trigger] bit_at(word | (1u64 << b), i) == (bit_at(word, i) || i == b) by {
                lemma_set_bit(word, b, i);
            }
            assert(self@ =~= old(self)@.update(block_idx as int, true));
        }
    }

    /// Clear the dirty flag for block `block_idx`.
    pub fn clear(&mut self, block_idx: usize)
        requires
            old(self).wf(),
            block_idx < old(self)@.len(),
        ensures
            final(self).wf(),
            final(self)@ == old(self)@.update(block_idx as int, false),
    {
        let w = block_idx / 64;
        let b = (block_idx % 64) as u64;
        let word = self.words[w];
        self.words[w] = word & !(1u64 << b);
        proof {
            assert forall|i: int| #[trigger] bit_at(word & !(1u64 << b), i) == (bit_at(word, i) && i != b) by {
                lemma_clear_bit(word, b, i);
            }
            assert(self@ =~= old(self)@.update(block_idx as int, false));
        }
    }

    /// Mark all blocks as clean.
    pub fn clear_all(&mut self)
        requires
            old(self).wf(),
        ensures
            final(self).wf(),
            final(self)@ == Seq::new(old(self)@.len(), |i: int| false),
    {
        let mut i: usize = 0;
        while i < self.words.len()
            invariant
                i <= self.words@.len(),
                self.words@.len() == words_for(self.num_blocks as int),
                self.num_blocks == old(self).num_blocks,
                forall|j: int| 0 <= j < i ==> self.words@[j] == 0,
            decreases self.words@.len() - i,
        {
            self.words[i] = 0;
            i += 1;
        }
        proof {
            assert forall|i: int| !#[trigger] bit_at(0, i) by {
                lemma_zero_word(i);
            }
            assert(self@ =~= Seq::new(old(self)@.len(), |i: int| false));
        }
    }

    /// The number of dirty blocks.
    pub fn dirty_block_count(&self) -> (count: usize)
        requires
            self.wf(),
        ensures
            count == count_dirty(self@),
    {
        let ghost all = self.all_bits();
        proof {
            assert(all.take(self.num_blocks as int) =~= self@);
            assert(all.take(all.len() as int) =~= all);
            lemma_count_clean_tail(all, self.num_blocks as int);
            lemma_count_bounded(self@);
            assert(all.take(0) =~= Seq::<bool>::empty());
        }
        let mut total: usize = 0;
        let mut i: usize = 0;
        while i < self.words.len()
            invariant
                self.wf(),
                i <= self.words@.len(),
                all == self.all_bits(),
                total == count_dirty(all.take(64 * i)),
                count_dirty(all) == count_dirty(self@) <= self.num_blocks,
            decreases self.words@.len() - i,
        {
            let ones = self.words[i].count_ones() as usize;
            proof {
                self.lemma_count_word(i as int, 64);
                lemma_count_prefix(all, 64 * (i + 1));
            }
            total += ones;
            i += 1;
        }
        proof {
            assert(all.take(64 * i) =~= all);
        }
        total
    }

    /// Total number of blocks this bitmap covers.
    pub fn num_blocks(&self) -> (n: usize)
        ensures
            n == self@.len(),
    {
        self.num_blocks
    }

    /// The indices of all dirty blocks in ascending order.
    pub fn iter_dirty(&self) -> (indices: Vec<usize>)
        requires
            self.wf(),
        ensures
            as_ints(indices@) == dirty_indices(self@),
    {
        let mut indices: Vec<usize> = Vec::new();
        let mut block: usize = 0;
        while block < self.num_blocks
            invariant
                self.wf(),
                block <= self.num_blocks,
                as_ints(indices@) =~= dirty_indices(self@.take(block as int)),
            decreases self.num_blocks - block,
        {
            proof {
                assert(self@.take(block + 1).drop_last() =~= self@.take(block as int));
                assert(self@.take(block + 1).last() == self@[block as int]);
            }
            if self.is_set(block) {
                indices.push(block);
            }
            block += 1;
        }
        proof {
            assert(self@.take(block as int) =~= self@);
        }
        indices
    }

    /// Every stored bit, padding included.
    spec fn all_bits(&self) -> Seq<bool> {
        Seq::new((64 * self.words@.len()) as nat, |i: int| bit_at(self.words@[i / 64], i % 64))
    }

    proof fn lemma_count_word(&self, w: int, n: nat)
        requires
            0 <= w < self.words@.len(),
            n <= 64,
        ensures
            count_dirty(self.all_bits().take(64 * w + n)) == count_dirty(self.all_bits().take(64 * w))
                + ones_below(self.words@[w], n),
        decreases n,
    {
        if n > 0 {
            self.lemma_count_word(w, (n - 1) as nat);
            let s = self.all_bits().take(64 * w + n);
            assert(s.drop_last() =~= self.all_bits().take(64 * w + n - 1));
            assert((64 * w + n - 1) / 64 == w && (64 * w + n - 1) % 64 == n - 1);
        }
    }

    /// Returns `true` if block `block_idx` is dirty.
    pub fn is_set(&self, block_idx: usize) -> (dirty: bool)
        requires
            self.wf(),
            block_idx < self@.len(),
        ensures
            dirty == self@[block_idx as int],
    {
        (self.words[block_idx / 64] >> ((block_idx % 64) as u64)) & 1 == 1
    }
}

/// Setting a block makes it dirty and counts it once, however often it is set.
pub proof fn law_set_counts_once(s: Seq<bool>, i: int)
    requires
        0 <= i < s.len(),
    ensures
        count_dirty(s.update(i, true)) == count_dirty(s) + if s[i] {
            0int
        } else {
            1int
        },
        s.update(i, true).update(i, true) == s.update(i, true),
        forall|j: int| 0 <= j < s.len() && j != i ==> s.update(i, true)[j] == s[j],
    decreases s.len(),
{
    let t = s.update(i, true);
    assert(t.update(i, true) =~= t);
    if i == s.len() - 1 {
        assert(t.drop_last() =~= s.drop_last());
    } else {
        assert(t.drop_last() =~= s.drop_last().update(i, true));
        law_set_counts_once(s.drop_last(), i);
    }
}

/// Clearing a block undoes setting it, and counts it off once.
pub proof fn law_clear_undoes_set(s: Seq<bool>, i: int)
    requires
        0 <= i < s.len(),
    ensures
        s.update(i, true).update(i, false) == s.update(i, false),
        count_dirty(s.update(i, false)) == count_dirty(s) - if s[i] {
            1int
        } else {
            0int
        },
{
    let t = s.update(i, false);
    law_set_counts_once(t, i);
    assert(s.update(i, true).update(i, false) =~= t);
    if s[i] {
        assert(t.update(i, true) =~= s);
    } else {
        assert(t =~= s);
    }
}

/// The dirty count is the number of different blocks that are dirty.
pub proof fn law_count_is_cardinality(s: Seq<bool>)
    ensures
        Set::new(|i: int| 0 <= i < s.len() && s[i]).finite(),
        count_dirty(s) == Set::new(|i: int| 0 <= i < s.len() && s[i]).len(),
    decreases s.len(),
{
    let all = Set::new(|i: int| 0 <= i < s.len() && s[i]);
    if s.len() == 0 {
        assert(all =~= Set::empty());
    } else {
        let t = s.drop_last();
        let n = s.len() - 1;
        let front = Set::new(|i: int| 0 <= i < t.len() && t[i]);
        law_count_is_cardinality(t);
        if s.last() {
            assert(all =~= front.insert(n));
        } else {
            assert(all =~= front);
        }
    }
}

/// The words for `n` bits hold them all, and less than a word more.
pub proof fn law_words_hold_bits(n: int)
    requires
        0 <= n,
    ensures
        n <= 64 * words_for(n) < n + 64,
{
}

/// Machine indices stand for the same integers, in the same order.
pub proof fn law_as_ints(s: Seq<usize>, k: int)
    ensures
        as_ints(s).len() == s.len(),
        0 <= k < s.len() ==> as_ints(s)[k] == s[k],
{
}

} // verus!
