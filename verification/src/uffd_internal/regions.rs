//! Guest memory regions: host addresses, file offsets and pages.
use vstd::arithmetic::power2::{lemma_pow2_pos, pow2};
use vstd::bits::{lemma_u64_low_bits_mask_is_mod, low_bits_mask};
use vstd::prelude::*;

verus! {

/// A region of guest memory that faults are served for.
#[derive(Debug, Clone, Copy, PartialEq, Eq, Structural)]
pub struct GuestRegionUffdMapping {
    /// Where the region starts in the address space of the process.
    pub base_host_virt_addr: u64,
    /// Its size in bytes.
    pub size: usize,
    /// Where it starts in the snapshot file.
    pub offset: u64,
    /// Bytes per page.
    pub page_size: usize,
    /// The same, under its old name.
    pub page_size_kib: usize,
}

impl GuestRegionUffdMapping {
    /// Addresses and offsets in the region fit in 64 bits.
    pub open spec fn wf(&self) -> bool {
        &&& self.base_host_virt_addr + self.size <= u64::MAX
        &&& self.offset + self.size <= u64::MAX
    }

    /// The region holds the host address `addr`.
    pub open spec fn holds_addr(&self, addr: u64) -> bool {
        self.base_host_virt_addr <= addr < self.base_host_virt_addr + self.size
    }

    /// The region holds the file offset `offset`.
    pub open spec fn holds_offset(&self, offset: u64) -> bool {
        self.offset <= offset < self.offset + self.size
    }

    /// The file offset of the host address `addr`.
    pub open spec fn file_offset(&self, addr: u64) -> u64 {
        (self.offset + (addr - self.base_host_virt_addr)) as u64
    }
}

/// All regions are well-formed.
pub open spec fn regions_wf(regions: Seq<GuestRegionUffdMapping>) -> bool {
    forall|i: int| 0 <= i < regions.len() ==> (#[trigger] regions[i]).wf()
}

/// The first region that holds the host address `addr`.
pub open spec fn region_at_addr(regions: Seq<GuestRegionUffdMapping>, addr: u64) -> Option<
    GuestRegionUffdMapping,
>
    decreases regions.len(),
{
    if regions.len() == 0 {
        None
    } else if regions[0].holds_addr(addr) {
        Some(regions[0])
    } else {
        region_at_addr(regions.skip(1), addr)
    }
}

/// The first region that holds the file offset `offset`.
pub open spec fn region_at_offset(regions: Seq<GuestRegionUffdMapping>, offset: u64) -> Option<
    GuestRegionUffdMapping,
>
    decreases regions.len(),
{
    if regions.len() == 0 {
        None
    } else if regions[0].holds_offset(offset) {
        Some(regions[0])
    } else {
        region_at_offset(regions.skip(1), offset)
    }
}

/// The page that `addr` lies in, where the page size is a power of two.
pub open spec fn page_base_of(addr: u64, page_size: usize) -> u64 {
    addr & !((page_size - 1) as u64)
}

/// The page that `addr` lies in.
pub fn page_base(addr: u64, page_size: usize) -> (base: u64)
    requires
        page_size > 0,
    ensures
        base == page_base_of(addr, page_size),
        base <= addr,
{
    let mask = page_size as u64 - 1;
    assert(addr & !mask <= addr) by (bit_vector);
    addr & !mask
}

/// A page starts at or below each of its addresses, less than a page away, and its
/// start has none of the bits of the page mask.
pub proof fn law_page_base(addr: u64, page_size: usize)
    requires
        page_size > 0,
    ensures
        page_base_of(addr, page_size) <= addr,
        addr - page_base_of(addr, page_size) < page_size,
        page_base_of(addr, page_size) & ((page_size - 1) as u64) == 0,
        page_base_of(page_base_of(addr, page_size), page_size) == page_base_of(addr, page_size),
{
    let mask = (page_size - 1) as u64;
    assert(addr & !mask <= addr && addr - (addr & !mask) <= mask && (addr & !mask) & mask == 0
        && (addr & !mask) & !mask == addr & !mask) by (bit_vector);
}

/// The first region that holds the host address `addr`.
pub fn find_by_addr(regions: &[GuestRegionUffdMapping], addr: u64) -> (r: Option<
    GuestRegionUffdMapping,
>)
    requires
        regions_wf(regions@),
    ensures
        r == region_at_addr(regions@, addr),
        r is Some ==> r->0.wf() && r->0.holds_addr(addr),
{
    let mut i: usize = 0;
    assert(regions@.skip(0) =~= regions@);
    while i < regions.len()
        invariant
            i <= regions@.len(),
            regions_wf(regions@),
            region_at_addr(regions@, addr) == region_at_addr(regions@.skip(i as int), addr),
        decreases regions@.len() - i,
    {
        let region = regions[i];
        assert(region.wf());
        if addr >= region.base_host_virt_addr && addr < region.base_host_virt_addr
            + region.size as u64 {
            return Some(region);
        }
        assert(regions@.skip(i as int).skip(1) =~= regions@.skip(i + 1));
        i += 1;
    }
    None
}

/// The first region that holds the file offset `offset`.
pub fn find_by_offset(regions: &[GuestRegionUffdMapping], offset: u64) -> (r: Option<
    GuestRegionUffdMapping,
>)
    requires
        regions_wf(regions@),
    ensures
        r == region_at_offset(regions@, offset),
        r is Some ==> r->0.wf() && r->0.holds_offset(offset),
{
    let mut i: usize = 0;
    assert(regions@.skip(0) =~= regions@);
    while i < regions.len()
        invariant
            i <= regions@.len(),
            regions_wf(regions@),
            region_at_offset(regions@, offset) == region_at_offset(
                regions@.skip(i as int),
                offset,
            ),
        decreases regions@.len() - i,
    {
        let region = regions[i];
        assert(region.wf());
        if offset >= region.offset && offset < region.offset + region.size as u64 {
            return Some(region);
        }
        assert(regions@.skip(i as int).skip(1) =~= regions@.skip(i + 1));
        i += 1;
    }
    None
}

/// The size of the first `n` regions.
pub open spec fn sizes_below(regions: Seq<(u64, usize)>, n: int) -> int
    decreases n,
{
    if n <= 0 {
        0
    } else {
        sizes_below(regions, n - 1) + regions[n - 1].1
    }
}

/// The mappings of regions given by host address and size: in the snapshot file they
/// follow one another without gaps.
pub open spec fn laid_out(regions: Seq<(u64, usize)>, page_size: usize) -> Seq<
    GuestRegionUffdMapping,
> {
    Seq::new(
        regions.len(),
        |i: int|
            GuestRegionUffdMapping {
                base_host_virt_addr: regions[i].0,
                size: regions[i].1,
                offset: sizes_below(regions, i) as u64,
                page_size,
                page_size_kib: page_size,
            },
    )
}

/// A prefix of the regions is no larger than all of them.
proof fn lemma_sizes_grow(regions: Seq<(u64, usize)>, i: int, n: int)
    requires
        0 <= i <= n,
    ensures
        0 <= sizes_below(regions, i) <= sizes_below(regions, n),
    decreases n,
{
    if i < n {
        lemma_sizes_grow(regions, i, n - 1);
    } else if i > 0 {
        lemma_sizes_grow(regions, i - 1, n - 1);
    }
}

/// Regions that lie in the 64-bit addresses and fit the 64-bit offsets together are laid
/// out well-formed.
pub proof fn lemma_laid_out_wf(regions: Seq<(u64, usize)>, page_size: usize)
    requires
        sizes_below(regions, regions.len() as int) <= u64::MAX,
        forall|i: int|
            0 <= i < regions.len() ==> (#[trigger] regions[i]).0 + regions[i].1 <= u64::MAX,
    ensures
        regions_wf(laid_out(regions, page_size)),
{
    let all = laid_out(regions, page_size);
    assert forall|i: int| 0 <= i < all.len() implies (#[trigger] all[i]).wf() by {
        assert(regions[i].0 + regions[i].1 <= u64::MAX);
        lemma_sizes_grow(regions, i + 1, regions.len() as int);
        lemma_sizes_grow(regions, i, i);
    }
}

/// The mappings of `regions`, given by host address and size.
pub fn layout_regions(regions: &[(u64, usize)], page_size: usize) -> (mappings: Vec<
    GuestRegionUffdMapping,
>)
    requires
        sizes_below(regions@, regions@.len() as int) <= u64::MAX,
    ensures
        mappings@ == laid_out(regions@, page_size),
{
    let mut mappings: Vec<GuestRegionUffdMapping> = Vec::new();
    let mut offset: u64 = 0;
    let mut i: usize = 0;
    while i < regions.len()
        invariant
            i <= regions@.len(),
            sizes_below(regions@, regions@.len() as int) <= u64::MAX,
            offset == sizes_below(regions@, i as int),
            mappings@ =~= laid_out(regions@, page_size).take(i as int),
        decreases regions@.len() - i,
    {
        let (addr, size) = regions[i];
        proof {
            lemma_sizes_grow(regions@, i + 1, regions@.len() as int);
        }
        mappings.push(
            GuestRegionUffdMapping {
                base_host_virt_addr: addr,
                size,
                offset,
                page_size,
                page_size_kib: page_size,
            },
        );
        offset = offset + size as u64;
        i += 1;
    }
    mappings
}

/// Every byte of the regions has its own place in the snapshot file: the file offset
/// of an address leads back to its region, and to the address.
pub proof fn law_layout_is_one_to_one(
    regions: Seq<(u64, usize)>,
    page_size: usize,
    i: int,
    addr: u64,
)
    requires
        0 <= i < regions.len(),
        sizes_below(regions, regions.len() as int) <= u64::MAX,
        laid_out(regions, page_size)[i].holds_addr(addr),
    ensures
        ({
            let region = laid_out(regions, page_size)[i];
            let offset = region.file_offset(addr);
            &&& region_at_offset(laid_out(regions, page_size), offset) == Some(region)
            &&& region.base_host_virt_addr + (offset - region.offset) == addr
        }),
{
    let all = laid_out(regions, page_size);
    let offset = all[i].file_offset(addr);
    lemma_sizes_grow(regions, i + 1, regions.len() as int);
    lemma_sizes_grow(regions, i, i);
    lemma_offset_found(regions, page_size, 0, i, offset);
    assert(all.skip(0) =~= all);
}

proof fn lemma_offset_found(
    regions: Seq<(u64, usize)>,
    page_size: usize,
    k: int,
    i: int,
    offset: u64,
)
    requires
        0 <= k <= i < regions.len(),
        sizes_below(regions, regions.len() as int) <= u64::MAX,
        laid_out(regions, page_size)[i].holds_offset(offset),
    ensures
        region_at_offset(laid_out(regions, page_size).skip(k), offset) == Some(
            laid_out(regions, page_size)[i],
        ),
    decreases i - k,
{
    let all = laid_out(regions, page_size);
    if k < i {
        lemma_sizes_grow(regions, k + 1, i);
        lemma_sizes_grow(regions, i, regions.len() as int);
        lemma_sizes_grow(regions, k, k);
        assert(!all[k].holds_offset(offset));
        assert(all.skip(k).skip(1) =~= all.skip(k + 1));
        lemma_offset_found(regions, page_size, k + 1, i, offset);
    }
}

/// A page whose size is a power of two starts at the largest multiple of the size that is
/// not above the address.
pub proof fn law_page_base_is_multiple(addr: u64, page_size: usize, k: nat)
    requires
        k < 64,
        page_size == pow2(k),
    ensures
        page_base_of(addr, page_size) == addr - addr % (page_size as u64),
        page_base_of(addr, page_size) % (page_size as u64) == 0,
{
    let size = page_size as u64;
    let mask = (size - 1) as u64;
    lemma_u64_low_bits_mask_is_mod(addr, k);
    lemma_pow2_pos(k);
    assert(low_bits_mask(k) == size - 1) by {
        reveal(low_bits_mask);
    }
    assert(addr & mask == addr % size);
    assert(addr & !mask == addr - (addr & mask)) by (bit_vector);
    let (a, p) = (addr as int, size as int);
    assert((a - a % p) % p == 0) by (nonlinear_arith)
        requires
            p > 0,
    ;
}

/// The region of an address is the first that starts at or below it and ends above it, and
/// there is none only if no region does.
pub proof fn law_region_at_addr(regions: Seq<GuestRegionUffdMapping>, addr: u64, i: int)
    requires
        0 <= i < regions.len(),
    ensures
        ({
            let r = region_at_addr(regions, addr);
            let within = |j: int|
                regions[j].base_host_virt_addr <= addr < regions[j].base_host_virt_addr
                    + regions[j].size;
            &&& within(i) ==> r is Some
            &&& within(i) && (forall|j: int| 0 <= j < i ==> !#[trigger] within(j)) ==> r == Some(
                regions[i],
            )
            &&& (forall|j: int| 0 <= j < regions.len() ==> !#[trigger] within(j)) ==> r is None
        }),
    decreases regions.len(),
{
    let within = |j: int|
        regions[j].base_host_virt_addr <= addr < regions[j].base_host_virt_addr + regions[j].size;
    if !regions[0].holds_addr(addr) {
        let rest = regions.skip(1);
        let inner = |j: int|
            rest[j].base_host_virt_addr <= addr < rest[j].base_host_virt_addr + rest[j].size;
        assert(forall|j: int| 0 <= j < rest.len() ==> #[trigger] rest[j] == regions[j + 1]);
        assert(forall|j: int| 0 <= j < rest.len() ==> #[trigger] inner(j) == within(j + 1));
        if i > 0 {
            law_region_at_addr(rest, addr, i - 1);
        } else if rest.len() > 0 {
            law_region_at_addr(rest, addr, 0);
        }
    } else {
        assert(within(0));
    }
}

/// The region of a file offset is the first that starts at or below it in the file and ends
/// above it, and there is none only if no region does.
pub proof fn law_region_at_offset(regions: Seq<GuestRegionUffdMapping>, offset: u64, i: int)
    requires
        0 <= i < regions.len(),
    ensures
        ({
            let r = region_at_offset(regions, offset);
            let within = |j: int|
                regions[j].offset <= offset < regions[j].offset + regions[j].size;
            &&& within(i) ==> r is Some
            &&& within(i) && (forall|j: int| 0 <= j < i ==> !#[trigger] within(j)) ==> r == Some(
                regions[i],
            )
            &&& (forall|j: int| 0 <= j < regions.len() ==> !#[trigger] within(j)) ==> r is None
        }),
    decreases regions.len(),
{
    let within = |j: int| regions[j].offset <= offset < regions[j].offset + regions[j].size;
    if !regions[0].holds_offset(offset) {
        let rest = regions.skip(1);
        let inner = |j: int| rest[j].offset <= offset < rest[j].offset + rest[j].size;
        assert(forall|j: int| 0 <= j < rest.len() ==> #[trigger] rest[j] == regions[j + 1]);
        assert(forall|j: int| 0 <= j < rest.len() ==> #[trigger] inner(j) == within(j + 1));
        if i > 0 {
            law_region_at_offset(rest, offset, i - 1);
        } else if rest.len() > 0 {
            law_region_at_offset(rest, offset, 0);
        }
    } else {
        assert(within(0));
    }
}

/// The mappings keep address, size and page size of the regions. In the file the first
/// starts at zero and each other where the one before it ends.
pub proof fn law_layout_has_no_gaps(regions: Seq<(u64, usize)>, page_size: usize, i: int)
    requires
        0 <= i < regions.len(),
        sizes_below(regions, regions.len() as int) <= u64::MAX,
    ensures
        ({
            let all = laid_out(regions, page_size);
            &&& all.len() == regions.len()
            &&& all[i].base_host_virt_addr == regions[i].0
            &&& all[i].size == regions[i].1
            &&& all[i].page_size == page_size
            &&& all[i].page_size_kib == page_size
            &&& all[0].offset == 0
            &&& i > 0 ==> all[i].offset == all[i - 1].offset + all[i - 1].size
        }),
{
    lemma_sizes_grow(regions, i, regions.len() as int);
    if i > 0 {
        lemma_sizes_grow(regions, i - 1, regions.len() as int);
    }
}

/// The sizes of the first regions add up one by one.
pub proof fn law_sizes_add_up(regions: Seq<(u64, usize)>, n: int)
    requires
        0 <= n < regions.len(),
    ensures
        sizes_below(regions, 0) == 0,
        sizes_below(regions, n + 1) - sizes_below(regions, n) == regions[n].1,
{
}

} // verus!
