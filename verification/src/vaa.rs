//! Reservation of virtual address ranges.
//!
//! The allocator numbers the pages of the virtual address space, page `n`
//! being the one at address `n * PAGE_SIZE`, and lets an [`IdHander`] walk
//! upwards through those numbers. A reservation asks the hander to pass
//! over the pages up to the alignment asked for and over the pages of the
//! range, and to hand out the page after them, which ends the range and is
//! never part of one. So every reservation draws a page number, the ranges
//! lie apart, and their addresses rise. Nothing is ever given back.

use crate::id::{HanderView, Id, IdHander};
use crate::mem::VirtAddr;
use vstd::arithmetic::div_mod::{
    lemma_fundamental_div_mod,
    lemma_fundamental_div_mod_converse_mod,
    lemma_mod_multiples_basic,
    lemma_truncate_middle,
};
use vstd::arithmetic::power2::is_pow2;
use vstd::prelude::*;

verus! {

/// The size of a page in bytes.
pub const PAGE_SIZE: usize = 0x1000;

/// The least distance, in bytes, that has to lie between the start of the
/// range that the allocator hands out from and the HHDM offset: 8 TiB.
pub const MIN_MEM_SPAN: u64 = 0x800_0000_0000;

/// The ceiling of the allocator that stands in before the memory map is
/// known.
pub const UNINIT_MAX_PAGE: usize = 1000;

/// How many pages lie between two addresses of the alignment `alignment`
/// that follow each other: one where the alignment is a page or less.
pub open spec fn pages_per_alignment(alignment: int) -> int {
    if alignment <= PAGE_SIZE {
        1
    } else {
        alignment / (PAGE_SIZE as int)
    }
}

/// How many pages to pass over from page `page` to reach the first page at
/// or after it whose address is a multiple of `alignment`.
pub open spec fn pages_to_skip(page: int, alignment: int) -> int {
    let per = pages_per_alignment(alignment);
    if page % per == 0 {
        0
    } else {
        per - page % per
    }
}

/// Of two powers of two the smaller divides the larger.
proof fn lemma_pow2_divides(small: int, large: int)
    requires
        is_pow2(small),
        is_pow2(large),
        small <= large,
    ensures
        large % small == 0,
    decreases small,
{
    reveal(is_pow2);
    if small > 1 {
        lemma_pow2_divides(small / 2, large / 2);
        lemma_truncate_middle(large / 2, 2, small / 2);
    }
}

/// The size of a page is a power of two.
proof fn lemma_page_size_is_pow2()
    ensures
        is_pow2(PAGE_SIZE as int),
{
    reveal_with_fuel(is_pow2, 14);
}

/// An alignment above the page size is a whole number of pages, and one at
/// or below it divides the page size.
proof fn lemma_alignment_in_pages(alignment: int)
    requires
        is_pow2(alignment),
    ensures
        alignment > 0,
        pages_per_alignment(alignment) > 0,
        alignment > PAGE_SIZE ==> alignment == PAGE_SIZE * pages_per_alignment(alignment),
        alignment <= PAGE_SIZE ==> PAGE_SIZE as int == alignment * (PAGE_SIZE as int / alignment),
{
    let size = PAGE_SIZE as int;
    lemma_page_size_is_pow2();
    assert(alignment > 0) by {
        reveal(is_pow2);
    }
    if alignment <= size {
        lemma_pow2_divides(alignment, size);
        lemma_fundamental_div_mod(size, alignment);
    } else {
        lemma_pow2_divides(size, alignment);
        lemma_fundamental_div_mod(alignment, size);
    }
}

/// The page that `pages_to_skip` leads to lies at the alignment, and no
/// page before it from `page` on does.
pub proof fn lemma_pages_to_skip(page: int, alignment: int)
    requires
        0 <= page,
        is_pow2(alignment),
    ensures
        0 <= pages_to_skip(page, alignment) < pages_per_alignment(alignment),
        ((page + pages_to_skip(page, alignment)) * PAGE_SIZE) % alignment == 0,
        forall|fewer: int|
            0 <= fewer < pages_to_skip(page, alignment) ==> (#[trigger] ((page + fewer)
                * PAGE_SIZE)) % alignment != 0,
{
    let per = pages_per_alignment(alignment);
    let skip = pages_to_skip(page, alignment);
    let size = PAGE_SIZE as int;
    lemma_alignment_in_pages(alignment);
    if alignment <= size {
        let times = size / alignment;
        assert(page * size == (page * times) * alignment) by (nonlinear_arith)
            requires
                size == alignment * times,
        ;
        lemma_mod_multiples_basic(page * times, alignment);
    } else {
        let target = page + skip;
        let whole = page / per;
        let rest = page % per;
        lemma_fundamental_div_mod(page, per);
        assert(target % per == 0) by {
            if rest != 0 {
                assert(target == (whole + 1) * per) by (nonlinear_arith)
                    requires
                        page == per * whole + rest,
                        target == page + per - rest,
                ;
                lemma_mod_multiples_basic(whole + 1, per);
            }
        }
        lemma_truncate_middle(target, size, per);
        assert(target * size == size * target) by (nonlinear_arith);
        assert forall|fewer: int| 0 <= fewer < skip implies (#[trigger] ((page + fewer)
            * PAGE_SIZE)) % alignment != 0 by {
            let other = page + fewer;
            assert(other == whole * per + (rest + fewer)) by (nonlinear_arith)
                requires
                    page == per * whole + rest,
                    other == page + fewer,
            ;
            lemma_fundamental_div_mod_converse_mod(other, per, whole, rest + fewer);
            lemma_truncate_middle(other, size, per);
            assert(other * size == size * other) by (nonlinear_arith);
            assert(size * (other % per) != 0) by (nonlinear_arith)
                requires
                    size > 0,
                    other % per > 0,
            ;
        }
    }
}

/// Whether `value` is a power of two.
pub fn is_power_of_two(value: usize) -> (yes: bool)
    ensures
        yes == is_pow2(value as int),
{
    reveal(is_pow2);
    if value == 0 {
        return false;
    }
    let mut rest: usize = value;
    while rest % 2 == 0
        invariant
            rest > 0,
            is_pow2(rest as int) == is_pow2(value as int),
        decreases rest,
    {
        reveal(is_pow2);
        rest = rest / 2;
    }
    rest == 1
}

/// The number of pages to pass over from page `page` to reach the first
/// page at or after it that lies at the alignment `alignment`.
pub fn skip_to_alignment(page: usize, alignment: usize) -> (skip: usize)
    requires
        is_pow2(alignment as int),
    ensures
        skip == pages_to_skip(page as int, alignment as int),
{
    if alignment <= PAGE_SIZE {
        0
    } else {
        let per = alignment / PAGE_SIZE;
        let rest = page % per;
        if rest == 0 {
            0
        } else {
            per - rest
        }
    }
}

/// One entry of the memory map that the boot loader hands over: a region of
/// physical memory.
#[derive(Clone, Copy, Debug, PartialEq, Eq, Structural)]
pub struct MemoryMapEntry {
    /// The physical address at which the region starts.
    pub base: u64,
    /// The length of the region in bytes.
    pub length: u64,
}

/// The address at which the last region of a memory map ends, where the map
/// has a region and that address exists.
pub open spec fn spec_memory_map_end(mem_map: Seq<MemoryMapEntry>) -> Option<VirtAddr> {
    if mem_map.len() > 0 && mem_map.last().base + mem_map.last().length <= usize::MAX {
        Some(VirtAddr((mem_map.last().base + mem_map.last().length) as usize))
    } else {
        None
    }
}

/// The address at which the last region of `mem_map` ends. There is none
/// for an empty map, nor where the end lies beyond the largest address.
pub fn memory_map_end(mem_map: &[MemoryMapEntry]) -> (end: Option<VirtAddr>)
    ensures
        end == spec_memory_map_end(mem_map@),
{
    let count = mem_map.len();
    if count == 0 {
        return None;
    }
    let last = mem_map[count - 1];
    if last.length > u64::MAX - last.base {
        return None;
    }
    let end: u64 = last.base + last.length;
    if end > usize::MAX as u64 {
        return None;
    }
    Some(VirtAddr(end as usize))
}

/// A range of virtual addresses that a reservation has handed out.
pub struct Reservation {
    /// The address of the first page.
    pub start: int,
    /// The number of pages.
    pub pages: int,
    /// The alignment that was asked for.
    pub alignment: int,
}

impl Reservation {
    /// The address after the last byte of the range.
    pub open spec fn end(self) -> int {
        self.start + self.pages * PAGE_SIZE
    }
}

/// A request for a reservation: how many pages, and at which alignment.
pub struct Request {
    pub count: usize,
    pub alignment: usize,
}

/// The number of the first page of a reservation at the alignment
/// `alignment`, where `pages` is the state of the page numbers.
pub open spec fn first_page_of(pages: HanderView, alignment: usize) -> int {
    pages.next + pages_to_skip(pages.next, alignment as int)
}

/// Whether a reservation of `count` pages at the alignment `alignment` can
/// be served: the alignment is a power of two, the hander can pass over the
/// pages up to the alignment and those of the range and still hand one
/// out, and the range lies within the address space.
pub open spec fn can_reserve(pages: HanderView, count: usize, alignment: usize) -> bool {
    &&& is_pow2(alignment as int)
    &&& first_page_of(pages, alignment) + count <= pages.max
    &&& first_page_of(pages, alignment) <= usize::MAX / PAGE_SIZE
    &&& first_page_of(pages, alignment) + count <= usize::MAX / PAGE_SIZE + 1
}

/// The page numbers after a reservation that was served: the page after
/// the range was handed out to end it, and the next free page is the one
/// after that.
pub open spec fn after_reserve(pages: HanderView, count: usize, alignment: usize) -> HanderView {
    HanderView { next: first_page_of(pages, alignment) + count + 1, max: pages.max }
}

/// The ranges that a run of requests hands out, in the order of the
/// requests. A request that cannot be served hands out nothing and changes
/// nothing.
pub open spec fn reserved(pages: HanderView, requests: Seq<Request>) -> Seq<Reservation>
    decreases requests.len(),
{
    if requests.len() == 0 {
        Seq::empty()
    } else {
        let first = requests[0];
        let rest = requests.subrange(1, requests.len() as int);
        if can_reserve(pages, first.count, first.alignment) {
            seq![
                Reservation {
                    start: first_page_of(pages, first.alignment) * PAGE_SIZE,
                    pages: first.count as int,
                    alignment: first.alignment as int,
                },
            ] + reserved(after_reserve(pages, first.count, first.alignment), rest)
        } else {
            reserved(pages, rest)
        }
    }
}

/// Every range that a run of requests hands out starts at the alignment
/// asked for, at or after the page that was free next when the run began,
/// and ends within the address space and at or below the last page of the
/// allocator.
pub proof fn lemma_reserved_aligned(pages: HanderView, requests: Seq<Request>)
    requires
        0 <= pages.next,
    ensures
        forall|i: int|
            0 <= i < reserved(pages, requests).len() ==> {
                let range = #[trigger] reserved(pages, requests)[i];
                &&& range.start % range.alignment == 0
                &&& pages.next * PAGE_SIZE <= range.start
                &&& range.start <= usize::MAX
                &&& range.end() <= usize::MAX + 1
                &&& range.end() <= pages.max * PAGE_SIZE
            },
    decreases requests.len(),
{
    if requests.len() > 0 {
        let first = requests[0];
        let rest = requests.subrange(1, requests.len() as int);
        if can_reserve(pages, first.count, first.alignment) {
            let then = after_reserve(pages, first.count, first.alignment);
            lemma_pages_to_skip(pages.next, first.alignment as int);
            lemma_reserved_aligned(then, rest);
            let all = reserved(pages, requests);
            assert forall|i: int| 0 <= i < all.len() implies {
                let range = #[trigger] all[i];
                &&& range.start % range.alignment == 0
                &&& pages.next * PAGE_SIZE <= range.start
                &&& range.start <= usize::MAX
                &&& range.end() <= usize::MAX + 1
                &&& range.end() <= pages.max * PAGE_SIZE
            } by {
                if i > 0 {
                    assert(all[i] == reserved(then, rest)[i - 1]);
                }
            }
        } else {
            lemma_reserved_aligned(pages, rest);
            assert(reserved(pages, requests) == reserved(pages, rest));
        }
    }
}

/// Each range that a run of requests hands out has the number of pages
/// that its request asked for, which is not negative.
pub proof fn lemma_reserved_pages(pages: HanderView, requests: Seq<Request>)
    ensures
        forall|i: int|
            0 <= i < reserved(pages, requests).len() ==> 0 <= (#[trigger] reserved(
                pages,
                requests,
            )[i]).pages <= usize::MAX,
    decreases requests.len(),
{
    if requests.len() > 0 {
        let first = requests[0];
        let rest = requests.subrange(1, requests.len() as int);
        if can_reserve(pages, first.count, first.alignment) {
            let then = after_reserve(pages, first.count, first.alignment);
            lemma_reserved_pages(then, rest);
            let all = reserved(pages, requests);
            assert forall|i: int| 0 <= i < all.len() implies 0 <= (#[trigger] all[i]).pages
                <= usize::MAX by {
                if i > 0 {
                    assert(all[i] == reserved(then, rest)[i - 1]);
                }
            }
        } else {
            lemma_reserved_pages(pages, rest);
            assert(reserved(pages, requests) == reserved(pages, rest));
        }
    }
}

/// No two ranges that one allocator hands out over any run of requests
/// overlap: each starts after the end of every one before it, at least a
/// page apart.
pub proof fn lemma_reserved_disjoint(pages: HanderView, requests: Seq<Request>)
    requires
        0 <= pages.next,
    ensures
        forall|i: int, j: int|
            0 <= i < j < reserved(pages, requests).len() ==> (#[trigger] reserved(
                pages,
                requests,
            )[i]).end() + PAGE_SIZE <= (#[trigger] reserved(pages, requests)[j]).start,
    decreases requests.len(),
{
    if requests.len() > 0 {
        let first = requests[0];
        let rest = requests.subrange(1, requests.len() as int);
        if can_reserve(pages, first.count, first.alignment) {
            let then = after_reserve(pages, first.count, first.alignment);
            lemma_pages_to_skip(pages.next, first.alignment as int);
            lemma_reserved_disjoint(then, rest);
            lemma_reserved_aligned(then, rest);
            let all = reserved(pages, requests);
            assert forall|i: int, j: int| 0 <= i < j < all.len() implies (#[trigger] all[i]).end()
                + PAGE_SIZE <= (#[trigger] all[j]).start by {
                assert(all[j] == reserved(then, rest)[j - 1]);
                if i > 0 {
                    assert(all[i] == reserved(then, rest)[i - 1]);
                }
            }
        } else {
            lemma_reserved_disjoint(pages, rest);
            assert(reserved(pages, requests) == reserved(pages, rest));
        }
    }
}

/// The addresses that one allocator hands out over any run of requests
/// rise strictly, whatever the requests ask for: no address comes twice.
pub proof fn lemma_reserved_strictly_rising(pages: HanderView, requests: Seq<Request>)
    requires
        0 <= pages.next,
    ensures
        forall|i: int, j: int|
            0 <= i < j < reserved(pages, requests).len() ==> (#[trigger] reserved(
                pages,
                requests,
            )[i]).start < (#[trigger] reserved(pages, requests)[j]).start,
{
    lemma_reserved_disjoint(pages, requests);
    lemma_reserved_pages(pages, requests);
}

/// A start address at a page boundary is accepted where the HHDM offset
/// lies exactly [`MIN_MEM_SPAN`] bytes above it, and refused where it lies
/// one byte less above it, or below.
pub proof fn lemma_min_span_boundary(start_addr: VirtAddr, hhdm_offset: usize)
    requires
        start_addr.0 % PAGE_SIZE == 0,
    ensures
        hhdm_offset == start_addr.0 + MIN_MEM_SPAN ==> VirtualAddressAllocator::is_valid_start(
            start_addr,
            hhdm_offset,
        ),
        hhdm_offset < start_addr.0 + MIN_MEM_SPAN ==> !VirtualAddressAllocator::is_valid_start(
            start_addr,
            hhdm_offset,
        ),
{
}

/// Why an address cannot be the start of an allocator.
#[derive(Clone, Copy, Debug, PartialEq, Eq, Structural)]
pub enum StartError {
    /// The address does not lie at a page boundary.
    Misaligned,
    /// Fewer than [`MIN_MEM_SPAN`] bytes lie between the address and the
    /// HHDM offset.
    SpanTooSmall,
}

/// Why a reservation cannot be served.
#[derive(Clone, Copy, Debug, PartialEq, Eq, Structural)]
pub enum HandoutError {
    /// The alignment is not a power of two.
    BadAlignment,
    /// The pages that are left do not suffice, or the range would leave the
    /// address space.
    OutOfPages,
}

/// Hands out ranges of virtual addresses, page by page and upwards.
pub struct VirtualAddressAllocator {
    hander: IdHander,
}

impl View for VirtualAddressAllocator {
    type V = HanderView;

    /// The hander of page numbers: the page that is free next, and the last
    /// page there is.
    closed spec fn view(&self) -> HanderView {
        self.hander@
    }
}

impl VirtualAddressAllocator {
    /// Whether an allocator may start at `start_addr`: at a page boundary
    /// that lies at least [`MIN_MEM_SPAN`] bytes below `hhdm_offset`.
    pub open spec fn is_valid_start(start_addr: VirtAddr, hhdm_offset: usize) -> bool {
        &&& start_addr.0 % PAGE_SIZE == 0
        &&& hhdm_offset - start_addr.0 >= MIN_MEM_SPAN
    }

    /// Whether a reservation of `count` pages at the alignment `alignment`
    /// can be served.
    pub open spec fn spec_can_handout(&self, count: usize, alignment: usize) -> bool {
        can_reserve(self@, count, alignment)
    }

    /// Page numbers are not negative, and the next free page lies at most
    /// one above the largest number there is.
    pub proof fn lemma_view_in_range(&self)
        ensures
            0 <= self@.next <= usize::MAX + 1,
            0 <= self@.max <= usize::MAX,
    {
        self.hander.lemma_view_in_range();
    }

    /// Whether `addr` lies at a page boundary.
    pub fn is_page_aligned(addr: VirtAddr) -> (yes: bool)
        ensures
            yes == (addr.0 % PAGE_SIZE == 0),
    {
        addr.0 % PAGE_SIZE == 0
    }

    /// Whether at least [`MIN_MEM_SPAN`] bytes lie between `start_addr` and
    /// `hhdm_offset` above it.
    pub fn has_min_span(start_addr: VirtAddr, hhdm_offset: usize) -> (yes: bool)
        ensures
            yes == (hhdm_offset - start_addr.0 >= MIN_MEM_SPAN),
    {
        hhdm_offset >= start_addr.0 && (hhdm_offset - start_addr.0) as u64 >= MIN_MEM_SPAN
    }

    /// Whether an allocator may start at `start_addr`.
    pub fn accepts_start(start_addr: VirtAddr, hhdm_offset: usize) -> (yes: bool)
        ensures
            yes == Self::is_valid_start(start_addr, hhdm_offset),
    {
        Self::is_page_aligned(start_addr) && Self::has_min_span(start_addr, hhdm_offset)
    }

    /// An allocator for the pages from `start_addr` upwards, where the
    /// address is one that [`Self::accepts_start`] accepts. Where it is not,
    /// there is no allocator, and the error says what is wrong with the
    /// address.
    pub fn try_new(start_addr: VirtAddr, hhdm_offset: usize) -> (made: Result<Self, StartError>)
        ensures
            made is Ok <==> Self::is_valid_start(start_addr, hhdm_offset),
            made matches Ok(vaa) ==> vaa@ == (HanderView {
                next: start_addr.0 as int / PAGE_SIZE as int,
                max: Id::MAX_ID as int,
            }),
            made matches Err(error) ==> (error == StartError::Misaligned <==> start_addr.0
                % PAGE_SIZE != 0),
    {
        if !Self::is_page_aligned(start_addr) {
            return Err(StartError::Misaligned);
        }
        if !Self::has_min_span(start_addr, hhdm_offset) {
            return Err(StartError::SpanTooSmall);
        }
        Ok(Self::new(start_addr, hhdm_offset))
    }

    /// An allocator for the pages from `start_addr` upwards. The address has
    /// to be one that [`Self::accepts_start`] accepts.
    pub fn new(start_addr: VirtAddr, hhdm_offset: usize) -> (vaa: Self)
        requires
            Self::is_valid_start(start_addr, hhdm_offset),
        ensures
            vaa@ == (HanderView { next: start_addr.0 as int / PAGE_SIZE as int, max: Id::MAX_ID as int }),
            vaa@.next * PAGE_SIZE == start_addr.0,
    {
        let start_id = Id(start_addr.0 / PAGE_SIZE);
        Self { hander: IdHander::new_starting_from(start_id, Id(Id::MAX_ID)) }
    }

    /// The allocator that stands in before the memory map is known: its
    /// hander walks the pages 0 to [`UNINIT_MAX_PAGE`].
    pub fn uninit() -> (vaa: Self)
        ensures
            vaa@ == (HanderView { next: 0, max: UNINIT_MAX_PAGE as int }),
    {
        Self { hander: IdHander::new(Id(UNINIT_MAX_PAGE)) }
    }

    /// Whether a reservation of `count` pages at the alignment
    /// `page_alignment` can be served.
    #[verifier::when_used_as_spec(spec_can_handout)]
    pub fn can_handout(&self, count: usize, page_alignment: usize) -> (yes: bool)
        ensures
            yes == self.spec_can_handout(count, page_alignment),
    {
        if !is_power_of_two(page_alignment) {
            return false;
        }
        let top_page = usize::MAX / PAGE_SIZE;
        let next = self.hander.peek_next().0;
        if next > top_page {
            return false;
        }
        let skip = skip_to_alignment(next, page_alignment);
        proof {
            lemma_pages_to_skip(next as int, page_alignment as int);
        }
        if skip > top_page - next {
            return false;
        }
        let first = next + skip;
        if count > top_page - first + 1 {
            return false;
        }
        let max = self.hander.max().0;
        first <= max && count <= max - first
    }

    /// Reserves `count` pages in a row, of which the first lies at the
    /// alignment `page_alignment`, a power of two, and returns the address
    /// of the first. The hander passes over the pages up to the alignment,
    /// which are lost, and over the pages of the range, and hands out the
    /// page after the range, which is lost as well: the next reservation
    /// starts after that page at the earliest.
    pub fn handout(&mut self, count: usize, page_alignment: usize) -> (addr: VirtAddr)
        requires
            old(self).can_handout(count, page_alignment),
        ensures
            addr.0 == first_page_of(old(self)@, page_alignment) * PAGE_SIZE,
            addr.0 % page_alignment == 0,
            old(self)@.next * PAGE_SIZE <= addr.0,
            addr.0 + count * PAGE_SIZE <= old(self)@.max * PAGE_SIZE,
            final(self)@ == after_reserve(old(self)@, count, page_alignment),
            final(self)@.next * PAGE_SIZE == addr.0 + count * PAGE_SIZE + PAGE_SIZE,
    {
        let next = self.hander.peek_next().0;
        let skip = skip_to_alignment(next, page_alignment);
        proof {
            lemma_pages_to_skip(next as int, page_alignment as int);
        }

        let page_id = self.hander.handout_and_skip(skip + count).unwrap();

        VirtAddr((page_id.0 - count) * PAGE_SIZE)
    }

    /// Reserves as [`Self::handout`] does where the reservation can be
    /// served. Where it cannot, says why and changes nothing.
    pub fn try_handout(&mut self, count: usize, page_alignment: usize) -> (got: Result<
        VirtAddr,
        HandoutError,
    >)
        ensures
            got is Ok <==> old(self).can_handout(count, page_alignment),
            got matches Err(error) ==> {
                &&& error == HandoutError::BadAlignment <==> !is_pow2(page_alignment as int)
                &&& final(self)@ == old(self)@
            },
            got matches Ok(addr) ==> {
                &&& addr.0 == first_page_of(old(self)@, page_alignment) * PAGE_SIZE
                &&& addr.0 % page_alignment == 0
                &&& final(self)@ == after_reserve(old(self)@, count, page_alignment)
            },
    {
        if !is_power_of_two(page_alignment) {
            return Err(HandoutError::BadAlignment);
        }
        if !self.can_handout(count, page_alignment) {
            return Err(HandoutError::OutOfPages);
        }
        Ok(self.handout(count, page_alignment))
    }
}

/// The allocator for the machine whose memory map is `mem_map`: it hands
/// out from the address at which the last region of the map ends. That
/// address has to exist and to be one that
/// [`VirtualAddressAllocator::accepts_start`] accepts.
pub fn init_vaa_from_limine(mem_map: &[MemoryMapEntry], hhdm_offset: usize) -> (vaa:
    VirtualAddressAllocator)
    requires
        spec_memory_map_end(mem_map@) matches Some(start)
            && VirtualAddressAllocator::is_valid_start(start, hhdm_offset),
    ensures
        vaa@.max == Id::MAX_ID,
        spec_memory_map_end(mem_map@) matches Some(start) && vaa@.next * PAGE_SIZE == start.0,
{
    let count = mem_map.len();
    let last_entry = mem_map[count - 1];
    let addr = VirtAddr((last_entry.base + last_entry.length) as usize);

    VirtualAddressAllocator::new(addr, hhdm_offset)
}

} // verus!
