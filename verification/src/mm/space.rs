//! The mathematical model of an address space: a sequence of page-aligned, pairwise
//! disjoint regions, each with its rights and the contents of its pages.

use vstd::prelude::*;
use crate::config::PAGE_SIZE;
use crate::mm::address::{page_ceil, page_floor};
use crate::mm::permission::MapPermission;

verus! {

/// One mapped region: the pages `start..end`, their rights and their contents.
#[verifier::ext_equal]
pub struct AreaView {
    pub start: int,
    pub end: int,
    pub perm: MapPermission,
    /// One entry for each page of the region, each holding the bytes of that page.
    pub frames: Seq<Seq<u8>>,
}

/// A page filled with zeros, as a freshly allocated frame is.
pub open spec fn zero_frame() -> Seq<u8> {
    Seq::new(PAGE_SIZE as nat, |offset: int| 0u8)
}

impl AreaView {
    /// A region is never empty, lies within the addresses a machine word can name, and
    /// owns one full frame for each of its pages.
    pub open spec fn wf(self) -> bool {
        &&& 0 <= self.start < self.end
        &&& self.end * PAGE_SIZE <= usize::MAX + 1
        &&& self.frames.len() == self.end - self.start
        &&& forall|page: int|
            0 <= page < self.frames.len() ==> (#[trigger] self.frames[page]).len() == PAGE_SIZE
    }

    pub open spec fn contains(self, vpn: int) -> bool {
        self.start <= vpn < self.end
    }

    /// Whether the region shares at least one page with the pages `start..end`.
    pub open spec fn overlaps(self, start: int, end: int) -> bool {
        self.start < end && start < self.end && start < end
    }

    /// Whether every page of the region lies among the pages `start..end`.
    pub open spec fn inside(self, start: int, end: int) -> bool {
        start <= self.start && self.end <= end
    }

    /// A region over the pages `start..end` whose frames are all zero.
    pub open spec fn fresh(start: int, end: int, perm: MapPermission) -> AreaView {
        AreaView {
            start,
            end,
            perm,
            frames: Seq::new((end - start) as nat, |page: int| zero_frame()),
        }
    }

    /// The region cut down or grown to end before page `end`; new pages are zero.
    pub open spec fn resized(self, end: int) -> AreaView {
        AreaView {
            start: self.start,
            end,
            perm: self.perm,
            frames: Seq::new(
                (end - self.start) as nat,
                |page: int| if page < self.frames.len() { self.frames[page] } else { zero_frame() },
            ),
        }
    }
}

/// The regions of `areas` that do not lie inside the pages `start..end`, in their order.
pub open spec fn without_inside(areas: Seq<AreaView>, start: int, end: int) -> Seq<AreaView>
    decreases areas.len(),
{
    if areas.len() == 0 {
        areas
    } else {
        let rest = without_inside(areas.drop_last(), start, end);
        if areas.last().inside(start, end) {
            rest
        } else {
            rest.push(areas.last())
        }
    }
}

/// Whether every region of `areas` is well formed and no two of them share a page.
pub open spec fn areas_wf(areas: Seq<AreaView>) -> bool {
    &&& forall|i: int| 0 <= i < areas.len() ==> (#[trigger] areas[i]).wf()
    &&& forall|i: int, j: int|
        0 <= i < areas.len() && 0 <= j < areas.len() && i != j ==> !(#[trigger] areas[i]).overlaps(
            (#[trigger] areas[j]).start,
            areas[j].end,
        )
}

/// The address space of one task.
#[verifier::ext_equal]
pub struct AddressSpace {
    pub areas: Seq<AreaView>,
}

impl AddressSpace {
    /// Every region is well formed and no two regions share a page.
    pub open spec fn wf(self) -> bool {
        areas_wf(self.areas)
    }

    /// Whether page `vpn` belongs to a region.
    pub open spec fn mapped(self, vpn: int) -> bool {
        exists|i: int| 0 <= i < self.areas.len() && (#[trigger] self.areas[i]).contains(vpn)
    }

    /// The position of the region that holds page `vpn`.
    pub open spec fn area_of(self, vpn: int) -> int {
        choose|i: int| 0 <= i < self.areas.len() && (#[trigger] self.areas[i]).contains(vpn)
    }

    /// Whether some region shares a page with the pages `start..end`.
    pub open spec fn overlaps(self, start: int, end: int) -> bool {
        exists|i: int| 0 <= i < self.areas.len() && (#[trigger] self.areas[i]).overlaps(start, end)
    }

    /// Whether some page among `start..end` belongs to no region.
    pub open spec fn has_gap(self, start: int, end: int) -> bool {
        exists|vpn: int| start <= vpn < end && !(#[trigger] self.mapped(vpn))
    }

    /// Whether some region has pages both among `start..end` and outside of them.
    pub open spec fn straddled(self, start: int, end: int) -> bool {
        exists|i: int|
            0 <= i < self.areas.len() && (#[trigger] self.areas[i]).overlaps(start, end)
                && !self.areas[i].inside(start, end)
    }

    /// The space with a zeroed region over the pages `start..end` added; an empty range
    /// adds nothing.
    pub open spec fn map(self, start: int, end: int, perm: MapPermission) -> AddressSpace {
        if start < end {
            AddressSpace { areas: self.areas.push(AreaView::fresh(start, end, perm)) }
        } else {
            self
        }
    }

    /// The space without the regions that lie inside the pages `start..end`.
    pub open spec fn unmap(self, start: int, end: int) -> AddressSpace {
        AddressSpace { areas: without_inside(self.areas, start, end) }
    }

    /// What a mapping request for the addresses `start..end` does: `None` where it is
    /// refused, else the space that it leaves.
    pub open spec fn map_result(self, start: int, end: int, perm: MapPermission) -> Option<
        AddressSpace,
    > {
        if start % (PAGE_SIZE as int) != 0 || self.overlaps(page_floor(start), page_ceil(end)) {
            None
        } else {
            Some(self.map(page_floor(start), page_ceil(end), perm))
        }
    }

    /// What an unmapping request for the addresses `start..end` does: `None` where it is
    /// refused, else the space that it leaves.
    pub open spec fn unmap_result(self, start: int, end: int) -> Option<AddressSpace> {
        if start % (PAGE_SIZE as int) != 0 || self.has_gap(page_floor(start), page_ceil(end))
            || self.straddled(page_floor(start), page_ceil(end)) {
            None
        } else {
            Some(self.unmap(page_floor(start), page_ceil(end)))
        }
    }

    /// The contents of page `vpn`.
    pub open spec fn page(self, vpn: int) -> Seq<u8> {
        let area = self.areas[self.area_of(vpn)];
        area.frames[vpn - area.start]
    }

    /// The byte at address `addr`; zero where nothing is mapped.
    pub open spec fn byte_at(self, addr: int) -> u8 {
        if self.mapped(page_floor(addr)) {
            self.page(page_floor(addr))[addr % (PAGE_SIZE as int)]
        } else {
            0u8
        }
    }

    /// Whether each of the `len` bytes from address `ptr` on lies in a mapped page.
    pub open spec fn accessible(self, ptr: int, len: int) -> bool {
        len <= 0 || forall|vpn: int|
            page_floor(ptr) <= vpn <= page_floor(ptr + len - 1) ==> #[trigger] self.mapped(vpn)
    }

    /// The `len` bytes from address `ptr` on.
    pub open spec fn bytes(self, ptr: int, len: int) -> Seq<u8> {
        Seq::new(len as nat, |i: int| self.byte_at(ptr + i))
    }

    /// Whether `other` has the same regions with the same rights; the contents may differ.
    pub open spec fn same_layout(self, other: AddressSpace) -> bool {
        &&& self.areas.len() == other.areas.len()
        &&& forall|i: int|
            0 <= i < self.areas.len() ==> {
                &&& (#[trigger] self.areas[i]).start == other.areas[i].start
                &&& self.areas[i].end == other.areas[i].end
                &&& self.areas[i].perm == other.areas[i].perm
            }
    }

    /// Whether `other` is this space after the bytes `data` were stored from address
    /// `ptr` on: the same regions, the new bytes in place, every other byte as before.
    pub open spec fn written(self, ptr: int, data: Seq<u8>, other: AddressSpace) -> bool {
        &&& self.same_layout(other)
        &&& other.wf()
        &&& forall|addr: int|
            #[trigger] other.byte_at(addr) == if ptr <= addr < ptr + data.len() {
                data[addr - ptr]
            } else {
                self.byte_at(addr)
            }
    }
}

/// In a well-formed space the region that holds a page is the only one that does.
pub proof fn lemma_area_of(space: AddressSpace, i: int, vpn: int)
    requires
        space.wf(),
        0 <= i < space.areas.len(),
        space.areas[i].contains(vpn),
    ensures
        space.mapped(vpn),
        space.area_of(vpn) == i,
{
    let j = space.area_of(vpn);
    assert(space.areas[j].contains(vpn));
    if i != j {
        assert(space.areas[i].overlaps(space.areas[j].start, space.areas[j].end));
    }
}

/// The byte at offset `offset` of page `page` of region `i` is the byte at its address.
pub proof fn lemma_byte_at(space: AddressSpace, i: int, page: int, offset: int)
    requires
        space.wf(),
        0 <= i < space.areas.len(),
        0 <= page < space.areas[i].frames.len(),
        0 <= offset < PAGE_SIZE,
    ensures
        space.byte_at((space.areas[i].start + page) * PAGE_SIZE + offset)
            == space.areas[i].frames[page][offset],
        page_floor((space.areas[i].start + page) * PAGE_SIZE + offset) == space.areas[i].start
            + page,
        ((space.areas[i].start + page) * PAGE_SIZE + offset) % (PAGE_SIZE as int) == offset,
{
    let vpn = space.areas[i].start + page;
    assert(space.areas[i].wf());
    assert(space.areas[i].contains(vpn));
    lemma_area_of(space, i, vpn);
}

/// Where no region lies inside the pages `start..end`, removing those that do changes
/// nothing.
pub proof fn lemma_without_inside_none(areas: Seq<AreaView>, start: int, end: int)
    requires
        forall|i: int| 0 <= i < areas.len() ==> !(#[trigger] areas[i]).inside(start, end),
    ensures
        without_inside(areas, start, end) == areas,
    decreases areas.len(),
{
    if areas.len() > 0 {
        lemma_without_inside_none(areas.drop_last(), start, end);
        assert(areas.drop_last().push(areas.last()) =~= areas);
    }
}

/// Taking out one region that lies inside the range does not change what removal leaves.
pub proof fn lemma_without_inside_remove(areas: Seq<AreaView>, i: int, start: int, end: int)
    requires
        0 <= i < areas.len(),
        areas[i].inside(start, end),
    ensures
        without_inside(areas.remove(i), start, end) == without_inside(areas, start, end),
    decreases areas.len(),
{
    if i == areas.len() - 1 {
        assert(areas.remove(i) =~= areas.drop_last());
    } else {
        let front = areas.drop_last();
        lemma_without_inside_remove(front, i, start, end);
        assert(areas.remove(i).drop_last() =~= front.remove(i));
        assert(areas.remove(i).last() == areas.last());
    }
}

/// Each region that removal leaves was there before and does not lie inside the range.
pub proof fn lemma_without_inside_members(areas: Seq<AreaView>, start: int, end: int)
    ensures
        without_inside(areas, start, end).len() <= areas.len(),
        forall|k: int|
            0 <= k < without_inside(areas, start, end).len() ==> {
                &&& !(#[trigger] without_inside(areas, start, end)[k]).inside(start, end)
                &&& areas.contains(without_inside(areas, start, end)[k])
            },
    decreases areas.len(),
{
    let kept = without_inside(areas, start, end);
    if areas.len() > 0 {
        let front = areas.drop_last();
        lemma_without_inside_members(front, start, end);
        let rest = without_inside(front, start, end);
        assert forall|k: int| 0 <= k < kept.len() implies !(#[trigger] kept[k]).inside(start, end)
            && areas.contains(kept[k]) by {
            if k < rest.len() {
                assert(front.contains(rest[k]));
                let i = choose|i: int| 0 <= i < front.len() && front[i] == rest[k];
                assert(areas[i] == kept[k]);
            } else {
                assert(areas[areas.len() - 1] == kept[k]);
            }
        }
    }
}

/// Removal leaves regions that are well formed and pairwise disjoint.
pub proof fn lemma_without_inside_wf(areas: Seq<AreaView>, start: int, end: int)
    requires
        areas_wf(areas),
    ensures
        areas_wf(without_inside(areas, start, end)),
    decreases areas.len(),
{
    let kept = without_inside(areas, start, end);
    if areas.len() > 0 {
        let front = areas.drop_last();
        assert(areas_wf(front)) by {
            assert forall|i: int| 0 <= i < front.len() implies (#[trigger] front[i]).wf() by {
                assert(front[i] == areas[i]);
            }
            assert forall|i: int, j: int|
                0 <= i < front.len() && 0 <= j < front.len() && i != j implies !(
            #[trigger] front[i]).overlaps((#[trigger] front[j]).start, front[j].end) by {
                assert(front[i] == areas[i]);
                assert(front[j] == areas[j]);
            }
        }
        lemma_without_inside_wf(front, start, end);
        lemma_without_inside_members(front, start, end);
        let rest = without_inside(front, start, end);
        if !areas.last().inside(start, end) {
            let last = areas.last();
            assert(last == areas[areas.len() - 1]);
            assert forall|i: int| 0 <= i < kept.len() implies (#[trigger] kept[i]).wf() by {
                if i < rest.len() {
                    assert(kept[i] == rest[i]);
                }
            }
            assert forall|i: int, j: int|
                0 <= i < kept.len() && 0 <= j < kept.len() && i != j implies !(
            #[trigger] kept[i]).overlaps((#[trigger] kept[j]).start, kept[j].end) by {
                if i < rest.len() && j < rest.len() {
                    assert(kept[i] == rest[i]);
                    assert(kept[j] == rest[j]);
                } else if i < rest.len() {
                    assert(kept[i] == rest[i]);
                    assert(front.contains(rest[i]));
                    let o = choose|o: int| 0 <= o < front.len() && front[o] == rest[i];
                    assert(areas[o] == kept[i]);
                } else {
                    assert(kept[j] == rest[j]);
                    assert(front.contains(rest[j]));
                    let o = choose|o: int| 0 <= o < front.len() && front[o] == rest[j];
                    assert(areas[o] == kept[j]);
                }
            }
        }
    }
}

/// Mapping pages that no region holds leaves a well-formed space.
pub proof fn lemma_map_wf(space: AddressSpace, start: int, end: int, perm: MapPermission)
    requires
        space.wf(),
        0 <= start,
        end * PAGE_SIZE <= usize::MAX + 1,
        !space.overlaps(start, end),
    ensures
        space.map(start, end, perm).wf(),
{
    let after = space.map(start, end, perm);
    if start < end {
        let fresh = AreaView::fresh(start, end, perm);
        assert(fresh.wf());
        assert forall|i: int| 0 <= i < after.areas.len() implies (#[trigger] after.areas[i]).wf() by {
            if i < space.areas.len() {
                assert(after.areas[i] == space.areas[i]);
            }
        }
        assert forall|i: int, j: int|
            0 <= i < after.areas.len() && 0 <= j < after.areas.len() && i != j implies !(
        #[trigger] after.areas[i]).overlaps((#[trigger] after.areas[j]).start, after.areas[j].end) by {
            if i < space.areas.len() && j < space.areas.len() {
                assert(after.areas[i] == space.areas[i]);
                assert(after.areas[j] == space.areas[j]);
            } else if i < space.areas.len() {
                assert(after.areas[i] == space.areas[i]);
                assert(!space.areas[i].overlaps(start, end));
            } else {
                assert(after.areas[j] == space.areas[j]);
                assert(space.areas[j].wf());
                assert(!space.areas[j].overlaps(start, end));
            }
        }
    }
}

/// Mapping a range and unmapping the same range again restores the space that was there
/// before, region for region.
pub proof fn lemma_map_then_unmap_restores(
    space: AddressSpace,
    start: int,
    end: int,
    perm: MapPermission,
)
    requires
        space.wf(),
        0 <= start,
        space.map_result(start, end, perm) is Some,
    ensures
        space.map_result(start, end, perm).unwrap().unmap_result(start, end) == Some(space),
{
    let first = page_floor(start);
    let last = page_ceil(end);
    let mapped = space.map(first, last, perm);
    assert(space.map_result(start, end, perm) == Some(mapped));
    assert forall|i: int| 0 <= i < space.areas.len() implies !(#[trigger] space.areas[i]).inside(
        first,
        last,
    ) by {
        assert(space.areas[i].wf());
        assert(!space.areas[i].overlaps(first, last));
    }
    lemma_without_inside_none(space.areas, first, last);
    if first < last {
        let fresh = AreaView::fresh(first, last, perm);
        assert(mapped.areas.drop_last() =~= space.areas);
        assert(mapped.areas.last() == fresh);
        assert(without_inside(mapped.areas, first, last) == space.areas);
        assert forall|vpn: int| first <= vpn < last implies #[trigger] mapped.mapped(vpn) by {
            assert(mapped.areas[space.areas.len() as int].contains(vpn));
        }
        assert forall|i: int|
            0 <= i < mapped.areas.len() && (#[trigger] mapped.areas[i]).overlaps(
                first,
                last,
            ) implies mapped.areas[i].inside(first, last) by {
            if i < space.areas.len() {
                assert(mapped.areas[i] == space.areas[i]);
                assert(!space.areas[i].overlaps(first, last));
            }
        }
    }
    assert(!mapped.has_gap(first, last));
    assert(!mapped.straddled(first, last));
    assert(mapped.unmap(first, last) =~= space);
}

/// After a range was mapped, a request to map a range that shares a page with it is
/// refused.
pub proof fn lemma_overlapping_map_refused(
    space: AddressSpace,
    start: int,
    end: int,
    perm: MapPermission,
    other_start: int,
    other_end: int,
    other_perm: MapPermission,
)
    requires
        space.map_result(start, end, perm) is Some,
        page_floor(start) < page_ceil(other_end),
        page_floor(other_start) < page_ceil(end),
        page_floor(start) < page_ceil(end),
        page_floor(other_start) < page_ceil(other_end),
    ensures
        space.map_result(start, end, perm).unwrap().map_result(other_start, other_end, other_perm)
            is None,
{
    let mapped = space.map(page_floor(start), page_ceil(end), perm);
    assert(mapped.areas[space.areas.len() as int].overlaps(
        page_floor(other_start),
        page_ceil(other_end),
    ));
}

/// A request to unmap pages of which one is not mapped, or which cut a region in two,
/// is refused.
pub proof fn lemma_partial_unmap_refused(space: AddressSpace, i: int, start: int, end: int)
    requires
        0 <= i < space.areas.len(),
        space.areas[i].overlaps(page_floor(start), page_ceil(end)),
        !space.areas[i].inside(page_floor(start), page_ceil(end)),
    ensures
        space.unmap_result(start, end) is None,
{
}

/// One piece of a translated buffer: the bytes `start..end` of one frame, which hold the
/// bytes of the buffer from position `offset` on.
#[derive(Clone, Copy, Debug, PartialEq, Eq, Structural)]
pub struct ByteRange {
    /// Position in the buffer of the first byte of this piece.
    pub offset: usize,
    /// Position of the region among the regions of the space.
    pub area: usize,
    /// Position of the frame among the frames of the region.
    pub page: usize,
    /// First byte of the piece within the frame.
    pub start: usize,
    /// End of the piece within the frame.
    pub end: usize,
}

impl ByteRange {
    /// Number of bytes in this piece.
    pub open spec fn len(self) -> int {
        self.end - self.start
    }

    /// Whether this piece names, in `space`, the frame and the bytes that hold address `va`
    /// and what follows it in its page.
    pub open spec fn locates(self, space: AddressSpace, va: int) -> bool {
        &&& self.area < space.areas.len()
        &&& self.page < space.areas[self.area as int].frames.len()
        &&& space.areas[self.area as int].start + self.page == page_floor(va)
        &&& self.start == va % (PAGE_SIZE as int)
        &&& self.start < self.end <= PAGE_SIZE
    }
}

/// Whether `ranges` is the translation of the `len` bytes from address `ptr` on: the
/// pieces follow one another without a hole, none crosses a page, and together they are
/// the whole buffer.
pub open spec fn is_translation(space: AddressSpace, ranges: Seq<ByteRange>, ptr: int, len: int) -> bool {
    &&& forall|k: int|
        0 <= k < ranges.len() ==> (#[trigger] ranges[k]).locates(space, ptr + ranges[k].offset)
    &&& forall|k: int, l: int|
        0 <= k < ranges.len() && l == k + 1 && l < ranges.len() ==> (#[trigger] ranges[l]).offset
            == (#[trigger] ranges[k]).offset + ranges[k].len()
    &&& forall|k: int|
        0 <= k < ranges.len() ==> (#[trigger] ranges[k]).offset + ranges[k].len() <= len
    &&& ranges.len() == 0 ==> len == 0
    &&& ranges.len() > 0 ==> ranges[0].offset == 0 && ranges.last().offset + ranges.last().len()
        == len
}

impl AddressSpace {
    /// The space with the byte at offset `offset` of page `page` of region `area` set to
    /// `value`.
    pub open spec fn poke(self, area: int, page: int, offset: int, value: u8) -> AddressSpace {
        let old_area = self.areas[area];
        AddressSpace {
            areas: self.areas.update(
                area,
                AreaView {
                    start: old_area.start,
                    end: old_area.end,
                    perm: old_area.perm,
                    frames: old_area.frames.update(
                        page,
                        old_area.frames[page].update(offset, value),
                    ),
                },
            ),
        }
    }

    /// Whether address `addr` is mapped and holds a byte other than zero.
    pub open spec fn text_at(self, addr: int) -> bool {
        self.mapped(page_floor(addr)) && self.byte_at(addr) != 0
    }

    /// Whether a string starts at address `ptr` and ends with a zero byte at `ptr + len`:
    /// the `len` bytes before the zero are mapped and not zero.
    pub open spec fn terminated_at(self, ptr: int, len: int) -> bool {
        &&& 0 <= len
        &&& forall|addr: int| ptr <= addr < ptr + len ==> #[trigger] self.text_at(addr)
        &&& self.mapped(page_floor(ptr + len))
        &&& self.byte_at(ptr + len) == 0
    }

    /// Whether the bytes from address `ptr` on run into unmapped memory at `ptr + len`
    /// before a zero byte is met.
    pub open spec fn unterminated_at(self, ptr: int, len: int) -> bool {
        &&& 0 <= len
        &&& forall|addr: int| ptr <= addr < ptr + len ==> #[trigger] self.text_at(addr)
        &&& !self.mapped(page_floor(ptr + len))
    }
}

/// Storing one byte leaves the regions in place and changes the byte at that address
/// and no other.
pub proof fn lemma_poke(space: AddressSpace, area: int, page: int, offset: int, value: u8)
    requires
        space.wf(),
        0 <= area < space.areas.len(),
        0 <= page < space.areas[area].frames.len(),
        0 <= offset < PAGE_SIZE,
    ensures
        space.poke(area, page, offset, value).wf(),
        space.same_layout(space.poke(area, page, offset, value)),
        forall|addr: int|
            #[trigger] space.poke(area, page, offset, value).byte_at(addr) == if addr == (
            space.areas[area].start + page) * PAGE_SIZE + offset {
                value
            } else {
                space.byte_at(addr)
            },
{
    let after = space.poke(area, page, offset, value);
    let target = (space.areas[area].start + page) * PAGE_SIZE + offset;
    assert(space.areas[area].wf());
    assert forall|i: int| 0 <= i < after.areas.len() implies (#[trigger] after.areas[i]).wf() by {
        assert(space.areas[i].wf());
        if i == area {
            assert forall|q: int| 0 <= q < after.areas[i].frames.len() implies (
            #[trigger] after.areas[i].frames[q]).len() == PAGE_SIZE by {
                assert(space.areas[i].frames[q].len() == PAGE_SIZE);
            }
        }
    }
    assert forall|i: int, j: int|
        0 <= i < after.areas.len() && 0 <= j < after.areas.len() && i != j implies !(
    #[trigger] after.areas[i]).overlaps((#[trigger] after.areas[j]).start, after.areas[j].end) by {
        assert(!space.areas[i].overlaps(space.areas[j].start, space.areas[j].end));
    }
    assert forall|addr: int|
        #[trigger] after.byte_at(addr) == if addr == target {
            value
        } else {
            space.byte_at(addr)
        } by {
        let vpn = page_floor(addr);
        if space.mapped(vpn) {
            let i = space.area_of(vpn);
            assert(space.areas[i].contains(vpn));
            assert(after.areas[i].contains(vpn));
            lemma_area_of(after, i, vpn);
            assert(space.areas[i].wf());
            if i == area && vpn - space.areas[i].start == page {
            } else if addr == target {
                lemma_byte_at(space, area, page, offset);
                lemma_area_of(space, area, vpn);
            }
        } else {
            if after.mapped(vpn) {
                let i = after.area_of(vpn);
                assert(after.areas[i].contains(vpn));
                assert(space.areas[i].contains(vpn));
            }
            if addr == target {
                lemma_byte_at(space, area, page, offset);
            }
        }
    }
}

/// What was stored reads back: after the bytes `data` were stored from address `ptr` on,
/// the bytes from `ptr` on are `data`, whatever pages they lie in, and what was mapped
/// is mapped still.
pub proof fn lemma_written_reads_back(space: AddressSpace, ptr: int, data: Seq<u8>, after: AddressSpace)
    requires
        space.wf(),
        space.written(ptr, data, after),
    ensures
        after.bytes(ptr, data.len() as int) == data,
        forall|vpn: int| space.mapped(vpn) == #[trigger] after.mapped(vpn),
        forall|start: int, len: int|
            space.accessible(start, len) == #[trigger] after.accessible(start, len),
{
    assert forall|vpn: int| space.mapped(vpn) == #[trigger] after.mapped(vpn) by {
        if space.mapped(vpn) {
            let i = space.area_of(vpn);
            assert(space.areas[i].contains(vpn));
            assert(after.areas[i].contains(vpn));
        }
        if after.mapped(vpn) {
            let i = after.area_of(vpn);
            assert(after.areas[i].contains(vpn));
            assert(space.areas[i].contains(vpn));
        }
    }
    assert(after.bytes(ptr, data.len() as int) =~= data);
    assert forall|start: int, len: int|
        space.accessible(start, len) == #[trigger] after.accessible(start, len) by {
        if space.accessible(start, len) && len > 0 {
            assert forall|vpn: int|
                page_floor(start) <= vpn <= page_floor(start + len - 1) implies #[trigger] after.mapped(
                vpn,
            ) by {
                assert(space.mapped(vpn));
            }
        }
        if after.accessible(start, len) && len > 0 {
            assert forall|vpn: int|
                page_floor(start) <= vpn <= page_floor(start + len - 1) implies #[trigger] space.mapped(
                vpn,
            ) by {
                assert(after.mapped(vpn));
            }
        }
    }
}

/// A string that starts at an address ends in one place only, and does not both end and
/// run into unmapped memory.
pub proof fn lemma_string_end_unique(space: AddressSpace, ptr: int, len: int, other: int)
    requires
        space.terminated_at(ptr, len),
        space.terminated_at(ptr, other) || space.unterminated_at(ptr, other),
    ensures
        space.terminated_at(ptr, other) && len == other,
{
    if other < len {
        assert(space.text_at(ptr + other));
    } else if len < other {
        assert(space.text_at(ptr + len));
    }
}

impl AddressSpace {
    /// Whether a region starts at page `start`.
    pub open spec fn has_area_starting(self, start: int) -> bool {
        exists|i: int| 0 <= i < self.areas.len() && (#[trigger] self.areas[i]).start == start
    }

    /// The position of the region that starts at page `start`.
    pub open spec fn area_starting(self, start: int) -> int {
        choose|i: int| 0 <= i < self.areas.len() && (#[trigger] self.areas[i]).start == start
    }

    /// What cutting the region that starts at page `start` down to end before page `end`
    /// does: `None` where no region starts there or `end` lies outside of it; the region
    /// is removed where nothing is left of it.
    pub open spec fn shrink_result(self, start: int, end: int) -> Option<AddressSpace> {
        if !self.has_area_starting(start) {
            None
        } else {
            let i = self.area_starting(start);
            if end < start || end > self.areas[i].end {
                None
            } else if end == start {
                Some(AddressSpace { areas: self.areas.remove(i) })
            } else {
                Some(AddressSpace { areas: self.areas.update(i, self.areas[i].resized(end)) })
            }
        }
    }

    /// What growing the region that starts at page `start` to end before page `end` does:
    /// `None` where no region starts there, `end` lies before its end, or a page to be
    /// added belongs to another region. The new pages are zero.
    pub open spec fn append_result(self, start: int, end: int) -> Option<AddressSpace> {
        if !self.has_area_starting(start) {
            None
        } else {
            let i = self.area_starting(start);
            if end < self.areas[i].end || self.overlaps(self.areas[i].end, end) {
                None
            } else {
                Some(AddressSpace { areas: self.areas.update(i, self.areas[i].resized(end)) })
            }
        }
    }
}

/// In a well-formed space at most one region starts at a given page.
pub proof fn lemma_area_starting(space: AddressSpace, i: int)
    requires
        space.wf(),
        0 <= i < space.areas.len(),
    ensures
        space.has_area_starting(space.areas[i].start),
        space.area_starting(space.areas[i].start) == i,
{
    let j = space.area_starting(space.areas[i].start);
    assert(space.areas[i].wf());
    assert(space.areas[j].wf());
    if i != j {
        assert(space.areas[i].overlaps(space.areas[j].start, space.areas[j].end));
    }
}

/// Cutting a region down leaves a well-formed space.
pub proof fn lemma_shrink_wf(space: AddressSpace, start: int, end: int)
    requires
        space.wf(),
        space.shrink_result(start, end) is Some,
    ensures
        space.shrink_result(start, end).unwrap().wf(),
{
    let after = space.shrink_result(start, end).unwrap();
    let i = space.area_starting(start);
    assert(space.areas[i].wf());
    if end == start {
        assert forall|k: int| 0 <= k < after.areas.len() implies (#[trigger] after.areas[k]).wf() by {
            if k < i {
                assert(after.areas[k] == space.areas[k]);
            } else {
                assert(after.areas[k] == space.areas[k + 1]);
            }
        }
        assert forall|k: int, l: int|
            0 <= k < after.areas.len() && 0 <= l < after.areas.len() && k != l implies !(
        #[trigger] after.areas[k]).overlaps((#[trigger] after.areas[l]).start, after.areas[l].end) by {
            let ko = if k < i { k } else { k + 1 };
            let lo = if l < i { l } else { l + 1 };
            assert(after.areas[k] == space.areas[ko]);
            assert(after.areas[l] == space.areas[lo]);
        }
    } else {
        assert forall|k: int| 0 <= k < after.areas.len() implies (#[trigger] after.areas[k]).wf() by {
            assert(space.areas[k].wf());
        }
        assert forall|k: int, l: int|
            0 <= k < after.areas.len() && 0 <= l < after.areas.len() && k != l implies !(
        #[trigger] after.areas[k]).overlaps((#[trigger] after.areas[l]).start, after.areas[l].end) by {
            assert(!space.areas[k].overlaps(space.areas[l].start, space.areas[l].end));
        }
    }
}

/// Growing a region over pages that no region holds leaves a well-formed space.
pub proof fn lemma_append_wf(space: AddressSpace, start: int, end: int)
    requires
        space.wf(),
        end * PAGE_SIZE <= usize::MAX + 1,
        space.append_result(start, end) is Some,
    ensures
        space.append_result(start, end).unwrap().wf(),
{
    let after = space.append_result(start, end).unwrap();
    let i = space.area_starting(start);
    assert(space.areas[i].wf());
    assert forall|k: int| 0 <= k < after.areas.len() implies (#[trigger] after.areas[k]).wf() by {
        assert(space.areas[k].wf());
    }
    assert forall|k: int, l: int|
        0 <= k < after.areas.len() && 0 <= l < after.areas.len() && k != l implies !(
    #[trigger] after.areas[k]).overlaps((#[trigger] after.areas[l]).start, after.areas[l].end) by {
        assert(!space.areas[k].overlaps(space.areas[l].start, space.areas[l].end));
        assert(space.areas[k].wf());
        assert(space.areas[l].wf());
        if k == i {
            assert(!space.areas[l].overlaps(space.areas[i].end, end));
        } else if l == i {
            assert(!space.areas[k].overlaps(space.areas[i].end, end));
        }
    }
}

} // verus!
