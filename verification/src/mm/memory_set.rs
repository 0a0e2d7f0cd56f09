//! The address space of a task: its regions and the frames that back them.

use vstd::prelude::*;
use crate::config::PAGE_SIZE;
use crate::mm::address::{page_ceil, page_floor, VirtAddr};
use crate::mm::permission::MapPermission;
use crate::mm::space::{
    is_translation, lemma_append_wf, lemma_area_of, lemma_area_starting, lemma_byte_at,
    lemma_map_wf, lemma_poke, lemma_shrink_wf, lemma_without_inside_none,
    lemma_without_inside_remove, lemma_without_inside_wf, without_inside, zero_frame,
    AddressSpace, AreaView, ByteRange,
};

verus! {

/// A region of an address space together with the frames that back its pages.
pub struct MapArea {
    start_vpn: usize,
    end_vpn: usize,
    perm: MapPermission,
    frames: Vec<Vec<u8>>,
}

impl View for MapArea {
    type V = AreaView;

    closed spec fn view(&self) -> AreaView {
        AreaView {
            start: self.start_vpn as int,
            end: self.end_vpn as int,
            perm: self.perm,
            frames: Seq::new(self.frames@.len(), |page: int| self.frames@[page]@),
        }
    }
}

impl MapArea {
    /// A region over the pages `start_vpn..end_vpn` with one zeroed frame for each page.
    fn new(start_vpn: usize, end_vpn: usize, perm: MapPermission) -> (area: MapArea)
        requires
            start_vpn < end_vpn,
            end_vpn * PAGE_SIZE <= usize::MAX + 1,
        ensures
            area@ == AreaView::fresh(start_vpn as int, end_vpn as int, perm),
            area@.wf(),
    {
        let mut frames: Vec<Vec<u8>> = Vec::new();
        let mut vpn: usize = start_vpn;
        while vpn < end_vpn
            invariant
                start_vpn <= vpn <= end_vpn,
                frames@.len() == vpn - start_vpn,
                forall|page: int| 0 <= page < frames@.len() ==> (#[trigger] frames@[page])@ == zero_frame(),
            decreases end_vpn - vpn,
        {
            let frame = vec![0u8; PAGE_SIZE];
            assert(frame@ =~= zero_frame());
            frames.push(frame);
            vpn = vpn + 1;
        }
        let area = MapArea { start_vpn, end_vpn, perm, frames };
        assert(area@.frames =~= AreaView::fresh(start_vpn as int, end_vpn as int, perm).frames);
        area
    }
}

/// The address space of a task.
pub struct MemorySet {
    areas: Vec<MapArea>,
    token: usize,
}

impl View for MemorySet {
    type V = AddressSpace;

    closed spec fn view(&self) -> AddressSpace {
        AddressSpace { areas: Seq::new(self.areas@.len(), |i: int| self.areas@[i]@) }
    }
}

impl MemorySet {
    /// The invariant of an address space: its model is well formed.
    pub open spec fn wf(&self) -> bool {
        self@.wf()
    }

    /// The identifier of the translation root of this space.
    pub closed spec fn spec_token(&self) -> usize {
        self.token
    }

    /// An address space without any region.
    pub fn new_bare(token: usize) -> (set: MemorySet)
        ensures
            set.wf(),
            set@.areas.len() == 0,
            set.spec_token() == token,
    {
        MemorySet { areas: Vec::new(), token }
    }

    /// The identifier of the translation root of this space.
    pub fn token(&self) -> (token: usize)
        ensures
            token == self.spec_token(),
    {
        self.token
    }

    /// Unmaps every region and releases every frame.
    pub fn recycle_data_pages(&mut self)
        ensures
            final(self).wf(),
            final(self).spec_token() == old(self).spec_token(),
            final(self)@.areas.len() == 0,
    {
        self.areas.clear();
    }

    /// The number of regions.
    pub fn area_count(&self) -> (count: usize)
        ensures
            count == self@.areas.len(),
    {
        self.areas.len()
    }

    /// The first page, the page behind the last one, and the rights of region `i`.
    pub fn area(&self, i: usize) -> (area: (usize, usize, MapPermission))
        requires
            i < self@.areas.len(),
        ensures
            area.0 == self@.areas[i as int].start,
            area.1 == self@.areas[i as int].end,
            area.2 == self@.areas[i as int].perm,
    {
        (self.areas[i].start_vpn, self.areas[i].end_vpn, self.areas[i].perm)
    }

    /// The position of the region that holds page `vpn`, if the page is mapped.
    pub fn find_area(&self, vpn: usize) -> (found: Option<usize>)
        requires
            self.wf(),
        ensures
            found is Some <==> self@.mapped(vpn as int),
            found is Some ==> found.unwrap() == self@.area_of(vpn as int),
            found is Some ==> found.unwrap() < self@.areas.len() && self@.areas[found.unwrap() as int].contains(
                vpn as int,
            ),
    {
        let mut i: usize = 0;
        while i < self.areas.len()
            invariant
                0 <= i <= self.areas@.len(),
                self.wf(),
                forall|j: int| 0 <= j < i ==> !(#[trigger] self@.areas[j]).contains(vpn as int),
            decreases self.areas@.len() - i,
        {
            if self.areas[i].start_vpn <= vpn && vpn < self.areas[i].end_vpn {
                proof {
                    assert(self@.areas[i as int].contains(vpn as int));
                    lemma_area_of(self@, i as int, vpn as int);
                }
                return Some(i);
            }
            i = i + 1;
        }
        None
    }

    /// Whether page `vpn` belongs to a region.
    pub fn is_mapped(&self, vpn: usize) -> (yes: bool)
        requires
            self.wf(),
        ensures
            yes == self@.mapped(vpn as int),
    {
        self.find_area(vpn).is_some()
    }

    /// Whether the pages that the addresses `start_va..end_va` touch share a page with a
    /// region.
    pub fn check_overlap(&self, start_va: VirtAddr, end_va: VirtAddr) -> (overlap: bool)
        requires
            self.wf(),
        ensures
            overlap == self@.overlaps(page_floor(start_va.0 as int), page_ceil(end_va.0 as int)),
    {
        let start = start_va.floor().0;
        let end = end_va.ceil().0;
        let mut i: usize = 0;
        while i < self.areas.len()
            invariant
                0 <= i <= self.areas@.len(),
                start == page_floor(start_va.0 as int),
                end == page_ceil(end_va.0 as int),
                forall|j: int|
                    0 <= j < i ==> !(#[trigger] self@.areas[j]).overlaps(start as int, end as int),
            decreases self.areas@.len() - i,
        {
            if self.areas[i].start_vpn < end && start < self.areas[i].end_vpn && start < end {
                assert(self@.areas[i as int].overlaps(start as int, end as int));
                return true;
            }
            i = i + 1;
        }
        false
    }

    /// Whether one of the pages that the addresses `start_va..end_va` touch belongs to no
    /// region.
    pub fn check_gap(&self, start_va: VirtAddr, end_va: VirtAddr) -> (gap: bool)
        requires
            self.wf(),
        ensures
            gap == self@.has_gap(page_floor(start_va.0 as int), page_ceil(end_va.0 as int)),
    {
        let start = start_va.floor().0;
        let end = end_va.ceil().0;
        let mut vpn: usize = start;
        while vpn < end
            invariant
                start <= vpn,
                start == page_floor(start_va.0 as int),
                end == page_ceil(end_va.0 as int),
                self.wf(),
                forall|page: int| start <= page < vpn ==> #[trigger] self@.mapped(page),
            decreases end - vpn,
        {
            match self.find_area(vpn) {
                None => {
                    return true;
                },
                Some(i) => {
                    let next = self.areas[i].end_vpn;
                    assert(self@.areas[i as int].contains(vpn as int));
                    assert(self@.areas[i as int].end == next);
                    assert forall|page: int| start <= page < next implies #[trigger] self@.mapped(
                        page,
                    ) by {
                        if page >= vpn {
                            assert(self@.areas[i as int].contains(vpn as int));
                            assert(self@.areas[i as int].contains(page));
                        }
                    }
                    vpn = if next < end { next } else { end };
                },
            }
        }
        false
    }

    /// Maps the pages that the addresses `start_va..end_va` touch, each backed by a zeroed
    /// frame. The caller has checked that none of them is mapped yet.
    pub fn insert_framed_area(&mut self, start_va: VirtAddr, end_va: VirtAddr, perm: MapPermission)
        requires
            old(self).wf(),
            !old(self)@.overlaps(page_floor(start_va.0 as int), page_ceil(end_va.0 as int)),
        ensures
            final(self).wf(),
            final(self).spec_token() == old(self).spec_token(),
            final(self)@ == old(self)@.map(
                page_floor(start_va.0 as int),
                page_ceil(end_va.0 as int),
                perm,
            ),
    {
        let start = start_va.floor().0;
        let end = end_va.ceil().0;
        proof {
            lemma_map_wf(self@, start as int, end as int, perm);
        }
        if start < end {
            let area = MapArea::new(start, end, perm);
            self.areas.push(area);
            assert(self@.areas =~= old(self)@.areas.push(area@));
        }
    }

    /// Unmaps the regions that lie among the pages that the addresses `start_va..end_va`
    /// touch, and releases their frames. Refuses, changing nothing, where a region has
    /// pages both among them and outside of them.
    pub fn remove_framed_area(&mut self, start_va: VirtAddr, end_va: VirtAddr) -> (removed: bool)
        requires
            old(self).wf(),
        ensures
            final(self).wf(),
            final(self).spec_token() == old(self).spec_token(),
            removed == !old(self)@.straddled(
                page_floor(start_va.0 as int),
                page_ceil(end_va.0 as int),
            ),
            removed ==> final(self)@ == old(self)@.unmap(
                page_floor(start_va.0 as int),
                page_ceil(end_va.0 as int),
            ),
            !removed ==> final(self)@ == old(self)@,
    {
        let start = start_va.floor().0;
        let end = end_va.ceil().0;
        let mut i: usize = 0;
        while i < self.areas.len()
            invariant
                0 <= i <= self.areas@.len(),
                *self == *old(self),
                old(self).wf(),
                start == page_floor(start_va.0 as int),
                end == page_ceil(end_va.0 as int),
                forall|j: int|
                    0 <= j < i && (#[trigger] self@.areas[j]).overlaps(start as int, end as int)
                        ==> self@.areas[j].inside(start as int, end as int),
            decreases self.areas@.len() - i,
        {
            let area = &self.areas[i];
            if area.start_vpn < end && start < area.end_vpn && start < end && !(start
                <= area.start_vpn && area.end_vpn <= end) {
                assert(self@.areas[i as int].overlaps(start as int, end as int));
                return false;
            }
            i = i + 1;
        }
        i = 0;
        while i < self.areas.len()
            invariant
                0 <= i <= self.areas@.len(),
                self.token == old(self).token,
                without_inside(self@.areas, start as int, end as int) == without_inside(
                    old(self)@.areas,
                    start as int,
                    end as int,
                ),
                forall|j: int| 0 <= j < i ==> !(#[trigger] self@.areas[j]).inside(start as int, end as int),
            decreases self.areas@.len() - i,
        {
            if start <= self.areas[i].start_vpn && self.areas[i].end_vpn <= end {
                let ghost before = self@.areas;
                self.areas.remove(i);
                proof {
                    assert(self@.areas =~= before.remove(i as int));
                    lemma_without_inside_remove(before, i as int, start as int, end as int);
                }
            } else {
                i = i + 1;
            }
        }
        proof {
            lemma_without_inside_none(self@.areas, start as int, end as int);
            lemma_without_inside_wf(old(self)@.areas, start as int, end as int);
            assert(self@ =~= old(self)@.unmap(start as int, end as int));
        }
        true
    }

    /// Translates the `len` bytes from address `ptr` on into the pieces of frames that
    /// hold them, one piece for each page that the buffer touches. `None` where one of
    /// those pages is not mapped.
    pub fn translated_byte_buffer(&self, ptr: usize, len: usize) -> (ranges: Option<Vec<ByteRange>>)
        requires
            self.wf(),
        ensures
            ranges is Some <==> self@.accessible(ptr as int, len as int),
            ranges is Some ==> is_translation(self@, ranges.unwrap()@, ptr as int, len as int),
    {
        let mut ranges: Vec<ByteRange> = Vec::new();
        let mut offset: usize = 0;
        while offset < len
            invariant
                self.wf(),
                0 <= offset <= len,
                ptr + offset <= usize::MAX + 1,
                offset > 0 ==> forall|vpn: int|
                    page_floor(ptr as int) <= vpn <= page_floor(ptr + offset - 1)
                        ==> #[trigger] self@.mapped(vpn),
                forall|k: int|
                    0 <= k < ranges@.len() ==> (#[trigger] ranges@[k]).offset + ranges@[k].len()
                        <= offset,
                forall|k: int|
                    0 <= k < ranges@.len() ==> (#[trigger] ranges@[k]).locates(
                        self@,
                        ptr + ranges@[k].offset,
                    ),
                forall|k: int, l: int|
                    0 <= k < ranges@.len() && l == k + 1 && l < ranges@.len() ==> (
                    #[trigger] ranges@[l]).offset == (#[trigger] ranges@[k]).offset
                        + ranges@[k].len(),
                ranges@.len() == 0 ==> offset == 0,
                ranges@.len() > 0 ==> ranges@[0].offset == 0 && ranges@.last().offset
                    + ranges@.last().len() == offset,
            decreases len - offset,
        {
            if offset > usize::MAX - ptr {
                proof {
                    let vpn = page_floor(ptr + len - 1);
                    if self@.mapped(vpn) {
                        let i = self@.area_of(vpn);
                        assert(self@.areas[i].contains(vpn));
                        assert(self@.areas[i].wf());
                    }
                }
                return None;
            }
            let va = ptr + offset;
            let vpn = va / PAGE_SIZE;
            match self.find_area(vpn) {
                None => {
                    return None;
                },
                Some(area) => {
                    let start = va % PAGE_SIZE;
                    let room = PAGE_SIZE - start;
                    let count = if len - offset < room { len - offset } else { room };
                    assert(self@.areas[area as int].wf());
                    let range = ByteRange {
                        offset,
                        area,
                        page: vpn - self.areas[area].start_vpn,
                        start,
                        end: start + count,
                    };
                    assert(range.locates(self@, ptr + offset));
                    assert(self@.areas[area as int].contains(vpn as int));
                    ranges.push(range);
                    offset = offset + count;
                    assert(page_floor(ptr + offset - 1) == vpn);
                },
            }
        }
        Some(ranges)
    }

    /// Copies the `len` bytes from address `ptr` on out of the space. `None` where one of
    /// them lies in a page that is not mapped.
    pub fn read_bytes(&self, ptr: usize, len: usize) -> (data: Option<Vec<u8>>)
        requires
            self.wf(),
        ensures
            data is Some <==> self@.accessible(ptr as int, len as int),
            data is Some ==> data.unwrap()@ == self@.bytes(ptr as int, len as int),
    {
        let ranges = match self.translated_byte_buffer(ptr, len) {
            None => {
                return None;
            },
            Some(ranges) => ranges,
        };
        let mut data: Vec<u8> = Vec::new();
        let mut k: usize = 0;
        while k < ranges.len()
            invariant
                self.wf(),
                0 <= k <= ranges@.len(),
                is_translation(self@, ranges@, ptr as int, len as int),
                k < ranges@.len() ==> data@.len() == ranges@[k as int].offset,
                k == ranges@.len() ==> data@.len() == len,
                forall|i: int| 0 <= i < data@.len() ==> #[trigger] data@[i] == self@.byte_at(ptr + i),
            decreases ranges@.len() - k,
        {
            let range = ranges[k];
            assert(range.locates(self@, ptr + range.offset));
            assert(self@.areas[range.area as int].wf());
            assert(self@.areas[range.area as int].frames[range.page as int].len() == PAGE_SIZE);
            let frame = &self.areas[range.area].frames[range.page];
            let mut j: usize = range.start;
            while j < range.end
                invariant
                    self.wf(),
                    range.locates(self@, ptr + range.offset),
                    frame@ == self@.areas[range.area as int].frames[range.page as int],
                    frame@.len() == PAGE_SIZE,
                    range.start <= j <= range.end,
                    data@.len() == range.offset + (j - range.start),
                    forall|i: int|
                        0 <= i < data@.len() ==> #[trigger] data@[i] == self@.byte_at(ptr + i),
                decreases range.end - j,
            {
                proof {
                    lemma_byte_at(self@, range.area as int, range.page as int, j as int);
                }
                data.push(frame[j]);
                j = j + 1;
            }
            proof {
                if k + 1 < ranges@.len() {
                    assert(ranges@[k + 1].offset == ranges@[k as int].offset + ranges@[k as int].len());
                } else {
                    assert(ranges@.last() == ranges@[k as int]);
                }
            }
            k = k + 1;
        }
        assert(data@ =~= self@.bytes(ptr as int, len as int));
        Some(data)
    }

    /// Stores `data` from address `ptr` on. Refuses, changing nothing, where one of the
    /// bytes would fall into a page that is not mapped.
    pub fn write_bytes(&mut self, ptr: usize, data: &[u8]) -> (stored: bool)
        requires
            old(self).wf(),
        ensures
            final(self).wf(),
            final(self).spec_token() == old(self).spec_token(),
            stored == old(self)@.accessible(ptr as int, data@.len() as int),
            stored ==> old(self)@.written(ptr as int, data@, final(self)@),
            !stored ==> final(self)@ == old(self)@,
    {
        let len = data.len();
        let ranges = match self.translated_byte_buffer(ptr, len) {
            None => {
                return false;
            },
            Some(ranges) => ranges,
        };
        let mut k: usize = 0;
        let mut done: usize = 0;
        while k < ranges.len()
            invariant
                self.wf(),
                self.token == old(self).token,
                len == data@.len(),
                0 <= k <= ranges@.len(),
                0 <= done <= len,
                is_translation(self@, ranges@, ptr as int, len as int),
                k < ranges@.len() ==> done == ranges@[k as int].offset,
                k == ranges@.len() ==> done == len,
                old(self)@.written(ptr as int, data@.take(done as int), self@),
            decreases ranges@.len() - k,
        {
            let range = ranges[k];
            assert(range.locates(self@, ptr + range.offset));
            assert(self@.areas[range.area as int].wf());
            assert(range.offset + range.len() <= len);
            assert(self@.areas[range.area as int].frames[range.page as int].len() == PAGE_SIZE);
            let mut j: usize = range.start;
            while j < range.end
                invariant
                    self.wf(),
                    self.token == old(self).token,
                    len == data@.len(),
                    0 <= k < ranges@.len(),
                    range == ranges@[k as int],
                    is_translation(self@, ranges@, ptr as int, len as int),
                    range.start <= j <= range.end,
                    done == range.offset + (j - range.start),
                    range.offset + range.len() <= len,
                    old(self)@.written(ptr as int, data@.take(done as int), self@),
                decreases range.end - j,
            {
                let ghost before = self@;
                proof {
                    lemma_byte_at(before, range.area as int, range.page as int, j as int);
                    lemma_poke(before, range.area as int, range.page as int, j as int, data@[done as int]);
                }
                self.areas[range.area].frames[range.page][j] = data[done];
                proof {
                    let after = before.poke(range.area as int, range.page as int, j as int, data@[done as int]);
                    assert(self@.areas[range.area as int].frames =~~= after.areas[range.area as int].frames);
                    assert(self@.areas =~~= after.areas);
                    assert(self@ == after);
                    let wrote = data@.take(done as int);
                    let writes = data@.take(done + 1);
                    assert forall|addr: int|
                        #[trigger] after.byte_at(addr) == if ptr <= addr < ptr + writes.len() {
                            writes[addr - ptr]
                        } else {
                            old(self)@.byte_at(addr)
                        } by {
                        assert(before.byte_at(addr) == if ptr <= addr < ptr + wrote.len() {
                            wrote[addr - ptr]
                        } else {
                            old(self)@.byte_at(addr)
                        });
                    }
                    assert forall|q: int| 0 <= q < ranges@.len() implies (#[trigger] ranges@[q]).locates(
                        after,
                        ptr + ranges@[q].offset,
                    ) by {
                        assert(ranges@[q].locates(before, ptr + ranges@[q].offset));
                        assert(before.areas[ranges@[q].area as int].start == after.areas[ranges@[q].area as int].start);
                    }
                }
                j = j + 1;
                done = done + 1;
            }
            proof {
                if k + 1 < ranges@.len() {
                    assert(ranges@[k + 1].offset == ranges@[k as int].offset + ranges@[k as int].len());
                } else {
                    assert(ranges@.last() == ranges@[k as int]);
                }
            }
            k = k + 1;
        }
        assert(data@.take(len as int) =~= data@);
        true
    }

    /// The byte at address `va`, if its page is mapped.
    pub fn read_byte(&self, va: usize) -> (byte: Option<u8>)
        requires
            self.wf(),
        ensures
            byte is Some <==> self@.mapped(page_floor(va as int)),
            byte is Some ==> byte.unwrap() == self@.byte_at(va as int),
    {
        let vpn = va / PAGE_SIZE;
        match self.find_area(vpn) {
            None => None,
            Some(area) => {
                assert(self@.areas[area as int].wf());
                let page = vpn - self.areas[area].start_vpn;
                proof {
                    lemma_byte_at(self@, area as int, page as int, (va % PAGE_SIZE) as int);
                }
                Some(self.areas[area].frames[page][va % PAGE_SIZE])
            },
        }
    }

    /// Reads the string that starts at address `ptr` and ends before the first zero byte.
    /// `None` where unmapped memory is met before a zero byte.
    pub fn translated_str(&self, ptr: usize) -> (text: Option<Vec<u8>>)
        requires
            self.wf(),
        ensures
            match text {
                Some(text) => self@.terminated_at(ptr as int, text@.len() as int) && text@
                    == self@.bytes(ptr as int, text@.len() as int),
                None => exists|len: int| self@.unterminated_at(ptr as int, len),
            },
    {
        let mut text: Vec<u8> = Vec::new();
        let mut va: usize = ptr;
        loop
            invariant
                self.wf(),
                ptr <= va,
                va == ptr + text@.len(),
                forall|addr: int| ptr <= addr < ptr + text@.len() ==> #[trigger] self@.text_at(addr),
                forall|i: int| 0 <= i < text@.len() ==> #[trigger] text@[i] == self@.byte_at(ptr + i),
            decreases usize::MAX - va,
        {
            match self.read_byte(va) {
                None => {
                    assert(self@.unterminated_at(ptr as int, text@.len() as int));
                    return None;
                },
                Some(byte) => {
                    if byte == 0 {
                        assert(text@ =~= self@.bytes(ptr as int, text@.len() as int));
                        return Some(text);
                    }
                    if va == usize::MAX {
                        proof {
                            let vpn = page_floor(va + 1);
                            if self@.mapped(vpn) {
                                let i = self@.area_of(vpn);
                                assert(self@.areas[i].contains(vpn));
                                assert(self@.areas[i].wf());
                            }
                            assert(self@.text_at(va as int));
                            assert(self@.unterminated_at(ptr as int, (text@.len() + 1) as int));
                        }
                        return None;
                    }
                    assert(self@.text_at(va as int));
                    text.push(byte);
                    va = va + 1;
                },
            }
        }
    }

    /// The position of the region that starts at page `start`, if there is one.
    fn find_area_starting(&self, start: usize) -> (found: Option<usize>)
        requires
            self.wf(),
        ensures
            found is Some <==> self@.has_area_starting(start as int),
            found is Some ==> found.unwrap() == self@.area_starting(start as int)
                && found.unwrap() < self@.areas.len(),
    {
        let mut i: usize = 0;
        while i < self.areas.len()
            invariant
                0 <= i <= self.areas@.len(),
                self.wf(),
                forall|j: int| 0 <= j < i ==> (#[trigger] self@.areas[j]).start != start,
            decreases self.areas@.len() - i,
        {
            if self.areas[i].start_vpn == start {
                proof {
                    lemma_area_starting(self@, i as int);
                }
                return Some(i);
            }
            i = i + 1;
        }
        None
    }

    /// Cuts the region that starts at the page of `start_va` down to end at the page
    /// boundary at or after `new_end_va`, releasing the frames behind it; a region of
    /// which nothing is left is removed. Refuses, changing nothing, where no region
    /// starts there or the new end lies outside of the region.
    pub fn shrink_to(&mut self, start_va: VirtAddr, new_end_va: VirtAddr) -> (done: bool)
        requires
            old(self).wf(),
        ensures
            final(self).wf(),
            final(self).spec_token() == old(self).spec_token(),
            done == old(self)@.shrink_result(
                page_floor(start_va.0 as int),
                page_ceil(new_end_va.0 as int),
            ) is Some,
            done ==> Some(final(self)@) == old(self)@.shrink_result(
                page_floor(start_va.0 as int),
                page_ceil(new_end_va.0 as int),
            ),
            !done ==> final(self)@ == old(self)@,
    {
        let start = start_va.floor().0;
        let end = new_end_va.ceil().0;
        let i = match self.find_area_starting(start) {
            None => {
                return false;
            },
            Some(i) => i,
        };
        if end < start || end > self.areas[i].end_vpn {
            return false;
        }
        proof {
            lemma_shrink_wf(self@, start as int, end as int);
            assert(self@.areas[i as int].wf());
        }
        if end == start {
            self.areas.remove(i);
            assert(self@.areas =~= old(self)@.areas.remove(i as int));
        } else {
            self.areas[i].frames.truncate(end - start);
            self.areas[i].end_vpn = end;
            assert(self@.areas[i as int].frames =~= old(self)@.areas[i as int].resized(end as int).frames);
            assert(self@.areas =~= old(self)@.areas.update(
                i as int,
                old(self)@.areas[i as int].resized(end as int),
            ));
        }
        true
    }

    /// Grows the region that starts at the page of `start_va` to end at the page boundary
    /// at or after `new_end_va`, backing the new pages with zeroed frames. Refuses,
    /// changing nothing, where no region starts there, the new end lies before the old
    /// one, or a page to be added belongs to another region.
    pub fn append_to(&mut self, start_va: VirtAddr, new_end_va: VirtAddr) -> (done: bool)
        requires
            old(self).wf(),
        ensures
            final(self).wf(),
            final(self).spec_token() == old(self).spec_token(),
            done == old(self)@.append_result(
                page_floor(start_va.0 as int),
                page_ceil(new_end_va.0 as int),
            ) is Some,
            done ==> Some(final(self)@) == old(self)@.append_result(
                page_floor(start_va.0 as int),
                page_ceil(new_end_va.0 as int),
            ),
            !done ==> final(self)@ == old(self)@,
    {
        let start = start_va.floor().0;
        let end = new_end_va.ceil().0;
        let i = match self.find_area_starting(start) {
            None => {
                return false;
            },
            Some(i) => i,
        };
        let old_end = self.areas[i].end_vpn;
        if end < old_end {
            return false;
        }
        let mut k: usize = 0;
        while k < self.areas.len()
            invariant
                0 <= k <= self.areas@.len(),
                *self == *old(self),
                old(self).wf(),
                start == page_floor(start_va.0 as int),
                end == page_ceil(new_end_va.0 as int),
                self@.has_area_starting(start as int),
                i == self@.area_starting(start as int),
                old_end == self@.areas[i as int].end,
                old_end <= end,
                forall|j: int|
                    0 <= j < k ==> !(#[trigger] self@.areas[j]).overlaps(old_end as int, end as int),
            decreases self.areas@.len() - k,
        {
            if self.areas[k].start_vpn < end && old_end < self.areas[k].end_vpn && old_end < end {
                assert(self@.areas[k as int].overlaps(old_end as int, end as int));
                return false;
            }
            k = k + 1;
        }
        proof {
            lemma_append_wf(self@, start as int, end as int);
            assert(self@.areas[i as int].wf());
        }
        let mut vpn: usize = old_end;
        while vpn < end
            invariant
                old_end <= vpn <= end,
                i < self.areas@.len(),
                self.token == old(self).token,
                self.areas@.len() == old(self).areas@.len(),
                forall|j: int| 0 <= j < self.areas@.len() && j != i ==> self.areas@[j] == old(self).areas@[j],
                self.areas@[i as int].start_vpn == start,
                self.areas@[i as int].end_vpn == old_end,
                self.areas@[i as int].perm == old(self).areas@[i as int].perm,
                old(self)@.areas[i as int].frames.len() == old_end - start,
                self.areas@[i as int].frames@.len() == vpn - start,
                forall|page: int|
                    0 <= page < vpn - start ==> (#[trigger] self.areas@[i as int].frames@[page])@ == (
                    if page < old_end - start {
                        old(self)@.areas[i as int].frames[page]
                    } else {
                        zero_frame()
                    }),
            decreases end - vpn,
        {
            let frame = vec![0u8; PAGE_SIZE];
            assert(frame@ =~= zero_frame());
            self.areas[i].frames.push(frame);
            vpn = vpn + 1;
        }
        self.areas[i].end_vpn = end;
        proof {
            assert(self@.areas[i as int].frames =~= old(self)@.areas[i as int].resized(end as int).frames);
            assert(self@.areas =~= old(self)@.areas.update(
                i as int,
                old(self)@.areas[i as int].resized(end as int),
            ));
        }
        true
    }
}

} // verus!
