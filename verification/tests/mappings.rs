//! Mappings against a small model of a page table and of memory.

use std::collections::BTreeMap;

use axcache::addr::{PageSize, VirtAddrRange};
use axcache::effect::{Effect, Reply, Request, Turn};
use axcache::error::{AxError, PagingError};
use axcache::flags::{FileFlags, MappingFlags, NodeFlags, VmaFlags};
use axcache::fs::backend::FileBackend as OpenFile;
use axcache::fs::cache::CachedFileShared;
use axcache::fs::cached_file::CachedFile;
use axcache::fs::location::{Location, NodeType};
use axcache::fs::page::PageOperation;
use axcache::mm::backend::{Backend, BackendOps};
use axcache::mm::cow::{BackingFile, CowBackend};
use axcache::mm::file::FileBackend;
use axcache::mm::frames::FrameTable;
use axcache::mm::linear::LinearBackend;
use axcache::mm::policy::{Policies, ShmemThpPolicy};
use axcache::mm::scan::{Scan, Verdict};
use axcache::mm::shared::SharedBackend;

const PAGE: usize = 4096;
const HUGE: usize = 2_097_152;
const BASE: usize = 0x4000_0000;

#[derive(Clone, Copy, PartialEq, Debug)]
struct Entry {
    paddr: usize,
    flags: MappingFlags,
    size: PageSize,
}

struct Space {
    table: BTreeMap<usize, Entry>,
    copy: BTreeMap<usize, Entry>,
    mem: Vec<u8>,
    next: usize,
    file: Vec<u8>,
    freed: Vec<(usize, PageSize)>,
}

impl Space {
    fn new() -> Space {
        Space {
            table: BTreeMap::new(),
            copy: BTreeMap::new(),
            mem: vec![0xee; 16 * 1024 * 1024],
            next: PAGE,
            file: Vec::new(),
            freed: Vec::new(),
        }
    }

    fn take(&mut self, bytes: usize) -> usize {
        let paddr = self.next.div_ceil(bytes) * bytes;
        self.next = paddr + bytes;
        paddr
    }

    /// The start of the page of the table with an address in it.
    fn start(&self, va: usize) -> Option<usize> {
        let small = va / PAGE * PAGE;
        let entry = self.table.get(&small)?;
        let bytes = entry.size.bytes();
        Some(va / bytes * bytes)
    }

    fn place(table: &mut BTreeMap<usize, Entry>, va: usize, paddr: usize, size: PageSize, flags: MappingFlags) {
        for i in 0..size.bytes() / PAGE {
            table.insert(va + i * PAGE, Entry { paddr: paddr + i * PAGE, flags, size });
        }
    }

    fn answer(&mut self, request: Request) -> Reply {
        let missing = Reply::Fault(PagingError::NotMapped);
        match request {
            Request::Query { va } => match self.table.get(&(va / PAGE * PAGE)) {
                Some(e) => Reply::Entry { paddr: e.paddr + va % PAGE, flags: e.flags, size: e.size },
                None => missing,
            },
            Request::MapPage { va, paddr, size, flags } => {
                assert!(!self.table.contains_key(&va));
                Space::place(&mut self.table, va, paddr, size, flags);
                Reply::Done
            }
            Request::MapInCopy { va, paddr, size, flags } => {
                assert!(!self.copy.contains_key(&va));
                Space::place(&mut self.copy, va, paddr, size, flags);
                Reply::Done
            }
            Request::UnmapPage { va } => match self.start(va) {
                Some(start) => {
                    let bytes = self.table[&start].size.bytes();
                    for i in 0..bytes / PAGE {
                        self.table.remove(&(start + i * PAGE));
                    }
                    Reply::Done
                }
                None => missing,
            },
            Request::Protect { va, flags } => match self.start(va) {
                Some(start) => {
                    let e = self.table[&start];
                    Space::place(&mut self.table, start, e.paddr, e.size, flags);
                    Reply::Done
                }
                None => missing,
            },
            Request::Remap { va, paddr, flags } => match self.start(va) {
                Some(start) => {
                    let e = self.table[&start];
                    Space::place(&mut self.table, start, paddr, e.size, flags);
                    Reply::Done
                }
                None => missing,
            },
            Request::RemapHuge { va, paddr, flags } => {
                Space::place(&mut self.table, va, paddr, PageSize::Size2M, flags);
                Reply::Done
            }
            Request::SplitHuge { va } => match self.start(va) {
                Some(start) => {
                    for i in 0..512 {
                        self.table.get_mut(&(start + i * PAGE)).unwrap().size = PageSize::Size4K;
                    }
                    Reply::Done
                }
                None => missing,
            },
            Request::AllocFrame { zeroed, size } => {
                let paddr = self.take(size.bytes());
                if zeroed {
                    self.mem[paddr..paddr + size.bytes()].fill(0);
                }
                Reply::Addr(paddr)
            }
            Request::AllocPage { bytes } => Reply::Addr(self.take(bytes)),
            Request::FileLen => Reply::Len(self.file.len() as u64),
            Request::FileRead { paddr, len, offset } => {
                let start = (offset as usize).min(self.file.len());
                let end = (start + len).min(self.file.len());
                self.mem[paddr..paddr + (end - start)].copy_from_slice(&self.file[start..end]);
                Reply::Done
            }
            Request::FileWrite { .. } | Request::Relax => Reply::Done,
            other => panic!("unexpected {other:?}"),
        }
    }

    fn perform(&mut self, effects: &mut Vec<Effect>) {
        for effect in effects.drain(..) {
            match effect {
                Effect::FreeFrame { paddr, size } => self.freed.push((paddr, size)),
                Effect::Copy { src, dst, len } => self.mem.copy_within(src..src + len, dst),
                Effect::Zero { paddr, len } => self.mem[paddr..paddr + len].fill(0),
                Effect::Notify { .. } | Effect::FreePage(_) => {}
            }
        }
    }

    fn load(&self, va: usize) -> u8 {
        let e = self.table[&(va / PAGE * PAGE)];
        self.mem[e.paddr + va % PAGE]
    }

    fn store(&mut self, va: usize, byte: u8) {
        let e = self.table[&(va / PAGE * PAGE)];
        assert!(e.flags.writable());
        self.mem[e.paddr + va % PAGE] = byte;
    }
}

fn run<T, F>(space: &mut Space, mut step: F) -> Result<T, AxError>
where
    F: FnMut(Reply, &mut Vec<Effect>) -> Turn<T>,
{
    let mut reply = Reply::Start;
    loop {
        let mut effects = Vec::new();
        let turn = step(reply, &mut effects);
        space.perform(&mut effects);
        match turn {
            Turn::Ask(request) => reply = space.answer(request),
            Turn::Finished(result) => return result,
        }
    }
}

fn range(first: usize, pages: usize) -> VirtAddrRange {
    VirtAddrRange::from_start_size(BASE + first * PAGE, pages * PAGE)
}

fn rw() -> MappingFlags {
    MappingFlags::of(MappingFlags::READ | MappingFlags::WRITE | MappingFlags::USER)
}

fn write() -> MappingFlags {
    MappingFlags::of(MappingFlags::WRITE)
}

fn anonymous() -> CowBackend {
    CowBackend { start: BASE, size: PageSize::Size4K, file: None, vma_flags: VmaFlags::empty() }
}

fn populate(s: &mut Space, f: &mut FrameTable, b: &CowBackend, r: VirtAddrRange, access: MappingFlags) -> usize {
    let mut m = b.populate(r, rw(), access);
    run(s, |reply, e| m.step(f, reply, e)).unwrap()
}

fn cached(in_memory: bool) -> CachedFile {
    let name = if in_memory { "tmpfs" } else { "ext4" };
    let inner = Location::new(7, NodeType::RegularFile, NodeFlags { bits: 0 }, name);
    CachedFile { inner, shared: 1, in_memory }
}

#[test]
fn private_memory_starts_with_zeros() {
    let (mut s, mut f) = (Space::new(), FrameTable::new());
    let b = anonymous();
    assert_eq!(populate(&mut s, &mut f, &b, range(0, 3), write()), 3);
    assert_eq!(s.table.len(), 3);
    for va in [BASE, BASE + PAGE + 7, BASE + 3 * PAGE - 1] {
        assert_eq!(s.load(va), 0);
    }
    for e in s.table.values() {
        assert_eq!(f.frame_ref_count(e.paddr), 1);
    }
    assert_eq!(populate(&mut s, &mut f, &b, range(0, 3), write()), 3);
    assert_eq!(s.table.len(), 3);
}

#[test]
fn a_private_file_mapping_starts_with_the_bytes_of_the_file() {
    let (mut s, mut f) = (Space::new(), FrameTable::new());
    s.file = (0..2 * PAGE + 100).map(|i| (i % 250) as u8).collect();
    let file = OpenFile::new_direct(cached(false).inner);
    let backing = BackingFile { file, file_start: PAGE as u64, file_end: Some(2 * PAGE as u64 + 50) };
    let b = CowBackend { file: Some(backing), ..anonymous() };
    assert_eq!(populate(&mut s, &mut f, &b, range(0, 2), MappingFlags::of(MappingFlags::READ)), 2);
    assert_eq!(s.load(BASE), s.file[PAGE]);
    assert_eq!(s.load(BASE + PAGE + 49), s.file[2 * PAGE + 49]);
    assert_eq!(s.load(BASE + PAGE + 50), 0);
}

#[test]
fn a_copy_does_not_see_later_writes() {
    let (mut s, mut f) = (Space::new(), FrameTable::new());
    let b = anonymous();
    populate(&mut s, &mut f, &b, range(0, 2), write());
    s.store(BASE, 1);
    let mut m = b.clone_map(range(0, 2), rw());
    assert_eq!(run(&mut s, |reply, _| m.step(&mut f, reply)), Ok(b));
    let shared = s.table[&BASE].paddr;
    assert_eq!(s.copy[&BASE].paddr, shared);
    assert!(!s.table[&BASE].flags.writable() && !s.copy[&BASE].flags.writable());
    assert_eq!(f.frame_ref_count(shared), 2);
    assert_eq!(populate(&mut s, &mut f, &b, range(0, 1), write()), 1);
    s.store(BASE, 2);
    assert_ne!(s.table[&BASE].paddr, shared);
    assert_eq!(s.mem[shared], 1);
    assert_eq!(f.frame_ref_count(shared), 1);
    std::mem::swap(&mut s.table, &mut s.copy);
    assert_eq!(populate(&mut s, &mut f, &b, range(0, 1), write()), 1);
    assert_eq!(s.table[&BASE].paddr, shared);
    assert_eq!(s.load(BASE), 1);
}

#[test]
fn an_unmapping_gives_back_the_frames_that_nobody_else_has() {
    let (mut s, mut f) = (Space::new(), FrameTable::new());
    let b = anonymous();
    populate(&mut s, &mut f, &b, range(0, 4), write());
    let frames: Vec<usize> = s.table.values().map(|e| e.paddr).collect();
    f.inc_frame_ref(frames[1]);
    let mut m = b.unmap(range(0, 3));
    assert_eq!(run(&mut s, |reply, e| m.step(&mut f, reply, e)), Ok(()));
    assert_eq!(s.table.keys().copied().collect::<Vec<usize>>(), vec![BASE + 3 * PAGE]);
    assert_eq!(s.freed, vec![(frames[0], PageSize::Size4K), (frames[2], PageSize::Size4K)]);
    assert_eq!(f.frame_ref_count(frames[1]), 1);
    let mut crooked = b.unmap(VirtAddrRange { start: BASE + 1, end: BASE + PAGE });
    assert_eq!(run(&mut s, |reply, e| crooked.step(&mut f, reply, e)), Err(AxError::InvalidInput));
}

#[test]
fn a_window_collapses_into_a_huge_page_with_its_bytes() {
    let (mut s, mut f) = (Space::new(), FrameTable::new());
    let b = anonymous();
    populate(&mut s, &mut f, &b, range(0, 512), write());
    for i in 0..512 {
        s.store(BASE + i * PAGE + i, (i % 200) as u8 + 1);
    }
    let mut t = b.try_collapse_page(range(0, 512), 10, 10, 0, 1000);
    assert_eq!(run(&mut s, |reply, e| t.step(&mut f, reply, e)), Ok(true));
    assert_eq!(t.pages_scanned(), 512);
    assert_eq!(s.table[&BASE].size, PageSize::Size2M);
    for i in 0..512 {
        assert_eq!(s.load(BASE + i * PAGE + i), (i % 200) as u8 + 1);
        assert_eq!(f.frame_ref_count(s.table[&(BASE + i * PAGE)].paddr), 1);
    }
    assert_eq!(s.freed.len(), 512);
    s.freed.clear();
    let mut m = b.unmap(range(0, 1));
    assert_eq!(run(&mut s, |reply, e| m.step(&mut f, reply, e)), Ok(()));
    assert_eq!(s.table.len(), 511);
    assert_eq!(s.table[&(BASE + PAGE)].size, PageSize::Size4K);
    assert_eq!(s.freed.len(), 1);
}

#[test]
fn a_collapse_needs_enough_pages() {
    let (mut s, mut f) = (Space::new(), FrameTable::new());
    let b = anonymous();
    populate(&mut s, &mut f, &b, range(0, 500), write());
    let mut t = b.try_collapse_page(range(0, 512), 11, 0, 0, 1000);
    assert_eq!(run(&mut s, |reply, e| t.step(&mut f, reply, e)), Ok(false));
    let mut t = b.try_collapse_page(range(0, 512), 12, 0, 0, 100);
    assert_eq!(run(&mut s, |reply, e| t.step(&mut f, reply, e)), Ok(false));
    assert_eq!(t.pages_scanned(), 100);
    let mut empty = b.collapse_page(range(512, 512), false);
    assert_eq!(run(&mut s, |reply, e| empty.step(&mut f, reply, e)), Err(AxError::InvalidInput));
    let mut all = b.collapse_page(range(0, 512), true);
    assert_eq!(run(&mut s, |reply, e| all.step(&mut f, reply, e)), Ok(()));
    assert_eq!(s.table.len(), 512);
}

#[test]
fn a_scan_keeps_to_its_limits() {
    let entry = Reply::Entry { paddr: PAGE, flags: rw(), size: PageSize::Size4K };
    let missing = Reply::Fault(PagingError::NotMapped);
    let mut scan = Scan::new(vec![0, PAGE, 2 * PAGE], 1, 1, 5, 8);
    assert_eq!(scan.look(), Verdict::Look(0));
    assert_eq!(scan.note(entry, true), Verdict::Look(PAGE));
    assert_eq!(scan.note(missing, false), Verdict::Look(2 * PAGE));
    assert_eq!(scan.note(entry, false), Verdict::Passed);
    assert_eq!(scan.scanned, 8);
    let mut scan = Scan::new(vec![0, PAGE], 0, 0, 7, 8);
    assert_eq!(scan.look(), Verdict::Look(0));
    assert_eq!(scan.note(entry, false), Verdict::Refused);
    assert_eq!(scan.scanned, 8);
    let mut scan = Scan::new(vec![0, PAGE], 5, 0, 0, 8);
    scan.look();
    assert_eq!(scan.note(entry, true), Verdict::Refused);
}

#[test]
fn frames_are_counted() {
    let mut f = FrameTable::new();
    let mut effects = Vec::new();
    f.inc_frame_ref(PAGE);
    f.inc_frame_ref(PAGE);
    assert_eq!(f.dec_frame_ref(PAGE), 2);
    f.drop_frame_ref(PAGE, PageSize::Size4K, &mut effects);
    assert_eq!(effects, vec![Effect::FreeFrame { paddr: PAGE, size: PageSize::Size4K }]);
    assert_eq!(f.dec_frame_ref(PAGE), 0);
    effects.clear();
    f.inc_block(HUGE);
    f.inc_frame_ref(HUGE + PAGE);
    f.drop_block(HUGE, &mut effects);
    assert_eq!(effects.len(), 511);
    assert_eq!(f.frame_ref_count(HUGE + PAGE), 1);
}

#[test]
fn a_file_mapping_shows_the_cached_pages() {
    let mut s = Space::new();
    s.file = (0..3 * PAGE).map(|i| (i % 251) as u8).collect();
    let mut shared = CachedFileShared::new(false);
    let flags = FileFlags::of(FileFlags::READ | FileFlags::WRITE);
    let b = match Backend::new_file(1, BASE, cached(false), flags, PAGE) {
        Backend::File(b) => b,
        other => panic!("{other:?}"),
    };
    let read = MappingFlags::of(MappingFlags::READ);
    let mut m = b.populate(range(0, 2), rw(), read);
    assert_eq!(run(&mut s, |reply, e| m.step(&mut shared, reply, e)), Ok(2));
    assert_eq!(s.load(BASE), s.file[PAGE]);
    assert_eq!(s.load(BASE + PAGE + 9), s.file[2 * PAGE + 9]);
    assert_eq!(s.table[&BASE].paddr, shared.touch(1).unwrap().paddr);
    assert!(!s.table[&BASE].flags.writable());
    let mut m = b.populate(range(0, 1), rw(), write());
    assert_eq!(run(&mut s, |reply, e| m.step(&mut shared, reply, e)), Ok(1));
    assert!(s.table[&BASE].flags.writable());
    assert!(shared.touch(1).unwrap().is_dirty());
    assert!(!shared.touch(2).unwrap().is_dirty());
    let mut m = b.populate(range(8, 1), rw(), read);
    assert_eq!(run(&mut s, |reply, e| m.step(&mut shared, reply, e)), Err(AxError::BadAddress));
    let mut m = b.unmap(range(0, 2));
    assert_eq!(run(&mut s, |reply, _| m.step(reply)), Ok(()));
    assert!(s.table.is_empty());
}

#[test]
fn a_file_mapping_needs_the_rights_of_the_file() {
    let file = |bits: u8| FileBackend {
        ..match Backend::new_file(1, BASE, cached(false), FileFlags::of(bits), 0) {
            Backend::File(b) => b,
            other => panic!("{other:?}"),
        }
    };
    let read = MappingFlags::of(MappingFlags::READ);
    assert_eq!(file(FileFlags::READ).check_flags(read), Ok(()));
    assert_eq!(file(FileFlags::READ).check_flags(rw()), Err(AxError::PermissionDenied));
    assert_eq!(file(FileFlags::READ | FileFlags::WRITE).map(rw()), Ok(()));
    assert_eq!(file(0).on_protect(read), Err(AxError::PermissionDenied));
}

fn shared_memory() -> SharedBackend {
    match Backend::new_shared(4, BASE, cached(true)) {
        Backend::Shared(b) => b,
        other => panic!("{other:?}"),
    }
}

#[test]
fn shared_memory_shows_the_cached_pages() {
    let mut s = Space::new();
    let mut shared = CachedFileShared::new_unbounded(true);
    let b = shared_memory();
    let mut m = b.populate(range(0, 512), rw(), rw());
    assert_eq!(run(&mut s, |reply, e| m.step(&mut shared, reply, e)), Ok(512));
    assert_eq!(s.load(BASE + 5 * PAGE), 0);
    s.store(BASE + 5 * PAGE, 42);
    assert_eq!(s.mem[shared.touch(5).unwrap().paddr], 42);
    let mut t = b.try_collapse_page(range(0, 512), 0, 0, 1000);
    assert_eq!(run(&mut s, |reply, e| t.step(&mut shared, reply, e)), Ok(true));
    assert_eq!(shared.len(), 1);
    let huge = shared.touch(0).unwrap();
    assert_eq!(huge.size, HUGE);
    assert_eq!(s.mem[huge.paddr + 5 * PAGE], 42);
}

#[test]
fn huge_shared_memory_is_unmapped_in_part() {
    let mut s = Space::new();
    let mut shared = CachedFileShared::new_unbounded(true);
    let b = shared_memory();
    let paddr = s.take(HUGE);
    shared.push(0, axcache::fs::page::PageCache::from_addr(paddr, HUGE));
    Space::place(&mut s.table, BASE, paddr, PageSize::Size2M, rw());
    let mut m = b.unmap(range(0, 2));
    assert_eq!(run(&mut s, |reply, e| m.step(&mut shared, reply, e)), Ok(()));
    assert_eq!(s.table.len(), 510);
    assert_eq!(shared.len(), 512);
    assert_eq!(shared.touch(3).unwrap().paddr, paddr + 3 * PAGE);
}

#[test]
fn a_linear_mapping_keeps_its_distance() {
    let b = LinearBackend { offset: 0x1000_0000 };
    assert_eq!(b.pa(BASE), BASE - 0x1000_0000);
    let mut m = b.map(range(0, 2), rw());
    assert!(matches!(
        m.step(Reply::Start),
        Turn::Ask(Request::MapRegion { va: BASE, paddr: 0x3000_0000, len: 8192, .. })
    ));
    assert!(matches!(m.step(Reply::Done), Turn::Finished(Ok(()))));
    let mut m = b.unmap(range(0, 2));
    assert!(matches!(m.step(Reply::Start), Turn::Ask(Request::UnmapRegion { va: BASE, len: 8192 })));
    assert!(matches!(
        m.step(Reply::Fault(PagingError::NoMemory)),
        Turn::Finished(Err(AxError::NoMemory))
    ));
}

#[test]
fn flags_of_an_area_are_set_and_cleared() {
    let policies = axcache::mm::policy::Policies::new();
    let mut b = anonymous();
    let huge = VmaFlags::of(VmaFlags::VM_HUGEPAGE);
    let never = VmaFlags::of(VmaFlags::VM_NOHUGEPAGE);
    assert!(!b.contain_vma_flag(huge));
    b.set_vma_flag(&policies, huge);
    assert!(b.contain_vma_flag(huge));
    b.set_vma_flag(&policies, never);
    assert!(!b.transparent_hugepage_enabled(&policies));
    b.clear_vma_flag(&policies, never);
    assert!(!b.contain_vma_flag(never));
}

#[test]
fn an_evicted_page_is_unmapped_where_it_is_mapped() {
    let b = shared_memory();
    let area = Some(Backend::Shared(b));
    assert_eq!(
        b.inner.on_evict(3, area, PageOperation::Unmap),
        Some(Request::UnmapPage { va: BASE + 3 * PAGE })
    );
    assert_eq!(
        b.inner.on_evict(512, area, PageOperation::Demote),
        Some(Request::SplitHuge { va: BASE + HUGE })
    );
    assert_eq!(b.inner.on_evict(3, None, PageOperation::Unmap), None);
    let other = Backend::new_linear(0);
    assert_eq!(b.inner.on_evict(3, Some(other), PageOperation::Unmap), None);
}

#[test]
fn a_huge_page_that_is_covered_in_part_is_demoted() {
    let mut s = Space::new();
    let mut shared = CachedFileShared::new_unbounded(true);
    let b = shared_memory();
    let paddr = s.take(HUGE);
    shared.push(0, axcache::fs::page::PageCache::from_addr(paddr, HUGE));
    Space::place(&mut s.table, BASE, paddr, PageSize::Size2M, rw());
    let mut m = b.demote_huge(range(3, 2));
    assert_eq!(run(&mut s, |reply, e| m.step(&mut shared, reply, e)), Ok(()));
    assert_eq!(s.table[&BASE].size, PageSize::Size4K);
    assert_eq!(s.table[&(BASE + 7 * PAGE)].paddr, paddr + 7 * PAGE);
    assert_eq!(shared.len(), 512);
}

#[test]
fn a_mapped_memory_file_collapses_into_a_huge_page() {
    let mut s = Space::new();
    s.file = vec![0; HUGE];
    let mut shared = CachedFileShared::new_unbounded(true);
    let flags = FileFlags::of(FileFlags::READ | FileFlags::WRITE);
    let b = match Backend::new_file(1, BASE, cached(true), flags, 0) {
        Backend::File(b) => b,
        other => panic!("{other:?}"),
    };
    let mut m = b.populate(range(0, 512), rw(), write());
    assert_eq!(run(&mut s, |reply, e| m.step(&mut shared, reply, e)), Ok(512));
    s.store(BASE + 9 * PAGE + 1, 77);
    let mut t = b.try_collapse_page(range(0, 512), 0, 0, 1000);
    assert_eq!(run(&mut s, |reply, e| t.step(&mut shared, reply, e)), Ok(true));
    assert_eq!(t.pages_scanned(), 512);
    assert_eq!(s.table[&BASE].size, PageSize::Size2M);
    assert_eq!(s.table[&BASE].paddr, shared.touch(0).unwrap().paddr);
    assert_eq!(shared.len(), 1);
    assert_eq!(s.load(BASE + 9 * PAGE + 1), 77);
    let mut t = b.try_collapse_page(range(0, 512), 0, 10, 11);
    assert_eq!(run(&mut s, |reply, e| t.step(&mut shared, reply, e)), Ok(false));
    assert_eq!(t.pages_scanned(), 11);
}

fn mapped_file(in_memory: bool) -> FileBackend {
    let flags = FileFlags::of(FileFlags::READ | FileFlags::WRITE);
    match Backend::new_file(1, BASE, cached(in_memory), flags, 0) {
        Backend::File(b) => b,
        other => panic!("{other:?}"),
    }
}

fn shmem(policy: ShmemThpPolicy) -> Policies {
    Policies { shmem: policy, ..Policies::new() }
}

#[test]
fn flags_of_a_file_mapping_follow_the_policy() {
    let (always, advise) = (shmem(ShmemThpPolicy::Always), shmem(ShmemThpPolicy::Advise));
    let huge = VmaFlags::of(VmaFlags::VM_HUGEPAGE);
    let never = VmaFlags::of(VmaFlags::VM_NOHUGEPAGE);
    let mut b = mapped_file(true);
    b.set_vma_flag(&always, huge);
    assert!(!b.contain_vma_flag(huge));
    b.set_vma_flag(&advise, huge);
    assert!(b.contain_vma_flag(huge));
    b.clear_vma_flag(&advise, huge);
    assert!(b.contain_vma_flag(huge));
    b.clear_vma_flag(&always, never);
    assert!(!b.contain_vma_flag(never));
    assert!(b.contain_vma_flag(huge));
    b.clear_vma_flag(&always, huge);
    assert!(!b.contain_vma_flag(huge));
    b.clear_vma_flag(&always, huge);
    assert!(!b.contain_vma_flag(huge));
}

#[test]
fn a_file_mapping_uses_huge_pages_where_they_are_wanted() {
    let (always, advise) = (shmem(ShmemThpPolicy::Always), shmem(ShmemThpPolicy::Advise));
    let huge = VmaFlags::of(VmaFlags::VM_HUGEPAGE);
    let never = VmaFlags::of(VmaFlags::VM_NOHUGEPAGE);
    let mut b = mapped_file(true);
    assert!(!b.transparent_hugepage_enabled(&advise));
    assert!(b.transparent_hugepage_enabled(&always));
    b.set_vma_flag(&advise, huge);
    assert!(b.transparent_hugepage_enabled(&advise));
    b.set_vma_flag(&advise, never);
    assert!(!b.transparent_hugepage_enabled(&advise));
    assert!(!b.transparent_hugepage_enabled(&always));
    let mut b = mapped_file(false);
    b.set_vma_flag(&advise, huge);
    assert!(!b.transparent_hugepage_enabled(&advise));
    assert!(!b.transparent_hugepage_enabled(&always));
}

#[test]
fn a_file_population_passes_pages_without_the_rights() {
    let mut s = Space::new();
    s.file = vec![7; 3 * PAGE];
    let mut shared = CachedFileShared::new(true);
    let b = mapped_file(true);
    let read = MappingFlags::of(MappingFlags::READ);
    let execute = MappingFlags::of(MappingFlags::READ | MappingFlags::EXECUTE);
    let mut m = b.populate(range(0, 2), read, read);
    assert_eq!(run(&mut s, |reply, e| m.step(&mut shared, reply, e)), Ok(2));
    let before = s.table.clone();
    let mut m = b.populate(range(0, 3), execute, execute);
    assert_eq!(run(&mut s, |reply, e| m.step(&mut shared, reply, e)), Ok(1));
    assert_eq!(s.table[&BASE], before[&BASE]);
    assert_eq!(s.table[&(BASE + PAGE)], before[&(BASE + PAGE)]);
    assert_eq!(s.table[&(BASE + 2 * PAGE)].flags, execute);
}

#[test]
fn a_page_that_may_not_be_written_yet_does_not_satisfy_a_write() {
    let mut s = Space::new();
    s.file = vec![7; PAGE];
    let mut shared = CachedFileShared::new(false);
    let b = mapped_file(false);
    let mut m = b.populate(range(0, 1), rw(), write());
    assert_eq!(run(&mut s, |reply, e| m.step(&mut shared, reply, e)), Ok(0));
    assert!(!s.table[&BASE].flags.writable());
    let mut m = b.populate(range(0, 1), rw(), write());
    assert_eq!(run(&mut s, |reply, e| m.step(&mut shared, reply, e)), Ok(1));
    assert!(s.table[&BASE].flags.writable());
}

#[test]
fn a_shared_population_counts_the_satisfying_pages() {
    let mut s = Space::new();
    let mut shared = CachedFileShared::new_unbounded(true);
    let b = shared_memory();
    let read = MappingFlags::of(MappingFlags::READ);
    let mut m = b.populate(range(0, 2), read, read);
    assert_eq!(run(&mut s, |reply, e| m.step(&mut shared, reply, e)), Ok(2));
    let mut m = b.populate(range(0, 3), rw(), write());
    assert_eq!(run(&mut s, |reply, e| m.step(&mut shared, reply, e)), Ok(1));
    assert!(!s.table[&BASE].flags.writable());
    assert!(s.table[&(BASE + 2 * PAGE)].flags.writable());
    let mut m = b.populate(range(3, 2), read, write());
    assert_eq!(run(&mut s, |reply, e| m.step(&mut shared, reply, e)), Ok(0));
    let mut m = b.populate(range(0, 5), rw(), read);
    assert_eq!(run(&mut s, |reply, e| m.step(&mut shared, reply, e)), Ok(5));
}

#[test]
fn a_shared_population_maps_the_page_of_each_address() {
    let mut s = Space::new();
    let mut shared = CachedFileShared::new_unbounded(true);
    let b = shared_memory();
    let mut m = b.populate(range(1, 1), rw(), rw());
    assert_eq!(run(&mut s, |reply, e| m.step(&mut shared, reply, e)), Ok(1));
    let paddr = s.take(HUGE);
    shared.push(512, axcache::fs::page::PageCache::from_addr(paddr, HUGE));
    let mut m = b.populate(range(0, 3), rw(), rw());
    assert_eq!(run(&mut s, |reply, e| m.step(&mut shared, reply, e)), Ok(3));
    for pn in 0..3 {
        assert_eq!(s.table[&(BASE + pn * PAGE)].paddr, shared.touch(pn as u32).unwrap().paddr);
    }
    let mut m = b.populate(range(514, 2), rw(), rw());
    assert_eq!(run(&mut s, |reply, e| m.step(&mut shared, reply, e)), Ok(2));
    assert_eq!(s.table[&(BASE + 515 * PAGE)].paddr, paddr + 3 * PAGE);
    assert_eq!(s.table[&(BASE + 515 * PAGE)].size, PageSize::Size4K);
    let next = s.take(HUGE);
    shared.push(1024, axcache::fs::page::PageCache::from_addr(next, HUGE));
    let mut m = b.populate(range(1024, 513), rw(), rw());
    assert_eq!(run(&mut s, |reply, e| m.step(&mut shared, reply, e)), Ok(2));
    assert_eq!(s.table[&(BASE + 1024 * PAGE)].size, PageSize::Size2M);
    assert_eq!(s.table[&(BASE + 1030 * PAGE)].paddr, next + 6 * PAGE);
    assert_eq!(s.table[&(BASE + 1536 * PAGE)].size, PageSize::Size4K);
}

#[test]
fn an_attempt_on_an_empty_window_collapses_nothing() {
    let mut s = Space::new();
    s.file = vec![0; HUGE];
    let mut shared = CachedFileShared::new_unbounded(true);
    let b = shared_memory();
    let mut t = b.try_collapse_page(range(0, 512), 512, 0, 1000);
    assert_eq!(run(&mut s, |reply, e| t.step(&mut shared, reply, e)), Ok(false));
    let mut t = mapped_file(true).try_collapse_page(range(0, 512), 512, 0, 1000);
    assert_eq!(run(&mut s, |reply, e| t.step(&mut shared, reply, e)), Ok(false));
    assert!(s.table.is_empty());
    assert_eq!(shared.len(), 0);
}

#[test]
fn an_attempt_beside_a_huge_page_collapses_nothing() {
    let mut s = Space::new();
    s.file = vec![0; 2 * HUGE];
    let mut shared = CachedFileShared::new_unbounded(true);
    let paddr = s.take(HUGE);
    shared.push(256, axcache::fs::page::PageCache::from_addr(paddr, HUGE));
    let b = mapped_file(true);
    let mut m = b.populate(range(0, 512), rw(), rw());
    assert_eq!(run(&mut s, |reply, e| m.step(&mut shared, reply, e)), Ok(512));
    let mut t = b.try_collapse_page(range(0, 512), 0, 0, 1000);
    assert_eq!(run(&mut s, |reply, e| t.step(&mut shared, reply, e)), Ok(false));
    assert_eq!(s.table[&BASE].size, PageSize::Size4K);
    let mut m = b.collapse_page(range(0, 512), true);
    assert_eq!(run(&mut s, |reply, e| m.step(&mut shared, reply, e)), Ok(false));
}

#[test]
fn a_huge_page_that_is_covered_whole_stays_huge() {
    let mut s = Space::new();
    let mut shared = CachedFileShared::new_unbounded(true);
    let b = shared_memory();
    for i in 0..3 {
        let paddr = s.take(HUGE);
        shared.push(i * 512, axcache::fs::page::PageCache::from_addr(paddr, HUGE));
        Space::place(&mut s.table, BASE + i as usize * HUGE, paddr, PageSize::Size2M, rw());
    }
    let before = s.table.clone();
    let mut m = b.demote_huge(range(500, 600));
    assert_eq!(run(&mut s, |reply, e| m.step(&mut shared, reply, e)), Ok(()));
    assert_eq!(s.table[&BASE].size, PageSize::Size4K);
    assert_eq!(s.table[&(BASE + HUGE)].size, PageSize::Size2M);
    assert_eq!(s.table[&(BASE + 2 * HUGE)].size, PageSize::Size4K);
    for (va, entry) in &s.table {
        assert_eq!((entry.paddr, entry.flags), (before[va].paddr, before[va].flags));
    }
}

#[test]
fn a_huge_page_that_is_made_writable_counts_once() {
    let mut s = Space::new();
    s.file = vec![0; HUGE + PAGE];
    let mut shared = CachedFileShared::new_unbounded(true);
    let read = MappingFlags::of(MappingFlags::READ);
    let paddr = s.take(HUGE);
    shared.push(0, axcache::fs::page::PageCache::from_addr(paddr, HUGE));
    Space::place(&mut s.table, BASE, paddr, PageSize::Size2M, read);
    let mut m = mapped_file(true).populate(range(0, 513), rw(), write());
    assert_eq!(run(&mut s, |reply, e| m.step(&mut shared, reply, e)), Ok(2));
    assert_eq!(s.table[&(BASE + 9 * PAGE)], Entry { paddr: paddr + 9 * PAGE, flags: rw(), size: PageSize::Size2M });
    assert_eq!(s.table[&(BASE + HUGE)].size, PageSize::Size4K);
}

#[test]
fn a_refused_request_ends_a_population() {
    let mut shared = CachedFileShared::new_unbounded(true);
    let mut e = Vec::new();
    let mut m = shared_memory().populate(range(0, 2), rw(), rw());
    assert!(matches!(m.step(&mut shared, Reply::Start, &mut e), Turn::Ask(Request::Query { va: BASE })));
    let fault = Reply::Fault(PagingError::NoMemory);
    assert!(matches!(m.step(&mut shared, fault, &mut e), Turn::Finished(Err(AxError::BadAddress))));
}

#[test]
fn a_private_file_mapping_may_lie_at_the_end_of_the_offsets() {
    let (mut s, mut f) = (Space::new(), FrameTable::new());
    let file = OpenFile::new_direct(cached(false).inner);
    let backing = BackingFile { file, file_start: u64::MAX - 2 * PAGE as u64, file_end: None };
    let b = CowBackend { file: Some(backing), ..anonymous() };
    assert_eq!(populate(&mut s, &mut f, &b, range(0, 2), MappingFlags::of(MappingFlags::READ)), 2);
    assert_eq!(s.load(BASE + PAGE), 0);
}

#[test]
fn a_collapse_gives_back_the_frames_that_nobody_else_has() {
    let (mut s, mut f) = (Space::new(), FrameTable::new());
    let b = anonymous();
    populate(&mut s, &mut f, &b, range(1, 511), write());
    let read = MappingFlags::of(MappingFlags::READ);
    s.table.get_mut(&(BASE + PAGE)).unwrap().flags = read;
    let kept = s.table[&(BASE + 3 * PAGE)].paddr;
    f.inc_frame_ref(kept);
    let mut m = b.collapse_page(range(0, 512), false);
    assert_eq!(run(&mut s, |reply, e| m.step(&mut f, reply, e)), Ok(()));
    assert_eq!(s.table[&BASE].flags, read);
    assert_eq!(s.freed.len(), 510);
    assert!(!s.freed.contains(&(kept, PageSize::Size4K)));
    assert_eq!(f.frame_ref_count(kept), 1);
    assert_eq!(f.frame_ref_count(s.table[&(BASE + 7 * PAGE)].paddr), 1);
    assert_eq!(s.load(BASE), 0);
}

#[test]
fn an_attempt_on_private_memory_succeeds_with_a_huge_page() {
    let (mut s, mut f) = (Space::new(), FrameTable::new());
    let b = anonymous();
    populate(&mut s, &mut f, &b, range(0, 512), write());
    let mut t = b.try_collapse_page(range(0, 512), 0, 0, 0, 1000);
    let mut last = None;
    let result = run(&mut s, |reply, e| match t.step(&mut f, reply, e) {
        Turn::Ask(request) => {
            last = Some(request);
            Turn::Ask(request)
        }
        finished => finished,
    });
    assert_eq!(result, Ok(true));
    assert!(matches!(last, Some(Request::RemapHuge { va: BASE, .. })));
}

#[test]
fn a_file_collapse_brings_missing_pages_in() {
    let mut s = Space::new();
    s.file = (0..HUGE).map(|i| (i / PAGE % 251) as u8).collect();
    let mut shared = CachedFileShared::new_unbounded(false);
    let b = mapped_file(false);
    let read = MappingFlags::of(MappingFlags::READ);
    let mut m = b.populate(range(2, 100), read, read);
    assert_eq!(run(&mut s, |reply, e| m.step(&mut shared, reply, e)), Ok(100));
    let mut m = b.collapse_page(range(0, 512), true);
    assert_eq!(run(&mut s, |reply, e| m.step(&mut shared, reply, e)), Ok(true));
    assert_eq!(s.table[&BASE].size, PageSize::Size2M);
    for i in [0, 2, 101, 102, 300, 511] {
        assert_eq!(s.load(BASE + i * PAGE + 5), (i % 251) as u8);
    }
    assert_eq!(shared.len(), 1);
}

#[test]
fn a_file_collapse_reuses_a_cached_huge_page() {
    let mut s = Space::new();
    s.file = vec![0; HUGE];
    let mut shared = CachedFileShared::new_unbounded(true);
    let paddr = s.take(HUGE);
    shared.push(0, axcache::fs::page::PageCache::from_addr(paddr, HUGE));
    s.mem[paddr + 6 * PAGE] = 12;
    Space::place(&mut s.table, BASE + 6 * PAGE, paddr + 6 * PAGE, PageSize::Size4K, rw());
    let mut m = mapped_file(true).collapse_page(range(0, 512), false);
    assert_eq!(run(&mut s, |reply, e| m.step(&mut shared, reply, e)), Ok(true));
    assert_eq!(s.table[&BASE], Entry { paddr, flags: rw(), size: PageSize::Size2M });
    assert_eq!(s.load(BASE + 6 * PAGE), 12);
}

#[test]
fn cached_bytes_stay_when_a_huge_page_is_split() {
    let mut s = Space::new();
    let mut shared = CachedFileShared::new_unbounded(true);
    let paddr = s.take(HUGE);
    shared.push(0, axcache::fs::page::PageCache::from_addr(paddr, HUGE));
    Space::place(&mut s.table, BASE, paddr, PageSize::Size2M, rw());
    for i in 0..512 {
        s.store(BASE + i * PAGE + 1, (i % 199) as u8);
    }
    let mut m = shared_memory().unmap(range(100, 200));
    assert_eq!(run(&mut s, |reply, e| m.step(&mut shared, reply, e)), Ok(()));
    for i in 0..512 {
        let page = shared.touch(i as u32).unwrap();
        assert_eq!((page.size, s.mem[page.paddr + 1]), (PAGE, (i % 199) as u8));
    }
}

#[test]
fn a_page_of_a_file_has_its_address_in_a_mapping() {
    let b = shared_memory();
    assert_eq!(b.inner.address(3), Some(BASE + 3 * PAGE));
    let mut high = b.inner;
    high.start = usize::MAX - PAGE;
    assert_eq!(high.address(1), Some(usize::MAX));
    assert_eq!(high.address(2), None);
    let mut f = mapped_file(true).inner;
    f.offset_page = 4;
    assert_eq!(f.address(3), None);
    assert_eq!(f.address(5), Some(BASE + PAGE));
    assert_eq!(f.listener(), None);
    f.handle = 8;
    assert_eq!(f.listener(), Some(8));
}
