//! Cached files against a small model of a file and of memory.

use axcache::addr::PageSize;
use axcache::effect::{Effect, Reply, Request, Turn};
use axcache::error::AxError;
use axcache::flags::NodeFlags;
use axcache::fs::cache::{CachedFileShared, CACHE_LIMIT};
use axcache::fs::cached_file::CachedFile;
use axcache::fs::caches::PageCaches;
use axcache::fs::location::{Location, NodeType};
use axcache::fs::page::{PageCache, PageOperation};
use axcache::fs::reclaim::shrink_page_cache;
use axcache::memory::{alloc_frame, frame_request, PageRequest, Usage};

const PAGE: usize = 4096;
const HUGE: usize = 2_097_152;

struct World {
    file: Vec<u8>,
    mem: Vec<u8>,
    next: usize,
    input: Vec<u8>,
    output: Vec<u8>,
    freed: Vec<PageCache>,
    notices: Vec<(usize, u32, PageOperation)>,
    writes: usize,
    fail: Option<AxError>,
}

impl World {
    fn new(file: &[u8]) -> World {
        World {
            file: file.to_vec(),
            mem: vec![0xee; 16 * 1024 * 1024],
            next: PAGE,
            input: Vec::new(),
            output: Vec::new(),
            freed: Vec::new(),
            notices: Vec::new(),
            writes: 0,
            fail: None,
        }
    }

    fn answer(&mut self, request: Request) -> Reply {
        if let Some(e) = self.fail {
            return Reply::Failed(e);
        }
        match request {
            Request::FileLen => Reply::Len(self.file.len() as u64),
            Request::FileSetLen(len) => {
                self.file.resize(len as usize, 0);
                Reply::Done
            }
            Request::FileRead { paddr, len, offset } => {
                let start = (offset as usize).min(self.file.len());
                let end = (start + len).min(self.file.len());
                self.mem[paddr..paddr + (end - start)].copy_from_slice(&self.file[start..end]);
                Reply::Done
            }
            Request::FileWrite { paddr, len, offset } => {
                let end = offset as usize + len;
                if self.file.len() < end {
                    self.file.resize(end, 0);
                }
                self.file[offset as usize..end].copy_from_slice(&self.mem[paddr..paddr + len]);
                self.writes += 1;
                Reply::Done
            }
            Request::FileSync { .. } | Request::Relax => Reply::Done,
            Request::AllocPage { bytes } => {
                let paddr = self.next.div_ceil(bytes) * bytes;
                self.next = paddr + bytes;
                Reply::Addr(paddr)
            }
            Request::CopyOut { paddr, len } => {
                self.output.extend_from_slice(&self.mem[paddr..paddr + len]);
                Reply::Done
            }
            Request::CopyIn { paddr, len } => {
                let bytes: Vec<u8> = self.input.drain(..len).collect();
                self.mem[paddr..paddr + len].copy_from_slice(&bytes);
                Reply::Done
            }
            other => panic!("no page table here: {other:?}"),
        }
    }

    fn perform(&mut self, effects: &mut Vec<Effect>) {
        for effect in effects.drain(..) {
            match effect {
                Effect::Notify { listener, pn, page: _, op } => self.notices.push((listener, pn, op)),
                Effect::FreePage(page) => self.freed.push(page),
                Effect::Copy { src, dst, len } => self.mem.copy_within(src..src + len, dst),
                Effect::Zero { paddr, len } => self.mem[paddr..paddr + len].fill(0),
                other => panic!("no user memory here: {other:?}"),
            }
        }
    }
}

fn run<T, F>(world: &mut World, shared: &mut CachedFileShared, mut step: F) -> Result<T, AxError>
where
    F: FnMut(&mut CachedFileShared, Reply, &mut Vec<Effect>) -> Turn<T>,
{
    let mut reply = Reply::Start;
    loop {
        let mut effects = Vec::new();
        let turn = step(shared, reply, &mut effects);
        world.perform(&mut effects);
        match turn {
            Turn::Ask(request) => reply = world.answer(request),
            Turn::Finished(result) => return result,
        }
    }
}

fn cached(in_memory: bool) -> (CachedFile, CachedFileShared) {
    let name = if in_memory { "tmpfs" } else { "ext4" };
    let inner = Location::new(7, NodeType::RegularFile, NodeFlags { bits: 0 }, name);
    let shared = if in_memory {
        CachedFileShared::new_unbounded(true)
    } else {
        CachedFileShared::new(false)
    };
    (CachedFile { inner, shared: 1, in_memory }, shared)
}

fn write(w: &mut World, f: &CachedFile, s: &mut CachedFileShared, offset: u64, bytes: &[u8]) -> (usize, u64) {
    w.input = bytes.to_vec();
    let mut t = f.write_at(bytes.len(), offset);
    run(w, s, |s, r, e| t.step(s, r, e)).unwrap()
}

fn read(w: &mut World, f: &CachedFile, s: &mut CachedFileShared, offset: u64, len: usize) -> Vec<u8> {
    w.output.clear();
    let mut t = f.read_at(len, offset);
    let (n, _) = run(w, s, |s, r, e| t.step(s, r, e)).unwrap();
    assert_eq!(n, w.output.len());
    w.output.clone()
}

fn pattern(len: usize, seed: usize) -> Vec<u8> {
    (0..len).map(|i| ((i * 31 + i / 251 + seed * 17) % 256) as u8).collect()
}

#[test]
fn a_read_gives_back_what_was_written() {
    for in_memory in [false, true] {
        let mut w = World::new(&[]);
        let (f, mut s) = cached(in_memory);
        let bytes = pattern(3 * PAGE + 100, 1);
        assert_eq!(write(&mut w, &f, &mut s, 1000, &bytes), (bytes.len(), 1000 + bytes.len() as u64));
        assert_eq!(read(&mut w, &f, &mut s, 1000, bytes.len()), bytes);
        assert_eq!(read(&mut w, &f, &mut s, 1010, 20), bytes[10..30]);
        assert_eq!(w.file.len(), 1000 + bytes.len());
    }
}

#[test]
fn a_read_ends_at_the_end_of_the_file() {
    let mut w = World::new(b"hello");
    let (f, mut s) = cached(false);
    assert_eq!(read(&mut w, &f, &mut s, 2, 100), b"llo");
    assert_eq!(read(&mut w, &f, &mut s, 5, 100), b"");
    assert_eq!(read(&mut w, &f, &mut s, 900, 100), b"");
}

#[test]
fn an_append_goes_behind_the_end() {
    let mut w = World::new(b"one");
    let (f, mut s) = cached(false);
    w.input = b"two".to_vec();
    let mut t = f.append(3);
    assert_eq!(run(&mut w, &mut s, |s, r, e| t.step(s, r, e)), Ok((3, 6)));
    assert_eq!(read(&mut w, &f, &mut s, 0, 10), b"onetwo");
    assert_eq!(w.file.len(), 6);
}

#[test]
fn a_sync_brings_the_file_in_step() {
    let mut w = World::new(&[]);
    let (f, mut s) = cached(false);
    let bytes = pattern(2 * PAGE + 5, 2);
    write(&mut w, &f, &mut s, 0, &bytes);
    assert_ne!(w.file, bytes);
    let mut t = f.sync(false);
    assert_eq!(run(&mut w, &mut s, |s, r, e| t.step(s, r, e)), Ok(()));
    assert_eq!(w.file, bytes);
    assert_eq!(w.writes, 3);
    let mut again = f.sync(true);
    assert_eq!(run(&mut w, &mut s, |s, r, e| again.step(s, r, e)), Ok(()));
    assert_eq!(w.writes, 3);
}

#[test]
fn a_sync_of_a_memory_file_asks_for_nothing() {
    let mut w = World::new(&[]);
    let (f, mut s) = cached(true);
    write(&mut w, &f, &mut s, 0, b"abc");
    let mut t = f.sync(false);
    let mut effects = Vec::new();
    assert!(matches!(t.step(&mut s, Reply::Start, &mut effects), Turn::Finished(Ok(()))));
}

#[test]
fn the_least_recently_used_page_leaves_a_full_cache() {
    let mut w = World::new(&[]);
    let (f, mut s) = cached(false);
    f.add_evict_listener(&mut s, 9);
    let bytes = pattern(CACHE_LIMIT * PAGE, 3);
    write(&mut w, &f, &mut s, 0, &bytes);
    assert!(s.is_full());
    assert!(w.notices.is_empty());
    write(&mut w, &f, &mut s, bytes.len() as u64, b"more");
    assert_eq!(w.notices, vec![(9, 0, PageOperation::Unmap)]);
    assert!(!s.contains(0));
    assert!(s.contains(1));
    assert_eq!(w.writes, 1);
    assert_eq!(w.file[..PAGE], bytes[..PAGE]);
    assert_eq!(w.freed.len(), 1);
    assert_eq!(read(&mut w, &f, &mut s, 0, PAGE), bytes[..PAGE]);
}

#[test]
fn a_cut_keeps_the_front_and_growth_adds_zeros() {
    for in_memory in [false, true] {
        let mut w = World::new(&[]);
        let (f, mut s) = cached(in_memory);
        let bytes = pattern(3 * PAGE, 4);
        write(&mut w, &f, &mut s, 0, &bytes);
        let cut = PAGE + 10;
        let mut t = f.set_len(cut as u64);
        assert_eq!(run(&mut w, &mut s, |s, r, e| t.step(s, r, e)), Ok(()));
        assert_eq!(w.file.len(), cut);
        assert_eq!(read(&mut w, &f, &mut s, 0, 4 * PAGE), bytes[..cut]);
        let mut t = f.set_len(2 * PAGE as u64);
        assert_eq!(run(&mut w, &mut s, |s, r, e| t.step(s, r, e)), Ok(()));
        let mut grown = bytes[..cut].to_vec();
        grown.resize(2 * PAGE, 0);
        assert_eq!(read(&mut w, &f, &mut s, 0, 4 * PAGE), grown);
    }
}

#[test]
fn a_huge_page_is_made_and_split_with_its_bytes() {
    let mut w = World::new(&[]);
    let (f, mut s) = cached(true);
    let bytes = pattern(HUGE, 5);
    write(&mut w, &f, &mut s, 0, &bytes);
    assert_eq!(s.len(), 512);
    let mut t = f.replace_with_huge_page(0);
    let merged = run(&mut w, &mut s, |s, r, e| t.step(s, r, e)).unwrap();
    assert_eq!(merged % HUGE, 0);
    assert_eq!(s.len(), 1);
    assert_eq!(s.touch(0).unwrap().size, HUGE);
    assert_eq!(f.locate_chunk(&mut s, 77), (Some(0), HUGE));
    assert_eq!(f.locate_offset(&mut s, 77 * PAGE as u64 + 3), (0, 0));
    assert_eq!(read(&mut w, &f, &mut s, 0, HUGE), bytes);
    let mut t = f.split_huge_page(77);
    assert!(run(&mut w, &mut s, |s, r, e| t.step(s, r, e)).is_ok());
    assert_eq!(s.len(), 512);
    assert_eq!(s.touch(77).unwrap(), PageCache { paddr: merged + 77 * PAGE, dirty: false, size: PAGE });
    assert_eq!(f.locate_chunk(&mut s, 77), (Some(77), PAGE));
    assert_eq!(read(&mut w, &f, &mut s, 0, HUGE), bytes);
}

#[test]
fn a_small_page_is_found_by_its_number() {
    let (f, mut s) = cached(true);
    assert_eq!(f.locate_chunk(&mut s, 3), (None, PAGE));
    assert_eq!(f.locate_offset(&mut s, 3 * PAGE as u64 + 9), (3, 3 * PAGE as u64));
    s.push(3, PageCache::from_addr(3 * PAGE, PAGE));
    assert_eq!(f.locate_chunk(&mut s, 3), (Some(3), PAGE));
}

#[test]
fn reclaim_takes_clean_pages_only() {
    let mut w = World::new(&pattern(8 * PAGE, 6));
    let (f, mut s) = cached(false);
    read(&mut w, &f, &mut s, 0, 8 * PAGE);
    write(&mut w, &f, &mut s, 0, b"dirty");
    let mut caches = vec![s];
    let mut effects = Vec::new();
    assert_eq!(shrink_page_cache(&mut caches, 3, &mut effects), 3);
    assert_eq!(caches[0].len(), 5);
    assert!(caches[0].contains(0));
    assert_eq!(effects.iter().filter(|e| matches!(e, Effect::FreePage(_))).count(), 3);
    effects.clear();
    assert_eq!(shrink_page_cache(&mut caches, 100, &mut effects), 4);
    assert!(caches[0].contains(0));
    let mut mem = vec![cached(true).1];
    mem[0].push(0, PageCache::from_addr(0, PAGE));
    assert_eq!(shrink_page_cache(&mut mem, 10, &mut effects), 0);
}

#[test]
fn an_error_of_the_file_ends_a_read() {
    let mut w = World::new(b"hello");
    let (f, mut s) = cached(false);
    w.fail = Some(AxError::Other(5));
    let mut t = f.read_at(3, 0);
    assert_eq!(run(&mut w, &mut s, |s, r, e| t.step(s, r, e)), Err(AxError::Other(5)));
    w.fail = Some(AxError::NoMemory);
    let mut fetch = f.with_page_or_insert(4, PAGE);
    assert!(matches!(
        run(&mut w, &mut s, |s, r, e| fetch.step(s, r, e)),
        Err(AxError::NoMemory)
    ));
    assert_eq!(s.len(), 0);
}

#[test]
fn listeners_are_told_until_they_are_removed() {
    let (f, mut s) = cached(false);
    let a = f.add_evict_listener(&mut s, 11);
    let b = f.add_evict_listener(&mut s, 12);
    assert_eq!((s.listener_count(), a, b), (2, 11, 12));
    let page = PageCache::from_addr(PAGE, PAGE);
    let mut effects = Vec::new();
    s.notify(5, page, PageOperation::Unmap, &mut effects);
    assert_eq!(effects.len(), 2);
    f.remove_evict_listener(&mut s, a);
    effects.clear();
    s.notify(5, page, PageOperation::Demote, &mut effects);
    assert_eq!(effects, vec![Effect::Notify { listener: 12, pn: 5, page, op: PageOperation::Demote }]);
}

#[test]
fn pages_leave_in_the_order_of_their_use() {
    let mut s = CachedFileShared::new(false);
    for pn in [1u32, 2, 3] {
        assert_eq!(s.push(pn, PageCache::from_addr(pn as usize * PAGE, PAGE)), None);
    }
    assert_eq!(s.keys(), vec![3, 2, 1]);
    s.touch(1);
    assert_eq!(s.keys(), vec![1, 3, 2]);
    s.get_mut(3).unwrap().mark_dirty();
    assert_eq!(s.touch(9), None);
    assert_eq!(s.pop_lru(), Some((2, PageCache::from_addr(2 * PAGE, PAGE))));
    assert_eq!(s.pop(1), Some(PageCache::from_addr(PAGE, PAGE)));
    let (pn, page) = s.pop_lru().unwrap();
    assert!(pn == 3 && page.is_dirty());
    assert_eq!(s.pop_lru(), None);
    for pn in 0..CACHE_LIMIT as u32 {
        s.push(pn, PageCache::from_addr(0, PAGE));
    }
    assert_eq!(s.push(1000, PageCache::from_addr(0, PAGE)), Some((0, PageCache::from_addr(0, PAGE))));
    assert_eq!(s.push(1000, PageCache::from_addr(PAGE, PAGE)), Some((1000, PageCache::from_addr(0, PAGE))));
}

#[test]
fn a_cache_lives_as_long_as_it_is_held() {
    let mut caches = PageCaches::new();
    let device = Location::new(1, NodeType::RegularFile, NodeFlags { bits: 0 }, "ext4");
    let memory = Location::new(2, NodeType::RegularFile, NodeFlags { bits: 0 }, "tmpfs");
    let a = CachedFile::get_or_create(&mut caches, device, None);
    let b = CachedFile::get_or_create(&mut caches, device, Some(a.shared));
    let m = CachedFile::get_or_create(&mut caches, memory, None);
    assert!(a.ptr_eq(&b));
    assert!(!a.ptr_eq(&m));
    assert!(!a.in_memory() && m.in_memory());
    caches.cache_mut(&a).unwrap().push(0, PageCache::from_addr(PAGE, PAGE));
    caches.cache_mut(&m).unwrap().push(0, PageCache::from_addr(2 * PAGE, PAGE));
    let mut effects = Vec::new();
    assert!(!caches.is_last(&a));
    caches.release(&b, &mut effects);
    assert!(effects.is_empty());
    assert!(caches.is_last(&a));
    caches.release(&a, &mut effects);
    assert_eq!(effects, vec![Effect::FreePage(PageCache::from_addr(PAGE, PAGE))]);
    effects.clear();
    caches.release(&m, &mut effects);
    assert!(effects.is_empty());
    caches.unpin(m.shared, &mut effects);
    assert_eq!(effects, vec![Effect::FreePage(PageCache::from_addr(2 * PAGE, PAGE))]);
    let c = CachedFile::get_or_create(&mut caches, device, Some(a.shared));
    assert_ne!(c.shared, a.shared);
}

#[test]
fn pages_come_from_the_allocator() {
    let giga = 1024 * 1024 * 1024;
    let pool = vec![0u8; giga + 4 * 1024 * 1024].leak();
    let start = (pool.as_ptr() as usize).div_ceil(giga) * giga;
    axalloc::global_init(start, 4 * 1024 * 1024);
    let small = PageCache::new(PAGE, start).unwrap();
    assert_eq!(small.paddr() % PAGE, 0);
    assert!(small.paddr() < 4 * 1024 * 1024);
    assert!(!small.is_dirty());
    assert_eq!(small.data(), (small.paddr(), PAGE));
    let other = PageCache::new(PAGE, start).unwrap();
    assert_ne!(small.paddr(), other.paddr());
    let frame = alloc_frame(PageSize::Size2M, start).unwrap();
    assert_eq!(frame % HUGE, 0);
    assert_eq!(
        alloc_frame(PageSize::Size1G, start),
        Err(AxError::NoMemory)
    );
    assert_eq!(PageCache::from_allocation(None, PAGE, 0), Err(AxError::NoMemory));
    assert_eq!(
        PageCache::from_allocation(Some(0x5000), PAGE, 0x1000),
        Ok(PageCache::from_addr(0x4000, PAGE))
    );
}

#[test]
fn the_allocator_is_asked_for_aligned_pages() {
    let small = PageRequest { num_pages: 1, align: PAGE, usage: Usage::PageCache };
    assert_eq!(PageCache::request(PAGE), small);
    let huge = PageRequest { num_pages: 512, align: HUGE, usage: Usage::PageCache };
    assert_eq!(PageCache::request(HUGE), huge);
    assert_eq!(
        frame_request(PageSize::Size4K),
        PageRequest { num_pages: 1, align: PAGE, usage: Usage::UserMem }
    );
    assert_eq!(
        frame_request(PageSize::Size2M),
        PageRequest { num_pages: 512, align: HUGE, usage: Usage::UserMem }
    );
    assert_eq!(frame_request(PageSize::Size1G).num_pages, 262_144);
}
