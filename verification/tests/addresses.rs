//! Pages, ranges and flags.

use axcache::addr::{divide_page, is_aligned, is_whole_huge, pages_in, PageSize, VirtAddrRange};
use axcache::error::{AxError, PagingError};
use axcache::flags::{FileFlags, MappingFlags, VmaFlags};

#[test]
fn a_range_is_walked_page_by_page() {
    let r = VirtAddrRange::from_start_size(0x3000, 0x3000);
    assert_eq!(pages_in(r, PageSize::Size4K), Ok(vec![0x3000, 0x4000, 0x5000]));
    assert_eq!(pages_in(r, PageSize::Size2M), Err(AxError::InvalidInput));
    let crooked = VirtAddrRange { start: 0x3001, end: 0x5000 };
    assert_eq!(pages_in(crooked, PageSize::Size4K), Err(AxError::InvalidInput));
    let empty = VirtAddrRange { start: 0x3000, end: 0x3000 };
    assert_eq!(pages_in(empty, PageSize::Size4K), Ok(vec![]));
    assert_eq!(r.size(), 0x3000);
    assert!(r.contains(0x5fff) && !r.contains(0x6000) && !r.contains(0x2fff));
    assert!(r.is_aligned_to(PageSize::Size4K));
}

#[test]
fn addresses_are_aligned_to_page_sizes() {
    assert!(is_aligned(0x20_0000, 0x20_0000));
    assert!(!is_aligned(0x20_1000, 0x20_0000));
    assert!(PageSize::Size1G.is_aligned(0x8000_0000));
    assert!(is_whole_huge(0x20_0000, 0x40_0000));
    assert!(!is_whole_huge(0x20_0000, 0x3f_f000));
    assert!(!is_whole_huge(0x20_1000, 0x80_0000));
    assert_eq!(divide_page(0x40_0000, PageSize::Size2M), 2);
}

#[test]
fn flags_are_sets() {
    let rw = MappingFlags::of(MappingFlags::READ | MappingFlags::WRITE);
    assert!(rw.writable());
    assert!(!rw.read_only().writable());
    assert!(rw.contains(rw.read_only()));
    let a = VmaFlags::of(VmaFlags::VM_STACK);
    let b = VmaFlags::of(VmaFlags::VM_IO);
    assert_eq!(a.union(b).difference(a), b);
    assert_eq!(a.difference(a), VmaFlags::empty());
    assert!(FileFlags::of(3).contains(FileFlags::of(FileFlags::READ)));
    assert_eq!(FileFlags::empty().union(FileFlags::of(2)), FileFlags::of(2));
}

#[test]
fn errors_of_the_page_table_become_errors() {
    assert_eq!(PagingError::NoMemory.into_error(), AxError::NoMemory);
    assert_eq!(PagingError::NotMapped.into_error(), AxError::InvalidInput);
}
