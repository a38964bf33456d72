//! Opening files and moving in them.

use axcache::effect::{Reply, Turn};
use axcache::error::AxError;
use axcache::flags::{FileFlags, NodeFlags};
use axcache::fs::backend::{FileBackend, FileSync, FileTransfer};
use axcache::fs::caches::PageCaches;
use axcache::fs::file::{File, SeekFrom};
use axcache::fs::location::{Location, NodeType};
use axcache::fs::options::{OpenOptions, OpenReply, OpenRequest, OpenResult, OpenTurn};

fn place(node_type: NodeType) -> Location {
    Location::new(3, node_type, NodeFlags { bits: 0 }, "ext4")
}

fn open_at(options: &OpenOptions, loc: Location, len: u64) -> (Result<OpenResult, AxError>, Vec<OpenRequest>) {
    let mut caches = PageCaches::new();
    let mut opening = options.open_loc(loc);
    let mut asked = Vec::new();
    let mut reply = OpenReply::Start;
    loop {
        match opening.step(&mut caches, None, reply) {
            OpenTurn::Ask(request) => {
                asked.push(request);
                reply = match request {
                    OpenRequest::Kind(_) => OpenReply::Kind(loc.node_type),
                    OpenRequest::Len(_) => OpenReply::Len(len),
                    _ => OpenReply::Done,
                };
            }
            OpenTurn::Finished(result) => return (result, asked),
        }
    }
}

#[test]
fn a_file_is_opened_as_the_options_say() {
    let mut options = OpenOptions::new();
    options.read(true).write(true);
    let (result, _) = open_at(&options, place(NodeType::RegularFile), 9);
    let file = result.unwrap().into_file().unwrap();
    assert!(matches!(file.backend(), Ok(FileBackend::Cached(_))));
    assert!(file.flags().contains(FileFlags::of(FileFlags::READ)));
    assert!(file.flags().contains(FileFlags::of(FileFlags::WRITE)));
    assert!(!file.is_path());
    assert!(matches!(file.read_at(4, 0), Ok(FileTransfer::Cached(_))));
    assert!(matches!(file.sync(true), Ok(FileSync::Cached(_))));
    options.direct(true);
    let (result, _) = open_at(&options, place(NodeType::RegularFile), 9);
    let file = result.unwrap().into_file().unwrap();
    assert!(matches!(file.backend(), Ok(FileBackend::Direct(_))));
}

#[test]
fn access_follows_the_flags() {
    let mut options = OpenOptions::new();
    options.read(true);
    let (result, _) = open_at(&options, place(NodeType::RegularFile), 9);
    let file = result.unwrap().into_file().unwrap();
    assert!(file.read_at(1, 0).is_ok());
    assert_eq!(file.write_at(1, 0).err(), Some(AxError::BadFileDescriptor));
    let mut path = OpenOptions::new();
    path.read(true).path(true);
    let (result, _) = open_at(&path, place(NodeType::RegularFile), 9);
    let file = result.unwrap().into_file().unwrap();
    assert!(file.is_path());
    assert_eq!(file.read_at(1, 0).err(), Some(AxError::BadFileDescriptor));
}

#[test]
fn options_that_contradict_are_refused() {
    let none = OpenOptions::new();
    assert_eq!(none.to_flags(), Err(AxError::InvalidInput));
    let mut truncating = OpenOptions::new();
    truncating.read(true).truncate(true);
    assert!(!truncating.is_valid());
    let (result, asked) = open_at(&truncating, place(NodeType::RegularFile), 0);
    assert!(matches!(result, Err(AxError::InvalidInput)));
    assert!(asked.is_empty());
    let mut appending = OpenOptions::new();
    appending.append(true).truncate(true);
    assert!(!appending.is_valid());
}

#[test]
fn directories_and_files_are_told_apart() {
    let mut options = OpenOptions::new();
    options.read(true).directory(true);
    let (result, _) = open_at(&options, place(NodeType::RegularFile), 0);
    assert!(matches!(result, Err(AxError::NotADirectory)));
    let (result, _) = open_at(&options, place(NodeType::Directory), 0);
    let opened = result.unwrap();
    assert!(matches!(opened, OpenResult::Dir(_)));
    assert!(matches!(opened.into_file(), Err(AxError::IsADirectory)));
    let mut writing = OpenOptions::new();
    writing.write(true).directory(true);
    let (result, _) = open_at(&writing, place(NodeType::Directory), 0);
    assert!(matches!(result, Err(AxError::IsADirectory)));
}

#[test]
fn a_seek_tells_where_it_went() {
    let inner = FileBackend::new_direct(place(NodeType::RegularFile));
    let flags = FileFlags::of(FileFlags::READ);
    let mut file = File::new(inner, flags, 0);
    let go = |file: &mut File, pos: SeekFrom| {
        let mut seek = File::seek(pos);
        let mut reply = Reply::Start;
        loop {
            match seek.step(file, reply) {
                Turn::Ask(_) => reply = Reply::Len(100),
                Turn::Finished(result) => return result,
            }
        }
    };
    assert_eq!(go(&mut file, SeekFrom::Start(40)), Ok(40));
    assert_eq!(go(&mut file, SeekFrom::Current(2)), Ok(42));
    assert_eq!(go(&mut file, SeekFrom::End(-10)), Ok(90));
    assert_eq!(go(&mut file, SeekFrom::Current(-91)), Err(AxError::InvalidInput));
    assert_eq!(go(&mut file, SeekFrom::Current(0)), Ok(90));
    file.after_read(5);
    assert_eq!(go(&mut file, SeekFrom::Current(0)), Ok(95));
}

#[test]
fn an_appending_file_starts_at_its_end() {
    let inner = FileBackend::new_direct(place(NodeType::RegularFile));
    let flags = FileFlags::of(FileFlags::WRITE | FileFlags::APPEND);
    let len = if File::is_len_needed(&inner, flags) { 77 } else { 0 };
    let mut file = File::new(inner, flags, len);
    assert!(matches!(file.write(3), Ok(FileTransfer::DirectAppend(_))));
    let mut seek = File::seek(SeekFrom::Current(0));
    match seek.step(&mut file, Reply::Start) {
        Turn::Finished(result) => assert_eq!(result, Ok(77)),
        Turn::Ask(request) => panic!("asked {request:?}"),
    }
}
