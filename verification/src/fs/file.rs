//! Open files.

use vstd::prelude::*;
use vstd::pervasive::unreached;
use crate::effect::{Reply, Request, Turn};
use crate::error::VfsError;
use crate::flags::{FileFlags, NodeFlags};
use crate::fs::backend::{DirectTransfer, FileBackend, FileSync, FileTransfer};
use crate::fs::cache::MAX_OFFSET;
use crate::fs::location::Location;
use crate::fs::options::OpenOptions;
use crate::fs::transfer::TransferKind;

verus! {

/// An open file.
#[derive(Debug, Clone, Copy, PartialEq, Eq, Structural)]
pub struct File {
    pub inner: FileBackend,
    pub flags: FileFlags,
    /// The position of the next read or write, if the file has one.
    pub position: Option<u64>,
    /// What was done with the file: it was read, it was written.
    pub was_read: bool,
    pub was_written: bool,
}

/// Where to seek.
#[derive(Debug, Clone, Copy, PartialEq, Eq, Structural)]
pub enum SeekFrom {
    Start(u64),
    End(i64),
    Current(i64),
}

impl File {
    /// Whether the position of a file that is being opened depends on its length.
    pub open spec fn needs_len(inner: FileBackend, flags: FileFlags) -> bool {
        !inner.place().flags.contains(NodeFlags::STREAM) && flags.contains(
            FileFlags { bits: FileFlags::APPEND },
        )
    }

    /// The open file of the given length. A stream has no position; one that is
    /// appended to starts at its end.
    pub open spec fn opened(inner: FileBackend, flags: FileFlags, len: u64) -> File {
        File {
            inner,
            flags,
            position: if inner.place().flags.contains(NodeFlags::STREAM) {
                None
            } else if flags.contains(FileFlags { bits: FileFlags::APPEND }) {
                Some(len)
            } else {
                Some(0)
            },
            was_read: false,
            was_written: false,
        }
    }

    /// Whether the position of a file that is being opened depends on its length.
    pub fn is_len_needed(inner: &FileBackend, flags: FileFlags) -> (r: bool)
        ensures
            r == File::needs_len(*inner, flags),
    {
        !inner.location().flags.contains(NodeFlags::STREAM) && flags.contains(
            FileFlags::of(FileFlags::APPEND),
        )
    }

    /// Opens a file of the given length.
    pub fn new(inner: FileBackend, flags: FileFlags, len: u64) -> (r: File)
        ensures
            r == File::opened(inner, flags, len),
    {
        let position: Option<u64> = if inner.location().flags.contains(NodeFlags::STREAM) {
            None
        } else if flags.contains(FileFlags::of(FileFlags::APPEND)) {
            Some(len)
        } else {
            Some(0)
        };
        File { inner, flags, position, was_read: false, was_written: false }
    }

    /// How a file is opened to be read.
    pub fn open() -> (r: OpenOptions)
        ensures
            r.read,
            !r.write && !r.append && !r.truncate && !r.create && !r.create_new && !r.directory
                && !r.no_follow && !r.direct && !r.path && r.user is None && r.node_type is RegularFile
                && r.mode == 0o666,
    {
        let mut options: OpenOptions = OpenOptions::new();
        options.read(true);
        options
    }

    /// How a file is created to be written, or emptied if it exists.
    pub fn create() -> (r: OpenOptions)
        ensures
            r.write && r.create && r.truncate,
            !r.read && !r.append && !r.create_new && !r.directory && !r.no_follow && !r.direct
                && !r.path && r.user is None && r.node_type is RegularFile && r.mode == 0o666,
    {
        let mut options: OpenOptions = OpenOptions::new();
        options.write(true);
        options.create(true);
        options.truncate(true);
        options
    }

    /// Whether the file may be used for what `flags` say.
    pub open spec fn allows(self, flags: FileFlags) -> bool {
        self.flags.contains(flags) && !self.flags.contains(FileFlags { bits: FileFlags::PATH })
    }

    /// The access to the file, if it may be used for what `flags` say.
    pub fn access(&self, flags: FileFlags) -> (r: Result<&FileBackend, VfsError>)
        ensures
            self.allows(flags) ==> (r matches Ok(backend) && *backend == self.inner),
            !self.allows(flags) ==> (r matches Err(e) && e is BadFileDescriptor),
    {
        if self.flags.contains(flags) && !self.is_path() {
            Ok(&self.inner)
        } else {
            Err(VfsError::BadFileDescriptor)
        }
    }

    /// Whether the file was opened for its path only.
    pub fn is_path(&self) -> (r: bool)
        ensures
            r == self.flags.contains(FileFlags { bits: FileFlags::PATH }),
    {
        self.flags.contains(FileFlags::of(FileFlags::PATH))
    }

    /// What the file may be used for.
    pub fn flags(&self) -> (r: FileFlags)
        ensures
            r == self.flags,
    {
        self.flags
    }

    /// The access to the file, unless it was opened for its path only.
    pub fn backend(&self) -> (r: Result<&FileBackend, VfsError>)
        ensures
            self.allows(FileFlags { bits: 0 }) ==> (r matches Ok(backend) && *backend == self.inner),
            !self.allows(FileFlags { bits: 0 }) ==> (r matches Err(e) && e is BadFileDescriptor),
    {
        self.access(FileFlags::empty())
    }

    /// The place of the file.
    pub fn location(&self) -> (r: &Location)
        ensures
            *r == self.inner.place(),
    {
        self.inner.location()
    }

    /// The read that a file starts with the given buffer and position.
    pub open spec fn reading(self, remaining: usize, offset: u64) -> FileTransfer {
        match self.inner {
            FileBackend::Cached(cached) => FileTransfer::Cached(
                cached.transfer_of(TransferKind::Read, offset, remaining),
            ),
            FileBackend::Direct(loc) => FileTransfer::Direct(DirectTransfer { loc, offset }),
        }
    }

    /// The write that a file starts with the given buffer and position.
    pub open spec fn writing(self, remaining: usize, offset: u64) -> FileTransfer {
        match self.inner {
            FileBackend::Cached(cached) => FileTransfer::Cached(
                cached.transfer_of(TransferKind::Write, offset, remaining),
            ),
            FileBackend::Direct(loc) => FileTransfer::Direct(DirectTransfer { loc, offset }),
        }
    }

    /// Reads from a position. The file must be open for reading.
    pub fn read_at(&self, remaining: usize, offset: u64) -> (r: Result<FileTransfer, VfsError>)
        requires
            offset + remaining <= u64::MAX,
        ensures
            r == (if self.allows(FileFlags { bits: FileFlags::READ }) {
                Ok::<FileTransfer, VfsError>(self.reading(remaining, offset))
            } else {
                Err(VfsError::BadFileDescriptor)
            }),
    {
        match self.access(FileFlags::of(FileFlags::READ)) {
            Ok(backend) => Ok(backend.read_at(remaining, offset)),
            Err(e) => Err(e),
        }
    }

    /// Writes at a position. The file must be open for writing.
    pub fn write_at(&self, remaining: usize, offset: u64) -> (r: Result<FileTransfer, VfsError>)
        requires
            self.inner is Cached ==> offset + remaining <= MAX_OFFSET,
        ensures
            r == (if self.allows(FileFlags { bits: FileFlags::WRITE }) {
                Ok::<FileTransfer, VfsError>(self.writing(remaining, offset))
            } else {
                Err(VfsError::BadFileDescriptor)
            }),
    {
        match self.access(FileFlags::of(FileFlags::WRITE)) {
            Ok(backend) => Ok(backend.write_at(remaining, offset)),
            Err(e) => Err(e),
        }
    }

    /// Brings the file in step with what was written, unless it was opened for
    /// its path only.
    pub fn sync(&self, data_only: bool) -> (r: Result<FileSync, VfsError>)
        ensures
            r == (if self.allows(FileFlags { bits: 0 }) {
                Ok::<FileSync, VfsError>(
                    match self.inner {
                        FileBackend::Cached(cached) => FileSync::Cached(cached.sync_of(data_only)),
                        FileBackend::Direct(loc) => FileSync::Direct { loc, data_only },
                    },
                )
            } else {
                Err(VfsError::BadFileDescriptor)
            }),
    {
        match self.access(FileFlags::empty()) {
            Ok(backend) => Ok(backend.sync(data_only)),
            Err(e) => Err(e),
        }
    }

    /// Where the next read or write starts.
    pub open spec fn at(self) -> u64 {
        match self.position {
            Some(pos) => pos,
            None => 0,
        }
    }

    /// Reads from the position of the file, or from its start if it has none.
    /// [`File::after_read`] is to follow.
    pub fn read(&mut self, remaining: usize) -> (r: Result<FileTransfer, VfsError>)
        requires
            old(self).at() + remaining <= u64::MAX,
        ensures
            *final(self) == (File { was_read: true, ..*old(self) }),
            r == (if old(self).allows(FileFlags { bits: FileFlags::READ }) {
                Ok::<FileTransfer, VfsError>(old(self).reading(remaining, old(self).at()))
            } else {
                Err(VfsError::BadFileDescriptor)
            }),
    {
        self.was_read = true;
        match self.position {
            Some(pos) => self.read_at(remaining, pos),
            None => self.read_at(remaining, 0),
        }
    }

    /// Whether a write goes behind the end: the file has a position and was
    /// opened to be appended to.
    pub open spec fn appends(self) -> bool {
        self.position is Some && self.allows(FileFlags { bits: FileFlags::APPEND })
    }

    /// Writes at the position of the file, or at its start if it has none; one
    /// that was opened to be appended to is written behind its end.
    /// [`File::after_write`] is to follow.
    pub fn write(&mut self, remaining: usize) -> (r: Result<FileTransfer, VfsError>)
        requires
            !old(self).appends() && old(self).inner is Cached ==> old(self).at() + remaining
                <= MAX_OFFSET,
        ensures
            *final(self) == (File { was_read: true, was_written: true, ..*old(self) }),
            r == (if old(self).appends() {
                Ok::<FileTransfer, VfsError>(
                    match old(self).inner {
                        FileBackend::Cached(cached) => FileTransfer::Cached(
                            cached.transfer_of(TransferKind::Append, 0, remaining),
                        ),
                        FileBackend::Direct(loc) => FileTransfer::DirectAppend(loc),
                    },
                )
            } else if old(self).allows(FileFlags { bits: FileFlags::WRITE }) {
                Ok(old(self).writing(remaining, old(self).at()))
            } else {
                Err(VfsError::BadFileDescriptor)
            }),
    {
        self.was_read = true;
        self.was_written = true;
        match self.position {
            Some(pos) => match self.access(FileFlags::of(FileFlags::APPEND)) {
                Ok(backend) => Ok(backend.append(remaining)),
                Err(_) => self.write_at(remaining, pos),
            },
            None => self.write_at(remaining, 0),
        }
    }

    /// Takes note of a read of `n` bytes: the position goes behind them.
    pub fn after_read(&mut self, n: usize)
        requires
            old(self).at() + n <= u64::MAX,
        ensures
            *final(self) == (File {
                position: match old(self).position {
                    Some(pos) => Some((pos + n) as u64),
                    None => None,
                },
                ..*old(self)
            }),
    {
        if let Some(pos) = self.position {
            self.position = Some(pos + n as u64);
        }
    }

    /// Takes note of a write of `n` bytes that ended at `end`: the position goes
    /// behind them.
    pub fn after_write(&mut self, n: usize, end: u64)
        requires
            !old(self).appends() ==> old(self).at() + n <= u64::MAX,
        ensures
            *final(self) == (File {
                position: match old(self).position {
                    Some(pos) => if old(self).appends() {
                        Some(end)
                    } else {
                        Some((pos + n) as u64)
                    },
                    None => None,
                },
                ..*old(self)
            }),
    {
        if let Some(pos) = self.position {
            if self.access(FileFlags::of(FileFlags::APPEND)).is_ok() {
                self.position = Some(end);
            } else {
                self.position = Some(pos + n as u64);
            }
        }
    }

    /// Nothing is left to be flushed of a file that may be used.
    pub fn flush(&self) -> (r: Result<(), VfsError>)
        ensures
            r == (if self.allows(FileFlags { bits: 0 }) {
                Ok::<(), VfsError>(())
            } else {
                Err(VfsError::BadFileDescriptor)
            }),
    {
        match self.access(FileFlags::empty()) {
            Ok(_) => Ok(()),
            Err(e) => Err(e),
        }
    }
}

/// Where a seek stands.
#[derive(Debug, Clone, Copy, PartialEq, Eq, Structural)]
pub enum SeekState {
    Begin,
    AwaitLen,
    Over,
}

/// A seek. A file without a position stays where it is.
#[derive(Debug, Clone, Copy, PartialEq, Eq, Structural)]
pub struct Seek {
    pub pos: SeekFrom,
    pub state: SeekState,
}

/// The position that lies `off` behind `base`, if it is one.
pub open spec fn moved_by(base: u64, off: i64) -> Option<u64> {
    if 0 <= base + off <= u64::MAX {
        Some((base + off) as u64)
    } else {
        None
    }
}

/// The position that lies `off` behind `base`, if it is one.
fn move_by(base: u64, off: i64) -> (r: Option<u64>)
    ensures
        r == moved_by(base, off),
{
    base.checked_add_signed(off)
}

impl Seek {
    /// Whether the reply can be one to the last request.
    pub open spec fn awaits(self, reply: Reply) -> bool {
        match self.state {
            SeekState::Begin => reply is Start,
            SeekState::AwaitLen => self.pos is End && (reply is Len || reply is Failed),
            SeekState::Over => false,
        }
    }

    /// The file goes to a position, if it is one.
    pub open spec fn landing(self, file: File, target: Option<u64>) -> (Seek, File, Turn<u64>) {
        let over = Seek { state: SeekState::Over, ..self };
        match target {
            Some(pos) => (
                over,
                File { position: Some(pos), ..file },
                Turn::Finished(Ok(pos)),
            ),
            None => (over, file, Turn::Finished(Err(VfsError::InvalidInput))),
        }
    }

    /// What the step does.
    pub open spec fn after(self, file: File, reply: Reply) -> (Seek, File, Turn<u64>) {
        let over = Seek { state: SeekState::Over, ..self };
        match (self.state, reply) {
            (SeekState::Begin, _) => if !file.allows(FileFlags { bits: 0 }) {
                (over, file, Turn::Finished(Err(VfsError::BadFileDescriptor)))
            } else {
                match (file.position, self.pos) {
                    (None, _) => (over, file, Turn::Finished(Ok(0))),
                    (Some(_), SeekFrom::Start(pos)) => self.landing(file, Some(pos)),
                    (Some(_), SeekFrom::End(_)) => (
                        Seek { state: SeekState::AwaitLen, ..self },
                        file,
                        Turn::Ask(Request::FileLen),
                    ),
                    (Some(pos), SeekFrom::Current(off)) => self.landing(file, moved_by(pos, off)),
                }
            },
            (SeekState::AwaitLen, Reply::Len(size)) => self.landing(
                file,
                moved_by(size, self.pos->End_0),
            ),
            (SeekState::AwaitLen, Reply::Failed(e)) => (over, file, Turn::Finished(Err(e))),
            _ => arbitrary(),
        }
    }

    /// Sets the position, if it is one.
    fn land(&mut self, file: &mut File, target: Option<u64>) -> (r: Turn<u64>)
        ensures
            (*final(self), *final(file), r) == old(self).landing(*old(file), target),
    {
        self.state = SeekState::Over;
        match target {
            Some(pos) => {
                file.position = Some(pos);
                Turn::Finished(Ok(pos))
            },
            None => Turn::Finished(Err(VfsError::InvalidInput)),
        }
    }

    /// Goes on with the seek.
    pub fn step(&mut self, file: &mut File, reply: Reply) -> (r: Turn<u64>)
        requires
            old(self).awaits(reply),
        ensures
            (*final(self), *final(file), r) == old(self).after(*old(file), reply),
    {
        match (self.state, reply) {
            (SeekState::Begin, _) => {
                if let Err(e) = file.flush() {
                    self.state = SeekState::Over;
                    return Turn::Finished(Err(e));
                }
                match (file.position, self.pos) {
                    (None, _) => {
                        self.state = SeekState::Over;
                        Turn::Finished(Ok(0))
                    },
                    (Some(_), SeekFrom::Start(pos)) => self.land(file, Some(pos)),
                    (Some(_), SeekFrom::End(_)) => {
                        self.state = SeekState::AwaitLen;
                        Turn::Ask(Request::FileLen)
                    },
                    (Some(pos), SeekFrom::Current(off)) => {
                        let target: Option<u64> = move_by(pos, off);
                        self.land(file, target)
                    },
                }
            },
            (SeekState::AwaitLen, Reply::Len(size)) => match self.pos {
                SeekFrom::End(off) => {
                    let target: Option<u64> = move_by(size, off);
                    self.land(file, target)
                },
                _ => unreached(),
            },
            (SeekState::AwaitLen, Reply::Failed(e)) => {
                self.state = SeekState::Over;
                Turn::Finished(Err(e))
            },
            _ => unreached(),
        }
    }
}

impl File {
    /// Seeks.
    pub fn seek(pos: SeekFrom) -> (r: Seek)
        ensures
            r == (Seek { pos, state: SeekState::Begin }),
    {
        Seek { pos, state: SeekState::Begin }
    }

    /// Which times are due when the file is closed: that of the last access, and
    /// that of the last change.
    pub fn times_due(&self) -> (r: (bool, bool))
        ensures
            r == (self.was_read, self.was_written),
    {
        (self.was_read, self.was_written)
    }
}

/// A seek to a position followed by one that stays there gives the position
/// back.
pub proof fn law_seek_then_tell(file: File, pos: u64)
    requires
        file.allows(FileFlags { bits: 0 }),
        file.position is Some,
    ensures
        ({
            let there = (Seek { pos: SeekFrom::Start(pos), state: SeekState::Begin }).after(
                file,
                Reply::Start,
            );
            let told = (Seek { pos: SeekFrom::Current(0), state: SeekState::Begin }).after(
                there.1,
                Reply::Start,
            );
            &&& told.2 == Turn::Finished(Ok::<u64, VfsError>(pos))
            &&& told.1 == there.1
            &&& there.1.position == Some(pos)
        }),
{
}

/// A file that was opened for its path only can be used for nothing.
pub proof fn law_path_only(file: File, flags: FileFlags)
    requires
        file.flags.contains(FileFlags { bits: FileFlags::PATH }),
    ensures
        !file.allows(flags),
{
}

} // verus!
