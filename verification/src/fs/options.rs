//! How files are opened.

use vstd::prelude::*;
use vstd::pervasive::unreached;
use crate::error::VfsError;
use crate::flags::{FileFlags, NodeFlags};
use crate::fs::backend::FileBackend;
use crate::fs::cached_file::CachedFile;
use crate::fs::caches::PageCaches;
use crate::fs::file::File;
use crate::fs::location::{Location, NodeType};

verus! {

/// What opening a place gives.
#[derive(Debug, Clone, Copy)]
pub enum OpenResult {
    File(File),
    Dir(Location),
}

impl OpenResult {
    /// The file, if it is one.
    pub fn into_file(self) -> (r: Result<File, VfsError>)
        ensures
            r == (match self {
                OpenResult::File(file) => Ok::<File, VfsError>(file),
                OpenResult::Dir(_) => Err(VfsError::IsADirectory),
            }),
    {
        match self {
            OpenResult::File(file) => Ok(file),
            OpenResult::Dir(_) => Err(VfsError::IsADirectory),
        }
    }

    /// The directory, if it is one.
    pub fn into_dir(self) -> (r: Result<Location, VfsError>)
        ensures
            r == (match self {
                OpenResult::Dir(dir) => Ok::<Location, VfsError>(dir),
                OpenResult::File(_) => Err(VfsError::NotADirectory),
            }),
    {
        match self {
            OpenResult::Dir(dir) => Ok(dir),
            OpenResult::File(_) => Err(VfsError::NotADirectory),
        }
    }

    /// The place.
    pub fn into_location(self) -> (r: Location)
        ensures
            r == (match self {
                OpenResult::File(file) => file.inner.place(),
                OpenResult::Dir(dir) => dir,
            }),
    {
        match self {
            OpenResult::File(file) => *file.location(),
            OpenResult::Dir(dir) => dir,
        }
    }
}

/// How a file is to be opened.
#[derive(Debug, Clone, Copy)]
pub struct OpenOptions {
    pub read: bool,
    pub write: bool,
    pub append: bool,
    pub truncate: bool,
    pub create: bool,
    pub create_new: bool,
    pub directory: bool,
    pub no_follow: bool,
    pub direct: bool,
    pub user: Option<(u32, u32)>,
    pub path: bool,
    pub node_type: NodeType,
    pub mode: u32,
}

impl OpenOptions {
    /// Nothing is asked for; new files may be read and written by all.
    pub fn new() -> (r: OpenOptions)
        ensures
            r == (OpenOptions {
                read: false,
                write: false,
                append: false,
                truncate: false,
                create: false,
                create_new: false,
                directory: false,
                no_follow: false,
                direct: false,
                user: None,
                path: false,
                node_type: NodeType::RegularFile,
                mode: 0o666,
            }),
    {
        OpenOptions {
            read: false,
            write: false,
            append: false,
            truncate: false,
            create: false,
            create_new: false,
            directory: false,
            no_follow: false,
            direct: false,
            user: None,
            path: false,
            node_type: NodeType::RegularFile,
            mode: 0o666,
        }
    }

    /// Sets whether the file is to be read.
    pub fn read(&mut self, read: bool) -> (r: &mut OpenOptions)
        ensures
            *r == (OpenOptions { read, ..*old(self) }),
            *final(self) == *final(r),
    {
        self.read = read;
        self
    }

    /// Sets whether the file is to be written.
    pub fn write(&mut self, write: bool) -> (r: &mut OpenOptions)
        ensures
            *r == (OpenOptions { write, ..*old(self) }),
            *final(self) == *final(r),
    {
        self.write = write;
        self
    }

    /// Sets whether the file is to be written behind its end.
    pub fn append(&mut self, append: bool) -> (r: &mut OpenOptions)
        ensures
            *r == (OpenOptions { append, ..*old(self) }),
            *final(self) == *final(r),
    {
        self.append = append;
        self
    }

    /// Sets whether the file is to be emptied.
    pub fn truncate(&mut self, truncate: bool) -> (r: &mut OpenOptions)
        ensures
            *r == (OpenOptions { truncate, ..*old(self) }),
            *final(self) == *final(r),
    {
        self.truncate = truncate;
        self
    }

    /// Sets whether the file is to be created if it does not exist.
    pub fn create(&mut self, create: bool) -> (r: &mut OpenOptions)
        ensures
            *r == (OpenOptions { create, ..*old(self) }),
            *final(self) == *final(r),
    {
        self.create = create;
        self
    }

    /// Sets whether the file is to be created and must not exist.
    pub fn create_new(&mut self, create_new: bool) -> (r: &mut OpenOptions)
        ensures
            *r == (OpenOptions { create_new, ..*old(self) }),
            *final(self) == *final(r),
    {
        self.create_new = create_new;
        self
    }

    /// Sets whether a directory is to be opened.
    pub fn directory(&mut self, directory: bool) -> (r: &mut OpenOptions)
        ensures
            *r == (OpenOptions { directory, ..*old(self) }),
            *final(self) == *final(r),
    {
        self.directory = directory;
        self
    }

    /// Sets whether a symbolic link is to be opened itself.
    pub fn no_follow(&mut self, no_follow: bool) -> (r: &mut OpenOptions)
        ensures
            *r == (OpenOptions { no_follow, ..*old(self) }),
            *final(self) == *final(r),
    {
        self.no_follow = no_follow;
        self
    }

    /// Sets whether the file is to be accessed directly.
    pub fn direct(&mut self, direct: bool) -> (r: &mut OpenOptions)
        ensures
            *r == (OpenOptions { direct, ..*old(self) }),
            *final(self) == *final(r),
    {
        self.direct = direct;
        self
    }

    /// Sets the user and the group that a new file belongs to.
    pub fn user(&mut self, uid: u32, gid: u32) -> (r: &mut OpenOptions)
        ensures
            *r == (OpenOptions { user: Some((uid, gid)), ..*old(self) }),
            *final(self) == *final(r),
    {
        self.user = Some((uid, gid));
        self
    }

    /// Sets whether the file is opened for its path only.
    pub fn path(&mut self, path: bool) -> (r: &mut OpenOptions)
        ensures
            *r == (OpenOptions { path, ..*old(self) }),
            *final(self) == *final(r),
    {
        self.path = path;
        self
    }

    /// Sets the kind of a new node.
    pub fn node_type(&mut self, node_type: NodeType) -> (r: &mut OpenOptions)
        ensures
            *r == (OpenOptions { node_type, ..*old(self) }),
            *final(self) == *final(r),
    {
        self.node_type = node_type;
        self
    }

    /// Sets the permissions of a new file.
    pub fn mode(&mut self, mode: u32) -> (r: &mut OpenOptions)
        ensures
            *r == (OpenOptions { mode, ..*old(self) }),
            *final(self) == *final(r),
    {
        self.mode = mode;
        self
    }

    /// What an open file may be used for, or none if nothing is asked for.
    pub open spec fn flags(self) -> Option<FileFlags> {
        if !self.read && !self.write && !self.append {
            None
        } else {
            Some(
                FileFlags {
                    bits: (if self.read {
                        FileFlags::READ
                    } else {
                        0u8
                    }) | (if self.write || self.append {
                        FileFlags::WRITE
                    } else {
                        0u8
                    }) | (if self.append {
                        FileFlags::APPEND
                    } else {
                        0u8
                    }) | (if self.path {
                        FileFlags::PATH
                    } else {
                        0u8
                    }),
                },
            )
        }
    }

    /// What the open file may be used for. It must be read or written.
    pub fn to_flags(&self) -> (r: Result<FileFlags, VfsError>)
        ensures
            r == (match self.flags() {
                Some(flags) => Ok::<FileFlags, VfsError>(flags),
                None => Err(VfsError::InvalidInput),
            }),
    {
        proof {
            lemma_flag_bits();
        }
        let access: FileFlags = match (self.read, self.write, self.append) {
            (true, false, false) => FileFlags::of(FileFlags::READ),
            (false, true, false) => FileFlags::of(FileFlags::WRITE),
            (true, true, false) => FileFlags::of(FileFlags::READ).union(
                FileFlags::of(FileFlags::WRITE),
            ),
            (false, _, true) => FileFlags::of(FileFlags::WRITE).union(
                FileFlags::of(FileFlags::APPEND),
            ),
            (true, _, true) => FileFlags::of(FileFlags::READ).union(
                FileFlags::of(FileFlags::WRITE),
            ).union(FileFlags::of(FileFlags::APPEND)),
            (false, false, false) => return Err(VfsError::InvalidInput),
        };
        Ok(
            access.union(
                if self.path {
                    FileFlags::of(FileFlags::PATH)
                } else {
                    FileFlags::empty()
                },
            ),
        )
    }

    /// Whether the options go together: to empty or to create a file it must be
    /// written, and a file that is appended to is emptied only if it is new.
    /// Options that ask for no access at all are not looked at.
    pub open spec fn valid(self) -> bool {
        if !self.read && !self.write && !self.append {
            true
        } else if self.append {
            self.truncate ==> self.create_new
        } else {
            self.write || !(self.truncate || self.create || self.create_new)
        }
    }

    /// Whether the options go together.
    pub fn is_valid(&self) -> (r: bool)
        ensures
            r == self.valid(),
    {
        if !self.read && !self.write && !self.append {
            return true;
        }
        match (self.write, self.append) {
            (true, false) => {},
            (false, false) => {
                if self.truncate || self.create || self.create_new {
                    return false;
                }
            },
            (_, true) => {
                if self.truncate && !self.create_new {
                    return false;
                }
            },
        }
        true
    }

    /// Whether a file is accessed through the page cache.
    pub open spec fn cached(self, loc: Location, node_type: NodeType) -> bool {
        let direct = node_type is CharacterDevice || node_type is Fifo || node_type is Socket
            || self.path || self.direct || loc.flags.contains(NodeFlags::NON_CACHEABLE);
        !direct || loc.flags.contains(NodeFlags::ALWAYS_CACHE)
    }
}

impl Default for OpenOptions {
    fn default() -> (r: OpenOptions)
        ensures
            !r.read && !r.write && !r.append && !r.truncate && !r.create && !r.create_new
                && !r.directory && !r.no_follow && !r.direct && !r.path && r.user is None
                && r.node_type is RegularFile && r.mode == 0o666,
    {
        OpenOptions::new()
    }
}

proof fn lemma_flag_bits()
    ensures
        0u8 | 0u8 == 0u8,
        0u8 | 1u8 == 1u8,
        1u8 | 0u8 == 1u8,
        0u8 | 2u8 == 2u8,
        2u8 | 0u8 == 2u8,
        3u8 | 0u8 == 3u8,
        1u8 | 2u8 == 3u8,
        2u8 | 8u8 == 10u8,
        3u8 | 8u8 == 11u8,
        10u8 | 0u8 == 10u8,
        11u8 | 0u8 == 11u8,
{
    assert(0u8 | 0u8 == 0u8 && 0u8 | 1u8 == 1u8 && 1u8 | 0u8 == 1u8 && 0u8 | 2u8 == 2u8 && 2u8 | 0u8
        == 2u8 && 3u8 | 0u8 == 3u8 && 1u8 | 2u8 == 3u8 && 2u8 | 8u8 == 10u8 && 3u8 | 8u8 == 11u8
        && 10u8 | 0u8 == 10u8 && 11u8 | 0u8 == 11u8) by (bit_vector);
}

/// What opening a file needs from the filesystem.
#[derive(Debug, Clone, Copy)]
pub enum OpenRequest {
    /// Find the directory of the path and the name in it: `Done` or `Failed`.
    ResolveParent,
    /// Open or create the name in that directory: `Place` or `Failed`.
    OpenFile {
        create: bool,
        create_new: bool,
        node_type: NodeType,
        permission: u16,
        user: Option<(u32, u32)>,
    },
    /// Follow a symbolic link from that directory: `Place` or `Failed`.
    FollowLink(Location),
    /// The root directory: `Place`.
    RootDir,
    /// Empty the file: `Done` or `Failed`.
    Truncate(Location),
    /// The kind of the node: `Kind` or `Failed`.
    Kind(Location),
    /// The length of the file: `Len` or `Failed`.
    Len(Location),
}

/// The answer to an [`OpenRequest`].
#[derive(Debug, Clone, Copy)]
pub enum OpenReply {
    /// There was no request yet.
    Start,
    Done,
    Place(Location),
    Kind(NodeType),
    Len(u64),
    Failed(VfsError),
}

/// What a step of an opening ends with.
#[derive(Debug)]
pub enum OpenTurn {
    Ask(OpenRequest),
    Finished(Result<OpenResult, VfsError>),
}

/// Where an opening stands.
#[derive(Debug, Clone, Copy, PartialEq, Eq, Structural)]
pub enum OpenState {
    Begin,
    AwaitParent,
    AwaitFile,
    AwaitLink,
    AwaitRoot,
    AwaitTruncate,
    AwaitKind,
    AwaitLen,
    Over,
}

/// The opening of a path, or of a place that is known already.
#[derive(Debug, Clone, Copy)]
pub struct Opening {
    pub options: OpenOptions,
    /// The place, once it is known.
    pub loc: Option<Location>,
    pub state: OpenState,
    /// What the open file may be used for, and how it is accessed, once these
    /// are known.
    pub flags: FileFlags,
    pub backend: Option<FileBackend>,
}

/// The bits of a mode that are permissions.
pub const PERMISSION_BITS: u32 = 0o7777;

/// The permissions of a mode.
pub open spec fn permission(mode: u32) -> u16 {
    (mode & PERMISSION_BITS) as u16
}

/// The permissions of a mode.
fn permission_of(mode: u32) -> (r: u16)
    ensures
        r == permission(mode),
{
    (mode & PERMISSION_BITS) as u16
}

impl Opening {
    /// Whether the reply can be one to the last request.
    pub open spec fn awaits(self, reply: OpenReply) -> bool {
        match self.state {
            OpenState::Begin => reply is Start,
            OpenState::AwaitParent => reply is Done || reply is Failed,
            OpenState::AwaitFile => reply is Place || reply is Failed,
            OpenState::AwaitLink => reply is Place || reply is Failed,
            OpenState::AwaitRoot => reply is Place,
            OpenState::AwaitTruncate => reply is Done || reply is Failed,
            OpenState::AwaitKind => reply is Kind || reply is Failed,
            OpenState::AwaitLen => reply is Len || reply is Failed,
            OpenState::Over => false,
        }
    }

    pub open spec fn wf(self) -> bool {
        match self.state {
            OpenState::AwaitTruncate | OpenState::AwaitKind => self.loc is Some,
            OpenState::AwaitLen => self.backend is Some,
            _ => true,
        }
    }

    pub open spec fn asking(self, state: OpenState, request: OpenRequest) -> (Opening, OpenTurn) {
        (Opening { state, ..self }, OpenTurn::Ask(request))
    }

    pub open spec fn ending(self, result: Result<OpenResult, VfsError>) -> (Opening, OpenTurn) {
        (Opening { state: OpenState::Over, ..self }, OpenTurn::Finished(result))
    }

    /// The opening of the place `loc`.
    pub open spec fn opening(self, loc: Location) -> (Opening, OpenTurn) {
        let t = Opening { loc: Some(loc), ..self };
        match self.options.flags() {
            None => t.ending(Err(VfsError::InvalidInput)),
            Some(flags) => {
                let u = Opening { flags, ..t };
                if self.options.directory && flags.contains(FileFlags { bits: FileFlags::WRITE }) {
                    u.ending(Err(VfsError::IsADirectory))
                } else if self.options.directory && !loc.is_dir() {
                    u.ending(Err(VfsError::NotADirectory))
                } else if self.options.truncate && loc.is_dir() {
                    u.ending(Err(VfsError::IsADirectory))
                } else if self.options.truncate {
                    u.asking(OpenState::AwaitTruncate, OpenRequest::Truncate(loc))
                } else {
                    u.classifying()
                }
            },
        }
    }

    /// The opening turns to the kind of the node.
    pub open spec fn classifying(self) -> (Opening, OpenTurn) {
        let loc = self.loc.unwrap();
        if loc.is_dir() {
            self.ending(Ok(OpenResult::Dir(loc)))
        } else {
            self.asking(OpenState::AwaitKind, OpenRequest::Kind(loc))
        }
    }

    /// The opening ends with a file, whose length is still needed if it has a
    /// position and is appended to.
    pub open spec fn finishing(self, backend: FileBackend) -> (Opening, OpenTurn) {
        let t = Opening { backend: Some(backend), ..self };
        if File::needs_len(backend, self.flags) {
            t.asking(OpenState::AwaitLen, OpenRequest::Len(backend.place()))
        } else {
            t.ending(Ok(OpenResult::File(File::opened(backend, self.flags, 0))))
        }
    }

    /// What the step does, where it does not make a cached file.
    pub open spec fn after(self, reply: OpenReply) -> (Opening, OpenTurn) {
        match (self.state, reply) {
            (OpenState::Begin, _) => if !self.options.valid() {
                self.ending(Err(VfsError::InvalidInput))
            } else {
                match self.loc {
                    Some(loc) => self.opening(loc),
                    None => self.asking(OpenState::AwaitParent, OpenRequest::ResolveParent),
                }
            },
            (OpenState::AwaitParent, OpenReply::Done) => self.asking(
                OpenState::AwaitFile,
                OpenRequest::OpenFile {
                    create: self.options.create,
                    create_new: self.options.create_new,
                    node_type: self.options.node_type,
                    permission: permission(self.options.mode),
                    user: self.options.user,
                },
            ),
            (OpenState::AwaitParent, OpenReply::Failed(e)) => if e is InvalidInput {
                self.asking(OpenState::AwaitRoot, OpenRequest::RootDir)
            } else {
                self.ending(Err(e))
            },
            (OpenState::AwaitFile, OpenReply::Place(loc)) => if self.options.no_follow {
                self.opening(loc)
            } else {
                self.asking(OpenState::AwaitLink, OpenRequest::FollowLink(loc))
            },
            (OpenState::AwaitLink, OpenReply::Place(loc)) => self.opening(loc),
            (OpenState::AwaitRoot, OpenReply::Place(loc)) => self.opening(loc),
            (OpenState::AwaitTruncate, OpenReply::Done) => self.classifying(),
            (OpenState::AwaitKind, OpenReply::Kind(node_type)) => self.finishing(
                FileBackend::Direct(self.loc.unwrap()),
            ),
            (OpenState::AwaitLen, OpenReply::Len(len)) => self.ending(
                Ok(OpenResult::File(File::opened(self.backend.unwrap(), self.flags, len))),
            ),
            (OpenState::AwaitLen, _) => self.ending(
                Ok(OpenResult::File(File::opened(self.backend.unwrap(), self.flags, 0))),
            ),
            (_, OpenReply::Failed(e)) => self.ending(Err(e)),
            _ => arbitrary(),
        }
    }

    /// Whether the step makes a cached file.
    pub open spec fn makes_cached(self, reply: OpenReply) -> bool {
        self.state is AwaitKind && (reply matches OpenReply::Kind(node_type) && self.options.cached(
            self.loc.unwrap(),
            node_type,
        ))
    }

    /// Ends the opening with a file, or asks for its length.
    fn finish(&mut self, backend: FileBackend) -> (r: OpenTurn)
        ensures
            final(self).wf(),
            (*final(self), r) == old(self).finishing(backend),
    {
        self.backend = Some(backend);
        if File::is_len_needed(&backend, self.flags) {
            self.state = OpenState::AwaitLen;
            OpenTurn::Ask(OpenRequest::Len(*backend.location()))
        } else {
            self.state = OpenState::Over;
            OpenTurn::Finished(Ok(OpenResult::File(File::new(backend, self.flags, 0))))
        }
    }

    /// Turns to the kind of the node.
    fn classify(&mut self, loc: Location) -> (r: OpenTurn)
        requires
            old(self).loc == Some(loc),
        ensures
            final(self).wf(),
            (*final(self), r) == old(self).classifying(),
    {
        if loc.is_dir() {
            self.state = OpenState::Over;
            OpenTurn::Finished(Ok(OpenResult::Dir(loc)))
        } else {
            self.state = OpenState::AwaitKind;
            OpenTurn::Ask(OpenRequest::Kind(loc))
        }
    }

    /// Opens the place `loc`.
    fn open_at(&mut self, loc: Location) -> (r: OpenTurn)
        ensures
            final(self).wf(),
            (*final(self), r) == old(self).opening(loc),
    {
        self.loc = Some(loc);
        let flags: FileFlags = match self.options.to_flags() {
            Ok(flags) => flags,
            Err(e) => {
                self.state = OpenState::Over;
                return OpenTurn::Finished(Err(e));
            },
        };
        self.flags = flags;
        if self.options.directory {
            if flags.contains(FileFlags::of(FileFlags::WRITE)) {
                self.state = OpenState::Over;
                return OpenTurn::Finished(Err(VfsError::IsADirectory));
            }
            if !loc.is_dir() {
                self.state = OpenState::Over;
                return OpenTurn::Finished(Err(VfsError::NotADirectory));
            }
        }
        if self.options.truncate {
            if loc.is_dir() {
                self.state = OpenState::Over;
                return OpenTurn::Finished(Err(VfsError::IsADirectory));
            }
            self.state = OpenState::AwaitTruncate;
            return OpenTurn::Ask(OpenRequest::Truncate(loc));
        }
        self.classify(loc)
    }

    /// Goes on with the opening. `noted` is the number of a cache that is noted at
    /// the place of the file; it counts only when a cached file is made.
    pub fn step(&mut self, caches: &mut PageCaches, noted: Option<u64>, reply: OpenReply) -> (r:
        OpenTurn)
        requires
            old(self).wf(),
            old(self).awaits(reply),
            old(caches)@.wf(),
            old(self).makes_cached(reply) ==> old(caches)@.can_open(noted),
        ensures
            final(self).wf(),
            final(caches)@.wf(),
            !old(self).makes_cached(reply) ==> {
                &&& (*final(self), r) == old(self).after(reply)
                &&& final(caches)@ == old(caches)@
            },
            old(self).makes_cached(reply) ==> {
                let loc = old(self).loc.unwrap();
                &&& (*final(self), r) == old(self).finishing(
                    FileBackend::Cached(
                        CachedFile {
                            inner: loc,
                            shared: old(caches)@.number(noted),
                            in_memory: loc.in_memory,
                        },
                    ),
                )
                &&& final(caches)@ == old(caches)@.opened(loc, noted)
            },
    {
        match (self.state, reply) {
            (OpenState::Begin, _) => {
                if !self.options.is_valid() {
                    self.state = OpenState::Over;
                    return OpenTurn::Finished(Err(VfsError::InvalidInput));
                }
                match self.loc {
                    Some(loc) => self.open_at(loc),
                    None => {
                        self.state = OpenState::AwaitParent;
                        OpenTurn::Ask(OpenRequest::ResolveParent)
                    },
                }
            },
            (OpenState::AwaitParent, OpenReply::Done) => {
                self.state = OpenState::AwaitFile;
                OpenTurn::Ask(
                    OpenRequest::OpenFile {
                        create: self.options.create,
                        create_new: self.options.create_new,
                        node_type: self.options.node_type,
                        permission: permission_of(self.options.mode),
                        user: self.options.user,
                    },
                )
            },
            (OpenState::AwaitParent, OpenReply::Failed(e)) => {
                if matches!(e, VfsError::InvalidInput) {
                    self.state = OpenState::AwaitRoot;
                    OpenTurn::Ask(OpenRequest::RootDir)
                } else {
                    self.state = OpenState::Over;
                    OpenTurn::Finished(Err(e))
                }
            },
            (OpenState::AwaitFile, OpenReply::Place(loc)) => {
                if self.options.no_follow {
                    self.open_at(loc)
                } else {
                    self.state = OpenState::AwaitLink;
                    OpenTurn::Ask(OpenRequest::FollowLink(loc))
                }
            },
            (OpenState::AwaitLink, OpenReply::Place(loc)) => self.open_at(loc),
            (OpenState::AwaitRoot, OpenReply::Place(loc)) => self.open_at(loc),
            (OpenState::AwaitTruncate, OpenReply::Done) => match self.loc {
                Some(loc) => self.classify(loc),
                None => unreached(),
            },
            (OpenState::AwaitKind, OpenReply::Kind(node_type)) => match self.loc {
                Some(loc) => {
                    let non_cacheable_type: bool = matches!(
                        node_type,
                        NodeType::CharacterDevice | NodeType::Fifo | NodeType::Socket
                    );
                    let direct: bool = non_cacheable_type || self.options.path || self.options.direct
                        || loc.flags.contains(NodeFlags::NON_CACHEABLE);
                    let backend: FileBackend = if !direct || loc.flags.contains(
                        NodeFlags::ALWAYS_CACHE,
                    ) {
                        FileBackend::new_cached(caches, loc, noted)
                    } else {
                        FileBackend::new_direct(loc)
                    };
                    self.finish(backend)
                },
                None => unreached(),
            },
            (OpenState::AwaitLen, OpenReply::Len(len)) => match self.backend {
                Some(backend) => {
                    self.state = OpenState::Over;
                    OpenTurn::Finished(Ok(OpenResult::File(File::new(backend, self.flags, len))))
                },
                None => unreached(),
            },
            (OpenState::AwaitLen, _) => match self.backend {
                Some(backend) => {
                    self.state = OpenState::Over;
                    OpenTurn::Finished(Ok(OpenResult::File(File::new(backend, self.flags, 0))))
                },
                None => unreached(),
            },
            (_, OpenReply::Failed(e)) => {
                self.state = OpenState::Over;
                OpenTurn::Finished(Err(e))
            },
            _ => unreached(),
        }
    }
}

impl OpenOptions {
    /// The opening at its start.
    pub open spec fn opening_of(self, loc: Option<Location>) -> Opening {
        Opening {
            options: self,
            loc,
            state: OpenState::Begin,
            flags: FileFlags { bits: 0 },
            backend: None,
        }
    }

    /// Opens a place that is known already.
    pub fn open_loc(&self, loc: Location) -> (r: Opening)
        ensures
            r == self.opening_of(Some(loc)),
            r.wf(),
    {
        Opening {
            options: *self,
            loc: Some(loc),
            state: OpenState::Begin,
            flags: FileFlags::empty(),
            backend: None,
        }
    }

    /// Opens a path.
    pub fn open(&self) -> (r: Opening)
        ensures
            r == self.opening_of(None),
            r.wf(),
    {
        Opening {
            options: *self,
            loc: None,
            state: OpenState::Begin,
            flags: FileFlags::empty(),
            backend: None,
        }
    }
}

/// A file that was opened by appending may be written, and one that was opened
/// without reading may not be read.
pub proof fn law_access_follows_the_options(o: OpenOptions)
    requires
        o.flags() is Some,
    ensures
        ({
            let flags = o.flags().unwrap();
            &&& flags.contains(FileFlags { bits: FileFlags::READ }) == o.read
            &&& flags.contains(FileFlags { bits: FileFlags::WRITE }) == (o.write || o.append)
            &&& flags.contains(FileFlags { bits: FileFlags::APPEND }) == o.append
            &&& flags.contains(FileFlags { bits: FileFlags::PATH }) == o.path
            &&& !flags.contains(FileFlags { bits: FileFlags::EXECUTE })
        }),
{
    let r: u8 = if o.read { 1 } else { 0 };
    let w: u8 = if o.write || o.append { 2 } else { 0 };
    let a: u8 = if o.append { 8 } else { 0 };
    let p: u8 = if o.path { 16 } else { 0 };
    let f = r | w | a | p;
    assert(f & 1 == r && f & 2 == w && f & 8 == a && f & 16 == p && f & 4 == 0) by (bit_vector)
        requires
            f == r | w | a | p,
            r == 0 || r == 1,
            w == 0 || w == 2,
            a == 0 || a == 8,
            p == 0 || p == 16,
    ;
}

} // verus!
