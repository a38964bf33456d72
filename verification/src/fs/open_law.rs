//! What opening a path or a place comes to.

use vstd::prelude::*;
use crate::error::VfsError;
use crate::flags::{FileFlags, NodeFlags};
use crate::fs::backend::FileBackend;
use crate::fs::cached_file::CachedFile;
use crate::fs::caches::PageCaches;
use crate::fs::file::File;
use crate::fs::location::{Location, NodeType};
use crate::fs::options::{
    law_access_follows_the_options, OpenOptions, OpenReply, OpenRequest, OpenResult, OpenState,
    OpenTurn, Opening,
};

verus! {

/// A request of an opening and the reply to it.
pub struct Exchange {
    pub request: OpenRequest,
    pub reply: OpenReply,
}

/// An opening: where it stands, what was asked and answered, and what it waits for
/// or ended with.
pub struct OpenRun {
    pub machine: Opening,
    pub trace: Seq<Exchange>,
    pub turn: Option<OpenTurn>,
}

/// Whether a step takes an opening from `a` to `b`.
pub open spec fn open_steps(a: Opening, reply: OpenReply, b: Opening, turn: OpenTurn) -> bool {
    if a.makes_cached(reply) {
        exists|cached: CachedFile|
            cached.inner == a.loc.unwrap() && cached.in_memory == cached.inner.in_memory && (b, turn)
                == #[trigger] a.finishing(FileBackend::Cached(cached))
    } else {
        (b, turn) == a.after(reply)
    }
}

/// A step of an opening is one.
pub proof fn lemma_open_steps(
    m: &mut Opening,
    caches: &mut PageCaches,
    noted: Option<u64>,
    reply: OpenReply,
    turn: OpenTurn,
)
    requires
        call_ensures(Opening::step, (m, caches, noted, reply), turn),
    ensures
        open_steps(*old(m), reply, *final(m), turn),
{
}

/// Whether an opening can go from `a` to `b`: it starts, or its request is answered.
pub open spec fn open_moves(a: OpenRun, b: OpenRun) -> bool {
    match a.turn {
        None => {
            &&& b.trace == a.trace
            &&& b.turn matches Some(turn) && open_steps(
                a.machine,
                OpenReply::Start,
                b.machine,
                turn,
            )
        },
        Some(OpenTurn::Ask(request)) => exists|reply: OpenReply| #[trigger]
            a.machine.awaits(reply) && b.trace == a.trace.push(Exchange { request, reply }) && (
            b.turn matches Some(turn) && open_steps(a.machine, reply, b.machine, turn)),
        Some(OpenTurn::Finished(_)) => false,
    }
}

/// Whether an opening goes through the given stages.
pub open spec fn open_runs(stages: Seq<OpenRun>) -> bool {
    &&& stages.len() > 0
    &&& forall|i: int| 0 <= i < stages.len() - 1 ==> open_moves(#[trigger] stages[i], stages[i + 1])
}

/// The request for the name of a path.
pub open spec fn name_request(o: OpenOptions) -> OpenRequest {
    OpenRequest::OpenFile {
        create: o.create,
        create_new: o.create_new,
        node_type: o.node_type,
        permission: (o.mode & 0o7777) as u16,
        user: o.user,
    }
}

/// How many exchanges it takes to find the place: none if it is known, two if the
/// root is opened or a link is not followed, else three.
pub open spec fn path_len(o: OpenOptions, start: Option<Location>, trace: Seq<Exchange>) -> int {
    if start is Some {
        0
    } else if trace[0].reply is Failed || o.no_follow {
        2
    } else {
        3
    }
}

/// The place that is opened.
pub open spec fn place_of(o: OpenOptions, start: Option<Location>, trace: Seq<Exchange>) -> Location {
    match start {
        Some(loc) => loc,
        None => trace[path_len(o, start, trace) - 1].reply->Place_0,
    }
}

/// Whether the first exchanges find the place: the directory of the path, then the
/// name in it, then the end of the link there, unless links are not followed; or the
/// root, if the path has no name.
pub open spec fn leads(o: OpenOptions, start: Option<Location>, trace: Seq<Exchange>) -> bool {
    start is None ==> {
        let k = path_len(o, start, trace);
        &&& trace.len() >= k
        &&& trace[0].request is ResolveParent
        &&& trace[k - 1].reply is Place
        &&& if trace[0].reply is Failed {
            &&& trace[0].reply == OpenReply::Failed(VfsError::InvalidInput)
            &&& trace[1].request is RootDir
        } else {
            &&& trace[0].reply is Done
            &&& trace[1].request == name_request(o)
            &&& trace[1].reply is Place
            &&& !o.no_follow ==> trace[2].request == OpenRequest::FollowLink(
                trace[1].reply->Place_0,
            )
        }
    }
}

/// How many exchanges it takes to empty the file.
pub open spec fn cuts(o: OpenOptions) -> int {
    if o.truncate {
        1
    } else {
        0
    }
}

/// Whether options ask for no access at all.
pub open spec fn idle(o: OpenOptions) -> bool {
    !o.read && !o.write && !o.append
}

/// Whether options contradict each other: a file that is only read is not emptied or
/// created, and one that is appended to is not emptied unless it is new.
pub open spec fn contradictory(o: OpenOptions) -> bool {
    !idle(o) && if o.append {
        o.truncate && !o.create_new
    } else {
        !o.write && (o.truncate || o.create || o.create_new)
    }
}

/// Whether the rights of a file are those that were asked for.
pub open spec fn rights(flags: FileFlags, o: OpenOptions) -> bool {
    &&& flags.bits & 1 == 1 <==> o.read
    &&& flags.bits & 2 == 2 <==> o.write || o.append
    &&& flags.bits & 8 == 8 <==> o.append
    &&& flags.bits & 16 == 16 <==> o.path
    &&& flags.bits & 4 != 4
}

/// Whether a file is accessed through the page cache exactly if that is right: its
/// kind and its flags allow it, and it is not opened for its path or directly; or it
/// is always to be cached.
pub open spec fn rightly_cached(inner: FileBackend, o: OpenOptions, loc: Location, kind: NodeType) -> bool {
    let caches = kind != NodeType::CharacterDevice && kind != NodeType::Fifo && kind
        != NodeType::Socket && !o.path && !o.direct && loc.flags.bits & 2 != 2;
    match inner {
        FileBackend::Cached(cached) => {
            &&& caches || loc.flags.bits & 4 == 4
            &&& cached.inner == loc
            &&& cached.in_memory == loc.in_memory
        },
        FileBackend::Direct(at) => {
            &&& !caches && loc.flags.bits & 4 != 4
            &&& at == loc
        },
    }
}

/// Whether an opening may go on behind the place that it found.
pub open spec fn goes_on(o: OpenOptions, loc: Location) -> bool {
    &&& !contradictory(o)
    &&& !idle(o)
    &&& o.directory ==> !o.write && !o.append && loc.node_type is Directory
    &&& o.truncate ==> !(loc.node_type is Directory)
}

/// Whether the exchanges up to the kind of the file are right.
pub open spec fn emptied_first(o: OpenOptions, loc: Location, trace: Seq<Exchange>, k: int) -> bool {
    o.truncate ==> trace[k].request == OpenRequest::Truncate(loc) && trace[k].reply is Done
}

/// Whether an opening ended as it should: with which result, after which exchanges.
pub open spec fn rightly_ended(
    o: OpenOptions,
    start: Option<Location>,
    trace: Seq<Exchange>,
    result: Result<OpenResult, VfsError>,
) -> bool {
    let k = path_len(o, start, trace);
    let loc = place_of(o, start, trace);
    let n = trace.len();
    let j = k + cuts(o);
    if contradictory(o) {
        n == 0 && result == Err::<OpenResult, VfsError>(VfsError::InvalidInput)
    } else if n > 0 && trace.last().reply is Failed && !(trace.last().request is Len) {
        result == Err::<OpenResult, VfsError>(trace.last().reply->Failed_0)
    } else if idle(o) {
        n == k && result == Err::<OpenResult, VfsError>(VfsError::InvalidInput)
    } else if o.directory && (o.write || o.append) {
        n == k && result == Err::<OpenResult, VfsError>(VfsError::IsADirectory)
    } else if o.directory && !(loc.node_type is Directory) {
        n == k && result == Err::<OpenResult, VfsError>(VfsError::NotADirectory)
    } else if o.truncate && loc.node_type is Directory {
        n == k && result == Err::<OpenResult, VfsError>(VfsError::IsADirectory)
    } else if loc.node_type is Directory {
        n == k && leads(o, start, trace) && result == Ok::<OpenResult, VfsError>(
            OpenResult::Dir(loc),
        )
    } else {
        &&& leads(o, start, trace)
        &&& n > j
        &&& emptied_first(o, loc, trace, k)
        &&& trace[j].request == OpenRequest::Kind(loc)
        &&& trace[j].reply is Kind
        &&& result matches Ok(OpenResult::File(f)) && ({
            &&& rights(f.flags, o)
            &&& rightly_cached(f.inner, o, loc, trace[j].reply->Kind_0)
            &&& !f.was_read && !f.was_written
            &&& if loc.flags.bits & 1 == 1 {
                n == j + 1 && f.position is None
            } else if !o.append {
                n == j + 1 && f.position == Some(0u64)
            } else {
                &&& n == j + 2
                &&& trace[j + 1].request == OpenRequest::Len(loc)
                &&& f.position == Some(
                    match trace[j + 1].reply {
                        OpenReply::Len(len) => len,
                        _ => 0,
                    },
                )
            }
        })
    }
}

/// What holds at every stage of an opening.
pub open spec fn open_invariant(r: OpenRun, o: OpenOptions, start: Option<Location>) -> bool {
    let m = r.machine;
    let trace = r.trace;
    let n = trace.len();
    let k = path_len(o, start, trace);
    let loc = place_of(o, start, trace);
    let j = k + cuts(o);
    let unfailed = n > 0 ==> !(trace.last().reply is Failed);
    &&& m.options == o
    &&& match r.turn {
        None => m.state is Begin && m.loc == start && n == 0,
        Some(OpenTurn::Ask(request)) => {
            &&& !contradictory(o)
            &&& match m.state {
                OpenState::AwaitParent => start is None && n == 0 && request is ResolveParent,
                OpenState::AwaitRoot => {
                    &&& start is None
                    &&& n == 1
                    &&& trace[0].request is ResolveParent
                    &&& trace[0].reply == OpenReply::Failed(VfsError::InvalidInput)
                    &&& request is RootDir
                },
                OpenState::AwaitFile => {
                    &&& start is None
                    &&& n == 1
                    &&& trace[0].request is ResolveParent
                    &&& trace[0].reply is Done
                    &&& request == name_request(o)
                },
                OpenState::AwaitLink => {
                    &&& start is None
                    &&& n == 2
                    &&& trace[0].request is ResolveParent
                    &&& trace[0].reply is Done
                    &&& trace[1].request == name_request(o)
                    &&& trace[1].reply is Place
                    &&& !o.no_follow
                    &&& request == OpenRequest::FollowLink(trace[1].reply->Place_0)
                },
                OpenState::AwaitTruncate => {
                    &&& leads(o, start, trace)
                    &&& n == k
                    &&& goes_on(o, loc)
                    &&& o.truncate
                    &&& rights(m.flags, o)
                    &&& m.loc == Some(loc)
                    &&& request == OpenRequest::Truncate(loc)
                },
                OpenState::AwaitKind => {
                    &&& leads(o, start, trace)
                    &&& n == j
                    &&& goes_on(o, loc)
                    &&& !(loc.node_type is Directory)
                    &&& emptied_first(o, loc, trace, k)
                    &&& rights(m.flags, o)
                    &&& m.loc == Some(loc)
                    &&& request == OpenRequest::Kind(loc)
                },
                OpenState::AwaitLen => {
                    &&& leads(o, start, trace)
                    &&& n == j + 1
                    &&& goes_on(o, loc)
                    &&& !(loc.node_type is Directory)
                    &&& emptied_first(o, loc, trace, k)
                    &&& trace[j].request == OpenRequest::Kind(loc)
                    &&& trace[j].reply is Kind
                    &&& rights(m.flags, o)
                    &&& o.append
                    &&& loc.flags.bits & 1 != 1
                    &&& m.backend matches Some(backend) && rightly_cached(
                        backend,
                        o,
                        loc,
                        trace[j].reply->Kind_0,
                    )
                    &&& request == OpenRequest::Len(loc)
                },
                _ => false,
            }
        },
        Some(OpenTurn::Finished(result)) => rightly_ended(o, start, trace, result),
    }
}

/// The opening of a place that was found.
proof fn lemma_found(
    a: Opening,
    b: OpenRun,
    loc: Location,
    o: OpenOptions,
    start: Option<Location>,
)
    requires
        a.options == o,
        !contradictory(o),
        leads(o, start, b.trace),
        b.trace.len() == path_len(o, start, b.trace),
        loc == place_of(o, start, b.trace),
        b.trace.len() > 0 ==> b.trace.last().reply is Place,
        (b.machine, b.turn) == (a.opening(loc).0, Some(a.opening(loc).1)),
    ensures
        open_invariant(b, o, start),
{
    if !idle(o) {
        law_access_follows_the_options(o);
    }
}

/// The kind of the file is known.
proof fn lemma_classified(
    a: OpenRun,
    b: OpenRun,
    backend: FileBackend,
    kind: NodeType,
    o: OpenOptions,
    start: Option<Location>,
)
    requires
        open_invariant(a, o, start),
        a.machine.state is AwaitKind,
        a.turn == Some(OpenTurn::Ask(OpenRequest::Kind(place_of(o, start, a.trace)))),
        b.trace == a.trace.push(
            Exchange {
                request: OpenRequest::Kind(place_of(o, start, a.trace)),
                reply: OpenReply::Kind(kind),
            },
        ),
        rightly_cached(backend, o, place_of(o, start, a.trace), kind),
        (b.machine, b.turn) == (
            a.machine.finishing(backend).0,
            Some(a.machine.finishing(backend).1),
        ),
    ensures
        open_invariant(b, o, start),
{
    let k = path_len(o, start, a.trace);
    assert(path_len(o, start, b.trace) == k);
    assert(place_of(o, start, b.trace) == place_of(o, start, a.trace));
}

/// A stage of an opening is followed by a stage of it.
proof fn lemma_open_moves(a: OpenRun, b: OpenRun, o: OpenOptions, start: Option<Location>)
    requires
        open_invariant(a, o, start),
        open_moves(a, b),
    ensures
        open_invariant(b, o, start),
{
    let m = a.machine;
    match a.turn {
        None => {
            if !contradictory(o) {
                if let Some(loc) = start {
                    lemma_found(m, b, loc, o, start);
                }
            }
        },
        Some(OpenTurn::Ask(request)) => {
            let reply = choose|reply: OpenReply| #[trigger]
                a.machine.awaits(reply) && b.trace == a.trace.push(Exchange { request, reply }) && (
                b.turn matches Some(turn) && open_steps(a.machine, reply, b.machine, turn));
            let k = path_len(o, start, a.trace);
            match (m.state, reply) {
                (OpenState::AwaitRoot, OpenReply::Place(loc)) => {
                    lemma_found(m, b, loc, o, start);
                },
                (OpenState::AwaitLink, OpenReply::Place(loc)) => {
                    lemma_found(m, b, loc, o, start);
                },
                (OpenState::AwaitFile, OpenReply::Place(loc)) => {
                    if o.no_follow {
                        lemma_found(m, b, loc, o, start);
                    }
                },
                (OpenState::AwaitKind, OpenReply::Kind(kind)) => {
                    let loc = place_of(o, start, a.trace);
                    if m.makes_cached(reply) {
                        let cached = choose|cached: CachedFile|
                            cached.inner == loc && cached.in_memory == cached.inner.in_memory && (
                            b.machine,
                            b.turn.unwrap(),
                            ) == #[trigger] m.finishing(FileBackend::Cached(cached));
                        lemma_classified(a, b, FileBackend::Cached(cached), kind, o, start);
                    } else {
                        lemma_classified(a, b, FileBackend::Direct(loc), kind, o, start);
                    }
                },
                _ => {
                    if a.trace.len() > 0 {
                        assert(b.trace[0] == a.trace[0]);
                    }
                    assert(b.trace.last() == Exchange { request, reply });
                },
            }
        },
        Some(OpenTurn::Finished(_)) => {},
    }
}

proof fn lemma_open_stages(stages: Seq<OpenRun>, i: int, o: OpenOptions, start: Option<Location>)
    requires
        open_runs(stages),
        0 <= i < stages.len(),
        open_invariant(stages[0], o, start),
    ensures
        open_invariant(stages[i], o, start),
    decreases i,
{
    if i > 0 {
        lemma_open_stages(stages, i - 1, o, start);
        assert(open_moves(stages[i - 1], stages[i - 1 + 1]));
        lemma_open_moves(stages[i - 1], stages[i], o, start);
    }
}

/// An opening asks for what the options say, in order, and ends with what the
/// answers come to: it finds the place, empties the file if that is wanted, asks for
/// its kind, and for its length if it is appended to. A file that is opened to be
/// emptied was asked to be before, and one that is not never is. It has the rights
/// that were asked for, is cached if that is right, and starts at its start, or at
/// its end if it is appended to. A request that fails ends the opening with that
/// error.
pub proof fn law_open_does_what_the_options_say(
    o: OpenOptions,
    start: Option<Location>,
    m: Opening,
    stages: Seq<OpenRun>,
    result: Result<OpenResult, VfsError>,
)
    requires
        match start {
            Some(loc) => call_ensures(OpenOptions::open_loc, (&o, loc), m),
            None => call_ensures(OpenOptions::open, (&o,), m),
        },
        open_runs(stages),
        stages[0] == (OpenRun { machine: m, trace: Seq::empty(), turn: None }),
        stages.last().turn == Some(OpenTurn::Finished(result)),
    ensures
        rightly_ended(o, start, stages.last().trace, result),
{
    lemma_open_stages(stages, stages.len() - 1, o, start);
}

/// Whether a place is that of a file.
pub open spec fn stands_at(f: File, loc: Location) -> bool {
    match f.inner {
        FileBackend::Cached(cached) => cached.inner == loc,
        FileBackend::Direct(at) => at == loc,
    }
}

/// A file that is opened with the wish to empty it was emptied: the opening asked for
/// that at the place of the file, and was told that it is done. Without the wish
/// nothing was emptied.
pub proof fn law_open_empties_the_file(
    o: OpenOptions,
    start: Option<Location>,
    m: Opening,
    stages: Seq<OpenRun>,
    f: File,
)
    requires
        match start {
            Some(loc) => call_ensures(OpenOptions::open_loc, (&o, loc), m),
            None => call_ensures(OpenOptions::open, (&o,), m),
        },
        open_runs(stages),
        stages[0] == (OpenRun { machine: m, trace: Seq::empty(), turn: None }),
        stages.last().turn == Some(
            OpenTurn::Finished(Ok::<OpenResult, VfsError>(OpenResult::File(f))),
        ),
    ensures
        o.truncate ==> exists|i: int|
            0 <= i < stages.last().trace.len() && (#[trigger] stages.last().trace[i]).reply is Done && (
            stages.last().trace[i].request matches OpenRequest::Truncate(loc) && stands_at(f, loc)),
        !o.truncate ==> forall|i: int|
            0 <= i < stages.last().trace.len() ==> !((#[trigger] stages.last().trace[i]).request
                is Truncate),
{
    let result = Ok::<OpenResult, VfsError>(OpenResult::File(f));
    law_open_does_what_the_options_say(o, start, m, stages, result);
    let trace = stages.last().trace;
    let k = path_len(o, start, trace);
    if o.truncate {
        assert(trace[k].reply is Done);
    } else {
        assert forall|i: int| 0 <= i < trace.len() implies !((#[trigger] trace[i]).request is Truncate) by {
            if start is None && i < k {
                assert(i == 0 || i == 1 || i == 2);
            }
        }
    }
}

/// What is opened can be taken as a file, as a directory, or as a place, whichever it
/// is.
pub proof fn law_what_is_opened(
    r: OpenResult,
    file: Result<File, VfsError>,
    dir: Result<Location, VfsError>,
    place: Location,
)
    requires
        call_ensures(OpenResult::into_file, (r,), file),
        call_ensures(OpenResult::into_dir, (r,), dir),
        call_ensures(OpenResult::into_location, (r,), place),
    ensures
        match r {
            OpenResult::File(f) => file == Ok::<File, VfsError>(f) && dir == Err::<
                Location,
                VfsError,
            >(VfsError::NotADirectory) && stands_at(f, place),
            OpenResult::Dir(loc) => file == Err::<File, VfsError>(VfsError::IsADirectory) && dir
                == Ok::<Location, VfsError>(loc) && place == loc,
        },
{
}

/// Options tell which rights they ask for and whether they contradict each other.
pub proof fn law_options_tell_their_rights(o: OpenOptions, r: Result<FileFlags, VfsError>, valid: bool)
    requires
        call_ensures(OpenOptions::to_flags, (&o,), r),
        call_ensures(OpenOptions::is_valid, (&o,), valid),
    ensures
        idle(o) ==> r == Err::<FileFlags, VfsError>(VfsError::InvalidInput),
        !idle(o) ==> (r matches Ok(flags) && rights(flags, o)),
        valid <==> !contradictory(o),
{
    if !idle(o) {
        law_access_follows_the_options(o);
    }
}

/// Each option is set by itself, and the others stay as they are.
pub proof fn law_options_are_set_one_by_one(
    o0: &mut OpenOptions,
    r0: &mut OpenOptions,
    o1: &mut OpenOptions,
    r1: &mut OpenOptions,
    o2: &mut OpenOptions,
    r2: &mut OpenOptions,
    o3: &mut OpenOptions,
    r3: &mut OpenOptions,
    o4: &mut OpenOptions,
    r4: &mut OpenOptions,
    o5: &mut OpenOptions,
    r5: &mut OpenOptions,
    o6: &mut OpenOptions,
    r6: &mut OpenOptions,
    o7: &mut OpenOptions,
    r7: &mut OpenOptions,
    o8: &mut OpenOptions,
    r8: &mut OpenOptions,
    o9: &mut OpenOptions,
    r9: &mut OpenOptions,
    o10: &mut OpenOptions,
    r10: &mut OpenOptions,
    o11: &mut OpenOptions,
    r11: &mut OpenOptions,
    o12: &mut OpenOptions,
    r12: &mut OpenOptions,
    on: bool,
    uid: u32,
    gid: u32,
    node_type: NodeType,
    mode: u32,
)
    requires
        call_ensures(OpenOptions::read, (o0, on), r0),
        call_ensures(OpenOptions::write, (o1, on), r1),
        call_ensures(OpenOptions::append, (o2, on), r2),
        call_ensures(OpenOptions::truncate, (o3, on), r3),
        call_ensures(OpenOptions::create, (o4, on), r4),
        call_ensures(OpenOptions::create_new, (o5, on), r5),
        call_ensures(OpenOptions::directory, (o6, on), r6),
        call_ensures(OpenOptions::no_follow, (o7, on), r7),
        call_ensures(OpenOptions::direct, (o8, on), r8),
        call_ensures(OpenOptions::path, (o9, on), r9),
        call_ensures(OpenOptions::user, (o10, uid, gid), r10),
        call_ensures(OpenOptions::node_type, (o11, node_type), r11),
        call_ensures(OpenOptions::mode, (o12, mode), r12),
    ensures
        *old(r0) == (OpenOptions { read: on, ..*old(o0) }),
        *old(r1) == (OpenOptions { write: on, ..*old(o1) }),
        *old(r2) == (OpenOptions { append: on, ..*old(o2) }),
        *old(r3) == (OpenOptions { truncate: on, ..*old(o3) }),
        *old(r4) == (OpenOptions { create: on, ..*old(o4) }),
        *old(r5) == (OpenOptions { create_new: on, ..*old(o5) }),
        *old(r6) == (OpenOptions { directory: on, ..*old(o6) }),
        *old(r7) == (OpenOptions { no_follow: on, ..*old(o7) }),
        *old(r8) == (OpenOptions { direct: on, ..*old(o8) }),
        *old(r9) == (OpenOptions { path: on, ..*old(o9) }),
        *old(r10) == (OpenOptions { user: Some((uid, gid)), ..*old(o10) }),
        *old(r11) == (OpenOptions { node_type, ..*old(o11) }),
        *old(r12) == (OpenOptions { mode, ..*old(o12) }),
        *final(o0) == *final(r0),
        *final(o1) == *final(r1),
        *final(o2) == *final(r2),
        *final(o3) == *final(r3),
        *final(o4) == *final(r4),
        *final(o5) == *final(r5),
        *final(o6) == *final(r6),
        *final(o7) == *final(r7),
        *final(o8) == *final(r8),
        *final(o9) == *final(r9),
        *final(o10) == *final(r10),
        *final(o11) == *final(r11),
        *final(o12) == *final(r12),
{
}

/// Options ask for nothing at first. To open a file is to read it; to create one is
/// to write it, whether it exists or not, and to empty it.
pub proof fn law_usual_options(none: OpenOptions, open: OpenOptions, create: OpenOptions)
    requires
        call_ensures(OpenOptions::new, (), none),
        call_ensures(File::open, (), open),
        call_ensures(File::create, (), create),
    ensures
        idle(none) && !contradictory(none),
        !none.truncate && !none.create && !none.create_new && !none.directory && !none.no_follow
            && !none.direct && !none.path && none.user is None && none.node_type is RegularFile
            && none.mode == 0o666,
        open == (OpenOptions { read: true, ..none }),
        create == (OpenOptions { write: true, create: true, truncate: true, ..none }),
{
}

/// A place of a filesystem is in memory exactly if the filesystem is the one that
/// keeps its files there.
pub proof fn law_places_know_their_filesystem(
    id: u64,
    node_type: NodeType,
    flags: NodeFlags,
    filesystem: &str,
    loc: Location,
    dir: bool,
)
    requires
        call_ensures(Location::new, (id, node_type, flags, filesystem), loc),
        call_ensures(Location::is_dir, (&loc,), dir),
    ensures
        loc.id == id,
        loc.node_type == node_type,
        loc.flags == flags,
        loc.in_memory <==> filesystem@ == "tmpfs"@,
        dir <==> node_type is Directory,
{
}

} // verus!
