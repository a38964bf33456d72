//! What reading, writing and seeking in an open file come to.

use vstd::prelude::*;
use crate::effect::{Reply, Turn};
use crate::error::VfsError;
use crate::flags::FileFlags;
use crate::fs::backend::{DirectTransfer, FileBackend, FileResize, FileSync, FileTransfer};
use crate::fs::cache::{CacheView, MAX_OFFSET};
use crate::fs::file::{File, Seek, SeekFrom};
use crate::fs::location::Location;
use crate::fs::recency::page_map;
use crate::fs::transfer::Transfer;
use crate::fs::transfer_law::{
    given, law_append_goes_behind_the_end, law_read_gives_the_bytes, law_write_puts_the_bytes,
    readable, roomy, starting, transfer_runs, TransferRun,
};
use crate::fs::world::{coherent, World};

verus! {

/// Whether a file is open for what a flag says, and not for its path only.
pub open spec fn usable(file: File, flag: u8) -> bool {
    file.flags.bits & flag == flag && file.flags.bits & 16 != 16
}

/// Whether a transfer moves bytes of a file between the given place of it and a
/// buffer of the given length.
pub open spec fn moves_at(t: FileTransfer, file: File, write: bool, remaining: usize, offset: u64) -> bool {
    match (file.inner, t) {
        (FileBackend::Cached(cached), FileTransfer::Cached(t)) => {
            &&& t.file == cached
            &&& t.start == offset
            &&& t.remaining == remaining
            &&& if write {
                t.kind is Write
            } else {
                t.kind is Read
            }
        },
        (FileBackend::Direct(loc), FileTransfer::Direct(t)) => t.loc == loc && t.offset == offset,
        _ => false,
    }
}

/// A read at an offset starts at that offset. It needs a file that is open for
/// reading.
pub proof fn law_read_at_starts_at_the_offset(
    file: File,
    remaining: usize,
    offset: u64,
    r: Result<FileTransfer, VfsError>,
)
    requires
        call_ensures(File::read_at, (&file, remaining, offset), r),
    ensures
        r is Ok <==> usable(file, 1),
        r is Err ==> r == Err::<FileTransfer, VfsError>(VfsError::BadFileDescriptor),
        r matches Ok(t) ==> moves_at(t, file, false, remaining, offset),
{
}

/// A write at an offset starts at that offset. It needs a file that is open for
/// writing.
pub proof fn law_write_at_starts_at_the_offset(
    file: File,
    remaining: usize,
    offset: u64,
    r: Result<FileTransfer, VfsError>,
)
    requires
        call_ensures(File::write_at, (&file, remaining, offset), r),
    ensures
        r is Ok <==> usable(file, 2),
        r is Err ==> r == Err::<FileTransfer, VfsError>(VfsError::BadFileDescriptor),
        r matches Ok(t) ==> moves_at(t, file, true, remaining, offset),
{
}

/// A read starts at the position of the file, and the next one behind what it read.
/// A stream is read from its start and has no position. Nothing else changes but
/// that the file counts as read.
pub proof fn law_reads_follow_each_other(
    a: File,
    remaining: usize,
    first: Result<FileTransfer, VfsError>,
    b: File,
    n: usize,
    c: File,
    more: usize,
    second: Result<FileTransfer, VfsError>,
    d: File,
)
    requires
        exists|f: &mut File| *f == a && *final(f) == b && #[trigger] call_ensures(File::read, (f, remaining), first),
        exists|f: &mut File| *f == b && *final(f) == c && #[trigger] call_ensures(File::after_read, (f, n), ()),
        exists|f: &mut File| *f == c && *final(f) == d && #[trigger] call_ensures(File::read, (f, more), second),
        a.position matches Some(p) ==> p + n <= u64::MAX,
    ensures
        first is Ok <==> usable(a, 1),
        second is Ok <==> usable(a, 1),
        first matches Ok(t) ==> moves_at(
            t,
            a,
            false,
            remaining,
            match a.position {
                Some(p) => p,
                None => 0,
            },
        ),
        second matches Ok(t) ==> moves_at(
            t,
            a,
            false,
            more,
            match a.position {
                Some(p) => (p + n) as u64,
                None => 0,
            },
        ),
        c.position == (match a.position {
            Some(p) => Some((p + n) as u64),
            None => None,
        }),
        b.was_read && c.was_read,
        c.inner == a.inner && c.flags == a.flags && c.was_written == a.was_written,
{
}

/// A write starts at the position of the file, and the next one behind what it
/// wrote, unless the file was opened to be appended to: then both go behind the end
/// of the file, and the position behind what was written.
pub proof fn law_writes_follow_each_other(
    a: File,
    remaining: usize,
    first: Result<FileTransfer, VfsError>,
    b: File,
    n: usize,
    end: u64,
    c: File,
    more: usize,
    second: Result<FileTransfer, VfsError>,
    d: File,
)
    requires
        exists|f: &mut File| *f == a && *final(f) == b && #[trigger] call_ensures(File::write, (f, remaining), first),
        exists|f: &mut File| *f == b && *final(f) == c && #[trigger] call_ensures(File::after_write, (f, n, end), ()),
        exists|f: &mut File| *f == c && *final(f) == d && #[trigger] call_ensures(File::write, (f, more), second),
        a.position matches Some(p) ==> p + n <= u64::MAX,
    ensures
        ({
            let appends = a.position is Some && usable(a, 8);
            let at = match a.position {
                Some(p) => p,
                None => 0,
            };
            &&& first is Ok <==> appends || usable(a, 2)
            &&& !appends ==> {
                &&& first matches Ok(t) ==> moves_at(t, a, true, remaining, at)
                &&& second matches Ok(t) ==> moves_at(
                    t,
                    a,
                    true,
                    more,
                    match a.position {
                        Some(p) => (p + n) as u64,
                        None => 0,
                    },
                )
                &&& c.position == (match a.position {
                    Some(p) => Some((p + n) as u64),
                    None => None,
                })
            }
            &&& appends ==> {
                &&& first matches Ok(t) && goes_behind(t, a, remaining)
                &&& second matches Ok(t) && goes_behind(t, a, more)
                &&& c.position == Some(end)
            }
        }),
        b.was_written && c.was_written,
        c.inner == a.inner && c.flags == a.flags,
{
}

/// Whether a transfer writes a buffer of the given length behind the end of a file.
pub open spec fn goes_behind(t: FileTransfer, file: File, remaining: usize) -> bool {
    match (file.inner, t) {
        (FileBackend::Cached(cached), FileTransfer::Cached(t)) => {
            &&& t.file == cached
            &&& t.remaining == remaining
            &&& t.kind is Append
        },
        (FileBackend::Direct(loc), FileTransfer::DirectAppend(at)) => at == loc,
        _ => false,
    }
}

/// A read of an open cached file gives the bytes of the file from its offset on, as
/// many as the buffer takes and the file has.
pub proof fn law_read_at_gives_the_bytes(
    file: File,
    remaining: usize,
    offset: u64,
    t: Transfer,
    stages: Seq<TransferRun>,
    cache: CacheView,
    w: World,
    want: Map<int, u8>,
)
    requires
        offset + remaining <= u64::MAX,
        call_ensures(
            File::read_at,
            (&file, remaining, offset),
            Ok::<FileTransfer, VfsError>(FileTransfer::Cached(t)),
        ),
        cache.wf(),
        roomy(t.file.in_memory, cache),
        coherent(w, t.file.in_memory, page_map(cache.pages), want),
        transfer_runs(stages),
        stages[0] == starting(t, cache, w),
        stages.last().turn matches Some(Turn::Finished(_)),
    ensures
        file.inner == FileBackend::Cached(t.file),
        reads_part(stages.last(), w, want, remaining, offset),
        coherent(
            stages.last().world,
            t.file.in_memory,
            page_map(stages.last().cache.pages),
            want,
        ),
        stages.last().world.file.len() == w.file.len(),
{
    law_read_gives_the_bytes(stages, t.file, offset, remaining, cache, w, want);
    lemma_part(stages.last(), w, want, remaining, offset);
}

proof fn lemma_part(end: TransferRun, w: World, want: Map<int, u8>, remaining: usize, offset: u64)
    requires
        ({
            let n = readable(w.file.len(), offset, remaining);
            &&& end.turn matches Some(Turn::Finished(Ok((k, p)))) && k == n && p == offset + n
            &&& given(end.world, w, offset, want, n)
        }),
    ensures
        reads_part(end, w, want, remaining, offset),
{
    let out = end.world.output;
    let had = w.output.len();
    let n = readable(w.file.len(), offset, remaining);
    assert forall|i: int| 0 <= i < had implies #[trigger] out[i] == w.output[i] by {
        assert(out.take(had as int)[i] == out[i]);
    }
    assert forall|b: int| #[trigger] want.dom().contains(b) && offset <= b < offset + n implies out[had + (b
        - offset)] == want[b] by {
        let i = b - offset;
        assert(want.dom().contains(offset + i));
        assert(out[had + i] == want[offset + i]);
    }
}

/// Whether a read ended with as many bytes from an offset on as the buffer takes and
/// the file has, and those that are wanted were given to the reader, behind what was
/// given before.
pub open spec fn reads_part(
    end: TransferRun,
    w: World,
    want: Map<int, u8>,
    remaining: usize,
    offset: u64,
) -> bool {
    let out = end.world.output;
    let had = w.output.len();
    &&& end.turn matches Some(Turn::Finished(Ok((n, p)))) && ({
        &&& n <= remaining
        &&& p == offset + n
        &&& offset + n <= w.file.len() || n == 0
        &&& n == remaining || offset + n >= w.file.len()
        &&& out.len() == had + n
        &&& forall|i: int| 0 <= i < had ==> #[trigger] out[i] == w.output[i]
        &&& forall|b: int| #[trigger]
            want.dom().contains(b) && offset <= b < offset + n ==> out[had + (b - offset)] == want[b]
    })
}

/// A write of an open cached file puts the writer's bytes into the file from its
/// offset on, and leaves every other byte as it was.
pub proof fn law_write_at_puts_the_bytes(
    file: File,
    remaining: usize,
    offset: u64,
    t: Transfer,
    stages: Seq<TransferRun>,
    cache: CacheView,
    w: World,
    want: Map<int, u8>,
    after: Map<int, u8>,
)
    requires
        offset + remaining <= MAX_OFFSET,
        call_ensures(
            File::write_at,
            (&file, remaining, offset),
            Ok::<FileTransfer, VfsError>(FileTransfer::Cached(t)),
        ),
        cache.wf(),
        roomy(t.file.in_memory, cache),
        coherent(w, t.file.in_memory, page_map(cache.pages), want),
        transfer_runs(stages),
        stages[0] == starting(t, cache, w),
        stages.last().turn matches Some(Turn::Finished(_)),
        puts(want, after, offset as int, w.input, remaining as int),
    ensures
        file.inner == FileBackend::Cached(t.file),
        stages.last().turn == Some(
            Turn::Finished(Ok::<(usize, u64), VfsError>((remaining, (offset + remaining) as u64))),
        ),
        coherent(
            stages.last().world,
            t.file.in_memory,
            page_map(stages.last().cache.pages),
            after,
        ),
        stages.last().world.file.len() >= w.file.len(),
        stages.last().world.file.len() >= offset + remaining,
        stages.last().world.file.len() == w.file.len() || stages.last().world.file.len() == offset
            + remaining,
{
    law_write_puts_the_bytes(stages, t.file, offset, remaining, cache, w, want);
    lemma_puts(want, after, offset as int, w.input, remaining as int);
}

/// Whether the bytes of a file are `before`, with the first `n` of the writer's
/// bytes over them from `at` on.
pub open spec fn puts(before: Map<int, u8>, after: Map<int, u8>, at: int, input: Seq<u8>, n: int) -> bool {
    &&& forall|b: int| #[trigger]
        after.dom().contains(b) <==> before.dom().contains(b) || at <= b < at + n
    &&& forall|b: int| #[trigger]
        after.dom().contains(b) && at <= b < at + n ==> after[b] == input[b - at]
    &&& forall|b: int| #[trigger]
        after.dom().contains(b) && !(at <= b < at + n) ==> after[b] == before[b]
}

proof fn lemma_puts(before: Map<int, u8>, after: Map<int, u8>, at: int, input: Seq<u8>, n: int)
    requires
        0 <= n <= input.len(),
        puts(before, after, at, input, n),
    ensures
        after == crate::fs::transfer_law::written(before, at, input.take(n)),
{
    assert(after =~= crate::fs::transfer_law::written(before, at, input.take(n)));
}

/// A write of a cached file that was opened to be appended to puts the writer's
/// bytes behind what the file had, and the position behind them.
pub proof fn law_write_appends_the_bytes(
    a: File,
    remaining: usize,
    t: Transfer,
    b: File,
    stages: Seq<TransferRun>,
    cache: CacheView,
    w: World,
    want: Map<int, u8>,
    after: Map<int, u8>,
    n: usize,
    end: u64,
    c: File,
)
    requires
        a.position is Some,
        a.flags.bits & 8 == 8,
        a.flags.bits & 16 != 16,
        exists|f: &mut File| *f == a && *final(f) == b && #[trigger] call_ensures(File::write, (f, remaining), Ok::<FileTransfer, VfsError>(FileTransfer::Cached(t))),
        cache.wf(),
        roomy(t.file.in_memory, cache),
        coherent(w, t.file.in_memory, page_map(cache.pages), want),
        transfer_runs(stages),
        stages[0] == starting(t, cache, w),
        stages.last().turn == Some(Turn::Finished(Ok::<(usize, u64), VfsError>((n, end)))),
        exists|f: &mut File| *f == b && *final(f) == c && #[trigger] call_ensures(File::after_write, (f, n, end), ()),
        puts(want, after, w.file.len() as int, w.input, remaining as int),
    ensures
        a.inner == FileBackend::Cached(t.file),
        n == remaining,
        c.position == Some((w.file.len() + remaining) as u64),
        stages.last().world.file.len() == w.file.len() + remaining,
        coherent(
            stages.last().world,
            t.file.in_memory,
            page_map(stages.last().cache.pages),
            after,
        ),
{
    law_append_goes_behind_the_end(stages, t.file, remaining, cache, w, want);
    lemma_puts(want, after, w.file.len() as int, w.input, remaining as int);
}

/// Two reads of an open cached file, one behind the other, give one part of the
/// file: the second starts where the first ended.
pub proof fn law_reads_give_one_part(
    a: File,
    remaining: usize,
    t: Transfer,
    b: File,
    one: Seq<TransferRun>,
    n: usize,
    p: u64,
    c: File,
    more: usize,
    u: Transfer,
    d: File,
    two: Seq<TransferRun>,
    cache: CacheView,
    w: World,
    want: Map<int, u8>,
    at: u64,
)
    requires
        a.position == Some(at),
        at + remaining + more <= u64::MAX,
        exists|f: &mut File| *f == a && *final(f) == b && #[trigger] call_ensures(File::read, (f, remaining), Ok::<FileTransfer, VfsError>(FileTransfer::Cached(t))),
        cache.wf(),
        roomy(t.file.in_memory, cache),
        coherent(w, t.file.in_memory, page_map(cache.pages), want),
        transfer_runs(one),
        one[0] == starting(t, cache, w),
        one.last().turn == Some(Turn::Finished(Ok::<(usize, u64), VfsError>((n, p)))),
        exists|f: &mut File| *f == b && *final(f) == c && #[trigger] call_ensures(File::after_read, (f, n), ()),
        exists|f: &mut File| *f == c && *final(f) == d && #[trigger] call_ensures(File::read, (f, more), Ok::<FileTransfer, VfsError>(FileTransfer::Cached(u))),
        transfer_runs(two),
        two[0] == starting(u, one.last().cache, one.last().world),
        two.last().turn matches Some(Turn::Finished(_)),
        roomy(t.file.in_memory, one.last().cache),
    ensures
        two.last().turn matches Some(Turn::Finished(Ok((k, q)))) && ({
            let out = two.last().world.output;
            let had = w.output.len();
            &&& q == at + n + k
            &&& out.len() == had + n + k
            &&& forall|x: int| #[trigger]
                want.dom().contains(x) && at <= x < at + n + k ==> out[had + (x - at)] == want[x]
        }),
{
    law_read_gives_the_bytes(one, t.file, at, remaining, cache, w, want);
    lemma_part(one.last(), w, want, remaining, at);
    let mid = one.last();
    let from = (at + n) as u64;
    law_read_gives_the_bytes(two, t.file, from, more, mid.cache, mid.world, want);
    lemma_part(two.last(), mid.world, want, more, from);
    lemma_two_parts(mid, two.last(), w, want, remaining, more, at, n);
}

proof fn lemma_two_parts(
    mid: TransferRun,
    end: TransferRun,
    w: World,
    want: Map<int, u8>,
    remaining: usize,
    more: usize,
    at: u64,
    n: usize,
)
    requires
        mid.turn matches Some(Turn::Finished(Ok((k, _)))) && k == n,
        at + n <= u64::MAX,
        reads_part(mid, w, want, remaining, at),
        reads_part(end, mid.world, want, more, (at + n) as u64),
    ensures
        end.turn matches Some(Turn::Finished(Ok((k, q)))) && ({
            let out = end.world.output;
            let had = w.output.len();
            &&& q == at + n + k
            &&& out.len() == had + n + k
            &&& forall|x: int| #[trigger]
                want.dom().contains(x) && at <= x < at + n + k ==> out[had + (x - at)] == want[x]
        }),
{
    let out = end.world.output;
    let had = w.output.len();
    let k = (end.turn.unwrap()->Finished_0).unwrap().0;
    assert forall|x: int| #[trigger] want.dom().contains(x) && at <= x < at + n + k implies out[had + (x
        - at)] == want[x] by {
        if x < at + n {
            assert(out[had + (x - at)] == mid.world.output[had + (x - at)]);
        }
    }
}

/// A seek goes to the given place: that many bytes behind the start, the end or the
/// position. It tells where that is, and the file is there; if there is no such
/// place it fails and the file stays where it is. A stream has no place to go to.
/// Only for the end is the length asked for.
pub proof fn law_seek_goes_to_the_place(
    pos: SeekFrom,
    s: Seek,
    a: File,
    u: Seek,
    b: File,
    turn: Turn<u64>,
    len: u64,
    v: Seek,
    c: File,
    last: Turn<u64>,
)
    requires
        call_ensures(File::seek, (pos,), s),
        exists|m: &mut Seek, f: &mut File| *m == s && *final(m) == u && *f == a && *final(f) == b && #[trigger] call_ensures(Seek::step, (m, f, Reply::Start), turn),
        turn is Ask ==> exists|m: &mut Seek, f: &mut File| *m == u && *final(m) == v && *f == b && *final(f) == c && #[trigger] call_ensures(Seek::step, (m, f, Reply::Len(len)), last),
        turn is Finished ==> c == b && last == turn,
    ensures
        turn matches Turn::Ask(request) ==> request is FileLen,
        turn is Ask <==> pos is End && a.position is Some && a.flags.bits & 16 != 16,
        a.flags.bits & 16 == 16 ==> c == a && last == Turn::Finished(
            Err::<u64, VfsError>(VfsError::BadFileDescriptor),
        ),
        a.flags.bits & 16 != 16 ==> (match a.position {
            None => c == a && last == Turn::Finished(Ok::<u64, VfsError>(0)),
            Some(p) => {
                let target: int = match pos {
                    SeekFrom::Start(x) => x as int,
                    SeekFrom::End(x) => len + x,
                    SeekFrom::Current(x) => p + x,
                };
                if 0 <= target <= u64::MAX {
                    &&& last == Turn::Finished(Ok::<u64, VfsError>(target as u64))
                    &&& c == (File { position: Some(target as u64), ..a })
                } else {
                    &&& last == Turn::Finished(Err::<u64, VfsError>(VfsError::InvalidInput))
                    &&& c == a
                }
            },
        }),
{
    let bits = a.flags.bits;
    assert(bits & 0 == 0) by (bit_vector);
}

/// What an open file may be used for is what it was opened for, and nothing if it
/// was opened for its path only.
pub proof fn law_access_needs_the_flags(
    file: File,
    flags: FileFlags,
    r: Result<&FileBackend, VfsError>,
    any: Result<&FileBackend, VfsError>,
    flushed: Result<(), VfsError>,
    path: bool,
)
    requires
        call_ensures(File::access, (&file, flags), r),
        call_ensures(File::backend, (&file,), any),
        call_ensures(File::flush, (&file,), flushed),
        call_ensures(File::is_path, (&file,), path),
    ensures
        r is Ok <==> file.flags.bits & flags.bits == flags.bits && file.flags.bits & 16 != 16,
        any is Ok <==> file.flags.bits & 16 != 16,
        flushed is Ok <==> file.flags.bits & 16 != 16,
        path <==> file.flags.bits & 16 == 16,
        r matches Ok(backend) ==> *backend == file.inner,
        any matches Ok(backend) ==> *backend == file.inner,
        r matches Err(e) ==> e is BadFileDescriptor,
        any matches Err(e) ==> e is BadFileDescriptor,
        flushed matches Err(e) ==> e is BadFileDescriptor,
{
    let bits = file.flags.bits;
    assert(bits & 0 == 0) by (bit_vector);
}

/// A sync or a change of length of an open file is one of that file, with the given
/// arguments, in the cache if the file has one.
pub proof fn law_sync_and_resize_reach_the_file(
    file: File,
    data_only: bool,
    r: Result<FileSync, VfsError>,
    backend: FileBackend,
    len: u64,
    z: FileResize,
)
    requires
        call_ensures(File::sync, (&file, data_only), r),
        call_ensures(FileBackend::set_len, (&backend, len), z),
    ensures
        r is Ok <==> file.flags.bits & 16 != 16,
        r matches Err(e) ==> e is BadFileDescriptor,
        r matches Ok(s) ==> (match (file.inner, s) {
            (FileBackend::Cached(cached), FileSync::Cached(t)) => t.in_memory == cached.in_memory
                && t.data_only == data_only,
            (FileBackend::Direct(loc), FileSync::Direct { loc: at, data_only: only }) => at == loc
                && only == data_only,
            _ => false,
        }),
        match (backend, z) {
            (FileBackend::Cached(cached), FileResize::Cached(t)) => t.file == cached && t.len == len,
            (FileBackend::Direct(loc), FileResize::Direct { loc: at, len: to }) => at == loc && to
                == len,
            _ => false,
        },
{
    let bits = file.flags.bits;
    assert(bits & 0 == 0) by (bit_vector);
}

/// A direct transfer goes on behind each piece that it moved.
pub proof fn law_direct_pieces_follow_each_other(t: &mut DirectTransfer, n: usize)
    requires
        t.offset + n <= u64::MAX,
        call_ensures(DirectTransfer::moved, (t, n), ()),
    ensures
        final(t).offset == old(t).offset + n,
        final(t).loc == old(t).loc,
{
}

/// What was done with an open file decides which of its times are due: a read the
/// first, a write both.
pub proof fn law_times_follow_the_use(
    a: File,
    remaining: usize,
    r: Result<FileTransfer, VfsError>,
    b: File,
    due: (bool, bool),
    s: Result<FileTransfer, VfsError>,
    c: File,
    both: (bool, bool),
)
    requires
        exists|f: &mut File| *f == a && *final(f) == b && #[trigger] call_ensures(File::read, (f, remaining), r),
        call_ensures(File::times_due, (&b,), due),
        exists|f: &mut File| *f == a && *final(f) == c && #[trigger] call_ensures(File::write, (f, remaining), s),
        call_ensures(File::times_due, (&c,), both),
    ensures
        due == (true, a.was_written),
        both == (true, true),
{
}

/// A file that is opened stands at its start, or at its end if it is to be appended to;
/// a stream stands nowhere. Its length is asked for where that depends on it.
pub proof fn law_opened_file_stands_at_its_place(
    inner: FileBackend,
    flags: FileFlags,
    len: u64,
    r: File,
    needed: bool,
    told: FileFlags,
    place: &Location,
)
    requires
        call_ensures(File::new, (inner, flags, len), r),
        call_ensures(File::is_len_needed, (&inner, flags), needed),
        call_ensures(File::flags, (&r,), told),
        call_ensures(File::location, (&r,), place),
    ensures
        ({
            let at = match inner {
                FileBackend::Cached(cached) => cached.inner,
                FileBackend::Direct(loc) => loc,
            };
            let append = flags.bits & 8 == 8;
            &&& r.inner == inner
            &&& told == flags
            &&& *place == at
            &&& r.position == (if at.flags.bits & 1 == 1 {
                None
            } else if append {
                Some(len)
            } else {
                Some(0)
            })
            &&& needed <==> append && at.flags.bits & 1 != 1
            &&& !r.was_read && !r.was_written
        }),
{
}

} // verus!
