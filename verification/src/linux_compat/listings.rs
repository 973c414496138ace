//! Texts, buffers and directory records in the memory of a Linux process.
use crate::bytes;
use crate::fs::ramfs::{self, DirEntry, FdEntry, InodeKind};
use crate::kernel::State;
use crate::linux_compat::user::PageFault;
use crate::linux_compat::{dirs, errno, files, info, streams, user};
use crate::objects;
use crate::path;
use crate::syscall;
use vstd::prelude::*;

verus! {

/// The byte at the caller's address `va`.
pub open spec fn byte(s: State, va: u64) -> u8 {
    objects::at(s.bytes, syscall::caller_pa(s, va)->0)
}

/// A string that ends in a zero is read without the zero, and whole.
pub proof fn law_string_read(s: State, va: u64, d: Seq<u8>, max: nat)
    requires
        user::peeked(s, va, d.len() + 1) == Ok::<Seq<u8>, PageFault>(d.push(0)),
        forall|i: int| 0 <= i < d.len() ==> d[i] != 0,
        d.len() < max,
    ensures
        user::string_at(s, va, max) == Ok::<Option<Seq<u8>>, PageFault>(Some(d)),
    decreases d.len(),
{
    let n = d.len();
    let got = user::peeked(s, va, n + 1)->Ok_0;
    assert(syscall::caller_pa(s, (va + 0) as u64) is Some);
    assert(got[0] == d.push(0)[0]);
    assert(got[0] == byte(s, va));
    if n == 0 {
        assert(d =~= Seq::<u8>::empty());
    } else {
        let rest = d.drop_first();
        let next = (va + 1) as u64;
        assert forall|i: int| 0 <= i < n implies (#[trigger] syscall::caller_pa(
            s,
            (next + i) as u64,
        )) is Some by {
            assert(syscall::caller_pa(s, (va + (i + 1)) as u64) is Some);
        }
        let tail = user::peeked(s, next, rest.len() + 1)->Ok_0;
        assert forall|i: int| 0 <= i < n implies tail[i] == rest.push(0)[i] by {
            assert(got[i + 1] == d.push(0)[i + 1]);
            assert((va + (i + 1)) as u64 == (next + i) as u64);
        }
        assert(tail =~= rest.push(0));
        law_string_read(s, next, rest, (max - 1) as nat);
        assert(seq![d[0]] + rest =~= d);
    }
}

/// A text without a zero among the bytes that are looked at is no string.
pub proof fn law_string_too_long(s: State, va: u64, d: Seq<u8>)
    requires
        user::peeked(s, va, d.len()) == Ok::<Seq<u8>, PageFault>(d),
        forall|i: int| 0 <= i < d.len() ==> d[i] != 0,
    ensures
        user::string_at(s, va, d.len()) == Ok::<Option<Seq<u8>>, PageFault>(None),
    decreases d.len(),
{
    let n = d.len();
    if n > 0 {
        let got = user::peeked(s, va, n)->Ok_0;
        assert(syscall::caller_pa(s, (va + 0) as u64) is Some);
        assert(got[0] == d[0]);
        let rest = d.drop_first();
        let next = (va + 1) as u64;
        assert forall|i: int| 0 <= i < n - 1 implies (#[trigger] syscall::caller_pa(
            s,
            (next + i) as u64,
        )) is Some by {
            assert(syscall::caller_pa(s, (va + (i + 1)) as u64) is Some);
        }
        let tail = user::peeked(s, next, rest.len())->Ok_0;
        assert forall|i: int| 0 <= i < n - 1 implies tail[i] == rest[i] by {
            assert(got[i + 1] == d[i + 1]);
            assert((va + (i + 1)) as u64 == (next + i) as u64);
        }
        assert(tail =~= rest);
        law_string_too_long(s, next, rest);
    }
}

/// access(path) succeeds exactly on what exists.
pub proof fn law_access(s: State, dirfd: u64, va: u64, raw: Seq<u8>, p: Seq<u8>)
    requires
        dirfd as i64 == -100,
        user::peeked(s, va, raw.len() + 1) == Ok::<Seq<u8>, PageFault>(raw.push(0)),
        forall|i: int| 0 <= i < raw.len() ==> raw[i] != 0,
        raw.len() < errno::MAX_PATH,
        files::resolved(s, raw) == Ok::<Seq<u8>, i64>(p),
    ensures
        dirs::faccessat_called(s, dirfd, va) == Ok::<i64, PageFault>(
            if ramfs::found(s, p) is Some {
                0i64
            } else {
                -2i64
            },
        ),
{
    law_string_read(s, va, raw, errno::MAX_PATH as nat);
}

/// stat of a path writes what stat of the file there says.
pub proof fn law_stat_of_path(
    s: State,
    dirfd: u64,
    va: u64,
    buf: u64,
    raw: Seq<u8>,
    p: Seq<u8>,
    pa: u64,
)
    requires
        dirfd as i64 == -100,
        user::peeked(s, va, raw.len() + 1) == Ok::<Seq<u8>, PageFault>(raw.push(0)),
        forall|i: int| 0 <= i < raw.len() ==> raw[i] != 0,
        raw.len() < errno::MAX_PATH,
        files::resolved(s, raw) == Ok::<Seq<u8>, i64>(p),
        ramfs::found(s, p) == Some(pa),
        buf != 0,
        user::reachable(s, buf, files::inode_stat(s, pa).len()),
        streams::apart(s, buf, files::inode_stat(s, pa).len()),
    ensures
        ({
            let (s1, r) = files::newfstatat_called(s, dirfd, va, buf);
            let d = files::inode_stat(s, pa);
            &&& r == Ok::<i64, PageFault>(0)
            &&& user::peeked(s1, buf, d.len()) == Ok::<Seq<u8>, PageFault>(d)
        }),
{
    law_string_read(s, va, raw, errno::MAX_PATH as nat);
    streams::law_poked_peeked(s, buf, files::inode_stat(s, pa), 0);
}

/// open, chdir and mkdir take the path that the caller's string names, relative to
/// the working directory.
pub proof fn law_calls_by_path(s: State, dirfd: u64, va: u64, flags: u64, raw: Seq<u8>, p: Seq<u8>)
    requires
        dirfd as i64 == -100,
        user::peeked(s, va, raw.len() + 1) == Ok::<Seq<u8>, PageFault>(raw.push(0)),
        forall|i: int| 0 <= i < raw.len() ==> raw[i] != 0,
        raw.len() < errno::MAX_PATH,
        files::resolved(s, raw) == Ok::<Seq<u8>, i64>(p),
    ensures
        ({
            let (s1, r) = files::path_opened(s, p, flags);
            files::openat_called(s, dirfd, va, flags) == (s1, Ok::<i64, PageFault>(r))
        }),
        ({
            let (s1, r) = dirs::directory_entered(s, p);
            dirs::chdir_called(s, va) == (s1, Ok::<i64, PageFault>(r))
        }),
        ({
            let (s1, made) = ramfs::dir_made(s, p);
            let (s2, r) = dirs::mkdirat_called(s, dirfd, va);
            &&& s2 == s1
            &&& made is Ok <==> r == Ok::<i64, PageFault>(0)
            &&& made == Err::<(), ramfs::FsError>(ramfs::FsError::Exists) ==> r == Ok::<i64, PageFault>(
                -17i64,
            )
        }),
{
    law_string_read(s, va, raw, errno::MAX_PATH as nat);
}

/// Address and length of buffer `i` of the vector at `iov`.
pub open spec fn part(s: State, iov: u64, i: nat) -> (u64, u64) {
    let v = user::peeked(s, (iov + 16 * i) as u64, 16)->Ok_0;
    (bytes::le64(v, 0), bytes::le64(v, 8))
}

/// The first `n` buffers of the vector at `iov` can be read.
pub open spec fn parts_ok(s: State, iov: u64, n: nat) -> bool {
    &&& iov + 16 * n <= u64::MAX
    &&& forall|i: nat|
        i < n ==> user::peeked(s, (iov + 16 * i) as u64, 16) is Ok && user::peeked(
            s,
            (#[trigger] part(s, iov, i)).0,
            part(s, iov, i).1 as nat,
        ) is Ok
}

/// What the first `n` buffers of the vector hold, one after the other.
pub open spec fn gathered(s: State, iov: u64, n: nat) -> Seq<u8>
    decreases n,
{
    if n == 0 {
        Seq::empty()
    } else {
        let (ptr, len) = part(s, iov, (n - 1) as nat);
        gathered(s, iov, (n - 1) as nat) + user::peeked(s, ptr, len as nat)->Ok_0
    }
}

proof fn lemma_gathered_grows(s: State, iov: u64, i: nat, n: nat)
    requires
        i <= n,
    ensures
        gathered(s, iov, i).len() <= gathered(s, iov, n).len(),
    decreases n,
{
    if i < n {
        lemma_gathered_grows(s, iov, i, (n - 1) as nat);
    }
}

/// What was sent does not change what the caller reads.
proof fn lemma_sent_peeked(s: State, tx: Seq<u8>, va: u64, n: nat)
    ensures
        user::peeked(State { tx, ..s }, va, n) == user::peeked(s, va, n),
{
    let t = State { tx, ..s };
    assert forall|v: u64| #[trigger] syscall::caller_pa(t, v) == syscall::caller_pa(s, v) by {}
    assert forall|v: u64| #[trigger] syscall::caller_pa(s, v) == syscall::caller_pa(t, v) by {}
    assert(user::reachable(t, va, n) == user::reachable(s, va, n));
    if user::reachable(s, va, n) {
        assert(user::peeked(t, va, n)->Ok_0 =~= user::peeked(s, va, n)->Ok_0);
    }
}

/// One buffer of a vector is sent.
proof fn lemma_part_sent(s: State, tx: Seq<u8>, fd: u64, iov: u64, i: nat, cnt: nat)
    requires
        fd == 1 || fd == 2,
        parts_ok(s, iov, cnt),
        i < cnt,
    ensures
        ({
            let t = State { tx, ..s };
            let at = iov.wrapping_add((i as u64).wrapping_mul(16));
            let (ptr, len) = part(s, iov, i);
            let data = user::peeked(s, ptr, len as nat)->Ok_0;
            &&& user::peeked(t, at, 16) matches Ok(v) && bytes::le64(v, 0) == ptr && bytes::le64(
                v,
                8,
            ) == len
            &&& data.len() == len
            &&& files::write_called(t, fd, ptr, len) == (
                State { tx: tx + data, ..s },
                Ok::<i64, PageFault>(len as i64),
            )
        }),
{
    let t = State { tx, ..s };
    let at = iov.wrapping_add((i as u64).wrapping_mul(16));
    let (ptr, len) = part(s, iov, i);
    assert(at == iov + 16 * i);
    lemma_sent_peeked(s, tx, at, 16);
    lemma_sent_peeked(s, tx, ptr, len as nat);
    streams::law_console_write(t, fd, ptr, len, user::peeked(s, ptr, len as nat)->Ok_0);
}

#[verifier::rlimit(40)]
proof fn lemma_writev(s: State, fd: u64, iov: u64, i: nat, cnt: nat, total: i64)
    requires
        fd == 1 || fd == 2,
        parts_ok(s, iov, cnt),
        i <= cnt,
        gathered(s, iov, cnt).len() <= i64::MAX,
        total == gathered(s, iov, i).len(),
    ensures
        files::writev_from(
            State { tx: s.tx + gathered(s, iov, i), ..s },
            fd,
            iov,
            i,
            cnt,
            total,
        ) == (
            State { tx: s.tx + gathered(s, iov, cnt), ..s },
            Ok::<i64, PageFault>(gathered(s, iov, cnt).len() as i64),
        ),
    decreases cnt - i,
{
    if i < cnt {
        let tx = s.tx + gathered(s, iov, i);
        let (ptr, len) = part(s, iov, i);
        let data = user::peeked(s, ptr, len as nat)->Ok_0;
        lemma_part_sent(s, tx, fd, iov, i, cnt);
        assert(gathered(s, iov, i + 1) =~= gathered(s, iov, i) + data);
        lemma_gathered_grows(s, iov, i + 1, cnt);
        assert((s.tx + gathered(s, iov, i)) + data =~= s.tx + gathered(s, iov, i + 1));
        lemma_writev(s, fd, iov, i + 1, cnt, total.wrapping_add(len as i64));
    }
}

/// writev to descriptor 1 or 2 transmits all buffers, in order, and returns how
/// many bytes that is.
pub proof fn law_writev_console(s: State, fd: u64, iov: u64, cnt: u64)
    requires
        fd == 1 || fd == 2,
        parts_ok(s, iov, cnt as nat),
        gathered(s, iov, cnt as nat).len() <= i64::MAX,
    ensures
        files::writev_from(s, fd, iov, 0, cnt as nat, 0) == (
            State { tx: s.tx + gathered(s, iov, cnt as nat), ..s },
            Ok::<i64, PageFault>(gathered(s, iov, cnt as nat).len() as i64),
        ),
{
    assert(s.tx + gathered(s, iov, 0) =~= s.tx);
    lemma_writev(s, fd, iov, 0, cnt as nat, 0);
}

/// Writing inside a buffer of the caller.
proof fn lemma_poked_within(s: State, va: u64, n: nat, at: int, data: Seq<u8>)
    requires
        user::reachable(s, va, n),
        streams::apart(s, va, n),
        0 <= at,
        at + data.len() <= n,
    ensures
        ({
            let (s1, r) = user::poked(s, (va + at) as u64, data);
            &&& r is Ok
            &&& s1 == (State { bytes: s1.bytes, ..s })
            &&& user::reachable(s1, va, n)
            &&& streams::apart(s1, va, n)
            &&& forall|k: int|
                0 <= k < n ==> #[trigger] byte(s1, (va + k) as u64) == (if at <= k < at + data.len() {
                    data[k - at]
                } else {
                    byte(s, (va + k) as u64)
                })
        }),
{
    let v = (va + at) as u64;
    let s1 = user::poked(s, v, data).0;
    assert forall|i: int| 0 <= i < data.len() implies (#[trigger] syscall::caller_pa(
        s,
        (v + i) as u64,
    )) is Some by {
        assert(syscall::caller_pa(s, (va + (at + i)) as u64) is Some);
    }
    assert forall|i: int, j: int|
        #![trigger syscall::caller_pa(s, (v + i) as u64), syscall::caller_pa(s, (v + j) as u64)]
        0 <= i < j < data.len() implies syscall::caller_pa(s, (v + i) as u64) != syscall::caller_pa(
        s,
        (v + j) as u64,
    ) by {
        assert(syscall::caller_pa(s, (va + (at + i)) as u64) != syscall::caller_pa(
            s,
            (va + (at + j)) as u64,
        ));
    }
    streams::law_poked_peeked(s, v, data, 0);
    assert forall|a: u64| #[trigger] syscall::caller_pa(s1, a) == syscall::caller_pa(s, a) by {}
    assert(user::reachable(s1, va, n));
    assert(streams::apart(s1, va, n));
    assert forall|k: int| 0 <= k < n implies #[trigger] byte(s1, (va + k) as u64) == (if at <= k
        < at + data.len() {
        data[k - at]
    } else {
        byte(s, (va + k) as u64)
    }) by {
        assert(syscall::caller_pa(s, (va + k) as u64) is Some);
        if at <= k < at + data.len() {
            let got = user::peeked(s1, v, data.len())->Ok_0;
            assert(got[k - at] == data[k - at]);
            assert((v + (k - at)) as u64 == (va + k) as u64);
        } else {
            let a = syscall::caller_pa(s, (va + k) as u64)->0;
            assert forall|i: int| 0 <= i < data.len() implies (#[trigger] syscall::caller_pa(
                s,
                (v + i) as u64,
            )) != Some(a) by {
                assert(syscall::caller_pa(s, (va + (at + i)) as u64) is Some);
                assert((v + i) as u64 == (va + (at + i)) as u64);
                if k < at + i {
                    assert(syscall::caller_pa(s, (va + k) as u64) != syscall::caller_pa(
                        s,
                        (va + (at + i)) as u64,
                    ));
                } else {
                    assert(syscall::caller_pa(s, (va + (at + i)) as u64) != syscall::caller_pa(
                        s,
                        (va + k) as u64,
                    ));
                }
            }
            streams::law_poked_peeked(s, v, data, a);
        }
    }
}

/// The caller reads the text `d` with a zero behind it at `va`.
pub open spec fn reads_text(s: State, va: u64, d: Seq<u8>) -> bool {
    &&& forall|i: int| 0 <= i < d.len() ==> #[trigger] byte(s, (va + i) as u64) == d[i]
    &&& byte(s, (va + d.len()) as u64) == 0
}

proof fn lemma_fields(s: State, buf: u64, n: nat)
    requires
        n <= 6,
        user::reachable(s, buf, 390),
        streams::apart(s, buf, 390),
    ensures
        ({
            let (s1, r) = info::fields_written(s, buf, n);
            &&& r is Ok
            &&& s1 == (State { bytes: s1.bytes, ..s })
            &&& user::reachable(s1, buf, 390)
            &&& streams::apart(s1, buf, 390)
            &&& forall|j: int, k: int|
                #![trigger info::uts_fields()[j], byte(s1, (buf + k) as u64)]
                0 <= j < n && 65 * j <= k <= 65 * j + info::uts_fields()[j].len() ==> byte(
                    s1,
                    (buf + k) as u64,
                ) == info::uts_fields()[j].push(0)[k - 65 * j]
        }),
    decreases n,
{
    if n > 0 {
        lemma_fields(s, buf, (n - 1) as nat);
        let s0 = info::fields_written(s, buf, (n - 1) as nat).0;
        let d = info::uts_fields()[n - 1].push(0);
        assert(d.len() <= 8);
        let at = 65 * (n - 1);
        assert(buf.wrapping_add(((n - 1) * 65) as u64) == buf + at);
        lemma_poked_within(s0, buf, 390, at, d);
        let s1 = user::poked(s0, (buf + at) as u64, d).0;
        assert forall|j: int, k: int|
            #![trigger info::uts_fields()[j], byte(s1, (buf + k) as u64)]
            0 <= j < n && 65 * j <= k <= 65 * j + info::uts_fields()[j].len() implies byte(
            s1,
            (buf + k) as u64,
        ) == info::uts_fields()[j].push(0)[k - 65 * j] by {
            assert(info::uts_fields()[j].len() <= 7);
            if j < n - 1 {
                assert(byte(s0, (buf + k) as u64) == info::uts_fields()[j].push(0)[k - 65 * j]);
            }
        }
    }
}

/// uname fills in the system's name, node, release, version and machine, each in
/// a field of 65 bytes, and leaves the domain empty.
pub proof fn law_uname(s: State, buf: u64)
    requires
        buf != 0,
        user::reachable(s, buf, 390),
        streams::apart(s, buf, 390),
    ensures
        ({
            let (s1, r) = info::uname_called(s, buf);
            &&& r == Ok::<i64, PageFault>(0)
            &&& reads_text(s1, buf, seq![70u8, 101, 114, 114, 105, 116, 101])
            &&& reads_text(s1, (buf + 65) as u64, seq![102u8, 101, 114, 114, 105, 116, 101])
            &&& reads_text(s1, (buf + 130) as u64, seq![48u8, 46, 49, 46, 48])
            &&& reads_text(s1, (buf + 195) as u64, seq![80u8, 104, 97, 115, 101, 65, 53])
            &&& reads_text(s1, (buf + 260) as u64, seq![114u8, 105, 115, 99, 118, 54, 52])
            &&& reads_text(s1, (buf + 325) as u64, Seq::empty())
        }),
{
    lemma_fields(s, buf, 6);
    let s1 = info::uname_called(s, buf).0;
    lemma_field_read(s1, buf, 0);
    lemma_field_read(s1, buf, 1);
    lemma_field_read(s1, buf, 2);
    lemma_field_read(s1, buf, 3);
    lemma_field_read(s1, buf, 4);
    lemma_field_read(s1, buf, 5);
}

proof fn lemma_field_read(s: State, buf: u64, j: int)
    requires
        0 <= j < 6,
        buf + 390 <= u64::MAX,
        forall|k: int|
            65 * j <= k <= 65 * j + info::uts_fields()[j].len() ==> #[trigger] byte(
                s,
                (buf + k) as u64,
            ) == info::uts_fields()[j].push(0)[k - 65 * j],
    ensures
        reads_text(s, (buf + 65 * j) as u64, info::uts_fields()[j]),
{
    let d = info::uts_fields()[j];
    let va = (buf + 65 * j) as u64;
    assert(d.len() <= 7);
    assert forall|i: int| 0 <= i < d.len() implies #[trigger] byte(s, (va + i) as u64) == d[i] by {
        assert((va + i) as u64 == (buf + (65 * j + i)) as u64);
    }
    assert((va + d.len()) as u64 == (buf + (65 * j + d.len())) as u64);
}

/// A directory with the same entries lists the same.
proof fn lemma_nth_same(s: State, t: State, data_pa: u64, n: int, from: int)
    requires
        t.dirents == s.dirents,
    ensures
        ramfs::nth_entry(t, data_pa, n, from) == ramfs::nth_entry(s, data_pa, n, from),
    decreases 64 - from,
{
    if from < 64 {
        lemma_nth_same(s, t, data_pa, n, from + 1);
        lemma_nth_same(s, t, data_pa, n - 1, from + 1);
    }
}

/// How many of the slots in `[from, to)` are in use.
pub open spec fn in_use(s: State, data_pa: u64, from: int, to: int) -> int
    decreases to - from,
{
    if from >= to {
        0
    } else {
        (if ramfs::entry(s, data_pa, from).inode_pa == 0 {
            0int
        } else {
            1
        }) + in_use(s, data_pa, from + 1, to)
    }
}

proof fn lemma_in_use_bound(s: State, data_pa: u64, from: int, to: int)
    ensures
        0 <= in_use(s, data_pa, from, to),
        from <= to ==> in_use(s, data_pa, from, to) <= to - from,
    decreases to - from,
{
    if from < to {
        lemma_in_use_bound(s, data_pa, from + 1, to);
    }
}

proof fn lemma_nth(s: State, data_pa: u64, from: int, to: int)
    requires
        0 <= from <= to < 64,
        ramfs::entry(s, data_pa, to).inode_pa != 0,
    ensures
        ramfs::nth_entry(s, data_pa, in_use(s, data_pa, from, to), from) == Some(to),
    decreases to - from,
{
    if from < to {
        lemma_nth(s, data_pa, from + 1, to);
        lemma_in_use_bound(s, data_pa, from + 1, to);
    }
}

/// Every entry of a directory is listed, under the number of entries before it.
pub proof fn law_every_entry_listed(s: State, dir: u64, i: int)
    requires
        ramfs::inode(s, dir).kind is Dir,
        ramfs::inode(s, dir).data_pa != 0,
        0 <= i < 64,
        ramfs::entry(s, ramfs::inode(s, dir).data_pa, i).inode_pa != 0,
    ensures
        ({
            let data_pa = ramfs::inode(s, dir).data_pa;
            let n = in_use(s, data_pa, 0, i);
            &&& 0 <= n <= i
            &&& ramfs::listed_entry(s, dir, n as u64) == Some(ramfs::entry(s, data_pa, i))
        }),
{
    let data_pa = ramfs::inode(s, dir).data_pa;
    lemma_in_use_bound(s, data_pa, 0, i);
    lemma_nth(s, data_pa, 0, i);
}

/// The bytes of `t` at `va` are the record for the entry `e`, the one before
/// number `next`, and it takes `len` bytes.
pub open spec fn is_record(t: State, va: u64, e: DirEntry, next: u64, len: int) -> bool {
    let name = ramfs::text(e.name@);
    let d = Seq::new(name.len() + 20, |i: int| byte(t, (va + i) as u64));
    &&& bytes::le64(d, 0) == e.inode_pa >> 12u64
    &&& bytes::le64(d, 8) == next
    &&& bytes::le16(d, 16) == len
    &&& d[18] == (if e.kind == 2 {
        4u8
    } else {
        8u8
    })
    &&& d.subrange(19, 19int + name.len()) == name
    &&& d[19int + name.len()] == 0
    &&& name.len() + 20 <= len < name.len() + 28
    &&& len % 8 == 0
}

/// In the bytes of `t` from `at` to `end` behind `va` stand the records of the
/// entries from number `lo` to number `hi` of the directory, one after the other.
pub open spec fn records_stand(
    s: State,
    t: State,
    dir: u64,
    va: u64,
    at: int,
    end: int,
    lo: u64,
    hi: u64,
) -> bool
    decreases end - at,
{
    if at >= end {
        at == end && lo == hi
    } else {
        match ramfs::listed_entry(s, dir, lo) {
            None => false,
            Some(e) => {
                let len = bytes::le16(
                    Seq::new(20, |i: int| byte(t, (va + at + i) as u64)),
                    16,
                ) as int;
                &&& 0 < len
                &&& at + len <= end
                &&& is_record(t, (va + at) as u64, e, lo.wrapping_add(1), len)
                &&& records_stand(s, t, dir, va, at + len, end, lo.wrapping_add(1), hi)
            },
        }
    }
}

/// The fields of a record.
proof fn lemma_record(e: DirEntry, kind: InodeKind, idx: u64)
    requires
        InodeKind::decoded(e.kind) == Some(kind),
    ensures
        ({
            let name = ramfs::text(e.name@);
            let d = dirs::record(e, kind, idx);
            let len = dirs::record_len(name.len() as int);
            &&& name.len() <= 52
            &&& d.len() == name.len() + 20
            &&& bytes::le64(d, 0) == e.inode_pa >> 12u64
            &&& bytes::le64(d, 8) == idx.wrapping_add(1)
            &&& bytes::le16(d, 16) == len
            &&& d[18] == (if e.kind == 2 {
                4u8
            } else {
                8u8
            })
            &&& d.subrange(19, 19int + name.len()) == name
            &&& d[19int + name.len()] == 0
            &&& name.len() + 20 <= len < name.len() + 28
            &&& len % 8 == 0
        }),
{
    let name = ramfs::text(e.name@);
    path::lemma_find_byte(e.name@, 0, 0);
    let d = dirs::record(e, kind, idx);
    let len = dirs::record_len(name.len() as int);
    let ino = e.inode_pa >> 12u64;
    let next = idx.wrapping_add(1);
    bytes::law_number_read_back(ino);
    bytes::law_number_read_back(next);
    let a = bytes::le_bytes(ino as nat, 8);
    let b = bytes::le_bytes(next as nat, 8);
    let c = bytes::le_bytes(len as nat, 2);
    reveal_with_fuel(bytes::le_bytes, 3);
    assert(c =~= seq![(len as nat % 256) as u8, (len as nat / 256 % 256) as u8]);
    assert(d.subrange(0, 8) =~= a);
    assert(d.subrange(8, 16) =~= b);
    bytes::lemma_le64_at(d, 0);
    bytes::lemma_le64_at(d, 8);
    assert(d[16] == c[0] && d[17] == c[1]);
    assert(d.subrange(19, 19int + name.len()) =~= name);
}

/// Records that stand in the buffer stand there as long as their bytes do.
proof fn lemma_records_kept(
    s: State,
    t: State,
    u: State,
    dir: u64,
    va: u64,
    at: int,
    end: int,
    lo: u64,
    hi: u64,
)
    requires
        0 <= at,
        records_stand(s, t, dir, va, at, end, lo, hi),
        va + end <= u64::MAX,
        forall|k: int| at <= k < end ==> #[trigger] byte(u, (va + k) as u64) == byte(t, (va + k) as u64),
    ensures
        records_stand(s, u, dir, va, at, end, lo, hi),
    decreases end - at,
{
    if at < end {
        let e = ramfs::listed_entry(s, dir, lo)->0;
        let n = ramfs::text(e.name@).len();
        let f = Seq::new(20, |i: int| byte(t, (va + at + i) as u64));
        let g = Seq::new(20, |i: int| byte(u, (va + at + i) as u64));
        let len = bytes::le16(f, 16) as int;
        let v = (va + at) as u64;
        assert forall|i: int| 0 <= i < n + 20 implies #[trigger] byte(u, (v + i) as u64) == byte(
            t,
            (v + i) as u64,
        ) by {
            assert((v + i) as u64 == (va + (at + i)) as u64);
        }
        assert(f =~= g) by {
            assert forall|i: int| 0 <= i < 20 implies f[i] == g[i] by {
                assert((va + at + i) as u64 == (v + i) as u64);
            }
        }
        assert(Seq::new(n + 20, |i: int| byte(u, (v + i) as u64)) =~= Seq::new(
            n + 20,
            |i: int| byte(t, (v + i) as u64),
        ));
        lemma_records_kept(s, t, u, dir, va, at + len, end, lo.wrapping_add(1), hi);
    }
}

/// What writing the records leaves in the buffer.
#[verifier::rlimit(60)]
proof fn lemma_records(s: State, t: State, dir: u64, va: u64, room: int, idx: u64, at: int)
    requires
        0 <= at <= room,
        user::reachable(t, va, room as nat),
        streams::apart(t, va, room as nat),
        t == (State { bytes: t.bytes, ..s }),
    ensures
        ({
            let (u, r) = dirs::records_written(t, dir, va, room, idx, at);
            &&& u == (State { bytes: u.bytes, ..s })
            &&& r matches Ok((hi, end)) && {
                &&& at <= end <= room
                &&& records_stand(s, u, dir, va, at, end, idx, hi)
                &&& ramfs::listed_entry(s, dir, hi) matches Some(e) ==> InodeKind::decoded(
                    e.kind,
                ) is None || end + ramfs::text(e.name@).len() + 27 > room
                &&& forall|k: int|
                    0 <= k < at ==> #[trigger] byte(u, (va + k) as u64) == byte(t, (va + k) as u64)
            }
        }),
    decreases room - at,
{
    let dp = ramfs::inode(s, dir).data_pa;
    lemma_nth_same(s, t, dp, idx as int, 0);
    assert(ramfs::listed_entry(t, dir, idx) == ramfs::listed_entry(s, dir, idx));
    if let Some((e, kind)) = dirs::typed_entry(t, dir, idx) {
        let name = ramfs::text(e.name@);
        let len = dirs::record_len(name.len() as int);
        if at + len <= room {
            lemma_record(e, kind, idx);
            let d = dirs::record(e, kind, idx);
            assert(va.wrapping_add(at as u64) == (va + at) as u64);
            lemma_poked_within(t, va, room as nat, at, d);
            let t1 = user::poked(t, (va + at) as u64, d).0;
            lemma_records(s, t1, dir, va, room, idx.wrapping_add(1), at + len);
            let (u, r) = dirs::records_written(t1, dir, va, room, idx.wrapping_add(1), at + len);
            let v = (va + at) as u64;
            assert forall|i: int| 0 <= i < d.len() implies #[trigger] byte(u, (v + i) as u64) == d[i] by {
                assert((v + i) as u64 == (va + (at + i)) as u64);
                assert(byte(u, (va + (at + i)) as u64) == byte(t1, (va + (at + i)) as u64));
            }
            assert(Seq::new(name.len() + 20, |i: int| byte(u, (v + i) as u64)) =~= d);
            let f = Seq::new(20, |i: int| byte(u, (va + at + i) as u64));
            assert forall|i: int| 0 <= i < 20 implies f[i] == d[i] by {
                assert((va + at + i) as u64 == (v + i) as u64);
            }
            assert(bytes::le16(f, 16) == bytes::le16(d, 16));
            assert forall|k: int| 0 <= k < at implies #[trigger] byte(u, (va + k) as u64) == byte(
                t,
                (va + k) as u64,
            ) by {
                assert(byte(u, (va + k) as u64) == byte(t1, (va + k) as u64));
            }
        }
    }
}

/// getdents64 fills the buffer with the records of the directory's entries from
/// the descriptor's position on, as many as fit, moves the position behind them
/// and returns how many bytes they take.
pub proof fn law_entries_listed(s: State, fd: u64, buf: u64, len: u64, t: u64, e: FdEntry)
    requires
        files::open_fd(s, fd) == Some((t, e)),
        ramfs::inode(s, e.inode_pa).kind is Dir,
        user::reachable(s, buf, len as nat),
        streams::apart(s, buf, len as nat),
        len <= i64::MAX,
    ensures
        ({
            let (s1, r) = dirs::getdents_called(s, fd, buf, len);
            let hi = ramfs::fd_entry(s1, t, fd)->0.offset;
            &&& r matches Ok(n) && {
                ||| {
                    &&& n == -22
                    &&& s1 == s
                    &&& ramfs::listed_entry(s, e.inode_pa, e.offset) is Some
                }
                ||| {
                    &&& 0 <= n <= len
                    &&& records_stand(s, s1, e.inode_pa, buf, 0, n as int, e.offset, hi)
                    &&& ramfs::listed_entry(s, e.inode_pa, hi) matches Some(x)
                        ==> InodeKind::decoded(x.kind) is None || n + ramfs::text(x.name@).len()
                        + 27 > len
                }
            }
        }),
{
    let dir = e.inode_pa;
    if !dirs::no_room(s, dir, len as int, e.offset) {
        lemma_records(s, s, dir, buf, len as int, e.offset, 0);
        let (u, r) = dirs::records_written(s, dir, buf, len as int, e.offset, 0);
        let (hi, end) = r->Ok_0;
        let s1 = ramfs::fd_sought(u, t, fd, hi).0;
        assert forall|v: u64| #[trigger] syscall::caller_pa(s1, v) == syscall::caller_pa(u, v) by {}
        assert forall|k: int| 0 <= k < end implies #[trigger] byte(s1, (buf + k) as u64) == byte(
            u,
            (buf + k) as u64,
        ) by {}
        lemma_records_kept(s, u, s1, dir, buf, 0, end, e.offset, hi);
    }
}

} // verus!
