//! What the calls that remove and rename do to the tree.
use crate::arch::riscv64::trap::{self, TrapFrame};
use crate::fs::paths;
use crate::fs::ramfs;
use crate::kernel::State;
use crate::path;
use crate::syscall::{self, error, label};
use vstd::prelude::*;

verus! {

/// FS_UNLINK on a file or an empty directory is answered OK, and its path leads
/// nowhere; every other path leads where it led. On a directory with entries it
/// is answered ILLEGAL_OPERATION, and nothing changes.
pub proof fn law_unlink_call_removes(s: State, f: TrapFrame, p: Seq<u8>)
    requires
        paths::paths_ok(s),
        f.x[11] == label::FS_UNLINK,
        syscall::caller_bytes(s, f.x[12], f.x[13]) == Some(p),
        ramfs::parent_of(s, p) is Ok,
        ramfs::found(s, p) is Some,
    ensures
        ({
            let (s1, f1) = syscall::dispatched(s, f);
            if ramfs::occupied(s, ramfs::found(s, p)->0) {
                s1 == s && f1.x[10] == error::ILLEGAL_OPERATION
            } else {
                &&& f1.x[10] == error::OK
                &&& paths::paths_ok(s1)
                &&& ramfs::found(s1, p) is None
                &&& forall|q: Seq<u8>|
                    path::components(q) != path::components(p) ==> #[trigger] ramfs::found(s1, q)
                        == ramfs::found(s, q)
            }
        }),
{
    paths::law_unlink_succeeds(s, p);
    paths::law_unlinked_path_gone(s, p);
    let reply = syscall::unlink_served(s, f.x[12], f.x[13]).1;
    trap::law_reply_read_back(f, reply);
    assert(trap::replied(f, reply).x[10 + 0int] == reply[0]);
}

/// FS_RENAME within reach is answered OK, and the new path leads to what the old
/// one led to, which leads nowhere; every other path leads where it led. Over a
/// directory with entries it is refused, and nothing changes.
pub proof fn law_rename_call_moves(s: State, f: TrapFrame, from: Seq<u8>, to: Seq<u8>)
    requires
        paths::paths_ok(s),
        f.x[11] == label::FS_RENAME,
        syscall::caller_bytes(s, f.x[12], f.x[13]) == Some(from),
        syscall::caller_bytes(s, f.x[14], f.x[15]) == Some(to),
        paths::plain_name(s, to),
        paths::can_rename(s, from, to),
    ensures
        ({
            let (s1, f1) = syscall::dispatched(s, f);
            let a = path::components(from);
            let b = path::components(to);
            if ramfs::found(s, to) is Some && ramfs::occupied(s, ramfs::found(s, to)->0) {
                s1 == s && f1.x[10] == error::INVALID_ARGUMENT
            } else {
                &&& f1.x[10] == error::OK
                &&& paths::paths_ok(s1)
                &&& ramfs::found(s1, to) == ramfs::found(s, from)
                &&& ramfs::found(s1, from) is None
                &&& forall|q: Seq<u8>|
                    !paths::leads_through(path::components(q), a) && !paths::leads_through(
                        path::components(q),
                        b,
                    ) ==> #[trigger] ramfs::found(s1, q) == ramfs::found(s, q)
            }
        }),
{
    if ramfs::found(s, to) is Some && ramfs::occupied(s, ramfs::found(s, to)->0) {
        paths::law_rename_refused(s, from, to);
    } else {
        paths::law_rename_moves(s, from, to);
    }
    let reply = syscall::rename_served(s, f.x[12], f.x[13], f.x[14], f.x[15]).1;
    trap::law_reply_read_back(f, reply);
    assert(trap::replied(f, reply).x[10 + 0int] == reply[0]);
}

} // verus!
