//! execve from the caller's side: which program runs, and with which arguments.
use crate::arch::riscv64::mmu::USER_MIRROR_OFFSET;
use crate::arch::riscv64::resume;
use crate::arch::riscv64::trap::{self, TrapFrame};
use crate::bytes;
use crate::elf;
use crate::kernel::{self, State};
use crate::linux_compat::user::PageFault;
use crate::linux_compat::{arrival, errno, exec, listings, user};
use crate::mm::{cells, occupancy};
use crate::path::{self, SLASH};
use crate::proc;
use crate::sched::{self, MAX_HARTS};
use crate::syscall::launches;
use vstd::prelude::*;

verus! {

/// The caller has the text `d` with a zero behind it at `va`.
pub open spec fn text_stands(s: State, va: u64, d: Seq<u8>) -> bool {
    &&& user::peeked(s, va, d.len() + 1) == Ok::<Seq<u8>, PageFault>(d.push(0))
    &&& forall|i: int| 0 <= i < d.len() ==> d[i] != 0
}

/// Pointer `i` of the caller's vector at `va`, if it can be read.
pub open spec fn pointer(s: State, va: u64, i: int) -> Option<u64> {
    match user::peeked(s, (va + 8 * i) as u64, 8) {
        Ok(b) => Some(bytes::le64(b, 0)),
        Err(_) => None,
    }
}

/// The caller has a vector of pointers to the texts `args` at `va`, with a null
/// pointer behind it.
pub open spec fn vector_stands(s: State, va: u64, args: Seq<Seq<u8>>) -> bool {
    &&& va + 8 * args.len() + 8 <= u64::MAX
    &&& forall|i: int|
        0 <= i < args.len() ==> ((#[trigger] pointer(s, va, i)) matches Some(p) && p != 0
            && text_stands(s, p, args[i]))
    &&& pointer(s, va, args.len() as int) == Some(0u64)
}

/// The arguments of execve are the texts that the vector points to, all of them
/// and in their order.
pub proof fn law_arguments_read(s: State, va: u64, args: Seq<Seq<u8>>, n: nat)
    requires
        vector_stands(s, va, args),
        args.len() <= n,
        forall|i: int| 0 <= i < args.len() ==> (#[trigger] args[i]).len() < 64,
    ensures
        exec::args_at(s, va, n) == Ok::<Seq<Seq<u8>>, PageFault>(args),
    decreases args.len(),
{
    assert(pointer(s, va, 0) is Some);
    if args.len() == 0 {
        assert(args =~= Seq::<Seq<u8>>::empty());
    } else {
        let rest = args.drop_first();
        let next = (va + 8) as u64;
        listings::law_string_read(s, pointer(s, va, 0)->0, args[0], 64);
        assert forall|i: int| 0 <= i < rest.len() implies ((#[trigger] pointer(
            s,
            next,
            i,
        )) matches Some(p) && p != 0 && text_stands(s, p, rest[i])) by {
            assert(next + 8 * i == va + 8 * (i + 1));
            assert(pointer(s, next, i) == pointer(s, va, i + 1));
            assert(args[i + 1] == rest[i]);
        }
        assert(next + 8 * rest.len() == va + 8 * args.len());
        assert(pointer(s, next, rest.len() as int) == pointer(s, va, args.len() as int));
        assert forall|i: int| 0 <= i < rest.len() implies (#[trigger] rest[i]).len() < 64 by {
            assert(args[i + 1] == rest[i]);
        }
        law_arguments_read(s, next, rest, (n - 1) as nat);
        assert(seq![args[0]] + rest =~= args);
    }
}

/// The name at the end of a path.
proof fn lemma_basename(dir: Seq<u8>, name: Seq<u8>)
    requires
        forall|i: int| 0 <= i < name.len() ==> name[i] != SLASH,
    ensures
        exec::basename(dir.push(SLASH) + name) == name,
{
    let p = dir.push(SLASH) + name;
    path::lemma_last_slash(p);
    let at = path::last_slash(p);
    assert(p[dir.len() as int] == SLASH);
    if at > dir.len() {
        assert(p[at] == name[at - dir.len() - 1]);
    }
    assert(at == dir.len());
    assert(p.skip(at + 1) =~= name);
}

/// execve of a path to a registered program, whatever the directory, with a
/// vector of arguments: the caller goes on at the entry point of that program
/// with these arguments on its stack, as the same process; or, where memory is
/// short or the image cannot be loaded, after the call with an error.
pub proof fn law_execve_runs(
    s: State,
    f: TrapFrame,
    path_va: u64,
    argv_va: u64,
    dir: Seq<u8>,
    name: Seq<u8>,
    args: Seq<Seq<u8>>,
    image: Seq<u8>,
)
    requires
        cells::cells_ok(s.mm),
        s.hart < MAX_HARTS,
        sched::current(s) != 0,
        occupancy::in_use(s.mm, sched::current(s)),
        text_stands(s, path_va, dir.push(SLASH) + name),
        dir.len() + 1 + name.len() < errno::MAX_PATH,
        forall|i: int| 0 <= i < name.len() ==> name[i] != SLASH,
        proc::image_named(s.images, name) == Some(image),
        argv_va != 0,
        vector_stands(s, argv_va, args),
        args.len() <= 8,
        forall|i: int| 0 <= i < args.len() ==> (#[trigger] args[i]).len() < 64,
    ensures
        ({
            let (s1, f1, r) = exec::execve_called(s, f, path_va, argv_va);
            let t = kernel::tcb(s1, sched::current(s));
            &&& r is Ok
            &&& {
                ||| f1 == trap::with_x(f, 10, errno::ENOMEM as u64)
                ||| f1 == trap::with_x(f, 10, errno::EINVAL as u64)
                ||| {
                    &&& f1.sepc == elf::entry_point(image)
                    &&& arrival::holds_arguments(s1, f1.x[2] - USER_MIRROR_OFFSET, args)
                    &&& t.pid == kernel::tcb(s, sched::current(s)).pid
                    &&& t.fd_table_pa == kernel::tcb(s, sched::current(s)).fd_table_pa
                    &&& t.parent_pa == kernel::tcb(s, sched::current(s)).parent_pa
                    &&& sched::current(s1) == sched::current(s)
                }
            }
        }),
{
    let p = dir.push(SLASH) + name;
    let cur = sched::current(s);
    listings::law_string_read(s, path_va, p, errno::MAX_PATH as nat);
    lemma_basename(dir, name);
    law_arguments_read(s, argv_va, args, 8);
    assert(exec::program_found(s, p) == (s, Ok::<Seq<u8>, i64>(image)));
    let (s2, space) = exec::image_space_made(s, image);
    launches::law_loading_keeps_memory(s, image, cur);
    resume::lemma_image_stays(s, image);
    if let Ok((pgd, entry, end)) = space {
        arrival::law_program_starts(s2, f, pgd, entry, end, args);
    }
}

} // verus!
