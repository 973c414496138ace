//! Linux calls by their numbers: which operation each reaches, with which
//! registers, and where the result goes.
use crate::arch::riscv64::trap::{self, TrapFrame};
use crate::kernel::State;
use crate::linux_compat::user::PageFault;
use crate::linux_compat::{self, dirs, exec, files, fork, info, memory, streams, user, wait};
use crate::sched;
use vstd::prelude::*;

verus! {

/// The caller goes on with the result in a0 and every other register as it was.
pub open spec fn answered(f: TrapFrame, p: (State, Result<i64, PageFault>)) -> (
    State,
    TrapFrame,
    Result<(), PageFault>,
) {
    match p.1 {
        Err(e) => (p.0, f, Err(e)),
        Ok(v) => (p.0, trap::with_x(f, 10, v as u64), Ok(())),
    }
}

/// The file calls take their arguments from a0, a1 and a2.
pub proof fn law_file_call_numbers(s: State, f: TrapFrame, input: u8)
    ensures
        ({
            let got = linux_compat::dispatched(s, f, input);
            let n = f.x[17];
            let a = f.x[10];
            let b = f.x[11];
            let c = f.x[12];
            &&& n == 64 ==> got == answered(f, files::write_called(s, a, b, c))
            &&& n == 63 ==> got == answered(f, files::read_called(s, a, b, c, input))
            &&& n == 66 ==> got == answered(f, files::writev_from(s, a, b, 0, c as nat, 0))
            &&& n == 56 ==> got == answered(f, files::openat_called(s, a, b, c))
            &&& n == 57 ==> got == answered(f, linux_compat::settled(files::close_called(s, a)))
            &&& n == 62 ==> got == answered(
                f,
                linux_compat::settled(files::lseek_called(s, a, b as i64, c)),
            )
            &&& n == 23 ==> got == answered(
                f,
                linux_compat::settled(files::dup_called(s, a, None)),
            )
            &&& n == 24 ==> got == answered(
                f,
                linux_compat::settled(files::dup_called(s, a, Some(b))),
            )
            &&& n == 80 ==> got == answered(f, files::fstat_called(s, a, b))
            &&& n == 79 ==> got == answered(f, files::newfstatat_called(s, a, b, c))
            &&& n == 61 ==> got == answered(f, dirs::getdents_called(s, a, b, c))
            &&& n == 17 ==> got == answered(f, dirs::getcwd_called(s, a, b))
            &&& n == 49 ==> got == answered(f, dirs::chdir_called(s, a))
            &&& n == 48 ==> got == answered(f, (s, dirs::faccessat_called(s, a, b)))
            &&& n == 34 ==> got == answered(f, dirs::mkdirat_called(s, a, b))
        }),
{
}

/// The process calls.
pub proof fn law_process_call_numbers(s: State, f: TrapFrame, input: u8)
    ensures
        ({
            let got = linux_compat::dispatched(s, f, input);
            let n = f.x[17];
            let a = f.x[10];
            let b = f.x[11];
            let c = f.x[12];
            &&& n == 214 ==> got == answered(f, linux_compat::settled(memory::brk_called(s, a)))
            &&& n == 222 && f.x[14] as i64 == -1 ==> got == answered(
                f,
                linux_compat::settled(memory::mmap_called(s, a, b)),
            )
            &&& n == 172 || n == 178 ==> got == answered(
                f,
                (s, Ok::<i64, PageFault>(info::own_pid(s) as i64)),
            )
            &&& n == 173 ==> got == answered(
                f,
                (s, Ok::<i64, PageFault>(info::parent_pid(s) as i64)),
            )
            &&& n == 160 ==> got == answered(f, info::uname_called(s, a))
            &&& n == 29 ==> got == answered(f, info::ioctl_called(s, b, c))
            &&& n == 220 ==> got == answered(f, linux_compat::settled(fork::clone_called(s, a, f)))
            &&& n == 221 ==> got == exec::execve_called(s, f, a, b)
            &&& n == 260 ==> (got.0, got.1) == wait::wait4_called(s, f, a as i64, b) && got.2 is Ok
            &&& n == 124 ==> (got.0, got.1) == sched::yielded(s, f) && got.2 is Ok
            &&& n == 93 || n == 94 ==> (got.0, got.1) == sched::exited(s, trap::with_x(f, 12, a))
                && got.2 is Ok
        }),
{
}

/// Calls that are accepted without effect: the caller gets 0 and nothing changes.
pub proof fn law_calls_without_effect(s: State, f: TrapFrame, input: u8)
    requires
        ({
            let n = f.x[17];
            n == 215 || n == 226 || 174 <= n <= 177 || 134 <= n <= 135 || n == 99 || 129 <= n <= 131
                || n == 98 || n == 261 || n == 25 || n == 73
        }),
    ensures
        linux_compat::dispatched(s, f, input) == answered(f, (s, Ok::<i64, PageFault>(0))),
{
}

/// The terminal has 24 rows and 80 columns.
pub proof fn law_window_size(s: State, arg: u64)
    requires
        arg != 0,
        user::reachable(s, arg, 8),
        streams::apart(s, arg, 8),
    ensures
        ({
            let (s1, r) = info::ioctl_called(s, 0x5413, arg);
            &&& r == Ok::<i64, PageFault>(0)
            &&& user::peeked(s1, arg, 8) == Ok::<Seq<u8>, PageFault>(seq![24u8, 0, 80, 0, 0, 0, 0, 0])
        }),
{
    streams::law_poked_peeked(s, arg, seq![24u8, 0, 80, 0, 0, 0, 0, 0], 0);
}

} // verus!
