//! Linux RISC-V system-call ABI.
//!
//! The system call number is in a7, the arguments are in a0 to a5, and the
//! result goes to a0 (negative values are error numbers).
pub mod arrival;
pub mod dirs;
pub mod errno;
pub mod exec;
pub mod family;
pub mod files;
pub mod fork;
pub mod info;
pub mod inheritance;
pub mod likeness;
pub mod listings;
pub mod mappings;
pub mod memory;
pub mod nr;
pub mod numbers;
pub mod partings;
pub mod replacement;
pub mod streams;
pub mod user;
pub mod wait;

use crate::arch::riscv64::trap::{self, TrapFrame};
use crate::decimal::{self, decimal};
use crate::kernel::{Kernel, State};
use crate::linux_compat::user::PageFault;
use crate::sched;
use vstd::prelude::*;

verus! {

/// The mapping is not backed by a file.
pub const MAP_ANON: u64 = 0x20;

/// The mask that umask reports.
pub const UMASK: i64 = 0o022;

pub const BRACKET_OPEN: u8 = 91;

pub const BRACKET_CLOSE: u8 = 93;

pub const QUESTION_MARK: u8 = 63;

/// File calls.
pub open spec fn is_file_call(n: u64) -> bool {
    n == nr::SYS_WRITE || n == nr::SYS_READ || n == nr::SYS_WRITEV || n == nr::SYS_OPENAT || n
        == nr::SYS_CLOSE || n == nr::SYS_LSEEK || n == nr::SYS_DUP || n == nr::SYS_DUP3 || n
        == nr::SYS_FSTAT || n == nr::SYS_NEWFSTATAT || n == nr::SYS_GETDENTS64 || n
        == nr::SYS_GETCWD || n == nr::SYS_CHDIR || n == nr::SYS_FACCESSAT || n == nr::SYS_MKDIRAT
}

/// A result that cannot fault.
pub open spec fn settled(p: (State, i64)) -> (State, Result<i64, PageFault>) {
    (p.0, Ok(p.1))
}

/// What a file call does.
pub open spec fn file_called(s: State, n: u64, a0: u64, a1: u64, a2: u64, input: u8) -> (
    State,
    Result<i64, PageFault>,
) {
    if n == nr::SYS_WRITE {
        files::write_called(s, a0, a1, a2)
    } else if n == nr::SYS_READ {
        files::read_called(s, a0, a1, a2, input)
    } else if n == nr::SYS_WRITEV {
        files::writev_from(s, a0, a1, 0, a2 as nat, 0)
    } else if n == nr::SYS_OPENAT {
        files::openat_called(s, a0, a1, a2)
    } else if n == nr::SYS_CLOSE {
        settled(files::close_called(s, a0))
    } else if n == nr::SYS_LSEEK {
        settled(files::lseek_called(s, a0, a1 as i64, a2))
    } else if n == nr::SYS_DUP {
        settled(files::dup_called(s, a0, None))
    } else if n == nr::SYS_DUP3 {
        settled(files::dup_called(s, a0, Some(a1)))
    } else if n == nr::SYS_FSTAT {
        files::fstat_called(s, a0, a1)
    } else if n == nr::SYS_NEWFSTATAT {
        files::newfstatat_called(s, a0, a1, a2)
    } else if n == nr::SYS_GETDENTS64 {
        dirs::getdents_called(s, a0, a1, a2)
    } else if n == nr::SYS_GETCWD {
        dirs::getcwd_called(s, a0, a1)
    } else if n == nr::SYS_CHDIR {
        dirs::chdir_called(s, a0)
    } else if n == nr::SYS_FACCESSAT {
        (s, dirs::faccessat_called(s, a0, a1))
    } else {
        dirs::mkdirat_called(s, a0, a1)
    }
}

/// Calls that are accepted and do nothing.
pub open spec fn is_no_op(n: u64) -> bool {
    n == nr::SYS_MUNMAP || n == nr::SYS_MPROTECT || n == nr::SYS_GETUID || n == nr::SYS_GETEUID || n
        == nr::SYS_GETGID || n == nr::SYS_GETEGID || n == nr::SYS_RT_SIGACTION || n
        == nr::SYS_RT_SIGPROCMASK || n == nr::SYS_SET_ROBUST_LIST || n == nr::SYS_TKILL || n
        == nr::SYS_TGKILL || n == nr::SYS_KILL || n == nr::SYS_FUTEX || n == nr::SYS_PRLIMIT64 || n
        == nr::SYS_FCNTL || n == nr::SYS_PPOLL
}

/// What the kernel prints for a call it does not know.
pub open spec fn unknown_notice(n: u64) -> Seq<u8> {
    seq![BRACKET_OPEN] + decimal::digits(n as nat) + seq![QUESTION_MARK, BRACKET_CLOSE]
}

/// What any other call that returns a value does.
pub open spec fn other_called(s: State, f: TrapFrame) -> (State, Result<i64, PageFault>) {
    let n = f.x[17];
    let a0 = f.x[10];
    let a1 = f.x[11];
    let a2 = f.x[12];
    let a3 = f.x[13];
    let a4 = f.x[14];
    if n == nr::SYS_BRK {
        settled(memory::brk_called(s, a0))
    } else if n == nr::SYS_MMAP {
        if a3 & MAP_ANON != 0 || a4 as i64 == -1 {
            settled(memory::mmap_called(s, a0, a1))
        } else {
            (s, Ok(errno::ENOMEM))
        }
    } else if is_no_op(n) {
        (s, Ok(0))
    } else if n == nr::SYS_GETPID || n == nr::SYS_GETTID || n == nr::SYS_SET_TID_ADDR {
        (s, Ok(info::own_pid(s) as i64))
    } else if n == nr::SYS_GETPPID {
        (s, Ok(info::parent_pid(s) as i64))
    } else if n == nr::SYS_UNAME {
        info::uname_called(s, a0)
    } else if n == nr::SYS_CLOCK_GETTIME {
        info::written_if_asked(s, a1, files::zeros(16))
    } else if n == nr::SYS_IOCTL {
        info::ioctl_called(s, a1, a2)
    } else if n == nr::SYS_UMASK {
        (s, Ok(UMASK))
    } else if n == nr::SYS_READLINKAT {
        (s, Ok(errno::EINVAL))
    } else if n == nr::SYS_UNLINKAT || n == nr::SYS_PIPE2 {
        (s, Ok(errno::ENOSYS))
    } else if n == nr::SYS_CLONE {
        settled(fork::clone_called(s, a0, f))
    } else {
        (State { tx: s.tx + unknown_notice(n), ..s }, Ok(errno::ENOSYS))
    }
}

/// What a system call with the context `f` does. `input` is the byte that the
/// console delivers where the call reads one.
pub open spec fn dispatched(s: State, f: TrapFrame, input: u8) -> (
    State,
    TrapFrame,
    Result<(), PageFault>,
) {
    let n = f.x[17];
    if n == nr::SYS_EXIT || n == nr::SYS_EXIT_GROUP {
        let (s1, f1) = sched::exited(s, trap::with_x(f, 12, f.x[10]));
        (s1, f1, Ok(()))
    } else if n == nr::SYS_SCHED_YIELD {
        let (s1, f1) = sched::yielded(s, f);
        (s1, f1, Ok(()))
    } else if n == nr::SYS_EXECVE {
        exec::execve_called(s, f, f.x[10], f.x[11])
    } else if n == nr::SYS_WAIT4 {
        let (s1, f1) = wait::wait4_called(s, f, f.x[10] as i64, f.x[11]);
        (s1, f1, Ok(()))
    } else {
        let (s1, r) = if is_file_call(n) {
            file_called(s, n, f.x[10], f.x[11], f.x[12], input)
        } else {
            other_called(s, f)
        };
        match r {
            Err(fault) => (s1, f, Err(fault)),
            Ok(v) => (s1, trap::with_x(f, 10, v as u64), Ok(())),
        }
    }
}

fn file_call(k: &mut Kernel, n: u64, a0: u64, a1: u64, a2: u64, input: u8) -> (r: Result<
    i64,
    PageFault,
>)
    requires
        old(k).wf(),
        is_file_call(n),
    ensures
        final(k).wf(),
        (final(k)@, r) == file_called(old(k)@, n, a0, a1, a2, input),
{
    if n == nr::SYS_WRITE {
        files::sys_write(k, a0, a1, a2)
    } else if n == nr::SYS_READ {
        files::sys_read(k, a0, a1, a2, input)
    } else if n == nr::SYS_WRITEV {
        files::sys_writev(k, a0, a1, a2)
    } else if n == nr::SYS_OPENAT {
        files::sys_openat(k, a0, a1, a2)
    } else if n == nr::SYS_CLOSE {
        Ok(files::sys_close(k, a0))
    } else if n == nr::SYS_LSEEK {
        Ok(files::sys_lseek(k, a0, a1 as i64, a2))
    } else if n == nr::SYS_DUP {
        Ok(files::sys_dup(k, a0, None))
    } else if n == nr::SYS_DUP3 {
        Ok(files::sys_dup(k, a0, Some(a1)))
    } else if n == nr::SYS_FSTAT {
        files::sys_fstat(k, a0, a1)
    } else if n == nr::SYS_NEWFSTATAT {
        files::sys_newfstatat(k, a0, a1, a2)
    } else if n == nr::SYS_GETDENTS64 {
        dirs::sys_getdents64(k, a0, a1, a2)
    } else if n == nr::SYS_GETCWD {
        dirs::sys_getcwd(k, a0, a1)
    } else if n == nr::SYS_CHDIR {
        dirs::sys_chdir(k, a0)
    } else if n == nr::SYS_FACCESSAT {
        dirs::sys_faccessat(k, a0, a1)
    } else {
        dirs::sys_mkdirat(k, a0, a1)
    }
}

fn file_call_number(n: u64) -> (r: bool)
    ensures
        r == is_file_call(n),
{
    n == nr::SYS_WRITE || n == nr::SYS_READ || n == nr::SYS_WRITEV || n == nr::SYS_OPENAT || n
        == nr::SYS_CLOSE || n == nr::SYS_LSEEK || n == nr::SYS_DUP || n == nr::SYS_DUP3 || n
        == nr::SYS_FSTAT || n == nr::SYS_NEWFSTATAT || n == nr::SYS_GETDENTS64 || n
        == nr::SYS_GETCWD || n == nr::SYS_CHDIR || n == nr::SYS_FACCESSAT || n == nr::SYS_MKDIRAT
}

fn no_op_number(n: u64) -> (r: bool)
    ensures
        r == is_no_op(n),
{
    n == nr::SYS_MUNMAP || n == nr::SYS_MPROTECT || n == nr::SYS_GETUID || n == nr::SYS_GETEUID || n
        == nr::SYS_GETGID || n == nr::SYS_GETEGID || n == nr::SYS_RT_SIGACTION || n
        == nr::SYS_RT_SIGPROCMASK || n == nr::SYS_SET_ROBUST_LIST || n == nr::SYS_TKILL || n
        == nr::SYS_TGKILL || n == nr::SYS_KILL || n == nr::SYS_FUTEX || n == nr::SYS_PRLIMIT64 || n
        == nr::SYS_FCNTL || n == nr::SYS_PPOLL
}

fn print_unknown(k: &mut Kernel, n: u64)
    requires
        old(k).wf(),
    ensures
        final(k).wf(),
        final(k)@ == (State { tx: old(k)@.tx + unknown_notice(n), ..old(k)@ }),
{
    let mut number: Vec<u8> = decimal(n);
    k.tx.push(BRACKET_OPEN);
    k.tx.append(&mut number);
    k.tx.push(QUESTION_MARK);
    k.tx.push(BRACKET_CLOSE);
    assert(k@.tx =~= old(k)@.tx + unknown_notice(n));
}

fn other_call(k: &mut Kernel, frame: &TrapFrame) -> (r: Result<i64, PageFault>)
    requires
        old(k).wf(),
    ensures
        final(k).wf(),
        (final(k)@, r) == other_called(old(k)@, *frame),
{
    let n: u64 = frame.a7();
    let a0: u64 = frame.a0();
    let a1: u64 = frame.a1();
    let a2: u64 = frame.a2();
    if n == nr::SYS_BRK {
        Ok(memory::sys_brk(k, a0))
    } else if n == nr::SYS_MMAP {
        if frame.a3() & MAP_ANON != 0 || frame.a4() as i64 == -1 {
            Ok(memory::sys_mmap_anon(k, a0, a1))
        } else {
            Ok(errno::ENOMEM)
        }
    } else if no_op_number(n) {
        Ok(0)
    } else if n == nr::SYS_GETPID || n == nr::SYS_GETTID || n == nr::SYS_SET_TID_ADDR {
        Ok(info::current_pid(k) as i64)
    } else if n == nr::SYS_GETPPID {
        Ok(info::sys_getppid(k))
    } else if n == nr::SYS_UNAME {
        info::sys_uname(k, a0)
    } else if n == nr::SYS_CLOCK_GETTIME {
        info::sys_clock_gettime(k, a1)
    } else if n == nr::SYS_IOCTL {
        info::sys_ioctl(k, a1, a2)
    } else if n == nr::SYS_UMASK {
        Ok(UMASK)
    } else if n == nr::SYS_READLINKAT {
        Ok(errno::EINVAL)
    } else if n == nr::SYS_UNLINKAT || n == nr::SYS_PIPE2 {
        Ok(errno::ENOSYS)
    } else if n == nr::SYS_CLONE {
        Ok(fork::sys_clone(k, a0, frame))
    } else {
        print_unknown(k, n);
        Ok(errno::ENOSYS)
    }
}

/// The call takes a byte from the console.
pub fn wants_byte(frame: &TrapFrame) -> (r: bool)
    ensures
        r == (frame.x[17] == nr::SYS_READ && files::wants_input(frame.x[10], frame.x[12])),
{
    frame.a7() == nr::SYS_READ && frame.a0() == 0 && frame.a2() != 0
}

/// Serve a system call of a thread that follows the Linux ABI. `input` is the
/// byte from the console for a call that wants one.
pub fn dispatch(k: &mut Kernel, frame: &mut TrapFrame, input: u8) -> (r: Result<(), PageFault>)
    requires
        old(k).wf(),
    ensures
        final(k).wf(),
        (final(k)@, *final(frame), r) == dispatched(old(k)@, *old(frame), input),
{
    let n: u64 = frame.a7();
    let a0: u64 = frame.a0();
    let a1: u64 = frame.a1();
    if n == nr::SYS_EXIT || n == nr::SYS_EXIT_GROUP {
        frame.x[12] = a0;
        sched::exit_current(k, frame);
        return Ok(());
    }
    if n == nr::SYS_SCHED_YIELD {
        sched::yield_current(k, frame);
        return Ok(());
    }
    if n == nr::SYS_EXECVE {
        return exec::sys_execve(k, a0, a1, frame);
    }
    if n == nr::SYS_WAIT4 {
        wait::sys_wait4(k, a0 as i64, a1, frame);
        return Ok(());
    }
    let r: Result<i64, PageFault> = if file_call_number(n) {
        file_call(k, n, a0, a1, frame.a2(), input)
    } else {
        other_call(k, frame)
    };
    match r {
        Err(f) => Err(f),
        Ok(v) => {
            frame.set_a0(v as u64);
            Ok(())
        },
    }
}

/// A byte from the console matters only to a call that takes one.
pub proof fn law_input_matters_only_where_wanted(s: State, f: TrapFrame, a: u8, b: u8)
    requires
        !(f.x[17] == nr::SYS_READ && files::wants_input(f.x[10], f.x[12])),
    ensures
        dispatched(s, f, a) == dispatched(s, f, b),
{
}

/// Calls that the kernel knows.
pub open spec fn is_known(n: u64) -> bool {
    is_file_call(n) || is_no_op(n) || n == nr::SYS_EXIT || n == nr::SYS_EXIT_GROUP || n
        == nr::SYS_SCHED_YIELD || n == nr::SYS_EXECVE || n == nr::SYS_WAIT4 || n == nr::SYS_BRK || n
        == nr::SYS_MMAP || n == nr::SYS_GETPID || n == nr::SYS_GETTID || n == nr::SYS_SET_TID_ADDR
        || n == nr::SYS_GETPPID || n == nr::SYS_UNAME || n == nr::SYS_CLOCK_GETTIME || n
        == nr::SYS_IOCTL || n == nr::SYS_UMASK || n == nr::SYS_READLINKAT || n == nr::SYS_UNLINKAT
        || n == nr::SYS_PIPE2 || n == nr::SYS_CLONE
}

/// A call that the kernel does not know is answered ENOSYS; all that it changes
/// is a notice on the console.
pub proof fn law_unknown_call_refused(s: State, f: TrapFrame, input: u8)
    requires
        !is_known(f.x[17]),
    ensures
        dispatched(s, f, input) == (
            State { tx: s.tx + unknown_notice(f.x[17]), ..s },
            trap::with_x(f, 10, errno::ENOSYS as u64),
            Ok::<(), PageFault>(()),
        ),
{
}

} // verus!
