//! Calls about the system, the process and the terminal.
use crate::kernel::{self, Kernel, State};
use crate::linux_compat::errno;
use crate::linux_compat::files::{self, push_zeros};
use crate::linux_compat::user::{self, copy_out, PageFault};
use crate::sched;
use vstd::prelude::*;

verus! {

pub const TCGETS: u64 = 0x5401;

pub const TCSETS: u64 = 0x5402;

pub const TCSETSW: u64 = 0x5403;

pub const TCSETSF: u64 = 0x5404;

pub const TIOCGPGRP: u64 = 0x540f;

pub const TIOCSPGRP: u64 = 0x5410;

pub const TIOCGWINSZ: u64 = 0x5413;

pub const FIONREAD: u64 = 0x541b;

pub const FIOCLEX: u64 = 0x5451;

/// Bytes of one field of the system description.
pub const UTS_FIELD: u64 = 65;

/// Process number of the caller, 0 where there is none.
pub open spec fn own_pid(s: State) -> u64 {
    let cur = sched::current(s);
    if cur == 0 {
        0
    } else {
        kernel::tcb(s, cur).pid
    }
}

pub fn current_pid(k: &Kernel) -> (r: u64)
    requires
        k.wf(),
    ensures
        r == own_pid(k@),
{
    let cur: u64 = sched::current_pa(k);
    if cur == 0 {
        0
    } else {
        k.tcb(cur).pid
    }
}

/// Process number of the caller's parent, 0 where there is none.
pub open spec fn parent_pid(s: State) -> u64 {
    let cur = sched::current(s);
    let parent = kernel::tcb(s, cur).parent_pa;
    if cur == 0 || parent == 0 {
        0
    } else {
        kernel::tcb(s, parent).pid
    }
}

pub fn sys_getppid(k: &Kernel) -> (r: i64)
    requires
        k.wf(),
    ensures
        r == parent_pid(k@) as i64,
{
    let cur: u64 = sched::current_pa(k);
    if cur == 0 {
        return 0;
    }
    let parent: u64 = k.tcb(cur).parent_pa;
    if parent == 0 {
        return 0;
    }
    k.tcb(parent).pid as i64
}

/// The fields of the system description: system, node, release, version,
/// machine and domain.
pub open spec fn uts_fields() -> Seq<Seq<u8>> {
    seq![
        seq![70u8, 101, 114, 114, 105, 116, 101],
        seq![102u8, 101, 114, 114, 105, 116, 101],
        seq![48u8, 46, 49, 46, 48],
        seq![80u8, 104, 97, 115, 101, 65, 53],
        seq![114u8, 105, 115, 99, 118, 54, 52],
        Seq::empty(),
    ]
}

/// Writing the first `n` fields, each with a zero.
pub open spec fn fields_written(s: State, buf_va: u64, n: nat) -> (State, Result<(), PageFault>)
    decreases n,
{
    if n == 0 {
        (s, Ok(()))
    } else {
        let (s1, r) = fields_written(s, buf_va, (n - 1) as nat);
        match r {
            Err(f) => (s1, Err(f)),
            Ok(_) => user::poked(
                s1,
                buf_va.wrapping_add(((n - 1) * 65) as u64),
                uts_fields()[n - 1].push(0),
            ),
        }
    }
}

/// uname(buf).
pub open spec fn uname_called(s: State, buf_va: u64) -> (State, Result<i64, PageFault>) {
    if buf_va == 0 {
        (s, Ok(errno::EFAULT))
    } else {
        let (s1, r) = fields_written(s, buf_va, 6);
        match r {
            Err(f) => (s1, Err(f)),
            Ok(_) => (s1, Ok(0)),
        }
    }
}

/// Field `i` of the system description, with a zero.
fn uts_field(i: usize) -> (r: Vec<u8>)
    requires
        i < 6,
    ensures
        r@ == uts_fields()[i as int].push(0),
{
    let mut v: Vec<u8> = if i == 0 {
        vec![70, 101, 114, 114, 105, 116, 101]
    } else if i == 1 {
        vec![102, 101, 114, 114, 105, 116, 101]
    } else if i == 2 {
        vec![48, 46, 49, 46, 48]
    } else if i == 3 {
        vec![80, 104, 97, 115, 101, 65, 53]
    } else if i == 4 {
        vec![114, 105, 115, 99, 118, 54, 52]
    } else {
        Vec::new()
    };
    assert(v@ =~= uts_fields()[i as int]);
    v.push(0);
    v
}

pub fn sys_uname(k: &mut Kernel, buf_va: u64) -> (r: Result<i64, PageFault>)
    requires
        old(k).wf(),
    ensures
        final(k).wf(),
        (final(k)@, r) == uname_called(old(k)@, buf_va),
{
    if buf_va == 0 {
        return Ok(errno::EFAULT);
    }
    let mut i: usize = 0;
    let ghost s = k@;
    while i < 6
        invariant
            k.wf(),
            i <= 6,
            buf_va != 0,
            s == old(k)@,
            fields_written(s, buf_va, i as nat) == (k@, Ok::<(), PageFault>(())),
        decreases 6 - i,
    {
        let field: Vec<u8> = uts_field(i);
        let at: u64 = buf_va.wrapping_add(i as u64 * UTS_FIELD);
        let r = copy_out(k, at, &field);
        assert(fields_written(s, buf_va, (i + 1) as nat) == (k@, r));
        if let Err(f) = r {
            proof {
                lemma_fault_stays(s, buf_va, (i + 1) as nat, 6);
            }
            return Err(f);
        }
        i += 1;
    }
    Ok(0)
}

proof fn lemma_fault_stays(s: State, buf_va: u64, i: nat, n: nat)
    requires
        i <= n,
        fields_written(s, buf_va, i).1 is Err,
    ensures
        fields_written(s, buf_va, n) == fields_written(s, buf_va, i),
    decreases n,
{
    if i < n {
        lemma_fault_stays(s, buf_va, i, (n - 1) as nat);
    }
}

/// A call that writes `data` to `va` unless it is null, and succeeds.
pub open spec fn written_if_asked(s: State, va: u64, data: Seq<u8>) -> (
    State,
    Result<i64, PageFault>,
) {
    if va == 0 {
        (s, Ok(0))
    } else {
        let (s1, r) = user::poked(s, va, data);
        match r {
            Err(f) => (s1, Err(f)),
            Ok(_) => (s1, Ok(0)),
        }
    }
}

fn write_if_asked(k: &mut Kernel, va: u64, data: &Vec<u8>) -> (r: Result<i64, PageFault>)
    requires
        old(k).wf(),
    ensures
        final(k).wf(),
        (final(k)@, r) == written_if_asked(old(k)@, va, data@),
{
    if va == 0 {
        return Ok(0);
    }
    match copy_out(k, va, data) {
        Err(f) => Err(f),
        Ok(_) => Ok(0),
    }
}

/// clock_gettime(clock, buf): there is no clock, the time is 0.
pub fn sys_clock_gettime(k: &mut Kernel, buf_va: u64) -> (r: Result<i64, PageFault>)
    requires
        old(k).wf(),
    ensures
        final(k).wf(),
        (final(k)@, r) == written_if_asked(old(k)@, buf_va, files::zeros(16)),
{
    let mut b: Vec<u8> = Vec::new();
    push_zeros(&mut b, 16);
    assert(b@ =~= files::zeros(16));
    write_if_asked(k, buf_va, &b)
}

/// ioctl(fd, request, arg): a terminal of 24 rows and 80 columns in process
/// group 1, with nothing to read.
pub open spec fn ioctl_called(s: State, req: u64, arg: u64) -> (State, Result<i64, PageFault>) {
    if req == TIOCGWINSZ {
        written_if_asked(s, arg, seq![24u8, 0, 80, 0, 0, 0, 0, 0])
    } else if req == TIOCGPGRP {
        written_if_asked(s, arg, seq![1u8, 0, 0, 0])
    } else if req == FIONREAD {
        written_if_asked(s, arg, seq![0u8, 0, 0, 0])
    } else if req == TCGETS || req == TCSETS || req == TCSETSW || req == TCSETSF || req == TIOCSPGRP
        || req == FIOCLEX {
        (s, Ok(0))
    } else {
        (s, Ok(errno::EINVAL))
    }
}

pub fn sys_ioctl(k: &mut Kernel, req: u64, arg: u64) -> (r: Result<i64, PageFault>)
    requires
        old(k).wf(),
    ensures
        final(k).wf(),
        (final(k)@, r) == ioctl_called(old(k)@, req, arg),
{
    if req == TIOCGWINSZ {
        let b: Vec<u8> = vec![24, 0, 80, 0, 0, 0, 0, 0];
        assert(b@ =~= seq![24u8, 0, 80, 0, 0, 0, 0, 0]);
        write_if_asked(k, arg, &b)
    } else if req == TIOCGPGRP {
        let b: Vec<u8> = vec![1, 0, 0, 0];
        assert(b@ =~= seq![1u8, 0, 0, 0]);
        write_if_asked(k, arg, &b)
    } else if req == FIONREAD {
        let b: Vec<u8> = vec![0, 0, 0, 0];
        assert(b@ =~= seq![0u8, 0, 0, 0]);
        write_if_asked(k, arg, &b)
    } else if req == TCGETS || req == TCSETS || req == TCSETSW || req == TCSETSF || req == TIOCSPGRP
        || req == FIOCLEX {
        Ok(0)
    } else {
        Ok(errno::EINVAL)
    }
}

} // verus!
