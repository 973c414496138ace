//! What refused system calls are answered: nothing changes but the reply.
use crate::arch::riscv64::trap::{self, TrapFrame};
use crate::cap::cnode;
use crate::cap::Cap;
use crate::kernel::State;
use crate::syscall::{self, error, invoke, label};
use vstd::prelude::*;

verus! {

/// The label asks for something that needs no capability.
pub open spec fn needs_no_cap(l: u64) -> bool {
    l == label::CONSOLE_GETCHAR || syscall::is_fs_label(l) || l == label::PROC_SPAWN || l
        == label::PROC_LINUX_SPAWN || l == label::THREAD_EXIT || l == label::ENDPOINT_REPLY
}

/// The label names an operation on capabilities like `c`.
pub open spec fn operation_on(c: Cap, l: u64) -> bool {
    ||| l == label::CAP_IDENTIFY || l == label::DEBUG_PUTCHAR
    ||| c.cap_type is CNode && (l == label::CNODE_COPY || l == label::CNODE_MOVE || l
        == label::CNODE_MINT || l == label::CNODE_DELETE || l == label::CNODE_REVOKE)
    ||| c.cap_type is Thread && (l == label::PROC_WAIT || l == label::THREAD_RESUME || l
        == label::THREAD_SUSPEND)
    ||| c.cap_type is Endpoint && (l == label::ENDPOINT_SEND || l == label::ENDPOINT_CALL || l
        == label::ENDPOINT_RECV || l == label::ENDPOINT_REPLY_RECV)
    ||| c.cap_type is Notification && (l == label::NOTIF_SIGNAL || l == label::NOTIF_WAIT)
    ||| c.cap_type is UntypedMemory && l == label::UNTYPED_RETYPE
    ||| c.cap_type is IRQControl && l == label::IRQ_ISSUE_HANDLER
    ||| c.cap_type is IRQHandler && l == label::IRQ_ACK
    ||| c.cap_type is Frame && l == label::FRAME_MAP
}

/// A call on a slot that is empty or out of range is answered
/// INVALID_CAPABILITY, one without any CSpace FAILED_LOOKUP; nothing changes.
pub proof fn law_no_capability_refused(s: State, f: TrapFrame)
    requires
        !needs_no_cap(f.x[11]),
    ensures
        ({
            let cs = syscall::caller_cspace(s);
            &&& cs.0 == 0 ==> syscall::dispatched(s, f) == (
                s,
                trap::replied(f, syscall::coded(error::FAILED_LOOKUP)),
            )
            &&& cs.0 != 0 && (f.x[10] >= cnode::slot_count(cs.1) || cnode::slot(
                s.caps,
                cs.0,
                f.x[10],
            ).cap_type is Null) ==> syscall::dispatched(s, f) == (
                s,
                trap::replied(f, syscall::coded(error::INVALID_CAPABILITY)),
            )
        }),
{
}

/// An operation that a capability of this type does not have is answered
/// ILLEGAL_OPERATION; nothing changes.
pub proof fn law_wrong_operation_refused(s: State, f: TrapFrame, c: Cap, cs: (u64, u64))
    requires
        !operation_on(c, f.x[11]),
    ensures
        invoke::invoked(s, f, c, cs) == (
            s,
            trap::replied(f, syscall::coded(error::ILLEGAL_OPERATION)),
        ),
{
}

/// Identifying a capability tells its type, object, size and rights, and changes
/// nothing.
pub proof fn law_identify_reports(s: State, f: TrapFrame, c: Cap, cs: (u64, u64))
    requires
        f.x[11] == label::CAP_IDENTIFY,
    ensures
        ({
            let (s1, f1) = invoke::invoked(s, f, c, cs);
            &&& s1 == s
            &&& f1.x[10] == error::OK
            &&& f1.x[11] == c.cap_type.code()
            &&& f1.x[12] == c.ptr
            &&& f1.x[13] == c.extra
            &&& f1.x[14] == c.rights.0
        }),
{
    trap::law_reply_read_back(f, invoke::identity(c));
}

} // verus!
