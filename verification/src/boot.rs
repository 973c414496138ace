//! Bringing the system up, stage by stage.
//!
//! Each stage prepares kernel objects and threads; then the machine runs until
//! no thread is left, and the next stage follows. A stage that fails leaves
//! nothing to go on with.
use crate::arch::riscv64::mmu::{self, BootPaging};
use crate::arch::riscv64::trap::{self, TrapFrame};
use crate::arch::riscv64::vspace::{self, create_process_vspace, pgd_to_satp};
use crate::cap::cnode;
use crate::cap::untyped::UntypedHeader;
use crate::cap::{self, Cap, CapType, Rights};
use crate::console;
use crate::fs::ramfs;
use crate::kernel::{self, Kernel, State};
use crate::linux_compat::exec;
use crate::mm::buddy;
use crate::mm::{self, alloc_pages};
use crate::objects::Zeroed;
use crate::sched;
use crate::syscall::spawn::{self, start_image};
use crate::syscall::{self, error, label};
use crate::thread::{self, create_kthread, create_process_thread, create_uthread, Tcb};
use vstd::prelude::*;

verus! {

/// Slots of the root CNode.
pub const SLOT_CNODE_SELF: u64 = 0;

pub const SLOT_UNTYPED: u64 = 1;

pub const SLOT_ENDPOINT: u64 = 11;

pub const SLOT_NOTIF: u64 = 12;

pub const SLOT_IRQCONTROL: u64 = 13;

pub const SLOT_IRQHANDLER_UART: u64 = 14;

pub const SLOT_FRAME: u64 = 15;

/// Endpoint over which a capability is granted.
pub const SLOT_EP_SHARED: u64 = 17;

/// Endpoint that is granted.
pub const SLOT_EP_PRIVATE: u64 = 18;

/// Slots for trying out revocation.
pub const SLOT_REVOKED: u64 = 20;

pub const SLOT_REVOKED_COPY: u64 = 21;

/// The root CNode has 64 slots.
pub const ROOT_SIZE_BITS: u64 = 6;

/// The root untyped region has 256 pages.
pub const UNTYPED_ORDER: usize = 8;

/// CNodes of processes have 8 slots, that of the shell 16.
pub const PROCESS_SIZE_BITS: u64 = 3;

pub const SHELL_SIZE_BITS: u64 = 4;

/// Interrupt source of the UART.
pub const UART_IRQ: u64 = 10;

/// The UART registers.
pub const UART_PAGE: u64 = 0x1000_0000;

/// Bytes that an untyped header takes.
pub const UNTYPED_HEADER_BYTES: u64 = 24;

/// Invoking the dispatcher from the kernel with a0 to a7: the reply.
#[verifier::opaque]
pub open spec fn kernel_invoked(s: State, a: [u64; 8]) -> (State, [u64; 8]) {
    let (s1, f) = syscall::dispatched(s, trap::replied(TrapFrame::zeroed(), a));
    (s1, [f.x[10], f.x[11], f.x[12], f.x[13], f.x[14], f.x[15], f.x[16], f.x[17]])
}

/// Invoke the dispatcher from the kernel.
pub fn invoke(k: &mut Kernel, a: [u64; 8]) -> (r: [u64; 8])
    requires
        old(k).wf(),
    ensures
        final(k).wf(),
        (final(k)@, r) == kernel_invoked(old(k)@, a),
{
    reveal(kernel_invoked);
    let mut f: TrapFrame = TrapFrame::zero();
    f.set_reply(a);
    syscall::dispatch(k, &mut f);
    [f.x[10], f.x[11], f.x[12], f.x[13], f.x[14], f.x[15], f.x[16], f.x[17]]
}

/// An invocation with the reply that is due.
#[derive(Clone, Copy)]
pub struct Check {
    pub args: [u64; 8],
    /// Error code in a0.
    pub code: u64,
    /// Value in a1, where one is due.
    pub value: Option<u64>,
}

/// The reply is the one that is due.
pub open spec fn check_holds(c: Check, r: [u64; 8]) -> bool {
    r[0] == c.code && (c.value matches Some(v) ==> r[1] == v)
}

/// Running checks in their order, up to the first that fails.
pub open spec fn checks_run(s: State, checks: Seq<Check>) -> (State, bool)
    decreases checks.len(),
{
    if checks.len() == 0 {
        (s, true)
    } else {
        let (s1, r) = kernel_invoked(s, checks[0].args);
        if check_holds(checks[0], r) {
            checks_run(s1, checks.drop_first())
        } else {
            (s1, false)
        }
    }
}

/// Run checks in their order. Returns whether all hold.
pub fn run_checks(k: &mut Kernel, checks: &Vec<Check>) -> (r: bool)
    requires
        old(k).wf(),
    ensures
        final(k).wf(),
        (final(k)@, r) == checks_run(old(k)@, checks@),
{
    let mut i: usize = 0;
    assert(checks@.skip(0) =~= checks@);
    while i < checks.len()
        invariant
            k.wf(),
            i <= checks@.len(),
            checks_run(k@, checks@.skip(i as int)) == checks_run(old(k)@, checks@),
        decreases checks@.len() - i,
    {
        assert(checks@.skip(i as int)[0] == checks@[i as int]);
        assert(checks@.skip(i as int).drop_first() =~= checks@.skip(i + 1));
        let c: Check = checks[i];
        let r: [u64; 8] = invoke(k, c.args);
        if r[0] != c.code {
            return false;
        }
        if let Some(v) = c.value {
            if r[1] != v {
                return false;
            }
        }
        i += 1;
    }
    assert(checks@.skip(i as int) =~= Seq::<Check>::empty());
    true
}

pub open spec fn plain_check(a0: u64, l: u64, a2: u64, a3: u64, a4: u64, a5: u64, code: u64) -> Check {
    Check { args: [a0, l, a2, a3, a4, a5, 0, 0], code, value: None }
}

fn check(a0: u64, l: u64, a2: u64, a3: u64, a4: u64, a5: u64, code: u64) -> (r: Check)
    ensures
        r == plain_check(a0, l, a2, a3, a4, a5, code),
{
    Check { args: [a0, l, a2, a3, a4, a5, 0, 0], code, value: None }
}

/// A region of untyped memory of `2^order` pages with its header.
pub open spec fn untyped_made(s: State, order: nat) -> (State, Option<u64>) {
    let (m, block) = mm::pages_taken(s.mm, order);
    match block {
        None => (s, None),
        Some(pa) => (
            State {
                mm: m,
                untypeds: s.untypeds.insert(
                    pa,
                    UntypedHeader {
                        start: pa,
                        end: (pa + buddy::block_bytes(order)) as u64,
                        watermark: (pa + UNTYPED_HEADER_BYTES) as u64,
                    },
                ),
                ..s
            },
            Some(pa),
        ),
    }
}

fn make_untyped(k: &mut Kernel, order: usize) -> (r: Option<u64>)
    requires
        old(k).wf(),
        order <= 8,
    ensures
        final(k).wf(),
        (final(k)@, r) == untyped_made(old(k)@, order as nat),
        r matches Some(pa) ==> pa + buddy::block_bytes(order as nat) <= mm::buddy::PA_LIMIT,
{
    match alloc_pages(&mut k.mm, order) {
        None => None,
        Some(pa) => {
            proof {
                buddy::lemma_order_table(order as nat);
                buddy::lemma_order_positive(order as nat);
            }
            let bytes: u64 = buddy::PAGE_SIZE << order;
            k.set_untyped(
                pa,
                UntypedHeader { start: pa, end: pa + bytes, watermark: pa + UNTYPED_HEADER_BYTES },
            );
            Some(pa)
        },
    }
}

pub open spec fn full_cap(t: CapType, ptr: u64, extra: u64) -> Cap {
    Cap { cap_type: t, rights: cap::all_rights(), ptr, extra }
}

/// Overwriting a slot.
pub open spec fn with_slot(s: State, cnode_pa: u64, index: u64, c: Cap) -> State {
    State { caps: s.caps.insert(cnode::slot_addr(cnode_pa, index), c), ..s }
}

fn set_slot(k: &mut Kernel, cnode_pa: u64, index: u64, c: Cap)
    requires
        old(k).wf(),
        cnode::cap_ok(c),
    ensures
        final(k).wf(),
        final(k)@ == with_slot(old(k)@, cnode_pa, index, c),
{
    cnode::force_insert(&mut k.caps, cnode_pa, index, c);
}

/// A CNode with a capability to itself in slot 0.
pub open spec fn cspace_made(s: State, size_bits: u64) -> (State, Option<u64>) {
    let (s1, pa) = cnode::cnode_made(s, size_bits);
    match pa {
        None => (s1, None),
        Some(pa) => (with_slot(s1, pa, 0, full_cap(CapType::CNode, pa, size_bits)), Some(pa)),
    }
}

fn make_cspace(k: &mut Kernel, size_bits: u64) -> (r: Option<u64>)
    requires
        old(k).wf(),
        size_bits <= 25,
    ensures
        final(k).wf(),
        (final(k)@, r) == cspace_made(old(k)@, size_bits),
{
    match cnode::allocate(k, size_bits) {
        None => None,
        Some(pa) => {
            set_slot(k, pa, 0, Cap::new(CapType::CNode, pa, size_bits, Rights::all()));
            Some(pa)
        },
    }
}

/// Giving a thread a CSpace of its own.
pub open spec fn with_cspace(s: State, tcb_pa: u64, cs_pa: u64, size_bits: u64) -> State {
    kernel::with_tcb(
        s,
        tcb_pa,
        Tcb { cspace_pa: cs_pa, cspace_sb: size_bits, ..kernel::tcb(s, tcb_pa) },
    )
}

fn set_cspace(k: &mut Kernel, tcb_pa: u64, cs_pa: u64, size_bits: u64)
    requires
        old(k).wf(),
        size_bits < 64,
    ensures
        final(k).wf(),
        final(k)@ == with_cspace(old(k)@, tcb_pa, cs_pa, size_bits),
{
    let mut t: Tcb = k.tcb(tcb_pa);
    t.cspace_pa = cs_pa;
    t.cspace_sb = size_bits;
    k.set_tcb(tcb_pa, t);
}

/// Turning paging on: the boot tables and what later address spaces take over
/// from them.
pub open spec fn paging_set(s: State, p: BootPaging, pud_user_pa: u64) -> State {
    let ptes = s.ptes.insert(
        entry_addr(p.entries@[0]),
        p.entries@[0].pte,
    ).insert(entry_addr(p.entries@[1]), p.entries@[1].pte).insert(
        entry_addr(p.entries@[2]),
        p.entries@[2].pte,
    ).insert(entry_addr(p.entries@[3]), p.entries@[3].pte).insert(
        entry_addr(p.entries@[4]),
        p.entries@[4].pte,
    );
    State { ptes, boot_satp: p.satp, boot_user_pte: mmu::table_entry(pud_user_pa), ..s }
}

pub open spec fn entry_addr(e: mmu::BootEntry) -> u64 {
    e.table.wrapping_add(e.index.wrapping_mul(8))
}

/// Record the boot mapping.
pub fn set_paging(k: &mut Kernel, p: &BootPaging, pud_user_pa: u64)
    requires
        old(k).wf(),
    ensures
        final(k).wf(),
        final(k)@ == paging_set(old(k)@, *p, pud_user_pa),
{
    k.ptes.write(
        p.entries[0].table.wrapping_add(p.entries[0].index.wrapping_mul(8)),
        p.entries[0].pte,
    );
    k.ptes.write(
        p.entries[1].table.wrapping_add(p.entries[1].index.wrapping_mul(8)),
        p.entries[1].pte,
    );
    k.ptes.write(
        p.entries[2].table.wrapping_add(p.entries[2].index.wrapping_mul(8)),
        p.entries[2].pte,
    );
    k.ptes.write(
        p.entries[3].table.wrapping_add(p.entries[3].index.wrapping_mul(8)),
        p.entries[3].pte,
    );
    k.ptes.write(
        p.entries[4].table.wrapping_add(p.entries[4].index.wrapping_mul(8)),
        p.entries[4].pte,
    );
    vspace::save_boot_satp(k, p.satp);
    k.boot_user_pte = mmu::boot_pgd_user_pte(pud_user_pa);
}

/// The root CSpace: itself, and the root untyped region.
pub open spec fn root_made(s: State) -> (State, bool) {
    let (s1, root) = cspace_made(s, ROOT_SIZE_BITS);
    match root {
        None => (s1, false),
        Some(root_pa) => {
            let (s2, ut) = untyped_made(s1, UNTYPED_ORDER as nat);
            match ut {
                None => (s2, false),
                Some(ut_pa) => (
                    State {
                        root_pa,
                        root_sb: ROOT_SIZE_BITS,
                        ..with_slot(
                            s2,
                            root_pa,
                            SLOT_UNTYPED,
                            full_cap(CapType::UntypedMemory, ut_pa, 0x10_0000),
                        )
                    },
                    true,
                ),
            }
        },
    }
}

/// Build the root CSpace.
pub fn make_root(k: &mut Kernel) -> (r: bool)
    requires
        old(k).wf(),
    ensures
        final(k).wf(),
        (final(k)@, r) == root_made(old(k)@),
{
    let root_pa: u64 = match make_cspace(k, ROOT_SIZE_BITS) {
        Some(p) => p,
        None => {
            return false;
        },
    };
    let ut_pa: u64 = match make_untyped(k, UNTYPED_ORDER) {
        Some(p) => p,
        None => {
            return false;
        },
    };
    set_slot(
        k,
        root_pa,
        SLOT_UNTYPED,
        Cap::new(CapType::UntypedMemory, ut_pa, 0x10_0000, Rights::all()),
    );
    cap::set_root_cspace(k, root_pa, ROOT_SIZE_BITS);
    true
}

/// The root capabilities answer, an empty slot and an unknown object type are
/// refused.
pub open spec fn root_checks() -> Seq<Check> {
    seq![
        plain_check(SLOT_CNODE_SELF, label::CAP_IDENTIFY, 0, 0, 0, 0, error::OK),
        plain_check(63, label::CAP_IDENTIFY, 0, 0, 0, 0, error::INVALID_CAPABILITY),
        plain_check(SLOT_UNTYPED, label::UNTYPED_RETYPE, 255, 0, 50, 1, error::INVALID_ARGUMENT),
    ]
}

fn list_root_checks() -> (r: Vec<Check>)
    ensures
        r@ == root_checks(),
{
    let mut v: Vec<Check> = Vec::new();
    v.push(check(SLOT_CNODE_SELF, label::CAP_IDENTIFY, 0, 0, 0, 0, error::OK));
    v.push(check(63, label::CAP_IDENTIFY, 0, 0, 0, 0, error::INVALID_CAPABILITY));
    v.push(check(SLOT_UNTYPED, label::UNTYPED_RETYPE, 255, 0, 50, 1, error::INVALID_ARGUMENT));
    assert(v@ =~= root_checks());
    v
}

/// Retyping one object of type `t` into `slot` of the root CNode.
pub open spec fn retype_check(t: CapType, slot: u64, code: u64) -> Check {
    plain_check(SLOT_UNTYPED, label::UNTYPED_RETYPE, t.code() as u64, 0, slot, 1, code)
}

fn check_retype(t: CapType, slot: u64, code: u64) -> (r: Check)
    ensures
        r == retype_check(t, slot, code),
{
    check(SLOT_UNTYPED, label::UNTYPED_RETYPE, t.to_u8() as u64, 0, slot, 1, code)
}

pub open spec fn signal_check(badge: u64) -> Check {
    plain_check(SLOT_NOTIF, label::NOTIF_SIGNAL, badge, 0, 0, 0, error::OK)
}

pub open spec fn wait_check(badge: u64) -> Check {
    Check {
        value: Some(badge),
        ..plain_check(SLOT_NOTIF, label::NOTIF_WAIT, 0, 0, 0, 0, error::OK)
    }
}

fn check_signal(badge: u64) -> (r: Check)
    ensures
        r == signal_check(badge),
{
    check(SLOT_NOTIF, label::NOTIF_SIGNAL, badge, 0, 0, 0, error::OK)
}

fn check_wait(badge: u64) -> (r: Check)
    ensures
        r == wait_check(badge),
{
    let mut c: Check = check(SLOT_NOTIF, label::NOTIF_WAIT, 0, 0, 0, 0, error::OK);
    c.value = Some(badge);
    c
}

/// An endpoint and a notification are made, an occupied slot is refused, and
/// signals accumulate.
pub open spec fn ipc_checks() -> Seq<Check> {
    seq![
        retype_check(CapType::Endpoint, SLOT_ENDPOINT, error::OK),
        retype_check(CapType::Notification, SLOT_NOTIF, error::OK),
        retype_check(CapType::Endpoint, SLOT_ENDPOINT, error::ILLEGAL_OPERATION),
        signal_check(0xAB),
        wait_check(0xAB),
        signal_check(1),
        signal_check(6),
        wait_check(7),
    ]
}

fn list_ipc_checks() -> (r: Vec<Check>)
    ensures
        r@ == ipc_checks(),
{
    let mut v: Vec<Check> = Vec::new();
    v.push(check_retype(CapType::Endpoint, SLOT_ENDPOINT, error::OK));
    v.push(check_retype(CapType::Notification, SLOT_NOTIF, error::OK));
    v.push(check_retype(CapType::Endpoint, SLOT_ENDPOINT, error::ILLEGAL_OPERATION));
    v.push(check_signal(0xAB));
    v.push(check_wait(0xAB));
    v.push(check_signal(1));
    v.push(check_signal(6));
    v.push(check_wait(7));
    assert(v@ =~= ipc_checks());
    v
}

/// A revoked capability is gone with its copies.
pub open spec fn revoke_checks() -> Seq<Check> {
    seq![
        retype_check(CapType::Endpoint, SLOT_REVOKED, error::OK),
        plain_check(
            SLOT_CNODE_SELF,
            label::CNODE_COPY,
            SLOT_REVOKED,
            SLOT_REVOKED_COPY,
            0x1f,
            0,
            error::OK,
        ),
        plain_check(SLOT_REVOKED_COPY, label::CAP_IDENTIFY, 0, 0, 0, 0, error::OK),
        plain_check(SLOT_CNODE_SELF, label::CNODE_REVOKE, SLOT_REVOKED, 0, 0, 0, error::OK),
        plain_check(SLOT_REVOKED_COPY, label::CAP_IDENTIFY, 0, 0, 0, 0, error::INVALID_CAPABILITY),
        plain_check(SLOT_REVOKED, label::CAP_IDENTIFY, 0, 0, 0, 0, error::INVALID_CAPABILITY),
    ]
}

fn list_revoke_checks() -> (r: Vec<Check>)
    ensures
        r@ == revoke_checks(),
{
    let mut v: Vec<Check> = Vec::new();
    v.push(check_retype(CapType::Endpoint, SLOT_REVOKED, error::OK));
    v.push(
        check(
            SLOT_CNODE_SELF,
            label::CNODE_COPY,
            SLOT_REVOKED,
            SLOT_REVOKED_COPY,
            0x1f,
            0,
            error::OK,
        ),
    );
    v.push(check(SLOT_REVOKED_COPY, label::CAP_IDENTIFY, 0, 0, 0, 0, error::OK));
    v.push(check(SLOT_CNODE_SELF, label::CNODE_REVOKE, SLOT_REVOKED, 0, 0, 0, error::OK));
    v.push(check(SLOT_REVOKED_COPY, label::CAP_IDENTIFY, 0, 0, 0, 0, error::INVALID_CAPABILITY));
    v.push(check(SLOT_REVOKED, label::CAP_IDENTIFY, 0, 0, 0, 0, error::INVALID_CAPABILITY));
    assert(v@ =~= revoke_checks());
    v
}

/// Two kernel threads, runnable.
pub open spec fn kthreads_ready(s: State, entry_a: u64, entry_b: u64) -> (State, bool) {
    let (s1, a) = thread::tcb_made(s, entry_a, thread::SSTATUS_KTHREAD);
    match a {
        None => (s1, false),
        Some(a) => {
            let (s2, b) = thread::tcb_made(s1, entry_b, thread::SSTATUS_KTHREAD);
            match b {
                None => (s2, false),
                Some(b) => (sched::enqueued(sched::enqueued(s2, a, 0), b, 0), true),
            }
        },
    }
}

/// Prepare two kernel threads.
pub fn prepare_kthreads(k: &mut Kernel, entry_a: u64, entry_b: u64) -> (r: bool)
    requires
        old(k).wf(),
    ensures
        final(k).wf(),
        (final(k)@, r) == kthreads_ready(old(k)@, entry_a, entry_b),
{
    let a: u64 = match create_kthread(k, entry_a) {
        Some(p) => p,
        None => {
            return false;
        },
    };
    let b: u64 = match create_kthread(k, entry_b) {
        Some(p) => p,
        None => {
            return false;
        },
    };
    sched::enqueue(k, a, 0);
    sched::enqueue(k, b, 0);
    true
}

/// IPC between two user threads that run from the user mirror: the server
/// first, so that it waits when the client calls.
pub open spec fn ipc_ready(s: State, server: u64, client: u64) -> (State, bool) {
    let (s1, ok) = checks_run(s, ipc_checks());
    if !ok {
        (s1, false)
    } else {
        let (s2, a) = thread::uthread_made(s1, server);
        match a {
            None => (s2, false),
            Some(a) => {
                let (s3, b) = thread::uthread_made(s2, client);
                match b {
                    None => (s3, false),
                    Some(b) => (sched::enqueued(sched::enqueued(s3, a, 0), b, 0), true),
                }
            },
        }
    }
}

/// Prepare the IPC stage.
pub fn prepare_ipc(k: &mut Kernel, server: u64, client: u64) -> (r: bool)
    requires
        old(k).wf(),
        server + mmu::USER_MIRROR_OFFSET <= u64::MAX,
        client + mmu::USER_MIRROR_OFFSET <= u64::MAX,
    ensures
        final(k).wf(),
        (final(k)@, r) == ipc_ready(old(k)@, server, client),
{
    if !run_checks(k, &list_ipc_checks()) {
        return false;
    }
    let a: u64 = match create_uthread(k, server) {
        Some(p) => p,
        None => {
            return false;
        },
    };
    let b: u64 = match create_uthread(k, client) {
        Some(p) => p,
        None => {
            return false;
        },
    };
    sched::enqueue(k, a, 0);
    sched::enqueue(k, b, 0);
    true
}

/// Interrupt authority in the root CSpace, and a handler for the UART.
pub open spec fn interrupts_ready(s: State) -> (State, bool) {
    let s1 = with_slot(s, s.root_pa, SLOT_IRQCONTROL, full_cap(CapType::IRQControl, 0, 0));
    let (s2, ok) = checks_run(
        s1,
        seq![
            plain_check(
                SLOT_IRQCONTROL,
                label::IRQ_ISSUE_HANDLER,
                UART_IRQ,
                SLOT_IRQHANDLER_UART,
                0,
                0,
                error::OK,
            ),
        ],
    );
    (s2, ok && cnode::slot(s2.caps, s2.root_pa, SLOT_IRQHANDLER_UART).ptr == UART_IRQ)
}

/// Prepare the interrupt stage.
pub fn prepare_interrupts(k: &mut Kernel) -> (r: bool)
    requires
        old(k).wf(),
        old(k)@.root_sb == ROOT_SIZE_BITS,
    ensures
        final(k).wf(),
        (final(k)@, r) == interrupts_ready(old(k)@),
{
    let root_pa: u64 = k.root_pa;
    set_slot(k, root_pa, SLOT_IRQCONTROL, Cap::new(CapType::IRQControl, 0, 0, Rights::all()));
    let mut v: Vec<Check> = Vec::new();
    let c: Check = check(
        SLOT_IRQCONTROL,
        label::IRQ_ISSUE_HANDLER,
        UART_IRQ,
        SLOT_IRQHANDLER_UART,
        0,
        0,
        error::OK,
    );
    v.push(c);
    assert(v@ =~= seq![c]);
    if !run_checks(k, &v) {
        return false;
    }
    let root_pa: u64 = k.root_pa;
    match cnode::lookup(&k.caps, root_pa, ROOT_SIZE_BITS, SLOT_IRQHANDLER_UART) {
        Ok(c) => c.ptr == UART_IRQ,
        Err(_) => {
            assert(14 < 1u64 << 6) by (bit_vector);
            false
        },
    }
}

/// After the UART interrupted: its handler capability acknowledges, and the
/// source was the UART.
pub open spec fn interrupt_seen(s: State) -> (State, bool) {
    let (s1, ok) = checks_run(
        s,
        seq![plain_check(SLOT_IRQHANDLER_UART, label::IRQ_ACK, 0, 0, 0, 0, error::OK)],
    );
    (s1, ok && s1.last_irq == UART_IRQ)
}

/// Acknowledge the UART interrupt.
pub fn acknowledge_interrupt(k: &mut Kernel) -> (r: bool)
    requires
        old(k).wf(),
    ensures
        final(k).wf(),
        (final(k)@, r) == interrupt_seen(old(k)@),
{
    let mut v: Vec<Check> = Vec::new();
    let c: Check = check(SLOT_IRQHANDLER_UART, label::IRQ_ACK, 0, 0, 0, 0, error::OK);
    v.push(c);
    assert(v@ =~= seq![c]);
    run_checks(k, &v) && k.last_irq == UART_IRQ
}

/// A process of its own address space that runs from the user mirror.
pub open spec fn process_ready(s: State, entry: u64) -> (State, bool) {
    let (s1, pgd) = vspace::process_vspace_made(s);
    match pgd {
        None => (s1, false),
        Some(pgd) => if vspace::satp_of(pgd) == s1.boot_satp {
            (s1, false)
        } else {
            let (s2, t) = thread::process_thread_made(s1, entry, vspace::satp_of(pgd));
            match t {
                None => (s2, false),
                Some(pa) => (sched::enqueued(s2, pa, 0), true),
            }
        },
    }
}

/// Prepare a process with its own address space.
pub fn prepare_process(k: &mut Kernel, entry: u64) -> (r: bool)
    requires
        old(k).wf(),
        entry + mmu::USER_MIRROR_OFFSET <= u64::MAX,
    ensures
        final(k).wf(),
        (final(k)@, r) == process_ready(old(k)@, entry),
{
    let satp: u64 = match create_process_vspace(k) {
        Some(pgd) => pgd_to_satp(pgd),
        None => {
            return false;
        },
    };
    if satp == vspace::boot_satp(k) {
        return false;
    }
    match create_process_thread(k, entry, satp) {
        None => false,
        Some(pa) => {
            sched::enqueue(k, pa, 0);
            true
        },
    }
}

/// Loading programs in their order: their threads, not runnable yet.
pub open spec fn programs_loaded(s: State, images: Seq<Seq<u8>>) -> (State, Option<Seq<u64>>)
    decreases images.len(),
{
    if images.len() == 0 {
        (s, Some(Seq::empty()))
    } else {
        let (s1, r) = programs_loaded(s, images.drop_last());
        match r {
            None => (s1, None),
            Some(threads) => {
                let (s2, t) = spawn::image_started(s1, images.last());
                match t {
                    Err(_) => (s2, None),
                    Ok(pa) => (s2, Some(threads.push(pa))),
                }
            },
        }
    }
}

/// Making threads runnable in their order.
pub open spec fn all_enqueued(s: State, threads: Seq<u64>) -> State
    decreases threads.len(),
{
    if threads.len() == 0 {
        s
    } else {
        sched::enqueued(all_enqueued(s, threads.drop_last()), threads.last(), 0)
    }
}

/// Loading programs and making them runnable in the same order.
pub open spec fn programs_ready(s: State, images: Seq<Seq<u8>>) -> (State, bool) {
    let (s1, r) = programs_loaded(s, images);
    match r {
        None => (s1, false),
        Some(threads) => (all_enqueued(s1, threads), true),
    }
}

proof fn lemma_load_fails(s: State, images: Seq<Seq<u8>>, i: int)
    requires
        0 <= i <= images.len(),
        programs_loaded(s, images.take(i)).1 is None,
    ensures
        programs_loaded(s, images) == programs_loaded(s, images.take(i)),
    decreases images.len() - i,
{
    if i < images.len() {
        assert(images.take(i + 1).drop_last() =~= images.take(i));
        lemma_load_fails(s, images, i + 1);
    } else {
        assert(images.take(i) =~= images);
    }
}

#[verifier::rlimit(30)]
fn load_programs(k: &mut Kernel, images: &Vec<Vec<u8>>) -> (r: Option<Vec<u64>>)
    requires
        old(k).wf(),
    ensures
        final(k).wf(),
        match programs_loaded(old(k)@, exec::texts(images@)) {
            (s1, None) => final(k)@ == s1 && r is None,
            (s1, Some(threads)) => final(k)@ == s1 && r is Some && r->0@ == threads,
        },
{
    let mut threads: Vec<u64> = Vec::new();
    let mut i: usize = 0;
    let ghost all = exec::texts(images@);
    assert(all.take(0) =~= Seq::<Seq<u8>>::empty());
    while i < images.len()
        invariant
            k.wf(),
            i <= images@.len(),
            all == exec::texts(images@),
            programs_loaded(old(k)@, all.take(i as int)) == (k@, Some(threads@)),
        decreases images@.len() - i,
    {
        proof {
            assert(all.take(i + 1).drop_last() =~= all.take(i as int));
            assert(all.take(i + 1).last() == images@[i as int]@);
        }
        match start_image(k, &images[i]) {
            Err(_) => {
                proof {
                    lemma_load_fails(old(k)@, all, i + 1);
                }
                return None;
            },
            Ok(pa) => {
                threads.push(pa);
            },
        }
        i += 1;
    }
    assert(all.take(i as int) =~= all);
    Some(threads)
}

/// Load programs and make them runnable.
pub fn prepare_programs(k: &mut Kernel, images: &Vec<Vec<u8>>) -> (r: bool)
    requires
        old(k).wf(),
    ensures
        final(k).wf(),
        (final(k)@, r) == programs_ready(old(k)@, exec::texts(images@)),
{
    let threads: Vec<u64> = match load_programs(k, images) {
        Some(t) => t,
        None => {
            return false;
        },
    };
    let mut i: usize = 0;
    let ghost s = k@;
    assert(threads@.take(0) =~= Seq::<u64>::empty());
    while i < threads.len()
        invariant
            k.wf(),
            i <= threads@.len(),
            k@ == all_enqueued(s, threads@.take(i as int)),
        decreases threads@.len() - i,
    {
        proof {
            assert(threads@.take(i + 1).drop_last() =~= threads@.take(i as int));
        }
        sched::enqueue(k, threads[i], 0);
        i += 1;
    }
    assert(threads@.take(i as int) =~= threads@);
    true
}

/// Two programs that share the frame in the root CSpace.
pub open spec fn shared_memory_ready(s: State, images: Seq<Seq<u8>>) -> (State, bool) {
    let (s1, ok) = checks_run(s, seq![retype_check(CapType::Frame, SLOT_FRAME, error::OK)]);
    if ok {
        programs_ready(s1, images)
    } else {
        (s1, false)
    }
}

/// Prepare the shared-memory stage.
pub fn prepare_shared_memory(k: &mut Kernel, images: &Vec<Vec<u8>>) -> (r: bool)
    requires
        old(k).wf(),
    ensures
        final(k).wf(),
        (final(k)@, r) == shared_memory_ready(old(k)@, exec::texts(images@)),
{
    let mut v: Vec<Check> = Vec::new();
    let c: Check = check_retype(CapType::Frame, SLOT_FRAME, error::OK);
    v.push(c);
    assert(v@ =~= seq![c]);
    run_checks(k, &v) && prepare_programs(k, images)
}

/// Two programs of which the one loaded second starts first.
pub open spec fn reversed_ready(s: State, first: Seq<u8>, second: Seq<u8>) -> (State, bool) {
    let (s1, a) = spawn::image_started(s, first);
    match a {
        Err(_) => (s1, false),
        Ok(a) => {
            let (s2, b) = spawn::image_started(s1, second);
            match b {
                Err(_) => (s2, false),
                Ok(b) => (sched::enqueued(sched::enqueued(s2, b, 0), a, 0), true),
            }
        },
    }
}

/// Prepare the stage in which a program makes an endpoint for another one.
pub fn prepare_reversed(k: &mut Kernel, first: &[u8], second: &[u8]) -> (r: bool)
    requires
        old(k).wf(),
    ensures
        final(k).wf(),
        (final(k)@, r) == reversed_ready(old(k)@, first@, second@),
{
    let a: u64 = match start_image(k, first) {
        Ok(p) => p,
        Err(_) => {
            return false;
        },
    };
    let b: u64 = match start_image(k, second) {
        Ok(p) => p,
        Err(_) => {
            return false;
        },
    };
    sched::enqueue(k, b, 0);
    sched::enqueue(k, a, 0);
    true
}

/// A CSpace of a process, with capabilities in slots 1 and up.
pub open spec fn granted(s: State, cs_pa: u64, caps: Seq<Cap>) -> State
    decreases caps.len(),
{
    if caps.len() == 0 {
        s
    } else {
        with_slot(granted(s, cs_pa, caps.drop_last()), cs_pa, caps.len() as u64, caps.last())
    }
}

fn grant(k: &mut Kernel, cs_pa: u64, caps: &Vec<Cap>)
    requires
        old(k).wf(),
        caps@.len() < 8,
        forall|i: int| 0 <= i < caps@.len() ==> cnode::cap_ok(#[trigger] caps@[i]),
    ensures
        final(k).wf(),
        final(k)@ == granted(old(k)@, cs_pa, caps@),
{
    let mut i: usize = 0;
    assert(caps@.take(0) =~= Seq::<Cap>::empty());
    while i < caps.len()
        invariant
            k.wf(),
            i <= caps@.len() < 8,
            forall|i: int| 0 <= i < caps@.len() ==> cnode::cap_ok(#[trigger] caps@[i]),
            k@ == granted(old(k)@, cs_pa, caps@.take(i as int)),
        decreases caps@.len() - i,
    {
        proof {
            assert(caps@.take(i + 1).drop_last() =~= caps@.take(i as int));
        }
        set_slot(k, cs_pa, i as u64 + 1, caps[i]);
        i += 1;
    }
    assert(caps@.take(i as int) =~= caps@);
}

/// A program that runs in the CSpace `cs_pa`, not runnable yet.
pub open spec fn confined(s: State, image: Seq<u8>, cs_pa: u64, size_bits: u64) -> (
    State,
    Option<u64>,
) {
    let (s1, t) = spawn::image_started(s, image);
    match t {
        Err(_) => (s1, None),
        Ok(pa) => (with_cspace(s1, pa, cs_pa, size_bits), Some(pa)),
    }
}

fn confine(k: &mut Kernel, image: &[u8], cs_pa: u64, size_bits: u64) -> (r: Option<u64>)
    requires
        old(k).wf(),
        size_bits < 64,
    ensures
        final(k).wf(),
        (final(k)@, r) == confined(old(k)@, image@, cs_pa, size_bits),
{
    match start_image(k, image) {
        Err(_) => None,
        Ok(pa) => {
            set_cspace(k, pa, cs_pa, size_bits);
            Some(pa)
        },
    }
}

/// Two programs with CSpaces of their own: only the first has untyped memory.
pub open spec fn cspaces_ready(s: State, image_a: Seq<u8>, image_b: Seq<u8>) -> (State, bool) {
    let (s1, cs_a) = cspace_made(s, PROCESS_SIZE_BITS);
    match cs_a {
        None => (s1, false),
        Some(cs_a) => {
            let (s2, ut) = untyped_made(s1, 0);
            match ut {
                None => (s2, false),
                Some(ut) => {
                    let s3 = granted(
                        s2,
                        cs_a,
                        seq![full_cap(CapType::UntypedMemory, ut, 4096)],
                    );
                    let (s4, cs_b) = cspace_made(s3, PROCESS_SIZE_BITS);
                    match cs_b {
                        None => (s4, false),
                        Some(cs_b) => pair_confined(s4, image_a, cs_a, image_b, cs_b),
                    }
                },
            }
        },
    }
}

/// Two programs in their CSpaces, runnable in this order.
pub open spec fn pair_confined(
    s: State,
    image_a: Seq<u8>,
    cs_a: u64,
    image_b: Seq<u8>,
    cs_b: u64,
) -> (State, bool) {
    let (s1, a) = confined(s, image_a, cs_a, PROCESS_SIZE_BITS);
    match a {
        None => (s1, false),
        Some(a) => {
            let (s2, b) = confined(s1, image_b, cs_b, PROCESS_SIZE_BITS);
            match b {
                None => (s2, false),
                Some(b) => (sched::enqueued(sched::enqueued(s2, a, 0), b, 0), true),
            }
        },
    }
}

fn confine_pair(k: &mut Kernel, image_a: &[u8], cs_a: u64, image_b: &[u8], cs_b: u64) -> (r: bool)
    requires
        old(k).wf(),
    ensures
        final(k).wf(),
        (final(k)@, r) == pair_confined(old(k)@, image_a@, cs_a, image_b@, cs_b),
{
    let a: u64 = match confine(k, image_a, cs_a, PROCESS_SIZE_BITS) {
        Some(p) => p,
        None => {
            return false;
        },
    };
    let b: u64 = match confine(k, image_b, cs_b, PROCESS_SIZE_BITS) {
        Some(p) => p,
        None => {
            return false;
        },
    };
    sched::enqueue(k, a, 0);
    sched::enqueue(k, b, 0);
    true
}

/// Prepare the stage of private CSpaces.
pub fn prepare_cspaces(k: &mut Kernel, image_a: &[u8], image_b: &[u8]) -> (r: bool)
    requires
        old(k).wf(),
    ensures
        final(k).wf(),
        (final(k)@, r) == cspaces_ready(old(k)@, image_a@, image_b@),
{
    let cs_a: u64 = match make_cspace(k, PROCESS_SIZE_BITS) {
        Some(p) => p,
        None => {
            return false;
        },
    };
    let ut: u64 = match make_untyped(k, 0) {
        Some(p) => p,
        None => {
            return false;
        },
    };
    let mut caps: Vec<Cap> = Vec::new();
    let c: Cap = Cap::new(CapType::UntypedMemory, ut, 4096, Rights::all());
    caps.push(c);
    assert(caps@ =~= seq![c]);
    grant(k, cs_a, &caps);
    let cs_b: u64 = match make_cspace(k, PROCESS_SIZE_BITS) {
        Some(p) => p,
        None => {
            return false;
        },
    };
    confine_pair(k, image_a, cs_a, image_b, cs_b)
}

/// The endpoints for granting a capability over IPC.
pub open spec fn grant_checks() -> Seq<Check> {
    seq![
        retype_check(CapType::Endpoint, SLOT_EP_SHARED, error::OK),
        retype_check(CapType::Endpoint, SLOT_EP_PRIVATE, error::OK),
    ]
}

/// A CSpace of a process with these capabilities.
pub open spec fn cspace_stocked(s: State, caps: Seq<Cap>) -> (State, Option<u64>) {
    let (s1, cs) = cspace_made(s, PROCESS_SIZE_BITS);
    match cs {
        None => (s1, None),
        Some(cs) => (granted(s1, cs, caps), Some(cs)),
    }
}

fn stock_cspace(k: &mut Kernel, caps: &Vec<Cap>) -> (r: Option<u64>)
    requires
        old(k).wf(),
        caps@.len() < 8,
        forall|i: int| 0 <= i < caps@.len() ==> cnode::cap_ok(#[trigger] caps@[i]),
    ensures
        final(k).wf(),
        (final(k)@, r) == cspace_stocked(old(k)@, caps@),
{
    match make_cspace(k, PROCESS_SIZE_BITS) {
        None => None,
        Some(cs) => {
            grant(k, cs, caps);
            Some(cs)
        },
    }
}

/// The CSpaces of a grantor that holds both endpoints and of a grantee that
/// holds the shared one.
pub open spec fn grant_cspaces(s: State, shared: Cap, private: Cap) -> (State, Option<(u64, u64)>) {
    let (s1, from) = cspace_stocked(s, seq![shared, private]);
    match from {
        None => (s1, None),
        Some(from) => {
            let (s2, to) = cspace_stocked(s1, seq![shared]);
            match to {
                None => (s2, None),
                Some(to) => (s2, Some((from, to))),
            }
        },
    }
}

fn make_grant_cspaces(k: &mut Kernel, shared: Cap, private: Cap) -> (r: Option<(u64, u64)>)
    requires
        old(k).wf(),
        cnode::cap_ok(shared),
        cnode::cap_ok(private),
    ensures
        final(k).wf(),
        (final(k)@, r) == grant_cspaces(old(k)@, shared, private),
{
    let mut both: Vec<Cap> = Vec::new();
    both.push(shared);
    both.push(private);
    assert(both@ =~= seq![shared, private]);
    let from: u64 = match stock_cspace(k, &both) {
        Some(p) => p,
        None => {
            return None;
        },
    };
    let mut one: Vec<Cap> = Vec::new();
    one.push(shared);
    assert(one@ =~= seq![shared]);
    match stock_cspace(k, &one) {
        None => None,
        Some(to) => Some((from, to)),
    }
}

/// A program in one CSpace and one in another; the second starts first.
pub open spec fn crosswise(s: State, image_a: Seq<u8>, cs_a: u64, image_b: Seq<u8>, cs_b: u64) -> (
    State,
    bool,
) {
    let (s1, a) = confined(s, image_a, cs_a, PROCESS_SIZE_BITS);
    match a {
        None => (s1, false),
        Some(a) => {
            let (s2, b) = confined(s1, image_b, cs_b, PROCESS_SIZE_BITS);
            match b {
                None => (s2, false),
                Some(b) => (sched::enqueued(sched::enqueued(s2, b, 0), a, 0), true),
            }
        },
    }
}

fn confine_crosswise(k: &mut Kernel, image_a: &[u8], cs_a: u64, image_b: &[u8], cs_b: u64) -> (r: bool)
    requires
        old(k).wf(),
    ensures
        final(k).wf(),
        (final(k)@, r) == crosswise(old(k)@, image_a@, cs_a, image_b@, cs_b),
{
    let a: u64 = match confine(k, image_a, cs_a, PROCESS_SIZE_BITS) {
        Some(p) => p,
        None => {
            return false;
        },
    };
    let b: u64 = match confine(k, image_b, cs_b, PROCESS_SIZE_BITS) {
        Some(p) => p,
        None => {
            return false;
        },
    };
    sched::enqueue(k, b, 0);
    sched::enqueue(k, a, 0);
    true
}

/// A grantor with both endpoints and a grantee with the shared one; the grantee
/// starts first.
pub open spec fn grant_ready(s: State, grantor: Seq<u8>, grantee: Seq<u8>) -> (State, bool) {
    let (s1, ok) = checks_run(s, grant_checks());
    if !ok {
        (s1, false)
    } else {
        let (s2, cs) = grant_cspaces(
            s1,
            cnode::slot(s1.caps, s1.root_pa, SLOT_EP_SHARED),
            cnode::slot(s1.caps, s1.root_pa, SLOT_EP_PRIVATE),
        );
        match cs {
            None => (s2, false),
            Some((from, to)) => crosswise(s2, grantor, from, grantee, to),
        }
    }
}

/// The capability in a slot of the root CNode.
fn root_slot(k: &Kernel, index: u64) -> (r: Cap)
    requires
        k.wf(),
    ensures
        r == cnode::slot(k@.caps, k@.root_pa, index),
        cnode::cap_ok(r),
{
    let c: Cap = k.caps.read(k.root_pa.wrapping_add(index.wrapping_mul(cap::CAP_BYTES)));
    assert(c == crate::objects::at(k@.caps, cnode::slot_addr(k@.root_pa, index)));
    c
}

/// Prepare the stage in which a capability is granted over IPC.
pub fn prepare_grant(k: &mut Kernel, grantor: &[u8], grantee: &[u8]) -> (r: bool)
    requires
        old(k).wf(),
    ensures
        final(k).wf(),
        (final(k)@, r) == grant_ready(old(k)@, grantor@, grantee@),
{
    let mut v: Vec<Check> = Vec::new();
    v.push(check_retype(CapType::Endpoint, SLOT_EP_SHARED, error::OK));
    v.push(check_retype(CapType::Endpoint, SLOT_EP_PRIVATE, error::OK));
    assert(v@ =~= grant_checks());
    if !run_checks(k, &v) {
        return false;
    }
    let shared: Cap = root_slot(k, SLOT_EP_SHARED);
    let private: Cap = root_slot(k, SLOT_EP_PRIVATE);
    match make_grant_cspaces(k, shared, private) {
        None => false,
        Some((from, to)) => confine_crosswise(k, grantor, from, grantee, to),
    }
}

/// A program that reads `input` from the console.
pub open spec fn console_ready(s: State, input: Seq<u8>, image: Seq<u8>) -> (State, bool) {
    programs_ready(State { rx: console::all_pushed(s.rx, input), ..s }, seq![image])
}

/// Prepare the console stage.
pub fn prepare_console(k: &mut Kernel, input: &[u8], image: Vec<u8>) -> (r: bool)
    requires
        old(k).wf(),
    ensures
        final(k).wf(),
        (final(k)@, r) == console_ready(old(k)@, input@, image@),
{
    console::seed(k, input);
    prepare_one(k, image)
}

/// Load one program and make it runnable.
pub fn prepare_one(k: &mut Kernel, image: Vec<u8>) -> (r: bool)
    requires
        old(k).wf(),
    ensures
        final(k).wf(),
        (final(k)@, r) == programs_ready(old(k)@, seq![image@]),
{
    let mut images: Vec<Vec<u8>> = Vec::new();
    let ghost bytes = image@;
    images.push(image);
    assert(exec::texts(images@) =~= seq![bytes]);
    prepare_programs(k, &images)
}

/// An empty filesystem, and a program that uses it.
pub open spec fn files_ready(s: State, image: Seq<u8>) -> (State, bool) {
    let (s1, root) = ramfs::inode_made(s, ramfs::InodeKind::Dir);
    match root {
        None => (s1, false),
        Some(pa) => programs_ready(State { fs_root: pa, ..s1 }, seq![image]),
    }
}

/// Prepare the filesystem stage.
pub fn prepare_files(k: &mut Kernel, image: Vec<u8>) -> (r: bool)
    requires
        old(k).wf(),
    ensures
        final(k).wf(),
        (final(k)@, r) == files_ready(old(k)@, image@),
{
    ramfs::init(k) && prepare_one(k, image)
}

/// A program in a CSpace of `2^size_bits` slots with these capabilities.
pub open spec fn confined_ready(s: State, image: Seq<u8>, size_bits: u64) -> (State, bool) {
    let (s1, cs) = cspace_made(s, size_bits);
    match cs {
        None => (s1, false),
        Some(cs) => {
            let (s2, t) = confined(s1, image, cs, size_bits);
            match t {
                None => (s2, false),
                Some(pa) => (sched::enqueued(s2, pa, 0), true),
            }
        },
    }
}

/// Prepare a program with an empty CSpace of its own.
pub fn prepare_confined(k: &mut Kernel, image: &[u8], size_bits: u64) -> (r: bool)
    requires
        old(k).wf(),
        size_bits <= 25,
    ensures
        final(k).wf(),
        (final(k)@, r) == confined_ready(old(k)@, image@, size_bits),
{
    let cs: u64 = match make_cspace(k, size_bits) {
        Some(p) => p,
        None => {
            return false;
        },
    };
    match confine(k, image, cs, size_bits) {
        None => false,
        Some(pa) => {
            sched::enqueue(k, pa, 0);
            true
        },
    }
}

/// Slab cells of three sizes are taken, none at address 0; a returned one is
/// handed out again.
pub open spec fn slab_checked(s: State) -> (State, bool) {
    let (s1, a) = kernel::cell_made(s, 24);
    let (s2, b) = kernel::cell_made(s1, 16);
    let (s3, c) = kernel::cell_made(s2, 512);
    if a is None {
        (s1, false)
    } else if b is None {
        (s2, false)
    } else if c is None || a->0 == 0 || b->0 == 0 {
        (s3, false)
    } else {
        let s4 = kernel::cell_freed(kernel::cell_freed(s3, a->0, 24), b->0, 16);
        let (s5, again) = kernel::cell_made(s4, 24);
        (s5, again == a)
    }
}

/// Check that slab cells are reused.
pub fn check_slab(k: &mut Kernel) -> (r: bool)
    requires
        old(k).wf(),
    ensures
        final(k).wf(),
        (final(k)@, r) == slab_checked(old(k)@),
{
    let a: u64 = match mm::slab_alloc(k, 24) {
        Some(p) => p,
        None => {
            return false;
        },
    };
    let b: u64 = match mm::slab_alloc(k, 16) {
        Some(p) => p,
        None => {
            return false;
        },
    };
    if mm::slab_alloc(k, 512).is_none() || a == 0 || b == 0 {
        return false;
    }
    mm::slab_free(k, a, 24);
    mm::slab_free(k, b, 16);
    match mm::slab_alloc(k, 24) {
        Some(p) => p == a,
        None => false,
    }
}

/// A program with memory, interrupt authority and the UART page.
pub open spec fn init_caps_ready(s: State, image: Seq<u8>) -> (State, bool) {
    let (s1, cs) = cspace_made(s, PROCESS_SIZE_BITS);
    match cs {
        None => (s1, false),
        Some(cs) => {
            let (s2, ut) = untyped_made(s1, 3);
            match ut {
                None => (s2, false),
                Some(ut) => {
                    let s3 = granted(
                        s2,
                        cs,
                        seq![
                            full_cap(CapType::UntypedMemory, ut, 0x8000),
                            full_cap(CapType::IRQControl, 0, 0),
                            full_cap(CapType::Frame, UART_PAGE, 4096),
                        ],
                    );
                    let (s4, t) = confined(s3, image, cs, PROCESS_SIZE_BITS);
                    match t {
                        None => (s4, false),
                        Some(pa) => (sched::enqueued(s4, pa, 0), true),
                    }
                },
            }
        },
    }
}

/// Prepare the stage in which a program receives its first capabilities.
pub fn prepare_init_caps(k: &mut Kernel, image: &[u8]) -> (r: bool)
    requires
        old(k).wf(),
    ensures
        final(k).wf(),
        (final(k)@, r) == init_caps_ready(old(k)@, image@),
{
    let cs: u64 = match make_cspace(k, PROCESS_SIZE_BITS) {
        Some(p) => p,
        None => {
            return false;
        },
    };
    let ut: u64 = match make_untyped(k, 3) {
        Some(p) => p,
        None => {
            return false;
        },
    };
    let mut caps: Vec<Cap> = Vec::new();
    caps.push(Cap::new(CapType::UntypedMemory, ut, 0x8000, Rights::all()));
    caps.push(Cap::new(CapType::IRQControl, 0, 0, Rights::all()));
    caps.push(Cap::new(CapType::Frame, UART_PAGE, 4096, Rights::all()));
    assert(caps@ =~= seq![
        full_cap(CapType::UntypedMemory, ut, 0x8000),
        full_cap(CapType::IRQControl, 0, 0),
        full_cap(CapType::Frame, UART_PAGE, 4096),
    ]);
    grant(k, cs, &caps);
    match confine(k, image, cs, PROCESS_SIZE_BITS) {
        None => false,
        Some(pa) => {
            sched::enqueue(k, pa, 0);
            true
        },
    }
}

/// A Linux process with its name as the only argument.
pub open spec fn linux_ready(s: State, image: Seq<u8>, name: Seq<u8>) -> (State, bool) {
    let (s1, t) = exec::process_spawned(s, image, seq![name], 0);
    match t {
        None => (s1, false),
        Some(pa) => (sched::enqueued(s1, pa, 0), true),
    }
}

/// Prepare the Linux stage.
pub fn prepare_linux(k: &mut Kernel, image: &[u8], name: Vec<u8>) -> (r: bool)
    requires
        old(k).wf(),
    ensures
        final(k).wf(),
        (final(k)@, r) == linux_ready(old(k)@, image@, name@),
{
    let mut args: Vec<Vec<u8>> = Vec::new();
    let ghost text = name@;
    args.push(name);
    assert(exec::texts(args@) =~= seq![text]);
    match exec::spawn_linux_process(k, image, &args, 0) {
        None => false,
        Some(pa) => {
            sched::enqueue(k, pa, 0);
            true
        },
    }
}

/// Run the checks on the root capabilities.
pub fn check_root(k: &mut Kernel) -> (r: bool)
    requires
        old(k).wf(),
    ensures
        final(k).wf(),
        (final(k)@, r) == checks_run(old(k)@, root_checks()),
{
    run_checks(k, &list_root_checks())
}

/// Run the checks on revocation.
pub fn check_revoke(k: &mut Kernel) -> (r: bool)
    requires
        old(k).wf(),
    ensures
        final(k).wf(),
        (final(k)@, r) == checks_run(old(k)@, revoke_checks()),
{
    run_checks(k, &list_revoke_checks())
}

} // verus!
