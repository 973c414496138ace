//! Threads, scheduling, message passing, capabilities and devices.
use ferrite::arch::riscv64::trap::{
    needed, trap_count, trap_handler, Devices, Needed, TrapEnd, TrapFrame, CAUSE_BREAKPOINT,
    CAUSE_ECALL_U, INTERRUPT_SUPERVISOR_EXTERNAL, INTERRUPT_SUPERVISOR_TIMER,
};
use ferrite::arch::riscv64::{plic, smp, timer, uart};
use ferrite::cap::cnode;
use ferrite::cap::endpoint::{Endpoint, EpState};
use ferrite::cap::notification::Notification;
use ferrite::cap::untyped::{self, UntypedHeader};
use ferrite::cap::{self, Cap, CapType, Rights};
use ferrite::console::{self, RxBuf};
use ferrite::kernel::Kernel;
use ferrite::mm;
use ferrite::mm::buddy::PAGE_SIZE;
use ferrite::objects::Zeroed;
use ferrite::proc::Programs;
use ferrite::sched;
use ferrite::syscall::{self, error, label};
use ferrite::thread::{create_kthread, create_uthread, ticks_for_level, TcbState};

const BASE: u64 = 0x8000_0000;
const IDLE: Devices = Devices { irq: 0, rx: None, input: 0, instr: 0 };

fn kernel() -> Kernel {
    let regions = vec![(BASE, Some(1024 * PAGE_SIZE))];
    let mm = mm::from_regions(&regions, BASE, BASE + (1 << 30)).unwrap();
    Kernel::new(mm, Programs { init: vec![], spawn_demo: vec![], linux_demo: vec![] })
}

/// Two runnable threads, the first one running.
fn pair(k: &mut Kernel, f: &mut TrapFrame) -> (u64, u64) {
    let a = create_kthread(k, 0x8020_0000).unwrap();
    let b = create_kthread(k, 0x8020_1000).unwrap();
    sched::enqueue(k, a, 0);
    sched::enqueue(k, b, 0);
    sched::start_scheduling(k);
    f.sstatus = 0x100;
    sched::on_timer(k, f);
    assert_eq!(sched::current_pa(k), a);
    (a, b)
}

#[test]
fn threads_are_numbered_and_enter_at_their_entry() {
    let mut k = kernel();
    let a = create_kthread(&mut k, 0x8020_0000).unwrap();
    let b = create_uthread(&mut k, 0x8020_0000).unwrap();
    assert_eq!((k.tcb(a).pid, k.tcb(b).pid), (1, 2));
    assert_eq!(k.tcb(a).frame.sepc, 0x8020_0000);
    assert_eq!(k.tcb(b).frame.sepc, 0x80_8020_0000);
    assert_eq!(k.threads, vec![a, b]);
}

#[test]
fn run_queue_is_first_in_first_out() {
    let mut k = kernel();
    let mut f = TrapFrame::zero();
    let (a, b) = pair(&mut k, &mut f);
    sched::yield_current(&mut k, &mut f);
    assert_eq!(sched::current_pa(&k), b);
    sched::yield_current(&mut k, &mut f);
    assert_eq!(sched::current_pa(&k), a);
}

#[test]
fn higher_level_goes_first() {
    let mut k = kernel();
    let mut f = TrapFrame::zero();
    let low = create_kthread(&mut k, 0x8020_0000).unwrap();
    let high = create_kthread(&mut k, 0x8020_1000).unwrap();
    sched::enqueue(&mut k, low, 2);
    sched::enqueue(&mut k, high, 1);
    sched::start_scheduling(&mut k);
    sched::on_timer(&mut k, &mut f);
    assert_eq!(sched::current_pa(&k), high);
}

#[test]
fn ticks_demote_step_by_step() {
    let mut k = kernel();
    let mut f = TrapFrame::zero();
    let a = create_kthread(&mut k, 0x8020_0000).unwrap();
    sched::enqueue(&mut k, a, 0);
    sched::start_scheduling(&mut k);
    sched::on_timer(&mut k, &mut f);
    for _ in 0..ticks_for_level(0) {
        assert_eq!(k.tcb(a).priority, 0);
        sched::on_timer(&mut k, &mut f);
    }
    assert_eq!(k.tcb(a).priority, 1);
    for _ in 0..ticks_for_level(1) {
        sched::on_timer(&mut k, &mut f);
    }
    assert_eq!(k.tcb(a).priority, 2);
    for _ in 0..ticks_for_level(2) + 1 {
        sched::on_timer(&mut k, &mut f);
    }
    assert_eq!(k.tcb(a).priority, 2);
    assert_eq!(sched::tick_count(&k), 1 + (ticks_for_level(0) + ticks_for_level(1)
        + ticks_for_level(2) + 1) as u64);
}

#[test]
fn last_exit_ends_scheduling() {
    let mut k = kernel();
    let mut f = TrapFrame::zero();
    let (a, b) = pair(&mut k, &mut f);
    let mut t = k.tcb(a);
    t.waiter_pa = b;
    k.set_tcb(a, t);
    sched::yield_current(&mut k, &mut f);
    sched::block_current(&mut k, &mut f);
    assert_eq!(sched::current_pa(&k), a);
    f.x[12] = 7;
    sched::exit_current(&mut k, &mut f);
    assert!(k.tcb(a).state == TcbState::Exited);
    assert_eq!(k.tcb(a).exit_code, 7);
    assert_eq!(sched::current_pa(&k), b);
    // The waiter got the exit code.
    assert_eq!((f.x[10], f.x[11]), (0, 7));
    f.x[12] = 0;
    sched::exit_current(&mut k, &mut f);
    assert_eq!(sched::current_pa(&k), 0);
}

#[test]
fn call_and_reply_meet() {
    let mut k = kernel();
    let mut f = TrapFrame::zero();
    let (a, b) = pair(&mut k, &mut f);
    let mut ep = Endpoint::zero();
    ep.recv(&mut k, &mut f);
    assert!(ep.state == EpState::RecvBlocked);
    assert_eq!(sched::current_pa(&k), b);
    ep.send(&mut k, &mut f, 0xbe, [42, 1, 2, 3], true);
    assert!(ep.state == EpState::Idle);
    // The receiver runs with the message; the caller waits.
    assert_eq!(sched::current_pa(&k), a);
    assert_eq!(&f.x[10..16], &[0, 0xbe, 42, 1, 2, 3]);
    assert_eq!(k.tcb(a).reply_pa, b);
    ferrite::cap::endpoint::deliver_reply(&mut k, [0, 0, 84, 0, 0, 0, 0, 0]);
    assert_eq!(k.tcb(b).frame.x[12], 84);
    assert!(k.tcb(b).state == TcbState::Runnable);
    assert_eq!(k.tcb(a).reply_pa, 0);
}

#[test]
fn waiting_sender_is_taken_first() {
    let mut k = kernel();
    let mut f = TrapFrame::zero();
    let (a, b) = pair(&mut k, &mut f);
    let mut ep = Endpoint::zero();
    f.x[12] = 5;
    f.x[13] = 6;
    ep.send(&mut k, &mut f, 5, [6, 0, 0, 0], false);
    assert!(ep.state == EpState::SendBlocked);
    assert_eq!(sched::current_pa(&k), b);
    ep.recv(&mut k, &mut f);
    assert_eq!((f.x[10], f.x[11], f.x[12]), (0, 5, 6));
    assert!(k.tcb(a).state == TcbState::Runnable);
    assert!(ep.state == EpState::Idle);
}

#[test]
fn signals_accumulate_until_waited_for() {
    let mut k = kernel();
    let mut f = TrapFrame::zero();
    let mut n = Notification::zero();
    n.signal(&mut k, 1, &mut f);
    n.signal(&mut k, 4, &mut f);
    n.wait(&mut k, &mut f);
    assert_eq!(f.x[11], 5);
}

#[test]
fn refused_calls_say_why() {
    let mut k = kernel();
    let mut f = TrapFrame::zero();
    f.x[11] = label::CAP_IDENTIFY;
    syscall::dispatch(&mut k, &mut f);
    assert_eq!(f.x[10], error::FAILED_LOOKUP);
    let cs = cnode::allocate(&mut k, 4).unwrap();
    cap::set_root_cspace(&mut k, cs, 4);
    let mut f = TrapFrame::zero();
    f.x[10] = 3;
    f.x[11] = label::CAP_IDENTIFY;
    syscall::dispatch(&mut k, &mut f);
    assert_eq!(f.x[10], error::INVALID_CAPABILITY);
    cnode::force_insert(&mut k.caps, cs, 3, Cap::new(CapType::Endpoint, 0x1000, 0, Rights::all()));
    let mut f = TrapFrame::zero();
    f.x[10] = 3;
    f.x[11] = label::NOTIF_SIGNAL;
    syscall::dispatch(&mut k, &mut f);
    assert_eq!(f.x[10], error::ILLEGAL_OPERATION);
    let mut f = TrapFrame::zero();
    f.x[10] = 3;
    f.x[11] = label::CAP_IDENTIFY;
    syscall::dispatch(&mut k, &mut f);
    assert_eq!(&f.x[10..13], &[error::OK, CapType::Endpoint.to_u8() as u64, 0x1000]);
}

#[test]
fn retype_reports_each_error() {
    let mut k = kernel();
    let cs = cnode::allocate(&mut k, 4).unwrap();
    let region = mm::alloc_page(&mut k.mm).unwrap();
    k.set_untyped(region, UntypedHeader { start: region, watermark: region + 64, end: region + 4096 });
    let ut = Cap::new(CapType::UntypedMemory, region, 4096, Rights::all());
    assert_eq!(untyped::retype(&mut k, &ut, CapType::Endpoint, 0, cs, 4, 2, 1), error::OK);
    assert_eq!(
        untyped::retype(&mut k, &ut, CapType::Endpoint, 0, cs, 4, 2, 1),
        error::ILLEGAL_OPERATION
    );
    assert_eq!(
        untyped::retype(&mut k, &ut, CapType::CNode, 64, cs, 4, 3, 1),
        error::INVALID_ARGUMENT
    );
    assert_eq!(
        untyped::retype(&mut k, &ut, CapType::CNode, 20, cs, 4, 3, 1),
        error::NOT_ENOUGH_MEMORY
    );
}

#[test]
fn size_parameter_counts_for_cnodes_and_frames_only() {
    let mut k = kernel();
    let cs = cnode::allocate(&mut k, 4).unwrap();
    let region = mm::alloc_pages(&mut k.mm, 3).unwrap();
    let end = region + 8 * PAGE_SIZE;
    k.set_untyped(region, UntypedHeader { start: region, watermark: region + 24, end });
    let ut = Cap::new(CapType::UntypedMemory, region, 8 * PAGE_SIZE, Rights::all());
    for (slot, t) in [(1, CapType::Endpoint), (2, CapType::Notification), (3, CapType::PageTable)] {
        assert_eq!(untyped::retype(&mut k, &ut, t, 1000, cs, 4, slot, 1), error::OK);
        let c = cnode::lookup(&k.caps, cs, 4, slot).unwrap();
        assert_eq!((c.cap_type, c.extra), (t, 1000));
        assert_eq!(untyped::object_size(t, u64::MAX), untyped::object_size(t, 0));
        assert_eq!(c.ptr % untyped::object_align(t, u64::MAX), 0);
    }
    assert_eq!(
        untyped::retype(&mut k, &ut, CapType::Frame, 64, cs, 4, 4, 1),
        error::INVALID_ARGUMENT
    );
    assert_eq!(untyped::object_align(CapType::CNode, 3), 256);
    assert_eq!(untyped::object_align(CapType::Null, 99), 8);
    assert_eq!(untyped::object_align(CapType::PageTable, 99), 4096);
}

#[test]
fn retyped_objects_lie_one_after_the_other() {
    let mut k = kernel();
    let cs = cnode::allocate(&mut k, 4).unwrap();
    let region = mm::alloc_pages(&mut k.mm, 3).unwrap();
    let end = region + 8 * PAGE_SIZE;
    k.set_untyped(region, UntypedHeader { start: region, watermark: region + 24, end });
    k.write_bytes(region + PAGE_SIZE, &[9; 64]);
    let ut = Cap::new(CapType::UntypedMemory, region, 8 * PAGE_SIZE, Rights::all());
    assert_eq!(untyped::retype(&mut k, &ut, CapType::Frame, 0, cs, 4, 5, 3), error::OK);
    for i in 0..3 {
        let c = cnode::lookup(&k.caps, cs, 4, 5 + i).unwrap();
        assert_eq!((c.ptr, c.extra, c.rights), (region + (1 + i) * PAGE_SIZE, 4096, Rights::all()));
    }
    assert!(cnode::lookup(&k.caps, cs, 4, 8).unwrap().is_null());
    assert_eq!(k.read_bytes(region + PAGE_SIZE, 64), vec![0; 64]);
    assert_eq!(k.untypeds.read(region).watermark, region + 4 * PAGE_SIZE);
}

#[test]
fn ring_keeps_the_order_of_bytes() {
    let mut b = RxBuf::new();
    assert!(b.is_empty());
    for c in [1u8, 2, 3] {
        b.push(c);
    }
    assert_eq!((b.pop(), b.pop(), b.pop(), b.pop()), (Some(1), Some(2), Some(3), None));
}

#[test]
fn console_byte_wakes_the_reader() {
    let mut k = kernel();
    let mut f = TrapFrame::zero();
    let (a, b) = pair(&mut k, &mut f);
    console::getchar(&mut k, &mut f);
    assert_eq!(sched::current_pa(&k), b);
    let d = Devices { irq: console::CONSOLE_IRQ, rx: Some(120), input: 0, instr: 0 };
    let end = trap_handler(&mut k, &mut f, INTERRUPT_SUPERVISOR_EXTERNAL, d);
    assert_eq!(end, TrapEnd::CompleteIrq(console::CONSOLE_IRQ));
    assert_eq!(sched::current_pa(&k), a);
    assert_eq!(f.x[11], 120);
    // The byte was echoed.
    assert!(k.tx.contains(&120));
}

#[test]
fn traps_end_as_they_should() {
    let mut k = kernel();
    let mut f = TrapFrame::zero();
    assert_eq!(needed(&k, &f, INTERRUPT_SUPERVISOR_EXTERNAL), Needed::Interrupt);
    assert_eq!(needed(&k, &f, CAUSE_BREAKPOINT), Needed::Instruction);
    assert_eq!(needed(&k, &f, CAUSE_ECALL_U), Needed::Nothing);
    assert_eq!(trap_handler(&mut k, &mut f, INTERRUPT_SUPERVISOR_TIMER, IDLE), TrapEnd::ArmTimer);
    assert_eq!(trap_handler(&mut k, &mut f, INTERRUPT_SUPERVISOR_EXTERNAL, IDLE), TrapEnd::Resume);
    let short = Devices { irq: 0, rx: None, input: 0, instr: 0x9002 };
    f.sepc = 0x100;
    assert_eq!(trap_handler(&mut k, &mut f, CAUSE_BREAKPOINT, short), TrapEnd::Resume);
    assert_eq!(f.sepc, 0x102);
    let long = Devices { irq: 0, rx: None, input: 0, instr: 0x0073 };
    assert_eq!(trap_handler(&mut k, &mut f, CAUSE_BREAKPOINT, long), TrapEnd::Resume);
    assert_eq!(f.sepc, 0x106);
    assert_eq!(trap_handler(&mut k, &mut f, 2, IDLE), TrapEnd::UnknownException);
    assert_eq!(trap_handler(&mut k, &mut f, (1 << 63) | 1, IDLE), TrapEnd::UnknownInterrupt(1));
    assert_eq!(trap_count(&k), 6);
}

#[test]
fn device_registers() {
    let w = plic::set_priority(10, 1);
    assert_eq!((w.addr, w.value), (0x0c00_0028, 1));
    let w = plic::set_enable(10, true, 0);
    assert_eq!(w.value, 1 << 10);
    let w = plic::set_enable(10, false, 0xffff_ffff);
    assert_eq!(w.value, !(1u32 << 10));
    assert_eq!(plic::claim(), 0x0c20_1004);
    assert_eq!(plic::complete(10).value, 10);
    assert!(uart::data_ready(1));
    assert!(!uart::data_ready(0x20));
    assert!(uart::can_transmit(0x20));
    assert_eq!(timer::arm(100, 50), 150);
    assert!(smp::accepted(0));
    assert!(!smp::accepted(-2));
}

#[test]
fn idle_frame_is_entered_when_nothing_runs() {
    let mut k = kernel();
    let mut f = TrapFrame::zero();
    sched::init_idle_frame(&mut k, 0x8020_2000, 0x8080_2000);
    let (_, b) = pair(&mut k, &mut f);
    sched::exit_current(&mut k, &mut f);
    assert_eq!(sched::current_pa(&k), b);
    // The saved boot context comes first.
    sched::exit_current(&mut k, &mut f);
    assert_eq!((sched::current_pa(&k), f.pc()), (0, 0));
    assert!(sched::is_done(&k));
    let c = create_kthread(&mut k, 0x8020_0000).unwrap();
    sched::enqueue(&mut k, c, 0);
    sched::start_scheduling(&mut k);
    f.sstatus = 0;
    sched::on_timer(&mut k, &mut f);
    assert_eq!(sched::current_pa(&k), c);
    sched::exit_current(&mut k, &mut f);
    assert_eq!((f.pc(), f.sstatus, f.x[2]), (0x8020_2000, 0x4_0120, 0x8080_2000));
    assert!(sched::is_done(&k));
}

#[test]
fn stack_pointers_are_checked() {
    let mut f = TrapFrame::zero();
    assert!(sched::check_frame_sp(&f));
    for (sp, ok) in [
        (0x8080_0000, true),
        (0x80CB_2000, true),
        (0x80CB_2001, false),
        (0x80_8000_0000, true),
        (0x80_C000_0000, false),
        (8, false),
    ] {
        f.x[2] = sp;
        assert_eq!(sched::check_frame_sp(&f), ok);
    }
    f.set_pc(0x1234);
    assert_eq!(f.pc(), 0x1234);
}

#[test]
fn console_text_gets_carriage_returns() {
    assert_eq!(uart::UartWriter.write_str(b"a\nb"), b"a\r\nb".to_vec());
    assert_eq!(uart::UartWriter.write_str(b""), Vec::<u8>::new());
}

#[test]
fn untyped_region_counts_its_free_bytes() {
    let mut h = UntypedHeader { start: BASE, end: BASE + 0x1000, watermark: BASE + 24 };
    assert_eq!(h.free_bytes(), 0x1000 - 24);
    assert_eq!(h.bump(64, 64), Some(BASE + 64));
    assert_eq!(h.free_bytes(), 0x1000 - 128);
    h.watermark = h.end + 8;
    assert_eq!(h.free_bytes(), 0);
}

#[test]
fn root_cspace_is_remembered() {
    let mut k = kernel();
    cap::set_root_cspace(&mut k, BASE, 6);
    assert_eq!(cap::root_cspace(&k), (BASE, 6));
    assert_eq!((Rights::call() | Rights::grant_reply()).0, 0x18);
}

#[test]
fn retyped_frame_tells_its_size_in_bytes() {
    let mut k = kernel();
    let cnode_pa = cnode::allocate(&mut k, 6).unwrap();
    let ut = mm::alloc_pages(&mut k.mm, 5).unwrap();
    k.set_untyped(ut, UntypedHeader { start: ut, end: ut + 32 * PAGE_SIZE, watermark: ut + 24 });
    let cap = Cap::new(CapType::UntypedMemory, ut, 32 * PAGE_SIZE, Rights::all());
    assert_eq!(untyped::retype(&mut k, &cap, CapType::Frame, 0, cnode_pa, 6, 5, 1), error::OK);
    assert_eq!(untyped::retype(&mut k, &cap, CapType::Frame, 2, cnode_pa, 6, 6, 1), error::OK);
    assert_eq!(untyped::retype(&mut k, &cap, CapType::CNode, 3, cnode_pa, 6, 7, 1), error::OK);
    assert_eq!(cnode::lookup(&k.caps, cnode_pa, 6, 5).unwrap().extra, 4096);
    assert_eq!(cnode::lookup(&k.caps, cnode_pa, 6, 6).unwrap().extra, 4 * 4096);
    assert_eq!(cnode::lookup(&k.caps, cnode_pa, 6, 7).unwrap().extra, 3);
}
