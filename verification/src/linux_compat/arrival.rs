//! How a program finds its arguments when it starts.
use crate::arch::riscv64::mmu::USER_MIRROR_OFFSET;
use crate::arch::riscv64::trap::TrapFrame;
use crate::arch::riscv64::vspace;
use crate::bytes;
use crate::kernel::{self, State};
use crate::linux_compat::exec;
use crate::linux_compat::files;
use crate::mm::{self, buddy};
use crate::objects::Zeroed;
use crate::sched::{self, MAX_HARTS};
use crate::thread::{self, Tcb, KSTACK_ORDER, KSTACK_SIZE};
use vstd::prelude::*;

verus! {

/// The 64-bit word at the physical address `pa`.
pub open spec fn word_at(s: State, pa: int) -> u64 {
    bytes::le64(kernel::loaded(s.bytes, pa as u64, 8), 0)
}

/// The entry stack at the physical address `sp` holds `args`: their number, then
/// a user address for each at which its text stands with a zero behind it, and
/// then a null pointer for the end of the arguments and one for the end of the
/// environment.
pub open spec fn holds_arguments(s: State, sp: int, args: Seq<Seq<u8>>) -> bool {
    &&& word_at(s, sp) == args.len()
    &&& forall|i: int| 0 <= i < args.len() ==> #[trigger] argument_in_place(s, sp, args, i)
    &&& word_at(s, sp + 8 + 8 * args.len()) == 0
    &&& word_at(s, sp + 16 + 8 * args.len()) == 0
}

/// The pointer to argument `i` leads to its text.
pub open spec fn argument_in_place(s: State, sp: int, args: Seq<Seq<u8>>, i: int) -> bool {
    let p = word_at(s, sp + 8 + 8 * i);
    &&& p >= USER_MIRROR_OFFSET
    &&& kernel::loaded(s.bytes, (p - USER_MIRROR_OFFSET) as u64, args[i].len() + 1) == args[i].push(
        0,
    )
}

/// Storing elsewhere keeps what is loaded.
proof fn lemma_loaded_kept(s: State, at: u64, data: Seq<u8>, pa: u64, n: nat)
    requires
        at + data.len() <= u64::MAX,
        pa + n <= u64::MAX,
        pa + n <= at || at + data.len() <= pa,
    ensures
        kernel::loaded(kernel::with_bytes(s, at, data).bytes, pa, n) == kernel::loaded(
            s.bytes,
            pa,
            n,
        ),
{
    let a = kernel::loaded(kernel::with_bytes(s, at, data).bytes, pa, n);
    let b = kernel::loaded(s.bytes, pa, n);
    assert forall|i: int| 0 <= i < n implies a[i] == b[i] by {
        kernel::lemma_stored(s.bytes, at, data, (pa + i) as u64);
    }
    assert(a =~= b);
}

/// Part of what was stored is loaded.
proof fn lemma_loaded_part(s: State, at: u64, data: Seq<u8>, from: int, n: int)
    requires
        at + data.len() <= u64::MAX,
        0 <= from,
        0 <= n,
        from + n <= data.len(),
    ensures
        kernel::loaded(kernel::with_bytes(s, at, data).bytes, (at + from) as u64, n as nat)
            == data.subrange(from, from + n),
{
    let a = kernel::loaded(kernel::with_bytes(s, at, data).bytes, (at + from) as u64, n as nat);
    assert forall|i: int| 0 <= i < n implies a[i] == data[from + i] by {
        kernel::lemma_stored(s.bytes, at, data, (at + from + i) as u64);
    }
    assert(a =~= data.subrange(from, from + n));
}

/// Every argument string is in its place.
proof fn lemma_strings(s: State, ks: u64, args: Seq<Seq<u8>>, i: int)
    requires
        exec::args_ok(args),
        0 <= i < args.len(),
        ks + KSTACK_SIZE <= u64::MAX,
    ensures
        ({
            let at = exec::string_offset(args.take(i + 1));
            &&& exec::string_offset(args) <= at
            &&& at + args[i].len() + 1 <= KSTACK_SIZE
            &&& 0 <= exec::string_offset(args)
            &&& kernel::loaded(
                exec::strings_stored(s, ks, args).bytes,
                (ks + at) as u64,
                args[i].len() + 1,
            ) == args[i].push(0)
        }),
    decreases args.len(),
{
    let rest = args.drop_last();
    let last = args.last();
    let n = args.len() as int;
    assert(rest =~= args.take(n - 1));
    exec::lemma_prefix_ok(args, n - 1);
    exec::lemma_string_offset(args);
    exec::lemma_string_offset(rest);
    assert(last == args[n - 1]);
    let off = exec::string_offset(args);
    let s0 = exec::strings_stored(s, ks, rest);
    let at = (ks + off) as u64;
    assert(off + last.len() + 1 == exec::string_offset(rest));
    if i == n - 1 {
        assert(args.take(i + 1) =~= args);
        lemma_loaded_part(s0, at, last.push(0), 0, (last.len() + 1) as int);
        assert(last.push(0).subrange(0, (last.len() + 1) as int) =~= last.push(0));
    } else {
        lemma_strings(s, ks, rest, i);
        assert(rest.take(i + 1) =~= args.take(i + 1));
        assert(rest[i] == args[i]);
        let o = exec::string_offset(args.take(i + 1));
        lemma_loaded_kept(s0, at, last.push(0), (ks + o) as u64, args[i].len() + 1);
    }
}

/// Every pointer is in its place.
proof fn lemma_pointers(ks: u64, args: Seq<Seq<u8>>, i: int)
    requires
        exec::args_ok(args),
        0 <= i < args.len(),
        ks + KSTACK_SIZE + USER_MIRROR_OFFSET <= u64::MAX,
    ensures
        exec::pointer_bytes(ks, args).len() == 8 * args.len(),
        exec::pointer_bytes(ks, args).subrange(8 * i, 8 * i + 8) == bytes::le_bytes(
            (ks + USER_MIRROR_OFFSET + exec::string_offset(args.take(i + 1))) as nat,
            8,
        ),
    decreases args.len(),
{
    let rest = args.drop_last();
    let n = args.len() as int;
    assert(rest =~= args.take(n - 1));
    exec::lemma_prefix_ok(args, n - 1);
    exec::lemma_string_offset(args);
    let v = ks + USER_MIRROR_OFFSET + exec::string_offset(args);
    bytes::law_number_read_back(v as u64);
    let b = exec::pointer_bytes(ks, args);
    if n > 1 {
        lemma_pointers(
            ks,
            rest,
            if i < n - 1 {
                i
            } else {
                0
            },
        );
    } else {
        assert(exec::pointer_bytes(ks, rest).len() == 0);
    }
    if i == n - 1 {
        assert(args.take(i + 1) =~= args);
        assert(b.subrange(8 * i, 8 * i + 8) =~= bytes::le_bytes(v as nat, 8));
    } else {
        assert(rest.take(i + 1) =~= args.take(i + 1));
        assert(b.subrange(8 * i, 8 * i + 8) =~= exec::pointer_bytes(ks, rest).subrange(
            8 * i,
            8 * i + 8,
        ));
    }
}

proof fn lemma_zero_word(d: Seq<u8>)
    requires
        d.len() == 8,
        forall|i: int| 0 <= i < 8 ==> d[i] == 0,
    ensures
        bytes::le64(d, 0) == 0,
{
}

/// The entry stack of a thread holds its arguments, at a stack pointer that is a
/// multiple of 16 as seen through the user mirror.
pub proof fn law_entry_stack(s: State, pa: u64, args: Seq<Seq<u8>>)
    requires
        exec::args_ok(args),
        kernel::tcb(s, pa).kstack_pa + KSTACK_SIZE + USER_MIRROR_OFFSET <= u64::MAX,
        kernel::tcb(s, pa).kstack_pa % 16 == 0,
    ensures
        ({
            let ks = kernel::tcb(s, pa).kstack_pa;
            let s1 = exec::stack_set_up(s, pa, args);
            let t1 = kernel::tcb(s1, pa);
            let sp = t1.frame.x[2];
            &&& ks + USER_MIRROR_OFFSET <= sp < ks + USER_MIRROR_OFFSET + KSTACK_SIZE
            &&& sp % 16 == 0
            &&& holds_arguments(s1, sp - USER_MIRROR_OFFSET, args)
            &&& t1.frame.sepc == kernel::tcb(s, pa).frame.sepc
            &&& t1 == (Tcb { frame: t1.frame, ..kernel::tcb(s, pa) })
            &&& s1.fd_tables == s.fd_tables && s1.sched == s.sched && s1.ptes == s.ptes
            &&& s1.hart == s.hart
        }),
{
    let ks = kernel::tcb(s, pa).kstack_pa;
    let off = exec::table_offset(args);
    exec::lemma_string_offset(args);
    let so = exec::string_offset(args);
    let n = args.len() as int;
    let s0 = exec::strings_stored(s, ks, args);
    lemma_strings_keep(s, ks, args);
    let table = exec::entry_table(ks, args);
    if n > 0 {
        lemma_pointers(ks, args, 0);
    } else {
        assert(exec::pointer_bytes(ks, args).len() == 0);
    }
    bytes::law_number_read_back(args.len() as u64);
    assert(table.len() == 8 * n + 40);
    assert(0 <= off && off + table.len() <= so);
    let at = (ks + off) as u64;
    let s1 = kernel::with_bytes(s0, at, table);
    let s2 = exec::stack_set_up(s, pa, args);
    assert(s2.bytes == s1.bytes);
    lemma_loaded_part(s0, at, table, 0, 8);
    assert(table.subrange(0, 8) =~= bytes::le_bytes(args.len(), 8));
    assert forall|i: int| 0 <= i < args.len() implies #[trigger] argument_in_place(
        s2,
        at as int,
        args,
        i,
    ) by {
        lemma_pointers(ks, args, i);
        lemma_loaded_part(s0, at, table, 8 + 8 * i, 8);
        let o = exec::string_offset(args.take(i + 1));
        lemma_strings(s, ks, args, i);
        let v = ks + USER_MIRROR_OFFSET + o;
        bytes::law_number_read_back(v as u64);
        assert(table.subrange(8 + 8 * i, 16 + 8 * i) =~= exec::pointer_bytes(ks, args).subrange(
            8 * i,
            8 * i + 8,
        ));
        assert(word_at(s2, at + 8 + 8 * i) == v);
        lemma_loaded_kept(s0, at, table, (ks + o) as u64, args[i].len() + 1);
    }
    lemma_loaded_part(s0, at, table, 8 + 8 * n, 8);
    lemma_loaded_part(s0, at, table, 16 + 8 * n, 8);
    lemma_zero_word(table.subrange(8 + 8 * n, 16 + 8 * n));
    lemma_zero_word(table.subrange(16 + 8 * n, 24 + 8 * n));
    assert((ks + USER_MIRROR_OFFSET + off) % 16 == 0);
}

/// Storing strings changes plain memory only.
pub proof fn lemma_strings_keep(s: State, ks: u64, args: Seq<Seq<u8>>)
    ensures
        ({
            let t = exec::strings_stored(s, ks, args);
            t == (State { bytes: t.bytes, ..s })
        }),
    decreases args.len(),
{
    if args.len() > 0 {
        lemma_strings_keep(s, ks, args.drop_last());
    }
}

/// A thread whose program is replaced starts the new one at its entry point, in
/// the new address space, with an empty heap behind the image and its arguments
/// on a fresh stack; the other registers are zero. It stays the same process:
/// number, parent, files and capabilities are kept.
pub proof fn law_program_starts(
    s: State,
    f: TrapFrame,
    pgd: u64,
    entry: u64,
    end: u64,
    args: Seq<Seq<u8>>,
)
    requires
        s.hart < MAX_HARTS,
        exec::args_ok(args),
        buddy::lists_ok(s.mm.lists),
        !buddy::is_free(s.mm.lists, sched::current(s) as int),
    ensures
        exec::program_entered(s, f, pgd, entry, end, args) matches (s1, f1, Ok(_)) ==> {
            let cur = sched::current(s);
            let t = kernel::tcb(s, cur);
            let t1 = kernel::tcb(s1, cur);
            &&& f1.sepc == entry
            &&& f1.sstatus == f.sstatus
            &&& forall|i: int| 0 <= i < 32 && i != 2 ==> #[trigger] f1.x[i] == 0
            &&& t1.kstack_pa + USER_MIRROR_OFFSET <= f1.x[2] < t1.kstack_pa + USER_MIRROR_OFFSET
                + KSTACK_SIZE
            &&& f1.x[2] % 16 == 0
            &&& holds_arguments(s1, f1.x[2] - USER_MIRROR_OFFSET, args)
            &&& t1.satp == vspace::satp_of(pgd)
            &&& s1.sched.next_satp[s.hart as int] == vspace::satp_of(pgd)
            &&& sched::current(s1) == cur
            &&& t1.brk_base == end && t1.brk_next == end && t1.brk_mapped == end
            &&& t1.pid == t.pid && t1.parent_pa == t.parent_pa && t1.fd_table_pa == t.fd_table_pa
            &&& t1.cspace_pa == t.cspace_pa && t1.linux_compat == t.linux_compat
            &&& t1.waiter_pa == t.waiter_pa
            &&& buddy::is_free(s.mm.lists, t1.kstack_pa as int)
        },
{
    let l = s.mm.lists;
    let found = buddy::first_fit(l, KSTACK_ORDER as nat);
    buddy::lemma_first_fit(l, KSTACK_ORDER as nat);
    if found <= buddy::MAX_ORDER {
        buddy::lemma_split(l, KSTACK_ORDER as nat, found);
        buddy::lemma_order_table(KSTACK_ORDER as nat);
        let (m, stack) = mm::pages_taken(s.mm, KSTACK_ORDER as nat);
        let ks = stack->0;
        let cur = sched::current(s);
        if ks <= cur < ks + KSTACK_SIZE {
            assert(buddy::in_block(ks as int, KSTACK_ORDER as nat, cur as int));
            assert(buddy::is_free(l, cur as int));
        }
        assert(buddy::in_block(ks as int, KSTACK_ORDER as nat, ks as int));
        let s1 = kernel::zeroed_range(State { mm: m, ..s }, ks as int, ks + KSTACK_SIZE);
        assert(kernel::tcb(s1, cur) == kernel::tcb(s, cur));
        let t = Tcb {
            satp: vspace::satp_of(pgd),
            kstack_pa: ks,
            mmap_bump: 0,
            ..exec::with_heap(kernel::tcb(s1, cur), end)
        };
        let s2 = kernel::with_tcb(s1, cur, t);
        assert(ks % 16384 == 0);
        law_entry_stack(s2, cur, args);
        let s3 = exec::stack_set_up(s2, cur, args);
        let s4 = sched::with_next_satp(s3, vspace::satp_of(pgd));
        assert(s4.bytes == s3.bytes);
        let sp = kernel::tcb(s3, cur).frame.x[2];
        lemma_same_arguments(s3, s4, sp - USER_MIRROR_OFFSET, args);
        let f1 = exec::start_frame(f, entry, sp);
        let zero = TrapFrame { sepc: entry, sstatus: f.sstatus, ..TrapFrame::zeroed() };
        assert forall|i: int| 0 <= i < 32 && i != 2 implies #[trigger] f1.x[i] == 0 by {
            assert(zero.x@[i] == 0);
            assert(f1.x@[i] == zero.x@[i]);
        }
        assert(sched::current(s4) == cur);
        assert(s4.sched.next_satp@[s.hart as int] == vspace::satp_of(pgd));
    }
}

proof fn lemma_same_arguments(s: State, t: State, sp: int, args: Seq<Seq<u8>>)
    requires
        holds_arguments(s, sp, args),
        t.bytes == s.bytes,
    ensures
        holds_arguments(t, sp, args),
{
    assert forall|i: int| 0 <= i < args.len() implies #[trigger] argument_in_place(
        t,
        sp,
        args,
        i,
    ) by {
        assert(argument_in_place(s, sp, args, i));
    }
}

} // verus!
