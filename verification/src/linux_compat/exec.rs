//! Starting programs: execve, and processes that the kernel starts itself.
//!
//! A program is looked up among the registered images by the last component of
//! its path, and then as a file of one page. Its entry stack holds the argument
//! strings at the top, and below them argc, the argument pointers, and the ends
//! of the (empty) environment and auxiliary vector.
use crate::arch::riscv64::mmu::{PTE_R, PTE_W, USER_MIRROR_OFFSET};
use crate::arch::riscv64::trap::{self, TrapFrame};
use crate::arch::riscv64::vspace::{self, create_elf_vspace, map_page, pgd_to_satp};
use crate::bytes::{self, copied};
use crate::elf::{self, load_with_end};
use crate::fs::ramfs::{self, InodeKind};
use crate::kernel::{self, Kernel, State};
use crate::linux_compat::errno;
use crate::linux_compat::files::{self, push_number, push_zeros};
use crate::linux_compat::user::{self, copy_in, read_cstr, PageFault};
use crate::mm::buddy;
use crate::mm::{self, alloc_page, alloc_pages};
use crate::objects::Zeroed;
use crate::path;
use crate::proc::{self, find_elf};
use crate::sched;
use crate::syscall::read_file;
use crate::thread::{self, create_linux_thread, Tcb, KSTACK_ORDER, KSTACK_SIZE};
use vstd::prelude::*;

verus! {

/// The UART page, which every Linux process maps for the kernel.
pub const UART_PAGE: u64 = 0x1000_0000;

/// Arguments are few and short.
pub open spec fn args_ok(args: Seq<Seq<u8>>) -> bool {
    args.len() <= errno::MAX_ARGS && forall|i: int|
        0 <= i < args.len() ==> (#[trigger] args[i]).len() < errno::MAX_ARG_LEN
}

/// Offset in the stack of the last argument string; the first is at the top.
pub open spec fn string_offset(args: Seq<Seq<u8>>) -> int
    decreases args.len(),
{
    if args.len() == 0 {
        KSTACK_SIZE as int
    } else {
        string_offset(args.drop_last()) - (args.last().len() + 1)
    }
}

/// Storing the argument strings, each with a zero, in the stack at `ks`.
pub open spec fn strings_stored(s: State, ks: u64, args: Seq<Seq<u8>>) -> State
    decreases args.len(),
{
    if args.len() == 0 {
        s
    } else {
        kernel::with_bytes(
            strings_stored(s, ks, args.drop_last()),
            (ks + string_offset(args)) as u64,
            args.last().push(0),
        )
    }
}

/// The user addresses of the argument strings, one after the other.
pub open spec fn pointer_bytes(ks: u64, args: Seq<Seq<u8>>) -> Seq<u8>
    decreases args.len(),
{
    if args.len() == 0 {
        Seq::empty()
    } else {
        pointer_bytes(ks, args.drop_last()) + bytes::le_bytes(
            (ks + USER_MIRROR_OFFSET + string_offset(args)) as nat,
            8,
        )
    }
}

/// argc, the argument pointers, and four zero words.
pub open spec fn entry_table(ks: u64, args: Seq<Seq<u8>>) -> Seq<u8> {
    bytes::le_bytes(args.len(), 8) + pointer_bytes(ks, args) + files::zeros(32)
}

/// Offset in the stack of the table: below the strings, aligned to 16 bytes.
pub open spec fn table_offset(args: Seq<Seq<u8>>) -> int {
    let x = string_offset(args) - (args.len() + 5) * 8;
    x - x % 16
}

/// Setting up the entry stack of the thread at `tcb_pa`.
pub open spec fn stack_set_up(s: State, tcb_pa: u64, args: Seq<Seq<u8>>) -> State {
    let ks = kernel::tcb(s, tcb_pa).kstack_pa;
    let off = table_offset(args);
    let s1 = kernel::with_bytes(
        strings_stored(s, ks, args),
        (ks + off) as u64,
        entry_table(ks, args),
    );
    let t = kernel::tcb(s1, tcb_pa);
    kernel::with_tcb(
        s1,
        tcb_pa,
        Tcb { frame: trap::with_x(t.frame, 2, (ks + USER_MIRROR_OFFSET + off) as u64), ..t },
    )
}

/// The arguments as mathematical values.
pub open spec fn texts(args: Seq<Vec<u8>>) -> Seq<Seq<u8>> {
    Seq::new(args.len(), |i: int| args[i]@)
}

pub(crate) proof fn lemma_string_offset(args: Seq<Seq<u8>>)
    requires
        args_ok(args),
    ensures
        KSTACK_SIZE - args.len() * 64 <= string_offset(args) <= KSTACK_SIZE,
    decreases args.len(),
{
    if args.len() > 0 {
        let rest = args.drop_last();
        assert forall|i: int| 0 <= i < rest.len() implies (#[trigger] rest[i]).len()
            < errno::MAX_ARG_LEN by {
            assert(rest[i] == args[i]);
        }
        lemma_string_offset(rest);
        assert(args[args.len() - 1].len() < errno::MAX_ARG_LEN);
    }
}

pub(crate) proof fn lemma_prefix_ok(args: Seq<Seq<u8>>, n: int)
    requires
        args_ok(args),
        0 <= n <= args.len(),
    ensures
        args_ok(args.take(n)),
{
    let p = args.take(n);
    assert forall|i: int| 0 <= i < p.len() implies (#[trigger] p[i]).len() < errno::MAX_ARG_LEN by {
        assert(p[i] == args[i]);
    }
}

/// Write the strings and collect their pointers.
fn store_strings(k: &mut Kernel, ks: u64, args: &Vec<Vec<u8>>) -> (r: (u64, Vec<u8>))
    requires
        old(k).wf(),
        args_ok(texts(args@)),
        ks + KSTACK_SIZE + USER_MIRROR_OFFSET <= u64::MAX,
    ensures
        final(k).wf(),
        final(k)@ == strings_stored(old(k)@, ks, texts(args@)),
        r.0 == string_offset(texts(args@)),
        r.1@ == pointer_bytes(ks, texts(args@)),
{
    let mut off: u64 = KSTACK_SIZE;
    let mut pointers: Vec<u8> = Vec::new();
    let mut i: usize = 0;
    let ghost all = texts(args@);
    assert(all.take(0) =~= Seq::<Seq<u8>>::empty());
    while i < args.len()
        invariant
            k.wf(),
            i <= args@.len(),
            all == texts(args@),
            args_ok(all),
            ks + KSTACK_SIZE + USER_MIRROR_OFFSET <= u64::MAX,
            k@ == strings_stored(old(k)@, ks, all.take(i as int)),
            off == string_offset(all.take(i as int)),
            pointers@ == pointer_bytes(ks, all.take(i as int)),
        decreases args@.len() - i,
    {
        let len: u64 = args[i].len() as u64;
        proof {
            assert(all[i as int].len() < errno::MAX_ARG_LEN);
            lemma_prefix_ok(all, i + 1);
            lemma_string_offset(all.take(i + 1));
            lemma_prefix_ok(all, i as int);
            lemma_string_offset(all.take(i as int));
            assert(all.take(i + 1).drop_last() =~= all.take(i as int));
            assert(all.take(i + 1).last() == args@[i as int]@);
        }
        off = off - (len + 1);
        let mut text: Vec<u8> = copied(&args[i], 0, args[i].len());
        assert(text@ =~= args@[i as int]@);
        text.push(0);
        k.write_bytes(ks + off, &text);
        push_number(&mut pointers, ks + USER_MIRROR_OFFSET + off, 8);
        i += 1;
    }
    assert(all.take(i as int) =~= all);
    (off, pointers)
}

/// Write the entry stack of a thread and point its sp at it.
fn setup_entry_stack(k: &mut Kernel, tcb_pa: u64, args: &Vec<Vec<u8>>)
    requires
        old(k).wf(),
        args_ok(texts(args@)),
    ensures
        final(k).wf(),
        final(k)@ == stack_set_up(old(k)@, tcb_pa, texts(args@)),
{
    let ks: u64 = k.tcb(tcb_pa).kstack_pa;
    let n: u64 = args.len() as u64;
    let (off, mut pointers): (u64, Vec<u8>) = store_strings(k, ks, args);
    proof {
        lemma_string_offset(texts(args@));
    }
    let x: u64 = off - (n + 5) * 8;
    let base: u64 = x - x % 16;
    let mut table: Vec<u8> = Vec::new();
    push_number(&mut table, n, 8);
    assert(table@ =~= bytes::le_bytes(n as nat, 8));
    table.append(&mut pointers);
    push_zeros(&mut table, 32);
    k.write_bytes(ks + base, &table);
    let mut t: Tcb = k.tcb(tcb_pa);
    t.frame.x[2] = ks + USER_MIRROR_OFFSET + base;
    k.set_tcb(tcb_pa, t);
}

/// An address space with the UART page and a program image: its root, the entry
/// point and the end of the image.
pub open spec fn image_space_made(s: State, elf_bytes: Seq<u8>) -> (
    State,
    Result<(u64, u64, u64), i64>,
) {
    let (s1, pgd) = vspace::elf_vspace_made(s);
    match pgd {
        None => (s1, Err(errno::ENOMEM)),
        Some(pgd) => {
            let (s2, ok) = vspace::mapped(s1, pgd, UART_PAGE, UART_PAGE, PTE_R | PTE_W);
            if !ok {
                (s2, Err(errno::ENOMEM))
            } else {
                let (s3, r) = elf::image_loaded(s2, elf_bytes, pgd);
                match r {
                    Err(_) => (s3, Err(errno::EINVAL)),
                    Ok((entry, end)) => (s3, Ok((pgd, entry, end))),
                }
            }
        },
    }
}

fn make_image_space(k: &mut Kernel, elf_bytes: &[u8]) -> (r: Result<(u64, u64, u64), i64>)
    requires
        old(k).wf(),
    ensures
        final(k).wf(),
        (final(k)@, r) == image_space_made(old(k)@, elf_bytes@),
{
    let pgd: u64 = match create_elf_vspace(k) {
        Some(p) => p,
        None => {
            return Err(errno::ENOMEM);
        },
    };
    if map_page(k, pgd, UART_PAGE, UART_PAGE, PTE_R | PTE_W).is_err() {
        return Err(errno::ENOMEM);
    }
    match load_with_end(k, elf_bytes, pgd) {
        Err(_) => Err(errno::EINVAL),
        Ok((entry, end)) => Ok((pgd, entry, end)),
    }
}

/// An argument as it is passed on: at most 63 bytes, up to the first zero.
pub open spec fn argument(a: Seq<u8>) -> Seq<u8> {
    ramfs::text(ramfs::fitted(a, errno::MAX_ARG_LEN - 1))
}

pub open spec fn arguments(args: Seq<Seq<u8>>) -> Seq<Seq<u8>> {
    Seq::new(args.len(), |i: int| argument(args[i]))
}

/// A thread with an empty heap at the end of its image.
pub open spec fn with_heap(t: Tcb, end: u64) -> Tcb {
    Tcb { brk_base: end, brk_next: end, brk_mapped: end, ..t }
}

/// Starting a Linux process from an image.
pub open spec fn process_spawned(s: State, elf_bytes: Seq<u8>, args: Seq<Seq<u8>>, parent_pa: u64) -> (
    State,
    Option<u64>,
) {
    let (s1, space) = image_space_made(s, elf_bytes);
    match space {
        Err(_) => (s1, None),
        Ok((pgd, entry, end)) => {
            let (s2, t) = thread::linux_thread_made(s1, entry, vspace::satp_of(pgd), parent_pa);
            match t {
                None => (s2, None),
                Some(pa) => {
                    let s3 = kernel::with_tcb(s2, pa, with_heap(kernel::tcb(s2, pa), end));
                    let (s4, table) = ramfs::stdio_table_made(s3);
                    let fds = match table {
                        Some(t) => t,
                        None => 0,
                    };
                    let s5 = kernel::with_tcb(
                        s4,
                        pa,
                        Tcb { fd_table_pa: fds, ..kernel::tcb(s4, pa) },
                    );
                    if args.len() > errno::MAX_ARGS {
                        (s5, None)
                    } else {
                        (stack_set_up(s5, pa, arguments(args)), Some(pa))
                    }
                },
            }
        },
    }
}

/// The arguments as they are passed on.
fn cut_arguments(args: &Vec<Vec<u8>>) -> (r: Vec<Vec<u8>>)
    requires
        args@.len() <= errno::MAX_ARGS,
    ensures
        texts(r@) == arguments(texts(args@)),
        args_ok(texts(r@)),
{
    let mut out: Vec<Vec<u8>> = Vec::new();
    let mut i: usize = 0;
    while i < args.len()
        invariant
            i <= args@.len(),
            out@.len() == i,
            forall|j: int| 0 <= j < i ==> (#[trigger] out@[j])@ == argument(args@[j]@),
            forall|j: int| 0 <= j < i ==> (#[trigger] out@[j])@.len() < errno::MAX_ARG_LEN,
        decreases args@.len() - i,
    {
        let n: usize = if args[i].len() <= 63 {
            args[i].len()
        } else {
            63
        };
        let whole: Vec<u8> = copied(&args[i], 0, n);
        let m: usize = path::position(&whole, 0, 0);
        let text: Vec<u8> = copied(&whole, 0, m);
        proof {
            assert(whole@ =~= ramfs::fitted(args@[i as int]@, 63));
            path::lemma_find_byte(whole@, 0, 0);
            assert(text@ =~= argument(args@[i as int]@));
        }
        out.push(text);
        i += 1;
    }
    assert(texts(out@) =~= arguments(texts(args@)));
    out
}

/// Spawn a Linux-ABI process from a program image. Returns the new thread.
pub fn spawn_linux_process(
    k: &mut Kernel,
    elf_bytes: &[u8],
    args: &Vec<Vec<u8>>,
    parent_pa: u64,
) -> (r: Option<u64>)
    requires
        old(k).wf(),
    ensures
        final(k).wf(),
        (final(k)@, r) == process_spawned(old(k)@, elf_bytes@, texts(args@), parent_pa),
{
    let (pgd, entry, end): (u64, u64, u64) = match make_image_space(k, elf_bytes) {
        Ok(p) => p,
        Err(_) => {
            return None;
        },
    };
    let pa: u64 = match create_linux_thread(k, entry, pgd_to_satp(pgd), parent_pa) {
        Some(p) => p,
        None => {
            return None;
        },
    };
    let mut t: Tcb = k.tcb(pa);
    t.brk_base = end;
    t.brk_next = end;
    t.brk_mapped = end;
    k.set_tcb(pa, t);
    let fds: u64 = match ramfs::alloc_fd_table_stdio(k) {
        Some(t) => t,
        None => 0,
    };
    let mut t: Tcb = k.tcb(pa);
    t.fd_table_pa = fds;
    k.set_tcb(pa, t);
    if args.len() > errno::MAX_ARGS {
        return None;
    }
    let cut: Vec<Vec<u8>> = cut_arguments(args);
    setup_entry_stack(k, pa, &cut);
    Some(pa)
}

/// The last component of a path.
pub open spec fn basename(p: Seq<u8>) -> Seq<u8> {
    p.skip(path::last_slash(p) + 1)
}

/// Finding the program that a path names: a registered image, or a file of at
/// least 64 bytes, of which the first page is taken and kept in a page of its
/// own.
pub open spec fn program_found(s: State, p: Seq<u8>) -> (State, Result<Seq<u8>, i64>) {
    match proc::image_named(s.images, basename(p)) {
        Some(image) => (s, Ok(image)),
        None => match ramfs::found(s, p) {
            None => (s, Err(errno::ENOENT)),
            Some(pa) => if !(ramfs::inode(s, pa).kind is File) {
                (s, Err(errno::ENOENT))
            } else {
                let data = ramfs::file_bytes(s, pa, 0, 4096);
                if data.len() < 64 {
                    (s, Err(errno::EINVAL))
                } else {
                    let (s1, page) = vspace::page_taken(s);
                    match page {
                        None => (s1, Err(errno::ENOMEM)),
                        Some(backing) => (kernel::with_bytes(s1, backing, data), Ok(data)),
                    }
                }
            },
        },
    }
}

fn find_program(k: &mut Kernel, p: &Vec<u8>) -> (r: Result<Vec<u8>, i64>)
    requires
        old(k).wf(),
    ensures
        final(k).wf(),
        match program_found(old(k)@, p@) {
            (s1, Ok(image)) => final(k)@ == s1 && r is Ok && r->Ok_0@ == image,
            (s1, Err(e)) => final(k)@ == s1 && r == Err::<Vec<u8>, i64>(e),
        },
{
    let from: usize = match path::last_slash_position(p) {
        Some(i) => {
            assert(p.len() <= usize::MAX);
            i + 1
        },
        None => 0,
    };
    let name: Vec<u8> = copied(p, from, p.len());
    assert(name@ =~= basename(p@));
    if let Some(image) = find_elf(&k.programs, &name) {
        let whole: Vec<u8> = copied(image, 0, image.len());
        assert(whole@ =~= image@);
        return Ok(whole);
    }
    let pa: u64 = match ramfs::fs_open(k, p) {
        Some(pa) => pa,
        None => {
            return Err(errno::ENOENT);
        },
    };
    if ramfs::inode_kind(k, pa) != InodeKind::File {
        return Err(errno::ENOENT);
    }
    let data: Vec<u8> = read_file(k, pa, 0, 4096);
    if data.len() < 64 {
        return Err(errno::EINVAL);
    }
    match alloc_page(&mut k.mm) {
        None => Err(errno::ENOMEM),
        Some(backing) => {
            k.write_bytes(backing, &data);
            Ok(data)
        },
    }
}

/// The argument strings behind the pointers at `va`, at most `n`: up to a null
/// pointer or a string that is too long.
pub open spec fn args_at(s: State, va: u64, n: nat) -> Result<Seq<Seq<u8>>, PageFault>
    decreases n,
{
    if n == 0 {
        Ok(Seq::empty())
    } else {
        match user::peeked(s, va, 8) {
            Err(f) => Err(f),
            Ok(b) => if bytes::le64(b, 0) == 0 {
                Ok(Seq::empty())
            } else {
                match user::string_at(s, bytes::le64(b, 0), errno::MAX_ARG_LEN as nat) {
                    Err(f) => Err(f),
                    Ok(None) => Ok(Seq::empty()),
                    Ok(Some(text)) => match args_at(s, va.wrapping_add(8), (n - 1) as nat) {
                        Err(f) => Err(f),
                        Ok(rest) => Ok(seq![text] + rest),
                    },
                }
            },
        }
    }
}

/// The arguments of execve: none where the vector is null.
pub open spec fn argv_at(s: State, argv_va: u64) -> Result<Seq<Seq<u8>>, PageFault> {
    if argv_va == 0 {
        Ok(Seq::empty())
    } else {
        args_at(s, argv_va, errno::MAX_ARGS as nat)
    }
}

fn read_argv(k: &Kernel, argv_va: u64) -> (r: Result<Vec<Vec<u8>>, PageFault>)
    requires
        k.wf(),
    ensures
        match argv_at(k@, argv_va) {
            Err(f) => r is Err && r->Err_0 == f,
            Ok(args) => r is Ok && texts(r->Ok_0@) == args && args_ok(args),
        },
{
    let mut out: Vec<Vec<u8>> = Vec::new();
    if argv_va == 0 {
        assert(texts(out@) =~= Seq::<Seq<u8>>::empty());
        return Ok(out);
    }
    let mut at: u64 = argv_va;
    let mut i: usize = 0;
    let ghost all = args_at(k@, argv_va, 8);
    while i < errno::MAX_ARGS
        invariant
            k.wf(),
            i <= 8,
            argv_va != 0,
            all == args_at(k@, argv_va, 8),
            out@.len() == i,
            forall|j: int| 0 <= j < i ==> (#[trigger] out@[j])@.len() < errno::MAX_ARG_LEN,
            match args_at(k@, at, (8 - i) as nat) {
                Err(f) => all == Err::<Seq<Seq<u8>>, PageFault>(f),
                Ok(rest) => all == Ok::<Seq<Seq<u8>>, PageFault>(texts(out@) + rest),
            },
        decreases 8 - i,
    {
        match copy_in(k, at, 8) {
            Err(f) => {
                return Err(f);
            },
            Ok(b) => {
                let p: u64 = bytes::read_u64(&b, 0);
                if p == 0 {
                    assert(texts(out@) + Seq::<Seq<u8>>::empty() =~= texts(out@));
                    return Ok(out);
                }
                match read_cstr(k, p, errno::MAX_ARG_LEN) {
                    Err(f) => {
                        return Err(f);
                    },
                    Ok(None) => {
                        assert(texts(out@) + Seq::<Seq<u8>>::empty() =~= texts(out@));
                        return Ok(out);
                    },
                    Ok(Some(text)) => {
                        let ghost before = texts(out@);
                        out.push(text);
                        proof {
                            match args_at(k@, at.wrapping_add(8), (8 - i - 1) as nat) {
                                Ok(rest) => {
                                    assert(before + (seq![text@] + rest) =~= texts(out@) + rest);
                                },
                                Err(_) => {},
                            }
                        }
                    },
                }
            },
        }
        at = at.wrapping_add(8);
        i += 1;
    }
    assert(texts(out@) + Seq::<Seq<u8>>::empty() =~= texts(out@));
    Ok(out)
}

/// The context in which a program starts.
pub open spec fn start_frame(f: TrapFrame, entry: u64, sp: u64) -> TrapFrame {
    trap::with_x(TrapFrame { sepc: entry, sstatus: f.sstatus, ..TrapFrame::zeroed() }, 2, sp)
}

/// Replacing the program of the current thread: a fresh stack, an empty heap,
/// and the new address space from the next return on.
pub open spec fn program_entered(
    s: State,
    f: TrapFrame,
    pgd: u64,
    entry: u64,
    end: u64,
    args: Seq<Seq<u8>>,
) -> (State, TrapFrame, Result<(), i64>) {
    let (m, stack) = mm::pages_taken(s.mm, KSTACK_ORDER as nat);
    match stack {
        None => (s, f, Err(errno::ENOMEM)),
        Some(ks) => {
            let s1 = kernel::zeroed_range(State { mm: m, ..s }, ks as int, ks + KSTACK_SIZE);
            let cur = sched::current(s1);
            let t = Tcb {
                satp: vspace::satp_of(pgd),
                kstack_pa: ks,
                mmap_bump: 0,
                ..with_heap(kernel::tcb(s1, cur), end)
            };
            let s2 = stack_set_up(kernel::with_tcb(s1, cur, t), cur, args);
            (
                sched::with_next_satp(s2, vspace::satp_of(pgd)),
                start_frame(f, entry, kernel::tcb(s2, cur).frame.x[2]),
                Ok(()),
            )
        },
    }
}

fn enter_program(
    k: &mut Kernel,
    frame: &mut TrapFrame,
    pgd: u64,
    entry: u64,
    end: u64,
    args: &Vec<Vec<u8>>,
) -> (r: Result<(), i64>)
    requires
        old(k).wf(),
        args_ok(texts(args@)),
    ensures
        final(k).wf(),
        (final(k)@, *final(frame), r) == program_entered(
            old(k)@,
            *old(frame),
            pgd,
            entry,
            end,
            texts(args@),
        ),
{
    let ks: u64 = match alloc_pages(&mut k.mm, KSTACK_ORDER) {
        Some(p) => p,
        None => {
            return Err(errno::ENOMEM);
        },
    };
    proof {
        buddy::lemma_order_table(KSTACK_ORDER as nat);
    }
    k.zero_range(ks, KSTACK_SIZE);
    let satp: u64 = pgd_to_satp(pgd);
    let cur: u64 = sched::current_pa(k);
    let mut t: Tcb = k.tcb(cur);
    t.satp = satp;
    t.kstack_pa = ks;
    t.brk_base = end;
    t.brk_next = end;
    t.brk_mapped = end;
    t.mmap_bump = 0;
    k.set_tcb(cur, t);
    setup_entry_stack(k, cur, args);
    let mut f: TrapFrame = TrapFrame::zero();
    f.sstatus = frame.sstatus;
    f.sepc = entry;
    f.x[2] = k.tcb(cur).frame.x[2];
    *frame = f;
    sched::set_current_satp(k, satp);
    Ok(())
}

/// Running the program that the path `p` names.
pub open spec fn path_executed(s: State, f: TrapFrame, p: Seq<u8>, argv_va: u64) -> (
    State,
    TrapFrame,
    Result<Result<(), i64>, PageFault>,
) {
    let (s1, program) = program_found(s, p);
    match program {
        Err(e) => (s1, f, Ok(Err(e))),
        Ok(image) => match argv_at(s1, argv_va) {
            Err(fault) => (s1, f, Err(fault)),
            Ok(args) => {
                let (s2, space) = image_space_made(s1, image);
                match space {
                    Err(e) => (s2, f, Ok(Err(e))),
                    Ok((pgd, entry, end)) => {
                        let (s3, f3, r) = program_entered(s2, f, pgd, entry, end, args);
                        (s3, f3, Ok(r))
                    },
                }
            },
        },
    }
}

fn execute_path(k: &mut Kernel, frame: &mut TrapFrame, p: &Vec<u8>, argv_va: u64) -> (r: Result<
    Result<(), i64>,
    PageFault,
>)
    requires
        old(k).wf(),
    ensures
        final(k).wf(),
        (final(k)@, *final(frame), r) == path_executed(old(k)@, *old(frame), p@, argv_va),
{
    let image: Vec<u8> = match find_program(k, p) {
        Ok(image) => image,
        Err(e) => {
            return Ok(Err(e));
        },
    };
    let args: Vec<Vec<u8>> = match read_argv(k, argv_va) {
        Ok(args) => args,
        Err(f) => {
            return Err(f);
        },
    };
    match make_image_space(k, &image) {
        Err(e) => Ok(Err(e)),
        Ok((pgd, entry, end)) => Ok(enter_program(k, frame, pgd, entry, end, &args)),
    }
}

/// execve(path, argv): on success the context is replaced, on failure a0 gets
/// the error number.
pub open spec fn execve_called(s: State, f: TrapFrame, path_va: u64, argv_va: u64) -> (
    State,
    TrapFrame,
    Result<(), PageFault>,
) {
    match user::string_at(s, path_va, errno::MAX_PATH as nat) {
        Err(fault) => (s, f, Err(fault)),
        Ok(None) => (s, trap::with_x(f, 10, errno::ENOENT as u64), Ok(())),
        Ok(Some(p)) => {
            let (s1, f1, r) = path_executed(s, f, p, argv_va);
            match r {
                Err(fault) => (s1, f1, Err(fault)),
                Ok(Err(e)) => (s1, trap::with_x(f1, 10, e as u64), Ok(())),
                Ok(Ok(_)) => (s1, f1, Ok(())),
            }
        },
    }
}

pub fn sys_execve(k: &mut Kernel, path_va: u64, argv_va: u64, frame: &mut TrapFrame) -> (r: Result<
    (),
    PageFault,
>)
    requires
        old(k).wf(),
    ensures
        final(k).wf(),
        (final(k)@, *final(frame), r) == execve_called(
            old(k)@,
            *old(frame),
            path_va,
            argv_va,
        ),
{
    let outcome: Result<(), i64> = match read_cstr(k, path_va, errno::MAX_PATH as u64) {
        Err(f) => {
            return Err(f);
        },
        Ok(None) => Err(errno::ENOENT),
        Ok(Some(p)) => match execute_path(k, frame, &p, argv_va) {
            Err(f) => {
                return Err(f);
            },
            Ok(r) => r,
        },
    };
    if let Err(e) = outcome {
        frame.set_a0(e as u64);
    }
    Ok(())
}

} // verus!
