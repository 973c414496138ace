//! Where a program goes on after a system call: right behind the instruction
//! that made it.
use crate::arch::riscv64::mmu;
use crate::arch::riscv64::trap::{self, Devices, TrapFrame};
use crate::arch::riscv64::vspace;
use crate::cap::cnode;
use crate::cap::endpoint::{self, Endpoint};
use crate::cap::untyped;
use crate::cap::{Cap, CapType};
use crate::console;
use crate::elf;
use crate::fs::ramfs::{self, InodeKind};
use crate::kernel::{self, State};
use crate::linux_compat::{self, dirs, exec, files, fork, info, memory, nr, user, wait};
use crate::objects;
use crate::sched::{self, contexts, Sched, MAX_HARTS};
use crate::syscall::{self, error, invoke, label, spawn};
use crate::thread::{Tcb, TcbState};
use vstd::prelude::*;

verus! {

/// The same thread is current on the same hart.
pub open spec fn stays(s: State, t: State) -> bool {
    t.hart == s.hart && t.sched.current == s.sched.current
}

proof fn lemma_mapped_stays(s: State, table: u64, va: u64, pa: u64, flags: u64, level: nat)
    ensures
        stays(s, vspace::mapped_from(s, table, va, pa, flags, level).0),
    decreases level,
{
    let addr = vspace::entry_at(table, va, level);
    let entry = objects::at(s.ptes, addr);
    if level > 0 {
        if entry & mmu::PTE_V == 0 {
            let (s1, page) = kernel::page_made(s);
            if let Some(new) = page {
                lemma_mapped_stays(
                    vspace::with_pte(s1, addr, mmu::table_entry(new)),
                    new,
                    va,
                    pa,
                    flags,
                    (level - 1) as nat,
                );
            }
        } else {
            lemma_mapped_stays(s, vspace::entry_pa(entry), va, pa, flags, (level - 1) as nat);
        }
    }
}

proof fn lemma_pages_loaded_stays(s: State, d: Seq<u8>, pgd: u64, g: elf::Segment, va: int)
    ensures
        stays(s, elf::pages_loaded(s, d, pgd, g, va).0),
    decreases
            (if va < elf::end_page(g) {
                elf::end_page(g) - va
            } else {
                0
            }),
{
    if va < elf::end_page(g) {
        let (s1, page) = kernel::page_made(s);
        if let Some(pa) = page {
            let s2 = elf::page_filled(s1, d, g, va, pa);
            lemma_mapped_stays(s2, pgd, va as u64, pa, elf::pte_flags_of(g.flags), 3);
            let (s3, ok) = vspace::mapped(s2, pgd, va as u64, pa, elf::pte_flags_of(g.flags));
            if ok {
                lemma_pages_loaded_stays(s3, d, pgd, g, va + 4096);
            }
        }
    }
}

proof fn lemma_segments_stay(s: State, d: Seq<u8>, pgd: u64, i: int, end: int)
    ensures
        stays(s, elf::segments_loaded(s, d, pgd, i, end).0),
    decreases elf::phdr_count(d) - i,
{
    if i < elf::phdr_count(d) {
        let g = elf::segment_at(d, elf::phdr_at(d, i));
        lemma_pages_loaded_stays(s, d, pgd, g, elf::first_page(g));
        let s1 = elf::pages_loaded(s, d, pgd, g, elf::first_page(g)).0;
        let far = if elf::end_page(g) > end {
            elf::end_page(g)
        } else {
            end
        };
        lemma_segments_stay(s, d, pgd, i + 1, end);
        lemma_segments_stay(s1, d, pgd, i + 1, far);
    }
}

proof fn lemma_carved_stays(
    s: State,
    ut: u64,
    t: CapType,
    bits: u64,
    cnode_pa: u64,
    cnode_sb: u64,
    slot: u64,
    i: nat,
    count: nat,
)
    ensures
        stays(s, untyped::carved(s, ut, t, bits, cnode_pa, cnode_sb, slot, i, count).0),
    decreases count - i,
{
    if i < count {
        let size = untyped::size_of_object(t, bits);
        let (h, at) = untyped::bumped(
            objects::at(s.untypeds, ut),
            size,
            untyped::align_of_object(t, bits),
        );
        if let Some(pa) = at {
            let s1 = State { untypeds: s.untypeds.insert(ut, h), ..s };
            let s2 = kernel::zeroed_range(s1, pa as int, pa + size);
            let new = crate::cap::Cap {
                cap_type: t,
                rights: crate::cap::all_rights(),
                ptr: pa,
                extra: untyped::fresh_extra(t, bits),
            };
            let (caps, r) = cnode::inserted(s2.caps, cnode_pa, cnode_sb, (slot + i) as u64, new);
            lemma_carved_stays(
                State { caps, ..s2 },
                ut,
                t,
                bits,
                cnode_pa,
                cnode_sb,
                slot,
                i + 1,
                count,
            );
        }
    }
}

proof fn lemma_page_copied_stays(s: State, pte: u64, va: u64, dst: u64)
    ensures
        stays(s, fork::page_copied(s, pte, va, dst).0),
{
    let (s1, page) = vspace::page_taken(s);
    if let Some(new) = page {
        let data = kernel::loaded(s1.bytes, vspace::entry_pa(pte), 4096);
        lemma_mapped_stays(
            kernel::with_bytes(s1, new, data),
            dst,
            va,
            new,
            pte & fork::PTE_FLAGS,
            3,
        );
    }
    lemma_mapped_stays(s, dst, va, vspace::entry_pa(pte), pte & fork::PTE_FLAGS, 3);
}

proof fn lemma_table_copied_stays(s: State, table: u64, level: nat, va: u64, i: nat, dst: u64)
    ensures
        stays(s, fork::table_copied(s, table, level, va, i, dst).0),
    decreases level, 512 - i,
{
    if i < 512 {
        let pte = objects::at(s.ptes, table.wrapping_add((i * 8) as u64));
        let at = va.wrapping_add((i as u64).wrapping_mul(fork::span(level)));
        lemma_page_copied_stays(s, pte, at, dst);
        if level == 0 {
            lemma_table_copied_stays(
                fork::page_copied(s, pte, at, dst).0,
                table,
                level,
                va,
                i + 1,
                dst,
            );
        } else {
            lemma_table_copied_stays(s, table, level, va, i + 1, dst);
            lemma_table_copied_stays(s, vspace::entry_pa(pte), (level - 1) as nat, at, 0, dst);
            lemma_table_copied_stays(
                fork::table_copied(s, vspace::entry_pa(pte), (level - 1) as nat, at, 0, dst).0,
                table,
                level,
                va,
                i + 1,
                dst,
            );
        }
    }
}

proof fn lemma_zero_page_stays(s: State, pgd: u64, va: u64)
    ensures
        stays(s, memory::zero_page_mapped(s, pgd, va).0),
{
    let (s1, page) = kernel::page_made(s);
    if let Some(pa) = page {
        lemma_mapped_stays(s1, pgd, va, pa, memory::USER_DATA, 3);
    }
}

proof fn lemma_heap_stays(s: State, pgd: u64, from: u64, to: u64)
    ensures
        stays(s, memory::heap_grown(s, pgd, from, to).0),
    decreases
            if from < to {
                to - from
            } else {
                0
            },
{
    if from < to {
        lemma_zero_page_stays(s, pgd, from);
        let (s1, ok) = memory::zero_page_mapped(s, pgd, from);
        if ok && from + 4096 <= u64::MAX {
            lemma_heap_stays(s1, pgd, (from + 4096) as u64, to);
        }
    }
}

proof fn lemma_pages_mapped_stays(s: State, pgd: u64, va: u64, n: nat)
    ensures
        stays(s, memory::pages_mapped(s, pgd, va, n).0),
    decreases n,
{
    if n > 0 {
        lemma_zero_page_stays(s, pgd, va);
        let (s1, ok) = memory::zero_page_mapped(s, pgd, va);
        lemma_pages_mapped_stays(s1, pgd, va.wrapping_add(4096), (n - 1) as nat);
    }
}

proof fn lemma_user_stored_stays(s: State, va: u64, data: Seq<u8>)
    ensures
        stays(s, user::user_stored(s, va, data)),
    decreases data.len(),
{
    if data.len() > 0 {
        lemma_user_stored_stays(s, va, data.drop_last());
    }
}

proof fn lemma_fields_stay(s: State, va: u64, n: nat)
    ensures
        stays(s, info::fields_written(s, va, n).0),
    decreases n,
{
    if n > 0 {
        lemma_fields_stay(s, va, (n - 1) as nat);
        let s1 = info::fields_written(s, va, (n - 1) as nat).0;
        lemma_user_stored_stays(
            s1,
            va.wrapping_add(((n - 1) * 65) as u64),
            info::uts_fields()[n - 1].push(0),
        );
    }
}

proof fn lemma_strings_stay(s: State, ks: u64, args: Seq<Seq<u8>>)
    ensures
        stays(s, exec::strings_stored(s, ks, args)),
    decreases args.len(),
{
    if args.len() > 0 {
        lemma_strings_stay(s, ks, args.drop_last());
    }
}

proof fn lemma_writev_stays(s: State, fd: u64, iov: u64, i: nat, cnt: nat, total: i64)
    ensures
        stays(s, files::writev_from(s, fd, iov, i, cnt, total).0),
    decreases cnt - i,
{
    if i < cnt {
        let at = iov.wrapping_add((i as u64).wrapping_mul(16));
        if let Ok(v) = user::peeked(s, at, 16) {
            let (s1, r) = files::write_called(
                s,
                fd,
                crate::bytes::le64(v, 0),
                crate::bytes::le64(v, 8),
            );
            lemma_write_stays(s, fd, crate::bytes::le64(v, 0), crate::bytes::le64(v, 8));
            if let Ok(n) = r {
                lemma_writev_stays(s1, fd, iov, i + 1, cnt, total.wrapping_add(n));
            }
        }
    }
}

proof fn lemma_records_stay(s: State, dir: u64, va: u64, room: int, idx: u64, written: int)
    ensures
        stays(s, dirs::records_written(s, dir, va, room, idx, written).0),
    decreases room - written,
{
    if let Some((e, kind)) = dirs::typed_entry(s, dir, idx) {
        let len = dirs::record_len(ramfs::text(e.name@).len() as int);
        if written + len <= room {
            let at = va.wrapping_add(written as u64);
            let rec = dirs::record(e, kind, idx);
            lemma_user_stored_stays(s, at, rec);
            let s1 = user::poked(s, at, rec).0;
            lemma_records_stay(s1, dir, va, room, idx.wrapping_add(1), written + len);
        }
    }
}

proof fn lemma_plic_stays(s: State, pgd: u64)
    ensures
        stays(s, vspace::plic_mapped(s, pgd).0),
{
    let rw = mmu::PTE_R | mmu::PTE_W;
    lemma_mapped_stays(s, pgd, 0x0c00_0000, 0x0c00_0000, rw, 3);
    let s1 = vspace::mapped(s, pgd, 0x0c00_0000, 0x0c00_0000, rw).0;
    lemma_mapped_stays(s1, pgd, 0x0c00_2000, 0x0c00_2000, rw, 3);
    let s2 = vspace::mapped(s1, pgd, 0x0c00_2000, 0x0c00_2000, rw).0;
    lemma_mapped_stays(s2, pgd, 0x0c20_1000, 0x0c20_1000, rw, 3);
}

proof fn lemma_vspace_stays(s: State)
    ensures
        stays(s, vspace::elf_vspace_made(s).0),
{
    let (s1, root) = vspace::root_made(s);
    if let Some((pgd, pud)) = root {
        let s2 = vspace::with_pte(
            s1,
            pud.wrapping_add(16),
            vspace::leaf_entry(0x8000_0000, mmu::PTE_R | mmu::PTE_W | mmu::PTE_X),
        );
        let s3 = vspace::with_pte(s2, pgd, mmu::table_entry(pud));
        let s4 = vspace::with_pte(s3, pgd.wrapping_add(8), s3.boot_user_pte);
        lemma_plic_stays(s4, pgd);
    }
}

proof fn lemma_tcb_stays(s: State, entry: u64, sstatus: u64)
    ensures
        stays(s, crate::thread::tcb_made(s, entry, sstatus).0),
{
}

proof fn lemma_thread_stays(s: State, entry: u64, satp: u64, parent: u64)
    ensures
        stays(s, crate::thread::elf_thread_made(s, entry, satp).0),
        stays(s, crate::thread::linux_thread_made(s, entry, satp, parent).0),
{
    lemma_tcb_stays(s, entry, crate::thread::SSTATUS_UTHREAD);
}

pub(crate) proof fn lemma_image_stays(s: State, image: Seq<u8>)
    ensures
        stays(s, exec::image_space_made(s, image).0),
{
    lemma_vspace_stays(s);
    let (s1, pgd) = vspace::elf_vspace_made(s);
    if let Some(p) = pgd {
        let flags = mmu::PTE_R | mmu::PTE_W;
        lemma_mapped_stays(s1, p, spawn::UART_PAGE, spawn::UART_PAGE, flags, 3);
        let s2 = vspace::mapped(s1, p, spawn::UART_PAGE, spawn::UART_PAGE, flags).0;
        lemma_segments_stay(s2, image, p, 0, 0);
    }
}

proof fn lemma_image_started_stays(s: State, image: Seq<u8>)
    ensures
        stays(s, spawn::image_started(s, image).0),
{
    lemma_vspace_stays(s);
    let (s1, pgd) = vspace::elf_vspace_made(s);
    if let Some(p) = pgd {
        let flags = mmu::PTE_R | mmu::PTE_W;
        lemma_mapped_stays(s1, p, spawn::UART_PAGE, spawn::UART_PAGE, flags, 3);
        let s2 = vspace::mapped(s1, p, spawn::UART_PAGE, spawn::UART_PAGE, flags).0;
        lemma_segments_stay(s2, image, p, 0, 0);
        let (s3, r) = elf::image_loaded(s2, image, p);
        if let Ok((entry, end)) = r {
            lemma_thread_stays(s3, entry, vspace::satp_of(p), 0);
        }
    }
}

proof fn lemma_stack_stays(s: State, pa: u64, args: Seq<Seq<u8>>)
    ensures
        stays(s, exec::stack_set_up(s, pa, args)),
{
    lemma_strings_stay(s, kernel::tcb(s, pa).kstack_pa, args);
}

proof fn lemma_process_stays(s: State, image: Seq<u8>, args: Seq<Seq<u8>>, parent: u64)
    ensures
        stays(s, exec::process_spawned(s, image, args, parent).0),
{
    lemma_image_stays(s, image);
    let (s1, space) = exec::image_space_made(s, image);
    if let Ok((pgd, entry, end)) = space {
        lemma_thread_stays(s1, entry, vspace::satp_of(pgd), parent);
        let (s2, t) = crate::thread::linux_thread_made(s1, entry, vspace::satp_of(pgd), parent);
        if let Some(pa) = t {
            let s3 = kernel::with_tcb(s2, pa, exec::with_heap(kernel::tcb(s2, pa), end));
            let (s4, table) = ramfs::stdio_table_made(s3);
            let fds = match table {
                Some(t) => t,
                None => 0,
            };
            let s5 = kernel::with_tcb(s4, pa, Tcb { fd_table_pa: fds, ..kernel::tcb(s4, pa) });
            lemma_stack_stays(s5, pa, exec::arguments(args));
        }
    }
}

proof fn lemma_spawns_stay(s: State, va: u64, len: u64, slot: u64)
    ensures
        stays(s, spawn::program_spawned(s, va, len, slot).0),
        stays(s, spawn::linux_program_spawned(s, va, len, slot).0),
{
    if let Ok(image) = spawn::named_image(s, va, len) {
        lemma_image_started_stays(s, image);
        let args = seq![syscall::caller_bytes(s, va, len)->0];
        lemma_process_stays(s, image, args, sched::current(s));
    }
}

proof fn lemma_entry_stays(s: State, dir: u64, name: Seq<u8>, kind: InodeKind, child: u64)
    ensures
        stays(s, ramfs::entry_added(s, dir, name, kind, child).0),
{
}

proof fn lemma_made_stays(s: State, p: Seq<u8>)
    ensures
        stays(s, ramfs::file_made(s, p).0),
        stays(s, ramfs::dir_made(s, p).0),
{
    if let Ok((dir, name)) = ramfs::parent_of(s, p) {
        let (s1, a) = ramfs::inode_made(s, InodeKind::File);
        let (s2, b) = ramfs::inode_made(s, InodeKind::Dir);
        assert(stays(s, s1) && stays(s, s2));
        if let Some(child) = a {
            lemma_entry_stays(s1, dir, name, InodeKind::File, child);
        }
        if let Some(child) = b {
            lemma_entry_stays(s2, dir, name, InodeKind::Dir, child);
        }
    }
}

proof fn lemma_removed_stays(s: State, p: Seq<u8>)
    ensures
        stays(s, ramfs::unlinked(s, p).0),
{
}

proof fn lemma_renamed_stays(s: State, from: Seq<u8>, to: Seq<u8>)
    ensures
        stays(s, ramfs::renamed(s, from, to).0),
{
    if let (Ok((old_dir, old_name)), Ok((new_dir, new_name))) = (
        ramfs::parent_of(s, from),
        ramfs::parent_of(s, to),
    ) {
        let data = ramfs::inode(s, old_dir).data_pa;
        if let Some(i) = ramfs::find_entry(s, data, old_name, 0) {
            let e = ramfs::entry(s, data, i);
            if let Some(kind) = InodeKind::decoded(e.kind) {
                let s1 = ramfs::target_cleared(s, new_dir, new_name).0;
                assert(stays(s, s1));
                let s2 = match ramfs::find_entry(s1, data, old_name, 0) {
                    None => s1,
                    Some(j) => ramfs::entry_removed(s1, old_dir, j),
                };
                assert(stays(s, s2));
                lemma_entry_stays(s2, new_dir, new_name, kind, e.inode_pa);
            }
        }
    }
}

proof fn lemma_table_stays(s: State)
    ensures
        stays(s, syscall::fd_table_got(s).0),
{
}

proof fn lemma_opened_stays(s: State, inode_pa: u64)
    ensures
        stays(s, syscall::opened(s, inode_pa).0),
{
    lemma_table_stays(s);
}

proof fn lemma_open_served_stays(s: State, va: u64, len: u64)
    ensures
        stays(s, syscall::open_served(s, va, len).0),
        stays(s, syscall::create_served(s, va, len).0),
        stays(s, syscall::mkdir_served(s, va, len).0),
        stays(s, syscall::unlink_served(s, va, len).0),
{
    if let Some(p) = syscall::caller_bytes(s, va, len) {
        if let Some(pa) = ramfs::found(s, p) {
            lemma_opened_stays(s, pa);
        }
        lemma_made_stays(s, p);
        lemma_removed_stays(s, p);
        let (s1, r) = ramfs::file_made(s, p);
        if let Ok(pa) = r {
            lemma_opened_stays(s1, pa);
        }
    }
}

proof fn lemma_written_stays(s: State, pa: u64, offset: u64, data: Seq<u8>)
    ensures
        stays(s, ramfs::file_written(s, pa, offset, data).0),
{
}

proof fn lemma_data_served_stays(s: State, fd: u64, va: u64, len: u64)
    ensures
        stays(s, syscall::close_served(s, fd).0),
        stays(s, syscall::read_served(s, fd, va, len).0),
        stays(s, syscall::write_served(s, fd, va, len).0),
        stays(s, syscall::readdir_served(s, fd, va, len).0),
{
    lemma_table_stays(s);
    let (s1, table) = syscall::fd_table_got(s);
    if let Some(t) = table {
        if let Some(e) = ramfs::fd_entry(s1, t, fd) {
            if let Some(data) = syscall::caller_bytes(s1, va, len) {
                lemma_written_stays(s1, e.inode_pa, e.offset, data);
            }
        }
    }
}

proof fn lemma_fs_stays(s: State, l: u64, a2: u64, a3: u64, a4: u64, a5: u64)
    ensures
        stays(s, syscall::fs_served(s, l, a2, a3, a4, a5).0),
{
    lemma_open_served_stays(s, a2, a3);
    lemma_data_served_stays(s, a2, a3, a4);
    if let (Some(from), Some(to)) = (
        syscall::caller_bytes(s, a2, a3),
        syscall::caller_bytes(s, a4, a5),
    ) {
        lemma_renamed_stays(s, from, to);
    }
}

proof fn lemma_child_stays(s: State, cur: u64, child: u64, f: TrapFrame)
    ensures
        stays(s, fork::child_started(s, cur, child, f).0),
{
}

proof fn lemma_clone_stays(s: State, flags: u64, f: TrapFrame)
    ensures
        stays(s, fork::clone_called(s, flags, f).0),
{
    let cur = sched::current(s);
    if cur != 0 {
        let src = vspace::pgd_of(kernel::tcb(s, cur).satp);
        lemma_vspace_stays(s);
        let (s1, pgd) = vspace::elf_vspace_made(s);
        if let Some(p) = pgd {
            let e = objects::at(s1.ptes, src);
            lemma_table_copied_stays(s1, vspace::entry_pa(e), 2, 0, 0, p);
            let (s2, ok) = fork::user_pages_copied(s1, src, p);
            assert(stays(s, s2));
            lemma_thread_stays(s2, 0, vspace::satp_of(p), cur);
            let (s3, child) = crate::thread::linux_thread_made(s2, 0, vspace::satp_of(p), cur);
            if let Some(c) = child {
                lemma_child_stays(s3, cur, c, f);
            }
        }
    }
}

proof fn lemma_write_stays(s: State, fd: u64, ptr: u64, len: u64)
    ensures
        stays(s, files::write_called(s, fd, ptr, len).0),
{
}

proof fn lemma_read_stays(s: State, fd: u64, ptr: u64, len: u64, input: u8)
    ensures
        stays(s, files::read_called(s, fd, ptr, len, input).0),
{
    lemma_user_stored_stays(s, ptr, seq![input]);
    if let Some((t, e)) = files::open_fd(s, fd) {
        lemma_user_stored_stays(
            s,
            ptr,
            ramfs::file_bytes(s, e.inode_pa, e.offset, len as int),
        );
    }
}

proof fn lemma_ensured_stays(s: State)
    ensures
        stays(s, files::table_ensured(s).0),
{
}

proof fn lemma_path_opened_stays(s: State, p: Seq<u8>, flags: u64)
    ensures
        stays(s, files::path_opened(s, p, flags).0),
{
    lemma_made_stays(s, p);
    let s1 = files::open_target(s, p, flags).0;
    assert(stays(s, s1));
    lemma_ensured_stays(s1);
}

proof fn lemma_descriptor_calls_stay(s: State, a0: u64, a1: u64, a2: u64)
    ensures
        stays(s, files::openat_called(s, a0, a1, a2).0),
        stays(s, files::close_called(s, a0).0),
        stays(s, files::lseek_called(s, a0, a1 as i64, a2).0),
        stays(s, files::dup_called(s, a0, None).0),
        stays(s, files::dup_called(s, a0, Some(a1)).0),
{
    if let Ok(Ok(p)) = files::path_at(s, a1) {
        lemma_path_opened_stays(s, p, a2);
    }
}

proof fn lemma_stats_stay(s: State, a0: u64, a1: u64, a2: u64)
    ensures
        stays(s, files::fstat_called(s, a0, a1).0),
        stays(s, files::newfstatat_called(s, a0, a1, a2).0),
{
    lemma_user_stored_stays(s, a1, files::console_stat_bytes());
    if let Some((t, e)) = files::open_fd(s, a0) {
        lemma_user_stored_stays(s, a1, files::inode_stat(s, e.inode_pa));
    }
    if let Ok(Ok(p)) = files::path_at(s, a1) {
        if let Some(pa) = ramfs::found(s, p) {
            lemma_user_stored_stays(s, a2, files::inode_stat(s, pa));
        }
    }
}

proof fn lemma_dir_calls_stay(s: State, a0: u64, a1: u64, a2: u64)
    ensures
        stays(s, dirs::getdents_called(s, a0, a1, a2).0),
        stays(s, dirs::getcwd_called(s, a0, a1).0),
        stays(s, dirs::chdir_called(s, a0).0),
        stays(s, dirs::mkdirat_called(s, a0, a1).0),
{
    if let Some((t, e)) = files::open_fd(s, a0) {
        lemma_records_stay(s, e.inode_pa, a1, a2 as int, e.offset, 0);
    }
    lemma_user_stored_stays(s, a0, files::base_dir(s).push(0));
    lemma_ensured_stays(s);
    if let Ok(Ok(p)) = files::path_at(s, a1) {
        lemma_made_stays(s, p);
    }
}

proof fn lemma_file_call_stays(s: State, n: u64, a0: u64, a1: u64, a2: u64, input: u8)
    ensures
        stays(s, linux_compat::file_called(s, n, a0, a1, a2, input).0),
{
    lemma_write_stays(s, a0, a1, a2);
    lemma_read_stays(s, a0, a1, a2, input);
    lemma_writev_stays(s, a0, a1, 0, a2 as nat, 0);
    lemma_descriptor_calls_stay(s, a0, a1, a2);
    lemma_stats_stay(s, a0, a1, a2);
    lemma_dir_calls_stay(s, a0, a1, a2);
}

proof fn lemma_other_call_stays(s: State, f: TrapFrame)
    ensures
        stays(s, linux_compat::other_called(s, f).0),
{
    let n = f.x[17];
    let a0 = f.x[10];
    let a1 = f.x[11];
    let a2 = f.x[12];
    if n == nr::SYS_BRK {
        let t = kernel::tcb(s, sched::current(s));
        lemma_heap_stays(s, vspace::pgd_of(t.satp), t.brk_mapped, memory::page_up(a0));
    } else if n == nr::SYS_MMAP {
        let cur = sched::current(s);
        let t0 = kernel::tcb(s, cur);
        let s1 = if t0.mmap_bump == 0 {
            kernel::with_tcb(s, cur, Tcb { mmap_bump: memory::MMAP_BASE, ..t0 })
        } else {
            s
        };
        let t = kernel::tcb(s1, cur);
        let pages = memory::page_up(a1) / 4096;
        let va = if a0 != 0 {
            memory::page_up(a0)
        } else {
            t.mmap_bump
        };
        lemma_pages_mapped_stays(s1, vspace::pgd_of(t.satp), va, pages as nat);
    } else if n == nr::SYS_UNAME {
        lemma_fields_stay(s, a0, 6);
    } else if n == nr::SYS_CLOCK_GETTIME {
        lemma_user_stored_stays(s, a1, files::zeros(16));
    } else if n == nr::SYS_IOCTL {
        lemma_user_stored_stays(s, a2, seq![24u8, 0, 80, 0, 0, 0, 0, 0]);
        lemma_user_stored_stays(s, a2, seq![1u8, 0, 0, 0]);
        lemma_user_stored_stays(s, a2, seq![0u8, 0, 0, 0]);
    } else if n == nr::SYS_CLONE {
        lemma_clone_stays(s, a0, f);
    }
}

/// Waking a thread with a reply changes no program counter and not who is
/// current.
proof fn lemma_unblocked(s: State, pa: u64, reply: [u64; 8], p: u64)
    ensures
        stays(s, sched::unblocked(s, pa, reply)),
        kernel::tcb(sched::unblocked(s, pa, reply), p).frame.sepc == kernel::tcb(s, p).frame.sepc,
{
}

proof fn lemma_woken(s: State, pa: u64, p: u64)
    ensures
        stays(s, sched::woken(s, pa)),
        kernel::tcb(sched::woken(s, pa), p).frame == kernel::tcb(s, p).frame,
{
}

/// A thread that exits has saved the context of its last call.
proof fn lemma_exited(s: State, f: TrapFrame)
    requires
        s.hart < MAX_HARTS,
        sched::current(s) != 0,
    ensures
        ({
            let (s1, f1) = sched::exited(s, f);
            contexts::context(s1, f1, sched::current(s)).sepc == f.sepc
        }),
{
    let cur = sched::current(s);
    let t = kernel::tcb(s, cur);
    let s1 = kernel::with_tcb(
        s,
        cur,
        Tcb { frame: f, state: TcbState::Exited, exit_code: f.x[12], waiter_pa: 0, ..t },
    );
    let s2 = State {
        sched: Sched { live_threads: s1.sched.live_threads.wrapping_sub(1), ..s1.sched },
        ..s1
    };
    let s3 = if t.waiter_pa != 0 {
        sched::waiter_woken(s2, cur, t.waiter_pa)
    } else {
        s2
    };
    if t.waiter_pa != 0 {
        let c = kernel::tcb(s2, cur);
        let w = kernel::tcb(s2, t.waiter_pa);
        let target = vspace::translated(s2.ptes, vspace::pgd_of(w.satp), w.frame.x[11]);
        lemma_unblocked(s2, t.waiter_pa, [c.pid, 0, 0, 0, 0, 0, 0, 0], cur);
        lemma_unblocked(s2, t.waiter_pa, [0, c.exit_code, 0, 0, 0, 0, 0, 0], cur);
        if let Some(pa) = target {
            let s4 = kernel::with_bytes(s2, pa, sched::wait_status(c.exit_code));
            lemma_unblocked(s4, t.waiter_pa, [c.pid, 0, 0, 0, 0, 0, 0, 0], cur);
        }
    }
    assert(kernel::tcb(s3, cur).frame.sepc == f.sepc);
    contexts::lemma_switched(sched::with_current(s3, 0), f, cur);
}

proof fn lemma_sent(
    s: State,
    e: Endpoint,
    f: TrapFrame,
    badge: u64,
    msg: [u64; 4],
    is_call: bool,
)
    requires
        s.hart < MAX_HARTS,
        sched::current(s) != 0,
    ensures
        ({
            let (s1, e1, f1) = endpoint::sent(s, e, f, badge, msg, is_call);
            contexts::context(s1, f1, sched::current(s)).sepc == f.sepc
        }),
{
    let cur = sched::current(s);
    if e.state is RecvBlocked {
        let (s1, e1, recv) = endpoint::ep_unqueued(s, e);
        let r = kernel::tcb(s1, recv);
        let s2 = kernel::with_tcb(
            s1,
            recv,
            Tcb {
                frame: trap::replied(
                    r.frame,
                    [error::OK, badge, msg[0], msg[1], msg[2], msg[3], 0, 0],
                ),
                ..r
            },
        );
        let s3 = if f.x[16] != 0 && cur != 0 {
            endpoint::transferred(s2, kernel::tcb(s2, cur), recv, f.x[16])
        } else {
            s2
        };
        assert(stays(s, s3));
        if is_call {
            let s4 = kernel::with_tcb(s3, recv, Tcb { reply_pa: cur, ..kernel::tcb(s3, recv) });
            lemma_woken(s4, recv, cur);
            contexts::law_leaving_keeps_contexts(sched::woken(s4, recv), f, cur);
        } else {
            lemma_woken(s3, recv, cur);
        }
    } else {
        let s1 = kernel::with_tcb(s, cur, Tcb { ipc_is_call: is_call, ..kernel::tcb(s, cur) });
        contexts::law_leaving_keeps_contexts(s1, f, cur);
    }
}

proof fn lemma_received(s: State, e: Endpoint, f: TrapFrame)
    requires
        s.hart < MAX_HARTS,
        sched::current(s) != 0,
    ensures
        ({
            let (s1, e1, f1) = endpoint::received(s, e, f);
            contexts::context(s1, f1, sched::current(s)).sepc == f.sepc
        }),
{
    let cur = sched::current(s);
    let s0 = kernel::with_tcb(s, cur, Tcb { cap_recv_slot: f.x[16], ..kernel::tcb(s, cur) });
    if e.state is SendBlocked {
        let (s1, e1, send) = endpoint::ep_unqueued(s0, e);
        let t = kernel::tcb(s1, send);
        let s2 = if t.frame.x[16] != 0 {
            endpoint::transferred(s1, t, cur, t.frame.x[16])
        } else {
            kernel::with_tcb(s1, cur, Tcb { cap_recv_slot: 0, ..kernel::tcb(s1, cur) })
        };
        assert(stays(s, s2));
        lemma_unblocked(s2, send, [error::OK, 0, 0, 0, 0, 0, 0, 0], cur);
    } else {
        contexts::law_leaving_keeps_contexts(s0, f, cur);
    }
}

proof fn lemma_thread_invoked(s: State, f: TrapFrame, c: Cap)
    requires
        s.hart < MAX_HARTS,
        sched::current(s) != 0,
    ensures
        ({
            let (s1, f1) = invoke::thread_invoked(s, f, c);
            contexts::context(s1, f1, sched::current(s)).sepc == f.sepc
        }),
{
    let cur = sched::current(s);
    let t = kernel::tcb(s, c.ptr);
    let s1 = kernel::with_tcb(s, c.ptr, Tcb { waiter_pa: cur, ..t });
    contexts::law_leaving_keeps_contexts(s1, f, cur);
}

proof fn lemma_endpoint_invoked(s: State, f: TrapFrame, c: Cap)
    requires
        s.hart < MAX_HARTS,
        sched::current(s) != 0,
    ensures
        ({
            let (s1, f1) = invoke::endpoint_invoked(s, f, c);
            contexts::context(s1, f1, sched::current(s)).sepc == f.sepc
        }),
{
    let cur = sched::current(s);
    let l = f.x[11];
    let e = objects::at(s.endpoints, c.ptr);
    let msg = [f.x[13], f.x[14], f.x[15], f.x[16]];
    if l == label::ENDPOINT_SEND || l == label::ENDPOINT_CALL {
        lemma_sent(s, e, f, f.x[12], msg, l == label::ENDPOINT_CALL);
    } else if l == label::ENDPOINT_RECV {
        lemma_received(s, e, f);
    } else if l == label::ENDPOINT_REPLY_RECV {
        let reply = [error::OK, 0, f.x[12], 0, 0, 0, 0, 0];
        let s1 = endpoint::reply_delivered(s, reply);
        let t = kernel::tcb(s, cur);
        let s2 = kernel::with_tcb(s, cur, Tcb { reply_pa: 0, ..t });
        lemma_unblocked(s2, t.reply_pa, reply, cur);
        lemma_received(s1, e, f);
    }
}

proof fn lemma_notification_invoked(s: State, f: TrapFrame, c: Cap)
    requires
        s.hart < MAX_HARTS,
        sched::current(s) != 0,
    ensures
        ({
            let (s1, f1) = invoke::notification_invoked(s, f, c);
            contexts::context(s1, f1, sched::current(s)).sepc == f.sepc
        }),
{
    let cur = sched::current(s);
    let n = objects::at(s.notifications, c.ptr);
    lemma_unblocked(s, n.waiter, [error::OK, n.badge | f.x[12], 0, 0, 0, 0, 0, 0], cur);
    contexts::law_leaving_keeps_contexts(s, f, cur);
}

proof fn lemma_codes_stay(s: State, f: TrapFrame, c: Cap, cs: (u64, u64))
    ensures
        stays(s, invoke::cnode_invoked(s, f, c).0),
        stays(s, invoke::untyped_invoked(s, f, c, cs).0),
        stays(s, invoke::handler_issued(s, f, cs).0),
        stays(s, invoke::frame_mapped(s, f, c).0),
{
    if let Some(t) = CapType::decoded(f.x[12] as u8) {
        let count: u64 = if f.x[15] == 0 {
            1
        } else {
            f.x[15]
        };
        lemma_carved_stays(s, c.ptr, t, f.x[13], cs.0, cs.1, f.x[14], 0, count as nat);
    }
    let pgd = vspace::pgd_of(kernel::tcb(s, sched::current(s)).satp);
    lemma_mapped_stays(s, pgd, f.x[12], c.ptr, f.x[13] | mmu::PTE_U, 3);
}

#[verifier::rlimit(40)]
proof fn lemma_invoked(s: State, f: TrapFrame, c: Cap, cs: (u64, u64))
    requires
        s.hart < MAX_HARTS,
        sched::current(s) != 0,
    ensures
        ({
            let (s1, f1) = invoke::invoked(s, f, c, cs);
            contexts::context(s1, f1, sched::current(s)).sepc == f.sepc
        }),
{
    if f.x[11] == label::CAP_IDENTIFY || f.x[11] == label::DEBUG_PUTCHAR {
    } else if c.cap_type is Thread {
        lemma_thread_invoked(s, f, c);
    } else if c.cap_type is Endpoint {
        lemma_endpoint_invoked(s, f, c);
    } else if c.cap_type is Notification {
        lemma_notification_invoked(s, f, c);
    } else {
        lemma_codes_stay(s, f, c, cs);
        lemma_coded(s, invoke::cnode_invoked(s, f, c), f);
        lemma_coded(s, invoke::untyped_invoked(s, f, c, cs), f);
        lemma_coded(s, invoke::handler_issued(s, f, cs), f);
        lemma_coded(s, invoke::frame_mapped(s, f, c), f);
    }
}

/// A call that is answered with a code.
proof fn lemma_coded(s: State, p: (State, u64), f: TrapFrame)
    requires
        stays(s, p.0),
    ensures
        ({
            let (s1, f1) = invoke::with_code(p, f);
            contexts::context(s1, f1, sched::current(s)).sepc == f.sepc
        }),
{
}

proof fn lemma_dispatched(s: State, f: TrapFrame)
    requires
        s.hart < MAX_HARTS,
        sched::current(s) != 0,
    ensures
        ({
            let (s1, f1) = syscall::dispatched(s, f);
            contexts::context(s1, f1, sched::current(s)).sepc == f.sepc
        }),
{
    let cur = sched::current(s);
    let l = f.x[11];
    if l == label::CONSOLE_GETCHAR {
        let s1 = console::with_io_waiters(s, s.sched.io_waiters.wrapping_add(1));
        contexts::law_leaving_keeps_contexts(s1, f, cur);
    } else if syscall::is_fs_label(l) {
        lemma_fs_stays(s, l, f.x[12], f.x[13], f.x[14], f.x[15]);
    } else if l == label::PROC_SPAWN || l == label::PROC_LINUX_SPAWN {
        lemma_spawns_stay(s, f.x[12], f.x[13], f.x[14]);
    } else if l == label::THREAD_EXIT {
        lemma_exited(s, f);
    } else if l == label::ENDPOINT_REPLY {
        let t = kernel::tcb(s, cur);
        let s1 = kernel::with_tcb(s, cur, Tcb { reply_pa: 0, ..t });
        lemma_unblocked(
            s1,
            t.reply_pa,
            [error::OK, 0, f.x[12], f.x[13], f.x[14], f.x[15], f.x[16], 0],
            cur,
        );
    } else {
        let cs = syscall::caller_cspace(s);
        let c = cnode::slot(s.caps, cs.0, f.x[10]);
        lemma_invoked(s, f, c, cs);
    }
}

proof fn lemma_linux_dispatched(s: State, f: TrapFrame, input: u8)
    requires
        s.hart < MAX_HARTS,
        sched::current(s) != 0,
        f.x[17] != nr::SYS_EXECVE,
    ensures
        ({
            let (s1, f1, r) = linux_compat::dispatched(s, f, input);
            contexts::context(s1, f1, sched::current(s)).sepc == f.sepc
        }),
{
    let cur = sched::current(s);
    let n = f.x[17];
    if n == nr::SYS_EXIT || n == nr::SYS_EXIT_GROUP {
        lemma_exited(s, trap::with_x(f, 12, f.x[10]));
    } else if n == nr::SYS_SCHED_YIELD {
        contexts::law_leaving_keeps_contexts(s, f, cur);
    } else if n == nr::SYS_WAIT4 {
        if let Some(child) = wait::newest(s, s.threads, cur, f.x[10] as i64, false) {
            let s1 = kernel::with_tcb(
                s,
                child,
                Tcb { waiter_pa: cur, ..kernel::tcb(s, child) },
            );
            contexts::law_leaving_keeps_contexts(s1, f, cur);
        }
    } else {
        lemma_file_call_stays(s, n, f.x[10], f.x[11], f.x[12], input);
        lemma_other_call_stays(s, f);
    }
}

/// A thread that makes a system call goes on behind the four bytes of the
/// instruction that made it: at once when the call returns to it, and later from
/// its saved context when it gives up the processor. A successful execve alone
/// goes on elsewhere.
pub proof fn law_call_resumes_after(s: State, f: TrapFrame, scause: u64, d: Devices)
    requires
        scause == trap::CAUSE_ECALL_U || scause == trap::CAUSE_ECALL_S,
        s.hart < MAX_HARTS,
        sched::current(s) != 0,
        trap::is_linux(s) ==> f.x[17] != nr::SYS_EXECVE,
    ensures
        ({
            let (s1, f1, end) = trap::trapped(s, f, scause, d);
            contexts::context(s1, f1, sched::current(s)).sepc == f.sepc.wrapping_add(4)
        }),
{
    let s0 = State { trap_count: s.trap_count.wrapping_add(1), ..s };
    let f1 = TrapFrame { sepc: f.sepc.wrapping_add(4), ..f };
    assert(8u64 & 0x8000_0000_0000_0000 == 0 && 9u64 & 0x8000_0000_0000_0000 == 0)
        by (bit_vector);
    assert(trap::is_linux(s0) == trap::is_linux(s));
    if trap::is_linux(s0) {
        lemma_linux_dispatched(s0, f1, d.input);
    } else {
        lemma_dispatched(s0, f1);
    }
}

/// An execve that fails returns to its caller: the error is in a0, and the
/// program counter and all other registers are as they were.
pub proof fn law_failed_execve_returns(s: State, f: TrapFrame, p: Seq<u8>, argv: u64)
    ensures
        ({
            let (s1, f1, r) = exec::path_executed(s, f, p, argv);
            r matches Ok(Err(e)) ==> f1 == f
        }),
{
}

} // verus!
