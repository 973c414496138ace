//! Program images and the Linux ABI.
use ferrite::arch::riscv64::mmu::{PTE_R, PTE_U, PTE_W};
use ferrite::arch::riscv64::trap::{needed, trap_handler, Devices, Needed, TrapEnd, TrapFrame};
use ferrite::arch::riscv64::vspace::{create_elf_vspace, map_page, satp_to_pgd_pa, va_to_pa};
use ferrite::elf::{self, ElfError};
use ferrite::fs::ramfs;
use ferrite::kernel::{fresh_page, Kernel};
use ferrite::linux_compat::exec::spawn_linux_process;
use ferrite::linux_compat::user::PageFault;
use ferrite::linux_compat::{self, dirs, errno, files, fork, info, memory, nr, wait, wants_byte};
use ferrite::mm;
use ferrite::mm::buddy::PAGE_SIZE;
use ferrite::objects::Zeroed;
use ferrite::proc::Programs;
use ferrite::sched;

const BASE: u64 = 0x8000_0000;
const SCRATCH: u64 = 0x5_0000;

fn image() -> Vec<u8> {
    let mut b: Vec<u8> = vec![0x7f, 0x45, 0x4c, 0x46, 2, 1, 1, 0];
    b.resize(64, 0);
    b[24..32].copy_from_slice(&0x1_0010u64.to_le_bytes());
    b[32..40].copy_from_slice(&64u64.to_le_bytes());
    b[54..56].copy_from_slice(&56u16.to_le_bytes());
    b[56..58].copy_from_slice(&1u16.to_le_bytes());
    b.extend(1u32.to_le_bytes());
    b.extend(7u32.to_le_bytes());
    b.extend(120u64.to_le_bytes());
    b.extend(0x1_0010u64.to_le_bytes());
    b.extend(0x1_0010u64.to_le_bytes());
    b.extend(4u64.to_le_bytes());
    b.extend(0x2000u64.to_le_bytes());
    b.extend(4096u64.to_le_bytes());
    b.extend([1, 2, 3, 4]);
    b
}

fn kernel() -> Kernel {
    let regions = vec![(BASE, Some(2048 * PAGE_SIZE))];
    let mm = mm::from_regions(&regions, BASE, BASE + (1 << 30)).unwrap();
    let mut k = Kernel::new(
        mm,
        Programs { init: vec![], spawn_demo: vec![], linux_demo: image() },
    );
    assert!(ramfs::init(&mut k));
    k
}

/// A kernel with one Linux process that runs, and a scratch page for it.
fn process() -> (Kernel, TrapFrame, u64) {
    let mut k = kernel();
    let pa = spawn_linux_process(&mut k, &image(), &vec![b"prog".to_vec()], 0).unwrap();
    let pgd = satp_to_pgd_pa(k.tcb(pa).satp);
    let page = fresh_page(&mut k).unwrap();
    map_page(&mut k, pgd, SCRATCH, page, PTE_R | PTE_W | PTE_U).unwrap();
    sched::enqueue(&mut k, pa, 0);
    sched::start_scheduling(&mut k);
    let mut f = TrapFrame::zero();
    f.sstatus = 0x100;
    sched::on_timer(&mut k, &mut f);
    assert_eq!(sched::current_pa(&k), pa);
    (k, f, page)
}

fn at_cwd() -> u64 {
    (-100i64) as u64
}

#[test]
fn image_is_loaded_and_zero_filled() {
    let mut k = kernel();
    let pgd = create_elf_vspace(&mut k).unwrap();
    assert_eq!(elf::load_with_end(&mut k, &image(), pgd), Ok((0x1_0010, 0x1_3000)));
    let pa = va_to_pa(&k, pgd, 0x1_0010).unwrap();
    assert_eq!(k.read_bytes(pa - 1, 7), vec![0, 1, 2, 3, 4, 0, 0]);
    let last = va_to_pa(&k, pgd, 0x1_200f).unwrap();
    assert_eq!(k.read_bytes(last, 1), vec![0]);
    assert_eq!(va_to_pa(&k, pgd, 0x1_3000), None);
}

#[test]
fn bad_images_are_refused() {
    let mut k = kernel();
    let pgd = create_elf_vspace(&mut k).unwrap();
    let mut try_with = |change: &dyn Fn(&mut Vec<u8>)| {
        let mut b = image();
        change(&mut b);
        elf::load(&mut k, &b, pgd)
    };
    assert_eq!(try_with(&|b| b.truncate(63)), Err(ElfError::TooShort));
    assert_eq!(try_with(&|b| b[0] = 0), Err(ElfError::BadMagic));
    assert_eq!(try_with(&|b| b[4] = 1), Err(ElfError::NotElf64));
    assert_eq!(try_with(&|b| b[5] = 2), Err(ElfError::NotLittleEndian));
    assert_eq!(try_with(&|b| b[56] = 0), Err(ElfError::BadPhdrs));
    assert_eq!(try_with(&|b| b[32] = 200), Err(ElfError::PhdrOutOfBounds));
    assert_eq!(try_with(&|b| b[96] = 9), Err(ElfError::SegmentOutOfBounds));
    assert_eq!(
        try_with(&|b| b[80..88].copy_from_slice(&u64::MAX.to_le_bytes())),
        Err(ElfError::AddressOutOfRange)
    );
}

#[test]
fn map_conflict_and_memory_shortage_are_reported() {
    let mut k = kernel();
    let pgd = create_elf_vspace(&mut k).unwrap();
    let mut b = image();
    b[80..88].copy_from_slice(&0x8000_0000u64.to_le_bytes());
    assert_eq!(elf::load(&mut k, &b, pgd), Err(ElfError::MapConflict));
    let regions = vec![(BASE, Some(6 * PAGE_SIZE))];
    let mm = mm::from_regions(&regions, BASE, BASE + (1 << 30)).unwrap();
    let mut small = Kernel::new(mm, Programs { init: vec![], spawn_demo: vec![], linux_demo: vec![] });
    let pgd = fresh_page(&mut small).unwrap();
    let mut big = image();
    big[104..112].copy_from_slice(&0x10_0000u64.to_le_bytes());
    assert_eq!(elf::load(&mut small, &big, pgd), Err(ElfError::OutOfMemory));
}

#[test]
fn heap_grows_and_is_mapped() {
    let (mut k, _, _) = process();
    let start = memory::sys_brk(&mut k, 0);
    assert_eq!(start, 0x1_3000);
    assert_eq!(memory::sys_brk(&mut k, 0x1_3001), 0x1_3001);
    let cur = sched::current_pa(&k);
    let pgd = satp_to_pgd_pa(k.tcb(cur).satp);
    assert!(va_to_pa(&k, pgd, 0x1_3fff).is_some());
    assert_eq!(va_to_pa(&k, pgd, 0x1_4000), None);
    let a = memory::sys_mmap_anon(&mut k, 0, 1);
    assert_eq!(a, 0x4000_0000);
    assert!(va_to_pa(&k, pgd, a as u64).is_some());
}

#[test]
fn relative_paths_use_the_working_directory() {
    let (mut k, _, page) = process();
    ramfs::fs_mkdir(&mut k, b"/etc").unwrap();
    k.write_bytes(page, b"/etc\0rc\0");
    assert_eq!(dirs::sys_chdir(&mut k, SCRATCH), Ok(0));
    assert_eq!(files::resolve(&k, b"rc"), Ok(b"/etc/rc".to_vec()));
    assert_eq!(files::resolve(&k, b"../x"), Ok(b"/x".to_vec()));
    let fd = files::sys_openat(&mut k, at_cwd(), SCRATCH + 5, 0x42);
    assert_eq!(fd, Ok(3));
    assert!(ramfs::fs_open(&k, b"/etc/rc").is_some());
    assert_eq!(dirs::sys_getcwd(&mut k, SCRATCH + 0x100, 64), Ok(5));
    assert_eq!(k.read_bytes(page + 0x100, 5), b"/etc\0");
    assert_eq!(dirs::sys_faccessat(&k, at_cwd(), SCRATCH + 5), Ok(0));
    assert_eq!(dirs::sys_mkdirat(&mut k, at_cwd(), SCRATCH), Ok(errno::EEXIST));
}

#[test]
fn file_calls() {
    let (mut k, _, page) = process();
    k.write_bytes(page, b"/f\0hello");
    let fd = files::sys_openat(&mut k, at_cwd(), SCRATCH, 0x42).unwrap() as u64;
    assert_eq!(files::sys_write(&mut k, fd, SCRATCH + 3, 5), Ok(5));
    assert_eq!(files::sys_lseek(&mut k, fd, -2, 2), 3);
    assert_eq!(files::sys_read(&mut k, fd, SCRATCH + 0x80, 16, 0), Ok(2));
    assert_eq!(k.read_bytes(page + 0x80, 2), b"lo");
    let copy = files::sys_dup(&mut k, fd, None);
    assert_eq!(copy, 4);
    assert_eq!(files::sys_close(&mut k, fd), 0);
    assert_eq!(files::sys_fstat(&mut k, 4, SCRATCH + 0x100), Ok(0));
    assert_eq!(k.read_bytes(page + 0x100 + 48, 1), vec![5]);
    assert_eq!(files::sys_openat(&mut k, at_cwd(), SCRATCH + 3, 0), Ok(errno::ENOENT));
    assert_eq!(files::sys_write(&mut k, 9, SCRATCH, 1), Ok(errno::EBADF));
    // An address that is not mapped.
    assert_eq!(files::sys_write(&mut k, 4, 0x9_0000, 1), Err(PageFault));
}

#[test]
fn standard_output_is_the_console() {
    let (mut k, _, page) = process();
    k.write_bytes(page, b"hi");
    assert_eq!(files::sys_write(&mut k, 1, SCRATCH, 2), Ok(2));
    assert!(k.tx.ends_with(b"hi"));
}

#[test]
fn console_input_is_asked_for() {
    let (mut k, mut f, page) = process();
    f.x[10] = 0;
    f.x[11] = SCRATCH;
    f.x[12] = 1;
    f.x[17] = nr::SYS_READ;
    assert!(wants_byte(&f));
    assert_eq!(needed(&k, &f, 8), Needed::Byte);
    let d = Devices { irq: 0, rx: None, input: 113, instr: 0 };
    assert_eq!(trap_handler(&mut k, &mut f, 8, d), TrapEnd::Resume);
    assert_eq!(f.x[10], 1);
    assert_eq!(k.read_bytes(page, 1), vec![113]);
}

#[test]
fn clone_returns_twice_and_wait_reports() {
    let (mut k, mut f, page) = process();
    let parent = sched::current_pa(&k);
    k.write_bytes(page, b"copied");
    f.sepc = 0x1_0020;
    let pid = fork::sys_clone(&mut k, 17, &f);
    let child = *k.threads.last().unwrap();
    assert_eq!(pid as u64, k.tcb(child).pid);
    assert_eq!(k.tcb(child).frame.x[10], 0);
    assert_eq!(k.tcb(child).frame.sepc, 0x1_0020);
    let pgd = satp_to_pgd_pa(k.tcb(child).satp);
    let theirs = va_to_pa(&k, pgd, SCRATCH).unwrap();
    assert_ne!(theirs, page);
    assert_eq!(k.read_bytes(theirs, 6), b"copied");
    // The parent waits; the child runs and exits.
    f.x[11] = SCRATCH + 0x40;
    wait::sys_wait4(&mut k, pid, SCRATCH + 0x40, &mut f);
    assert_eq!(sched::current_pa(&k), child);
    f.x[12] = 42;
    sched::exit_current(&mut k, &mut f);
    assert_eq!(sched::current_pa(&k), parent);
    assert_eq!(f.x[10] as i64, pid);
    assert_eq!(k.read_bytes(page + 0x40, 4), vec![0, 42, 0, 0]);
    wait::sys_wait4(&mut k, 77, 0, &mut f);
    assert_eq!(f.x[10] as i64, errno::ECHILD);
    wait::sys_wait4(&mut k, -1, 0, &mut f);
    assert_eq!(f.x[10] as i64, pid);
    assert_eq!(fork::sys_clone(&mut k, errno::CLONE_VM, &f), errno::ENOSYS);
}

#[test]
fn unknown_call_is_refused_with_a_notice() {
    let (mut k, mut f, _) = process();
    f.x[17] = 999;
    assert_eq!(linux_compat::dispatch(&mut k, &mut f, 0), Ok(()));
    assert_eq!(f.x[10] as i64, errno::ENOSYS);
    assert!(k.tx.ends_with(b"[999?]"));
    f.x[17] = nr::SYS_UMASK;
    assert_eq!(linux_compat::dispatch(&mut k, &mut f, 0), Ok(()));
    assert_eq!(f.x[10], 0o022);
}

#[test]
fn process_numbers() {
    let (k, _, _) = process();
    assert_eq!(info::current_pid(&k), 1);
    assert_eq!(info::sys_getppid(&k), 0);
}

#[test]
fn directory_records() {
    let (mut k, _, page) = process();
    ramfs::fs_mkdir(&mut k, b"/d").unwrap();
    k.write_bytes(page, b"/\0");
    let fd = files::sys_openat(&mut k, at_cwd(), SCRATCH, 0).unwrap() as u64;
    let n = dirs::sys_getdents64(&mut k, fd, SCRATCH + 0x100, 512).unwrap();
    assert_eq!(n, 24);
    let r = k.read_bytes(page + 0x100, 24);
    assert_eq!((r[16], r[17]), (24, 0));
    assert_eq!(r[18], 4);
    assert_eq!(&r[19..21], b"d\0");
    assert_eq!(dirs::sys_getdents64(&mut k, fd, SCRATCH + 0x100, 512), Ok(0));
}

#[test]
fn later_segment_has_a_shared_page() {
    let mut k = kernel();
    let pgd = create_elf_vspace(&mut k).unwrap();
    let mut b = image();
    b[56..58].copy_from_slice(&2u16.to_le_bytes());
    // The second header comes between the first and the contents.
    let mut second: Vec<u8> = Vec::new();
    second.extend(1u32.to_le_bytes());
    second.extend(4u32.to_le_bytes());
    second.extend(178u64.to_le_bytes());
    second.extend(0x1_1004u64.to_le_bytes());
    second.extend(0x1_1004u64.to_le_bytes());
    second.extend(2u64.to_le_bytes());
    second.extend(8u64.to_le_bytes());
    second.extend(4096u64.to_le_bytes());
    b.splice(120..120, second);
    b[72..80].copy_from_slice(&176u64.to_le_bytes());
    assert_eq!(elf::load_with_end(&mut k, &b, pgd), Ok((0x1_0010, 0x1_3000)));
    let byte = |va: u64| k.read_bytes(va_to_pa(&k, pgd, va).unwrap(), 1)[0];
    assert_eq!([byte(0x1_0010), byte(0x1_0013), byte(0x1_0014)], [1, 4, 0]);
    assert_eq!([byte(0x1_1003), byte(0x1_1004), byte(0x1_1005), byte(0x1_1006)], [0, 3, 4, 0]);
    assert_eq!(byte(0x1_200f), 0);
}
