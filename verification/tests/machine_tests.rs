//! Whole-system runs: programs and the kernel, one trap at a time.
use ferrite::arch::riscv64::mmu::{self, PTE_R, PTE_U, PTE_W};
use ferrite::arch::riscv64::trap::{
    trap_handler, Devices, TrapEnd, TrapFrame, CAUSE_ECALL_U, INTERRUPT_SUPERVISOR_TIMER,
};
use ferrite::arch::riscv64::vspace::{map_page, satp_to_pgd_pa, va_to_pa};
use ferrite::boot;
use ferrite::console;
use ferrite::fs::ramfs;
use ferrite::decimal::decimal;
use ferrite::kernel::{fresh_page, Kernel};
use ferrite::linux_compat::nr;
use ferrite::mm;
use ferrite::mm::buddy::PAGE_SIZE;
use ferrite::objects::Zeroed;
use ferrite::proc::Programs;
use ferrite::sched;
use ferrite::syscall::label;
use ferrite::user::demos::{self, Ask, Demo, Program};
use ferrite::user::script;
use ferrite::user::selftest::{self, SelfTest};
use ferrite::user::shell::{self, text, Shell};
use std::collections::HashMap;

const BASE: u64 = 0x8000_0000;
/// A page for strings and buffers in every address space.
const SCRATCH: u64 = 0x5_0000;
const BUFFER: u64 = SCRATCH + 0x800;

/// An image with one executable segment.
fn image() -> Vec<u8> {
    let mut b: Vec<u8> = vec![0x7f, 0x45, 0x4c, 0x46, 2, 1, 1, 0];
    b.resize(64, 0);
    b[24..32].copy_from_slice(&0x1_0000u64.to_le_bytes());
    b[32..40].copy_from_slice(&64u64.to_le_bytes());
    b[54..56].copy_from_slice(&56u16.to_le_bytes());
    b[56..58].copy_from_slice(&1u16.to_le_bytes());
    let mut p: Vec<u8> = Vec::new();
    p.extend(1u32.to_le_bytes());
    p.extend(5u32.to_le_bytes());
    p.extend(120u64.to_le_bytes());
    p.extend(0x1_0000u64.to_le_bytes());
    p.extend(0x1_0000u64.to_le_bytes());
    p.extend(4u64.to_le_bytes());
    p.extend(8u64.to_le_bytes());
    p.extend(4096u64.to_le_bytes());
    b.extend(p);
    b.extend([0x13, 0, 0, 0]);
    b
}

enum Task {
    Native(Demo),
    Lx(SelfTest, Option<selftest::Call<&'static str>>),
    Sh(Box<Shell>, bool),
    /// Takes a capability over IPC and calls it.
    Grantee(u8),
}

struct Machine {
    k: Kernel,
    frame: TrapFrame,
    tasks: HashMap<u64, Task>,
    started: HashMap<u64, bool>,
    out: Vec<u8>,
    exec_arg: Option<Vec<u8>>,
}

fn machine() -> Machine {
    let regions = vec![(BASE, Some(4096 * PAGE_SIZE))];
    let mm = mm::from_regions(&regions, BASE + 0x20_0000, BASE + (1 << 30)).unwrap();
    let programs = Programs { init: image(), spawn_demo: image(), linux_demo: image() };
    let mut k = Kernel::new(mm, programs);
    let pgd = fresh_page(&mut k).unwrap();
    let low = fresh_page(&mut k).unwrap();
    let user = fresh_page(&mut k).unwrap();
    let p = mmu::enable_paging(pgd, low, user);
    boot::set_paging(&mut k, &p, user);
    assert!(boot::make_root(&mut k));
    Machine {
        k,
        frame: TrapFrame::zero(),
        tasks: HashMap::new(),
        started: HashMap::new(),
        out: Vec::new(),
        exec_arg: None,
    }
}

impl Machine {
    fn text(&self) -> String {
        String::from_utf8_lossy(&self.out).into_owned()
    }

    /// Give the threads that were created last their programs, oldest first.
    fn attach(&mut self, tasks: Vec<Task>) {
        let first = self.k.threads.len() - tasks.len();
        for (i, t) in tasks.into_iter().enumerate() {
            let pa = self.k.threads[first + i];
            self.tasks.insert(pa, t);
        }
    }

    fn pgd(&self) -> u64 {
        let cur = sched::current_pa(&self.k);
        satp_to_pgd_pa(self.k.tcb(cur).satp)
    }

    fn scratch(&mut self) -> u64 {
        let pgd = self.pgd();
        match va_to_pa(&self.k, pgd, SCRATCH) {
            Some(pa) => pa,
            None => {
                let page = fresh_page(&mut self.k).unwrap();
                map_page(&mut self.k, pgd, SCRATCH, page, PTE_R | PTE_W | PTE_U).unwrap();
                page
            },
        }
    }

    /// Put bytes at an offset of the scratch page; returns the address.
    fn put(&mut self, at: u64, b: &[u8]) -> u64 {
        let page = self.scratch();
        self.k.write_bytes(page + at, b);
        SCRATCH + at
    }

    fn buffer(&mut self, len: u64) -> Vec<u8> {
        let page = self.scratch();
        self.k.read_bytes(page + (BUFFER - SCRATCH), len)
    }

    fn call(&mut self, regs: &[u64]) {
        for i in 0..8 {
            self.frame.x[10 + i] = if i < regs.len() { regs[i] } else { 0 };
        }
        self.trap();
    }

    /// A Linux call: number and arguments.
    fn lx(&mut self, n: u64, args: &[u64]) {
        for i in 0..7 {
            self.frame.x[10 + i] = if i < args.len() { args[i] } else { 0 };
        }
        self.frame.x[17] = n;
        self.trap();
    }

    fn trap(&mut self) {
        let d = Devices { irq: 0, rx: None, input: 0, instr: 0 };
        let end = trap_handler(&mut self.k, &mut self.frame, CAUSE_ECALL_U, d);
        assert_eq!(end, TrapEnd::Resume);
    }

    fn say_script(&mut self, out: Vec<script::Piece<&'static str, Vec<u8>>>) {
        for p in out {
            match p {
                script::Piece::Say(t) => self.out.extend_from_slice(t.as_bytes()),
                script::Piece::Bytes(b) => self.out.extend(b),
                script::Piece::Number(n) => self.out.extend(decimal(n)),
            }
        }
    }

    fn say_shell(&mut self, out: Vec<shell::Piece<Vec<u8>>>) {
        for p in out {
            match p {
                shell::Piece::Say(t) => self.out.extend_from_slice(text(t).as_bytes()),
                shell::Piece::Bytes(b) => self.out.extend(b),
                shell::Piece::Number(n) => self.out.extend(decimal(n)),
            }
        }
    }

    /// Run until no thread is left to run.
    fn run(&mut self) {
        sched::start_scheduling(&mut self.k);
        self.frame = TrapFrame::zero();
        self.frame.sstatus = 0x100;
        let d = Devices { irq: 0, rx: None, input: 0, instr: 0 };
        let end = trap_handler(&mut self.k, &mut self.frame, INTERRUPT_SUPERVISOR_TIMER, d);
        assert_eq!(end, TrapEnd::ArmTimer);
        let mut turns = 0;
        loop {
            let cur = sched::current_pa(&self.k);
            if cur == 0 {
                return;
            }
            turns += 1;
            assert!(turns < 20_000, "no end: {}", self.text());
            self.turn(cur);
        }
    }

    fn turn(&mut self, cur: u64) {
        let mut task = match self.tasks.remove(&cur) {
            Some(t) => t,
            None => if self.k.tcb(cur).linux_compat {
                let (t, out, call) = SelfTest::start(self.exec_arg.clone());
                self.say_script(out);
                Task::Lx(t, Some(call))
            } else {
                Task::Native(Demo::new(Program::Init))
            },
        };
        match &mut task {
            Task::Native(d) => {
                let data = if self.started.contains_key(&cur) { self.buffer(64) } else { vec![] };
                self.started.insert(cur, true);
                let f = self.frame;
                let (out, ask) = d.step(demos::Reply {
                    code: f.x[10],
                    value: f.x[11],
                    extra: f.x[12],
                    data,
                });
                self.say_script(out);
                self.ask(ask);
            },
            Task::Lx(t, first) => {
                let call = match first.take() {
                    Some(c) => c,
                    None => {
                        let value = self.frame.x[10] as i64;
                        let data = self.buffer(1024);
                        let (out, c) = t.step(selftest::Reply { value, data });
                        self.say_script(out);
                        c
                    },
                };
                self.linux_call(cur, t, call);
                // The thread may have forked: its child starts where it stands.
                if self.k.threads.len() > self.tasks.len() + 1 {
                    let child = *self.k.threads.last().unwrap();
                    if !self.tasks.contains_key(&child) && child != cur
                        && self.k.tcb(child).linux_compat {
                        self.tasks.insert(child, Task::Lx(*t, None));
                    }
                }
            },
            Task::Sh(s, fresh) => {
                let call = if *fresh {
                    *fresh = false;
                    shell::Call::GetChar
                } else {
                    let f = self.frame;
                    let data = self.buffer(256);
                    let n = if f.x[10] == 0 { f.x[11].min(256) as usize } else { 0 };
                    let (out, c) = s.step(shell::Reply {
                        code: f.x[10],
                        value: f.x[11],
                        extra: f.x[12],
                        data: data[..n].to_vec(),
                    });
                    self.say_shell(out);
                    c
                };
                self.shell_call(call);
            },
            Task::Grantee(at) => {
                *at += 1;
                if *at == 1 {
                    self.call(&[1, label::ENDPOINT_RECV, 0, 0, 0, 0, 2]);
                } else if *at == 2 {
                    self.call(&[2, label::ENDPOINT_CALL, 0, 21]);
                } else {
                    let r = self.frame.x[12];
                    self.out.extend_from_slice(format!("[grantee] reply={}\n", r).as_bytes());
                    self.call(&[0, label::THREAD_EXIT]);
                }
            },
        }
        if !matches!(task, Task::Lx(t, _) if t.at == 99) {
            self.tasks.entry(cur).or_insert(task);
        }
    }

    fn ask(&mut self, ask: Ask<&'static str>) {
        match ask {
            Ask::Invoke(r) => self.call(&r),
            Ask::Named(l, name, a4) => {
                let va = self.put(0, name.as_bytes());
                self.call(&[0, l, va, name.len() as u64, a4]);
            },
            Ask::Write(fd, t) => {
                let va = self.put(0, t.as_bytes());
                self.call(&[0, label::FS_WRITE, fd, va, t.len() as u64]);
            },
            Ask::Read(fd) => {
                self.scratch();
                self.call(&[0, label::FS_READ, fd, BUFFER, 64]);
            },
            Ask::ReadDir(fd) => {
                self.scratch();
                self.call(&[0, label::FS_READDIR, fd, BUFFER, 64]);
            },
            Ask::Load(va) => {
                let pgd = self.pgd();
                let pa = va_to_pa(&self.k, pgd, va).unwrap();
                let b = self.k.read_bytes(pa, 64);
                self.put(BUFFER - SCRATCH, &b);
            },
            Ask::Store(va, t) => {
                let pgd = self.pgd();
                let pa = va_to_pa(&self.k, pgd, va).unwrap();
                self.k.write_bytes(pa, t.as_bytes());
            },
            Ask::Exit(code) => self.call(&[0, label::THREAD_EXIT, code.unwrap_or(0)]),
        }
    }

    fn cstr(&mut self, s: &str) -> u64 {
        let mut b = s.as_bytes().to_vec();
        b.push(0);
        self.put(0, &b)
    }

    fn linux_call(&mut self, cur: u64, t: &mut SelfTest, c: selftest::Call<&'static str>) {
        let at_cwd = (-100i64) as u64;
        let zeros = vec![0u8; 1024];
        self.put(BUFFER - SCRATCH, &zeros);
        match c {
            selftest::Call::GetPid => self.lx(nr::SYS_GETPID, &[]),
            selftest::Call::Uname => self.lx(nr::SYS_UNAME, &[BUFFER]),
            selftest::Call::Brk(a) => self.lx(nr::SYS_BRK, &[a]),
            selftest::Call::Fill(a) => {
                let pgd = self.pgd();
                for i in 0..4096 {
                    let pa = va_to_pa(&self.k, pgd, a + i).unwrap();
                    self.k.write_bytes(pa, &[0xab]);
                }
                let pa = va_to_pa(&self.k, pgd, a + 4095).unwrap();
                self.frame.x[10] = self.k.read_bytes(pa, 1)[0] as u64;
            },
            selftest::Call::Mmap => self.lx(nr::SYS_MMAP, &[0, 4096, 3, 0x22, u64::MAX, 0]),
            selftest::Call::Touch(a) => {
                let pgd = self.pgd();
                let pa = va_to_pa(&self.k, pgd, a).unwrap();
                self.k.write_bytes(pa, &[0x5a]);
                self.frame.x[10] = self.k.read_bytes(pa, 1)[0] as u64;
            },
            selftest::Call::Open(p, f, m) => {
                let va = self.cstr(p);
                self.lx(nr::SYS_OPENAT, &[at_cwd, va, f, m]);
            },
            selftest::Call::Write(fd, s) => {
                let va = self.cstr(s);
                self.lx(nr::SYS_WRITE, &[fd, va, s.len() as u64]);
            },
            selftest::Call::Close(fd) => self.lx(nr::SYS_CLOSE, &[fd]),
            selftest::Call::Read(fd) => self.lx(nr::SYS_READ, &[fd, BUFFER, 16]),
            selftest::Call::Seek(fd, w) => self.lx(nr::SYS_LSEEK, &[fd, 0, w]),
            selftest::Call::Fstat(fd) => self.lx(nr::SYS_FSTAT, &[fd, BUFFER]),
            selftest::Call::Stat(p) => {
                let va = self.cstr(p);
                self.lx(nr::SYS_NEWFSTATAT, &[at_cwd, va, BUFFER]);
            },
            selftest::Call::Dents(fd) => self.lx(nr::SYS_GETDENTS64, &[fd, BUFFER, 1024]),
            selftest::Call::Getcwd => self.lx(nr::SYS_GETCWD, &[BUFFER, 128]),
            selftest::Call::Chdir(p) => {
                let va = self.cstr(p);
                self.lx(nr::SYS_CHDIR, &[va]);
            },
            selftest::Call::Mkdir(p) => {
                let va = self.cstr(p);
                self.lx(nr::SYS_MKDIRAT, &[at_cwd, va, 0o755]);
            },
            selftest::Call::Access(p) => {
                let va = self.cstr(p);
                self.lx(nr::SYS_FACCESSAT, &[at_cwd, va]);
            },
            selftest::Call::Clone => self.lx(nr::SYS_CLONE, &[17, 0, 0, 0, 0]),
            selftest::Call::Exec => {
                let name = self.cstr("linux_demo");
                let arg = self.put(0x40, b"child\0");
                let mut argv = name.to_le_bytes().to_vec();
                argv.extend(arg.to_le_bytes());
                argv.extend(0u64.to_le_bytes());
                let argv = self.put(0x80, &argv);
                self.lx(nr::SYS_EXECVE, &[name, argv, 0]);
                // The new image finds its arguments on its stack.
                let pgd = self.pgd();
                let sp = self.frame.x[2];
                let read = |k: &Kernel, va: u64| {
                    let mut b = [0u8; 8];
                    for i in 0..8 {
                        b[i as usize] = k.read_bytes(va_to_pa(k, pgd, va + i).unwrap(), 1)[0];
                    }
                    u64::from_le_bytes(b)
                };
                assert_eq!(read(&self.k, sp), 2);
                let a1 = read(&self.k, sp + 16);
                let pa = va_to_pa(&self.k, pgd, a1).unwrap();
                self.exec_arg = Some(self.k.read_bytes(pa, 16));
                assert_eq!(self.frame.sepc, 0x1_0000);
                // The old program is gone.
                t.at = 99;
                let _ = cur;
            },
            selftest::Call::Wait(pid) => {
                self.put(BUFFER - SCRATCH, &(-1i32).to_le_bytes());
                self.lx(nr::SYS_WAIT4, &[pid, BUFFER, 0, 0]);
            },
            selftest::Call::Exit(code) => self.lx(nr::SYS_EXIT, &[code]),
        }
    }

    fn shell_call(&mut self, c: shell::Call<Vec<u8>>) {
        match c {
            shell::Call::GetChar => self.call(&[0, label::CONSOLE_GETCHAR]),
            shell::Call::Open(p) => self.named(label::FS_OPEN, &p, 0),
            shell::Call::Create(p) => self.named(label::FS_CREATE, &p, 0),
            shell::Call::Close(fd) => self.call(&[0, label::FS_CLOSE, fd]),
            shell::Call::Read(fd) => {
                self.scratch();
                self.call(&[0, label::FS_READ, fd, BUFFER, 256]);
            },
            shell::Call::Write(fd, b) => {
                let va = self.put(0, &b);
                self.call(&[0, label::FS_WRITE, fd, va, b.len() as u64]);
            },
            shell::Call::Mkdir(p) => self.named(label::FS_MKDIR, &p, 0),
            shell::Call::ReadDir(fd) => {
                self.scratch();
                self.call(&[0, label::FS_READDIR, fd, BUFFER, 64]);
            },
            shell::Call::Stat(p) => self.named(label::FS_STAT, &p, 0),
            shell::Call::Unlink(p) => self.named(label::FS_UNLINK, &p, 0),
            shell::Call::Rename(a, b) => {
                let va = self.put(0, &a);
                let vb = self.put(0x100, &b);
                self.call(&[0, label::FS_RENAME, va, a.len() as u64, vb, b.len() as u64]);
            },
            shell::Call::Spawn(n) => self.named(label::PROC_SPAWN, &n, 1),
            shell::Call::LinuxSpawn(n) => self.named(label::PROC_LINUX_SPAWN, &n, 1),
            shell::Call::Wait => self.call(&[1, label::PROC_WAIT]),
            shell::Call::DeleteChild => self.call(&[0, label::CNODE_DELETE, 1]),
            shell::Call::Exit => self.call(&[0, label::THREAD_EXIT]),
        }
    }

    fn named(&mut self, l: u64, p: &[u8], a4: u64) {
        let va = self.put(0, p);
        self.call(&[0, l, va, p.len() as u64, a4]);
    }
}

fn native(p: Program) -> Task {
    Task::Native(Demo::new(p))
}

#[test]
fn root_capabilities_answer() {
    let mut m = machine();
    assert!(boot::check_root(&mut m.k));
    assert!(boot::check_slab(&mut m.k));
}

#[test]
fn server_answers_three_clients() {
    let mut m = machine();
    assert!(boot::check_root(&mut m.k));
    assert!(boot::prepare_ipc(&mut m.k, 0x8020_0000, 0x8020_1000));
    m.attach(vec![native(Program::Init), native(Program::Init)]);
    m.run();
    let images = vec![image(), image(), image(), image()];
    assert!(boot::prepare_programs(&mut m.k, &images));
    m.attach(vec![
        native(Program::ServerRr),
        native(Program::Client),
        native(Program::Client),
        native(Program::Client),
    ]);
    m.run();
    let t = m.text();
    assert_eq!(t.matches("[cl] reply=84\n").count(), 3, "{}", t);
    assert!(t.contains("[sv] #1 msg=42\n[sv] #2 msg=42\n") || t.contains("[sv] #2 msg=42\n"));
    assert!(t.contains("[sv] #3 msg=42\n"));
    assert!(sched::is_done(&m.k));
}

fn with_ipc() -> Machine {
    let mut m = machine();
    assert!(boot::check_root(&mut m.k));
    assert!(boot::prepare_ipc(&mut m.k, 0x8020_0000, 0x8020_1000));
    m.attach(vec![native(Program::Init), native(Program::Init)]);
    m.run();
    m.out.clear();
    m
}

#[test]
fn endpoint_made_by_a_process_works() {
    let mut m = with_ipc();
    assert!(boot::prepare_reversed(&mut m.k, &image(), &image()));
    m.attach(vec![native(Program::EpA), native(Program::EpB)]);
    m.run();
    let t = m.text();
    assert!(t.contains("[A] created ep2 at slot 16, notifying B...\n"), "{}", t);
    assert!(t.contains("[B] ep2 ready at slot 16, calling...\n"), "{}", t);
    assert!(t.contains("[A] ep2 msg=100, replying with 200\n"), "{}", t);
    assert!(t.contains("[B] ep2 reply=200\n"), "{}", t);
}

#[test]
fn shared_frame_carries_data() {
    let mut m = with_ipc();
    assert!(boot::prepare_shared_memory(&mut m.k, &vec![image(), image()]));
    m.attach(vec![native(Program::ShmWriter), native(Program::ShmReader)]);
    m.run();
    let t = m.text();
    assert!(t.contains("[sv] wrote to shared frame\n"), "{}", t);
    assert!(t.contains("[cl] shared data: Phase 11: shared memory!\n"), "{}", t);
}

#[test]
fn private_cspace_isolates() {
    let mut m = with_ipc();
    assert!(boot::prepare_cspaces(&mut m.k, &image(), &image()));
    m.attach(vec![native(Program::Init), native(Program::CspaceB)]);
    m.run();
    assert!(m.text().contains("[B] retype: DENIED (slot 1 is null in B CSpace)\n"));
}

#[test]
fn capability_travels_with_a_message() {
    let mut m = with_ipc();
    assert!(boot::prepare_grant(&mut m.k, &image(), &image()));
    m.attach(vec![native(Program::CapGrantor), Task::Grantee(0)]);
    m.run();
    let t = m.text();
    assert!(t.contains("[grantor] received msg=21, replying with 42\n"), "{}", t);
    assert!(t.contains("[grantee] reply=42\n"), "{}", t);
}

#[test]
fn console_line_is_echoed() {
    let mut m = machine();
    assert!(boot::prepare_console(&mut m.k, b"hello\n", image()));
    m.attach(vec![native(Program::TtyTest)]);
    m.run();
    assert!(m.text().contains("[tty] echo: hello\n"), "{}", m.text());
}

#[test]
fn files_are_made_listed_and_read() {
    let mut m = machine();
    assert!(boot::prepare_files(&mut m.k, image()));
    m.attach(vec![native(Program::FsDemo)]);
    m.run();
    let t = m.text();
    assert!(t.contains("[fs] fs_write wc=0 n=16\n"), "{}", t);
    assert!(t.contains("  bin/\n"), "{}", t);
    assert!(t.contains("  hello.txt\n"), "{}", t);
    assert!(t.contains("[fs] cat /hello.txt: hello, ferrite!\n"), "{}", t);
    assert!(t.contains("[fs] stat rc=0 kind=2 size=0\n"), "{}", t);
    assert!(t.contains("[OK] Phase 16: ramfs mkdir/ls/cat working\n"), "{}", t);
}

#[test]
fn spawned_program_is_waited_for() {
    let mut m = machine();
    assert!(boot::prepare_confined(&mut m.k, &image(), boot::PROCESS_SIZE_BITS));
    m.attach(vec![native(Program::SpawnDemo)]);
    m.run();
    let t = m.text();
    assert!(t.contains("[init] Hello from ELF process!\n"), "{}", t);
    assert!(t.contains("[spawn] init exited with code 0\n"), "{}", t);
}

#[test]
fn first_capabilities_are_in_place() {
    let mut m = machine();
    assert!(boot::prepare_init_caps(&mut m.k, &image()));
    m.attach(vec![native(Program::InitIcaps)]);
    m.run();
    assert!(m.text().contains("[OK] Phase 20: InitCaps handoff verified\n"), "{}", m.text());
}

#[test]
fn revocation_reaches_copies() {
    let mut m = with_ipc();
    assert!(boot::check_revoke(&mut m.k));
}

#[test]
fn interrupt_is_seen_and_acknowledged() {
    let mut m = machine();
    assert!(boot::prepare_interrupts(&mut m.k));
    assert!(!boot::acknowledge_interrupt(&mut m.k));
    let d = Devices { irq: 10, rx: None, input: 0, instr: 0 };
    let cause = (1u64 << 63) | 9;
    let end = trap_handler(&mut m.k, &mut m.frame, cause, d);
    assert_eq!(end, TrapEnd::CompleteIrq(10));
    assert!(boot::acknowledge_interrupt(&mut m.k));
}

#[test]
fn linux_self_test_passes() {
    let mut m = machine();
    assert!(boot::prepare_files(&mut m.k, image()));
    m.attach(vec![native(Program::FsDemo)]);
    m.run();
    m.out.clear();
    assert!(boot::prepare_linux(&mut m.k, &image(), b"linux_demo".to_vec()));
    m.run();
    let t = m.text();
    assert!(t.contains("[lx] ALL PASS\n"), "{}", t);
    assert!(t.contains("[lx] child: execve OK, argv[1]=child\n"), "{}", t);
    assert!(t.contains("exit_code=42\n"), "{}", t);
    assert!(t.contains("[lx] uname: Ferrite PhaseA5\n"), "{}", t);
}

#[test]
fn shell_session() {
    let mut m = machine();
    assert!(boot::prepare_files(&mut m.k, image()));
    m.attach(vec![native(Program::FsDemo)]);
    m.run();
    m.out.clear();
    assert!(boot::prepare_confined(&mut m.k, &image(), boot::SHELL_SIZE_BITS));
    let (s, out) = Shell::new();
    m.say_shell(out);
    m.attach(vec![Task::Sh(Box::new(s), true)]);
    let lines: [&[u8]; 9] = [
        b"ls\n",
        b"mkdir d\n",
        b"cd d\n",
        b"write f some text\n",
        b"cat f\n",
        b"stat f\n",
        b"cp f g\n",
        b"run init\n",
        b"nonsense\nexit\n",
    ];
    for l in lines {
        console::seed(&mut m.k, l);
    }
    m.run();
    let t = m.text();
    assert!(t.contains("hello.txt"), "{}", t);
    assert!(t.contains("ferrite:/d$ "), "{}", t);
    assert!(t.contains("9 bytes written"), "{}", t);
    assert!(t.contains("some text"), "{}", t);
    assert!(t.contains("[file, 9 bytes]"), "{}", t);
    assert!(t.contains("[init] Hello from ELF process!"), "{}", t);
    assert!(t.contains("[exited 0]"), "{}", t);
    assert!(t.contains("Unknown command: nonsense"), "{}", t);
    assert!(t.contains("Goodbye!"), "{}", t);
}

#[test]
fn shell_removes_and_renames() {
    let mut m = machine();
    assert!(boot::prepare_files(&mut m.k, image()));
    m.attach(vec![native(Program::FsDemo)]);
    m.run();
    m.out.clear();
    assert!(boot::prepare_confined(&mut m.k, &image(), boot::SHELL_SIZE_BITS));
    let (s, out) = Shell::new();
    m.say_shell(out);
    m.attach(vec![Task::Sh(Box::new(s), true)]);
    let lines: [&[u8]; 8] = [
        b"mkdir d\n",
        b"write d/f text\n",
        b"write g other\n",
        b"rm d\n",
        b"mv d/f h\n",
        b"rm d\n",
        b"rm g\nrm nothing\n",
        b"cat h\nexit\n",
    ];
    for l in lines {
        console::seed(&mut m.k, l);
    }
    m.run();
    let t = m.text();
    assert!(t.contains("rm: d: not empty"), "{}", t);
    assert!(t.contains("rm: nothing: failed"), "{}", t);
    assert_eq!(t.matches("failed").count(), 1, "{}", t);
    assert_eq!(t.matches("not empty").count(), 1, "{}", t);
    assert_eq!(ramfs::lookup_path(&m.k, b"/d"), None);
    assert_eq!(ramfs::lookup_path(&m.k, b"/g"), None);
    let h = ramfs::lookup_path(&m.k, b"/h").unwrap();
    assert_eq!(ramfs::inode_size(&m.k, h), 4);
}
