//! The self-test of the Linux ABI, a program that asks for one system call at a
//! time and judges the reply.
//!
//! It exercises the heap and mappings, files and directories, and clone, execve
//! and wait4. Executed with an argument it is the child of the last part: it
//! exits with a code of its own.
use crate::user::script::{
    self, get, get_string, get_word, nothing, say, say_bytes, say_number, Piece,
};
use vstd::prelude::*;

verus! {

pub const O_RDWR: u64 = 0x2;

pub const O_CREAT: u64 = 0x40;

pub const O_TRUNC: u64 = 0x200;

pub const O_APPEND: u64 = 0x400;

pub const SEEK_SET: u64 = 0;

pub const SEEK_END: u64 = 2;

/// What the heap is filled with.
pub const HEAP_BYTE: i64 = 0xab;

/// What the mapping is marked with.
pub const MAP_BYTE: i64 = 0x5a;

/// First letter of the argument that makes the program the child.
pub const CHILD_LETTER: u8 = 99;

/// Exit code of the child.
pub const CHILD_CODE: i64 = 42;

pub const SLASH: u8 = 47;

/// Kind of a directory in a directory record.
pub const RECORD_DIR: u8 = 4;

/// What the program asks for.
pub enum Call<T> {
    GetPid,
    Uname,
    Brk(u64),
    /// Fill the page at the address; the reply is its last byte.
    Fill(u64),
    Mmap,
    /// Mark the byte at the address; the reply is that byte.
    Touch(u64),
    /// Path, flags and mode.
    Open(T, u64, u64),
    Write(u64, T),
    Close(u64),
    Read(u64),
    /// Descriptor and origin, offset 0.
    Seek(u64, u64),
    Fstat(u64),
    Stat(T),
    Dents(u64),
    Getcwd,
    Chdir(T),
    Mkdir(T),
    Access(T),
    Clone,
    /// Execute the program again, as the child.
    Exec,
    /// Process number; the reply's data is the status word.
    Wait(u64),
    Exit(u64),
}

/// The value that a call returns, and what it put into the buffer.
pub struct Reply<D> {
    pub value: i64,
    pub data: D,
}

/// The program between two calls: which reply it waits for, what it remembers,
/// and how many checks have failed.
#[derive(Clone, Copy, PartialEq, Eq, Structural)]
pub struct SelfTest {
    pub at: u8,
    pub note: i64,
    pub failed: u64,
}

pub open spec fn call_of(c: Call<&'static str>) -> Call<Seq<char>> {
    match c {
        Call::GetPid => Call::GetPid,
        Call::Uname => Call::Uname,
        Call::Brk(a) => Call::Brk(a),
        Call::Fill(a) => Call::Fill(a),
        Call::Mmap => Call::Mmap,
        Call::Touch(a) => Call::Touch(a),
        Call::Open(p, f, m) => Call::Open(p@, f, m),
        Call::Write(fd, t) => Call::Write(fd, t@),
        Call::Close(fd) => Call::Close(fd),
        Call::Read(fd) => Call::Read(fd),
        Call::Seek(fd, w) => Call::Seek(fd, w),
        Call::Fstat(fd) => Call::Fstat(fd),
        Call::Stat(p) => Call::Stat(p@),
        Call::Dents(fd) => Call::Dents(fd),
        Call::Getcwd => Call::Getcwd,
        Call::Chdir(p) => Call::Chdir(p@),
        Call::Mkdir(p) => Call::Mkdir(p@),
        Call::Access(p) => Call::Access(p@),
        Call::Clone => Call::Clone,
        Call::Exec => Call::Exec,
        Call::Wait(pid) => Call::Wait(pid),
        Call::Exit(code) => Call::Exit(code),
    }
}

/// The step that waits for clone.
pub const AT_CLONE: u8 = 35;

/// The step that waits for the child.
pub const AT_WAIT: u8 = 36;

/// The step of the child after execve, which does not return.
pub const AT_EXEC: u8 = 37;

/// The end.
pub const AT_EXIT: u8 = 38;

/// The call of a step that reads or writes `note` as the descriptor, the address
/// or the process number it is about.
pub open spec fn asked(at: u8, note: i64) -> Call<Seq<char>> {
    let n = note as u64;
    if at == 0 {
        Call::GetPid
    } else if at == 1 {
        Call::Uname
    } else if at == 2 {
        Call::Brk(0)
    } else if at == 3 {
        Call::Brk(n.wrapping_add(8192))
    } else if at == 4 {
        Call::Fill(n)
    } else if at == 5 {
        Call::Mmap
    } else if at == 6 {
        Call::Touch(n)
    } else if at == 7 {
        Call::Open("/lxtest.txt"@, O_CREAT | O_RDWR | O_TRUNC, 420)
    } else if at == 8 {
        Call::Write(n, "hello"@)
    } else if at == 10 {
        Call::Open("/lxtest.txt"@, O_RDWR | O_APPEND, 0)
    } else if at == 11 {
        Call::Write(n, "+++"@)
    } else if at == 13 || at == 19 {
        Call::Open("/lxtest.txt"@, O_RDWR, 0)
    } else if at == 14 {
        Call::Read(n)
    } else if at == 15 {
        Call::Seek(n, SEEK_END)
    } else if at == 16 {
        Call::Seek(n, SEEK_SET)
    } else if at == 17 {
        Call::Write(n, "HELLO"@)
    } else if at == 9 || at == 12 || at == 18 || at == 21 || at == 25 {
        Call::Close(n)
    } else {
        asked_late(at, n)
    }
}

/// The calls on directories and processes.
pub open spec fn asked_late(at: u8, n: u64) -> Call<Seq<char>> {
    if at == 20 {
        Call::Fstat(n)
    } else if at == 22 {
        Call::Stat("/lxtest.txt"@)
    } else if at == 23 {
        Call::Open("/"@, 0, 0)
    } else if at == 24 {
        Call::Dents(n)
    } else if at == 26 || at == 28 {
        Call::Getcwd
    } else if at == 27 {
        Call::Chdir("/etc"@)
    } else if at == 29 {
        Call::Open("rc.conf"@, O_CREAT | O_RDWR, 0)
    } else if at == 30 {
        Call::Stat("rc.conf"@)
    } else if at == 31 {
        Call::Chdir("/"@)
    } else if at == 32 {
        Call::Mkdir("/tmp"@)
    } else if at == 33 {
        Call::Access("/hello.txt"@)
    } else if at == 34 {
        Call::Access("/nope"@)
    } else if at == AT_CLONE {
        Call::Clone
    } else if at == AT_WAIT {
        Call::Wait(n)
    } else if at == AT_EXEC {
        Call::Exec
    } else {
        Call::Exit(n)
    }
}

fn ask(at: u8, note: i64) -> (r: Call<&'static str>)
    ensures
        call_of(r) == asked(at, note),
{
    let n: u64 = note as u64;
    match at {
        0 => Call::GetPid,
        1 => Call::Uname,
        2 => Call::Brk(0),
        3 => Call::Brk(n.wrapping_add(8192)),
        4 => Call::Fill(n),
        5 => Call::Mmap,
        6 => Call::Touch(n),
        7 => Call::Open("/lxtest.txt", O_CREAT | O_RDWR | O_TRUNC, 420),
        8 => Call::Write(n, "hello"),
        10 => Call::Open("/lxtest.txt", O_RDWR | O_APPEND, 0),
        11 => Call::Write(n, "+++"),
        13 | 19 => Call::Open("/lxtest.txt", O_RDWR, 0),
        14 => Call::Read(n),
        15 => Call::Seek(n, SEEK_END),
        16 => Call::Seek(n, SEEK_SET),
        17 => Call::Write(n, "HELLO"),
        9 | 12 | 18 | 21 | 25 => Call::Close(n),
        20 => Call::Fstat(n),
        22 => Call::Stat("/lxtest.txt"),
        23 => Call::Open("/", 0, 0),
        24 => Call::Dents(n),
        26 | 28 => Call::Getcwd,
        27 => Call::Chdir("/etc"),
        29 => Call::Open("rc.conf", O_CREAT | O_RDWR, 0),
        30 => Call::Stat("rc.conf"),
        31 => Call::Chdir("/"),
        32 => Call::Mkdir("/tmp"),
        33 => Call::Access("/hello.txt"),
        34 => Call::Access("/nope"),
        35 => Call::Clone,
        36 => Call::Wait(n),
        37 => Call::Exec,
        _ => Call::Exit(n),
    }
}

/// The text that the file holds after both writes.
pub open spec fn is_whole_text(b: Seq<u8>) -> bool {
    script::byte_at(b, 0) == 104 && script::byte_at(b, 1) == 101 && script::byte_at(b, 2) == 108
        && script::byte_at(b, 3) == 108 && script::byte_at(b, 4) == 111 && script::byte_at(b, 5)
        == 43 && script::byte_at(b, 6) == 43 && script::byte_at(b, 7) == 43
}

fn check_whole_text(b: &Vec<u8>) -> (r: bool)
    ensures
        r == is_whole_text(b@),
{
    get(b, 0) == 104 && get(b, 1) == 101 && get(b, 2) == 108 && get(b, 3) == 108 && get(b, 4) == 111
        && get(b, 5) == 43 && get(b, 6) == 43 && get(b, 7) == 43
}

/// The buffer holds "/etc".
pub open spec fn is_etc(b: Seq<u8>) -> bool {
    script::byte_at(b, 0) == SLASH && script::byte_at(b, 1) == 101 && script::byte_at(b, 2) == 116
        && script::byte_at(b, 3) == 99
}

/// The size in a status record is 8.
pub open spec fn has_size_8(b: Seq<u8>) -> bool {
    script::word_in(b, 48) == 8 && script::word_in(b, 52) == 0
}

/// The mode in a status record is that of a regular file.
pub open spec fn is_regular(b: Seq<u8>) -> bool {
    script::word_in(b, 16) & 0xf000 == 0x8000
}

/// The name of what is checked of the reply to a step, and whether it holds.
/// Some replies are not checked.
pub open spec fn checked(at: u8, note: i64, r: Reply<Seq<u8>>) -> Option<(bool, Seq<char>)> {
    let v = r.value;
    if at == 0 {
        Some((v > 0, "getpid"@))
    } else if at == 1 {
        Some((v == 0, "uname"@))
    } else if at == 2 {
        Some((v > 0, "brk query"@))
    } else if at == 3 {
        Some((v as u64 == (note as u64).wrapping_add(8192), "brk extend"@))
    } else if at == 4 {
        Some((v == HEAP_BYTE, "brk rw"@))
    } else if at == 5 {
        Some((v > 0, "mmap anon"@))
    } else if at == 6 {
        Some((v == MAP_BYTE, "mmap rw"@))
    } else if at == 7 {
        Some((v >= 0, "openat O_CREAT"@))
    } else if at == 8 {
        Some((v == 5, "write"@))
    } else if at == 9 {
        Some((v == 0, "close"@))
    } else if at == 10 {
        Some((v >= 0, "openat O_APPEND"@))
    } else if at == 11 {
        Some((v == 3, "write append"@))
    } else if at == 12 {
        Some((v == 0, "close 2"@))
    } else if at == 13 {
        Some((v >= 0, "openat read"@))
    } else if at == 14 {
        Some((v == 8, "read len"@))
    } else if at == 15 {
        Some((v == 8, "lseek SEEK_END"@))
    } else if at == 16 {
        Some((v == 0, "lseek SEEK_SET"@))
    } else if at == 17 {
        Some((v == 5, "write overwrite"@))
    } else if at == 18 {
        Some((v == 0, "close 3"@))
    } else if at == 20 {
        Some((v == 0, "fstat"@))
    } else if at == 21 {
        Some((v == 0, "close 4"@))
    } else {
        checked_late(at, note, r)
    }
}

/// The checks on directories and processes.
pub open spec fn checked_late(at: u8, note: i64, r: Reply<Seq<u8>>) -> Option<(bool, Seq<char>)> {
    let v = r.value;
    if at == 22 {
        Some((v == 0, "newfstatat"@))
    } else if at == 23 {
        Some((v >= 3, "openat /"@))
    } else if at == 24 {
        Some((v > 0, "getdents64"@))
    } else if at == 25 {
        Some((v == 0, "close dir"@))
    } else if at == 26 {
        Some(
            (
                v == 2 && script::byte_at(r.data, 0) == SLASH && script::byte_at(r.data, 1) == 0,
                "getcwd /"@,
            ),
        )
    } else if at == 27 {
        Some((v == 0, "chdir /etc"@))
    } else if at == 28 {
        Some((v == 5 && is_etc(r.data), "getcwd /etc"@))
    } else if at == 29 {
        Some((v >= 0, "openat relative"@))
    } else if at == 30 {
        Some((v == 0, "stat relative"@))
    } else if at == 31 {
        Some((v == 0, "chdir /"@))
    } else if at == 32 {
        Some((v == 0 || v == -17, "mkdirat /tmp"@))
    } else if at == 33 {
        Some((v == 0, "faccessat exists"@))
    } else if at == 34 {
        Some((v == -2, "faccessat ENOENT"@))
    } else if at == AT_CLONE && v != 0 {
        Some((v > 0, "clone"@))
    } else if at == AT_WAIT {
        Some((v == note, "wait4 pid"@))
    } else {
        None
    }
}

/// What else is checked of the reply to a step: the data that came with it.
pub open spec fn checked_data(at: u8, b: Seq<u8>) -> Option<(bool, Seq<char>)> {
    if at == 14 {
        Some((is_whole_text(b), "read content"@))
    } else if at == 20 {
        Some((has_size_8(b), "fstat size"@))
    } else if at == 22 {
        Some((is_regular(b), "newfstatat S_IFREG"@))
    } else if at == AT_WAIT {
        Some((script::word_in(b, 0) == CHILD_CODE * 256, "wait4 wstatus"@))
    } else {
        None
    }
}

/// A check with its name in ghost code.
pub open spec fn verdict_of(c: Option<(bool, &'static str)>) -> Option<(bool, Seq<char>)> {
    match c {
        None => None,
        Some((ok, name)) => Some((ok, name@)),
    }
}

fn check(at: u8, note: i64, r: &Reply<Vec<u8>>) -> (c: Option<(bool, &'static str)>)
    ensures
        verdict_of(c) == checked(at, note, (Reply { value: r.value, data: r.data@ })),
{
    let v: i64 = r.value;
    match at {
        0 => Some((v > 0, "getpid")),
        1 => Some((v == 0, "uname")),
        2 => Some((v > 0, "brk query")),
        3 => Some((v as u64 == (note as u64).wrapping_add(8192), "brk extend")),
        4 => Some((v == HEAP_BYTE, "brk rw")),
        5 => Some((v > 0, "mmap anon")),
        6 => Some((v == MAP_BYTE, "mmap rw")),
        7 => Some((v >= 0, "openat O_CREAT")),
        8 => Some((v == 5, "write")),
        9 => Some((v == 0, "close")),
        10 => Some((v >= 0, "openat O_APPEND")),
        11 => Some((v == 3, "write append")),
        12 => Some((v == 0, "close 2")),
        13 => Some((v >= 0, "openat read")),
        14 => Some((v == 8, "read len")),
        15 => Some((v == 8, "lseek SEEK_END")),
        16 => Some((v == 0, "lseek SEEK_SET")),
        17 => Some((v == 5, "write overwrite")),
        18 => Some((v == 0, "close 3")),
        20 => Some((v == 0, "fstat")),
        21 => Some((v == 0, "close 4")),
        _ => check_late(at, note, r),
    }
}

fn check_late(at: u8, note: i64, r: &Reply<Vec<u8>>) -> (c: Option<(bool, &'static str)>)
    ensures
        verdict_of(c) == checked_late(at, note, (Reply { value: r.value, data: r.data@ })),
{
    let v: i64 = r.value;
    match at {
        22 => Some((v == 0, "newfstatat")),
        23 => Some((v >= 3, "openat /")),
        24 => Some((v > 0, "getdents64")),
        25 => Some((v == 0, "close dir")),
        26 => Some((v == 2 && get(&r.data, 0) == SLASH && get(&r.data, 1) == 0, "getcwd /")),
        27 => Some((v == 0, "chdir /etc")),
        28 => Some(
            (
                v == 5 && get(&r.data, 0) == SLASH && get(&r.data, 1) == 101 && get(&r.data, 2)
                    == 116 && get(&r.data, 3) == 99,
                "getcwd /etc",
            ),
        ),
        29 => Some((v >= 0, "openat relative")),
        30 => Some((v == 0, "stat relative")),
        31 => Some((v == 0, "chdir /")),
        32 => Some((v == 0 || v == -17, "mkdirat /tmp")),
        33 => Some((v == 0, "faccessat exists")),
        34 => Some((v == -2, "faccessat ENOENT")),
        35 => if v != 0 {
            Some((v > 0, "clone"))
        } else {
            None
        },
        36 => Some((v == note, "wait4 pid")),
        _ => None,
    }
}

fn check_data(at: u8, b: &Vec<u8>) -> (c: Option<(bool, &'static str)>)
    ensures
        verdict_of(c) == checked_data(at, b@),
{
    match at {
        14 => Some((check_whole_text(b), "read content")),
        20 => Some((get_word(b, 48) == 8 && get_word(b, 52) == 0, "fstat size")),
        22 => Some((get_word(b, 16) & 0xf000 == 0x8000, "newfstatat S_IFREG")),
        36 => Some((get_word(b, 0) == 42 * 256, "wait4 wstatus")),
        _ => None,
    }
}

/// The lines that failed checks print.
pub open spec fn complaints(c: Option<(bool, Seq<char>)>) -> Seq<Piece<Seq<char>, Seq<u8>>> {
    match c {
        Some((false, name)) => seq![
            Piece::Say("[lx] FAIL: "@),
            Piece::Say(name),
            Piece::Say("\n"@),
        ],
        _ => Seq::empty(),
    }
}

/// How many checks failed.
pub open spec fn failures(c: Option<(bool, Seq<char>)>) -> u64 {
    match c {
        Some((false, _)) => 1,
        _ => 0,
    }
}

fn complain(out: &mut Vec<Piece<&'static str, Vec<u8>>>, c: Option<(bool, &'static str)>) -> (n: u64)
    ensures
        n == failures(verdict_of(c)),
        script::out_of(final(out)@) == script::out_of(old(out)@) + complaints(verdict_of(c)),
{
    if let Some((ok, name)) = c {
        if !ok {
            say(out, "[lx] FAIL: ");
            say(out, name);
            say(out, "\n");
            assert(script::out_of(out@) =~= script::out_of(old(out)@) + complaints(verdict_of(c)));
            return 1;
        }
    }
    assert(script::out_of(out@) =~= script::out_of(old(out)@) + complaints(verdict_of(c)));
    0
}

/// The names in the directory records of `b` from `off` on, with a slash behind
/// those of directories; the records end at `end` or with an empty one.
pub open spec fn listing(b: Seq<u8>, off: int, end: int) -> Seq<Piece<Seq<char>, Seq<u8>>>
    decreases
            (if off < end {
                end - off
            } else {
                0
            }),
{
    if off >= end {
        Seq::empty()
    } else {
        let len = script::byte_at(b, off + 16) + 256 * script::byte_at(b, off + 17);
        let name = seq![Piece::Say(" "@), Piece::Bytes(script::string_in(b, off + 19))];
        let entry = if script::byte_at(b, off + 18) == RECORD_DIR {
            name.push(Piece::Say("/"@))
        } else {
            name
        };
        if len == 0 {
            entry
        } else {
            entry + listing(b, off + len, end)
        }
    }
}

fn list(out: &mut Vec<Piece<&'static str, Vec<u8>>>, b: &Vec<u8>, end: u64)
    requires
        b@.len() <= 1024,
    ensures
        script::out_of(final(out)@) == script::out_of(old(out)@) + listing(b@, 0, end as int),
{
    let ghost all = script::out_of(out@) + listing(b@, 0, end as int);
    let mut off: u64 = 0;
    while off < end
        invariant
            b@.len() <= 1024,
            off <= 1024 + 0x1_0000,
            all == script::out_of(old(out)@) + listing(b@, 0, end as int),
            script::out_of(out@) + listing(b@, off as int, end as int) == all,
        decreases
            if off < end {
                end - off
            } else {
                0
            },
    {
        let ghost before = script::out_of(out@);
        let len: u64 = get(b, off + 16) as u64 + 256 * get(b, off + 17) as u64;
        let kind: u8 = get(b, off + 18);
        say(out, " ");
        say_bytes(out, get_string(b, off + 19));
        if kind == RECORD_DIR {
            say(out, "/");
        }
        proof {
            let rest = if len == 0 {
                Seq::empty()
            } else {
                listing(b@, off + len, end as int)
            };
            assert(before + listing(b@, off as int, end as int) =~= script::out_of(out@) + rest);
        }
        if len == 0 {
            assert(script::out_of(out@) =~= all);
            return ;
        }
        off += len;
    }
    assert(script::out_of(out@) =~= all);
}

/// The exit code in a status word, its sign kept.
pub open spec fn status_code(w: u32) -> u64 {
    if w < 0x8000_0000 {
        (w / 256) as u64
    } else {
        (0xffff_ffff_ff00_0000 + w / 256) as u64
    }
}

/// What is printed at the end.
pub open spec fn summary(failed: u64) -> Seq<Piece<Seq<char>, Seq<u8>>> {
    if failed == 0 {
        seq![Piece::Say("[lx] ALL PASS\n"@)]
    } else {
        seq![Piece::Say("[lx] FAILURES="@), Piece::Number(failed), Piece::Say("\n"@)]
    }
}

/// What is printed before the checks on a reply.
pub open spec fn lead(at: u8) -> Seq<Piece<Seq<char>, Seq<u8>>> {
    if at == AT_CLONE {
        seq![Piece::Say("[lx] step: clone returned\n"@)]
    } else {
        Seq::empty()
    }
}

/// What is printed after the checks on a reply. `failed` counts the failed checks
/// so far.
pub open spec fn words(at: u8, r: Reply<Seq<u8>>, failed: u64) -> Seq<Piece<Seq<char>, Seq<u8>>> {
    let v = r.value as u64;
    if at == 0 {
        seq![Piece::Say("[lx] pid="@), Piece::Number(v), Piece::Say("\n"@)]
    } else if at == 1 {
        seq![
            Piece::Say("[lx] uname: "@),
            Piece::Bytes(script::string_in(r.data, 0)),
            Piece::Say(" "@),
            Piece::Bytes(script::string_in(r.data, 195)),
            Piece::Say("\n"@),
        ]
    } else if at == 24 {
        seq![Piece::Say("[lx] ls /:"@)] + listing(buffer(r.data), 0, v as int).push(
            Piece::Say("\n"@),
        )
    } else if at == 25 {
        seq![Piece::Say("[lx] step: cwd tests\n"@)]
    } else if at == 26 {
        seq![Piece::Say("[lx] step: chdir /etc\n"@)]
    } else if at == 27 {
        seq![Piece::Say("[lx] step: getcwd /etc\n"@)]
    } else if at == 28 {
        seq![Piece::Say("[lx] step: openat relative\n"@)]
    } else if at == 29 {
        seq![Piece::Say("[lx] step: stat relative\n"@)]
    } else if at == 31 {
        seq![Piece::Say("[lx] step: mkdirat\n"@)]
    } else if at == 32 {
        seq![Piece::Say("[lx] step: clone\n"@)]
    } else if at == AT_CLONE {
        if r.value == 0 {
            seq![Piece::Say("[lx] child: alive after clone\n"@)]
        } else {
            seq![Piece::Say("[lx] forked child pid="@), Piece::Number(v), Piece::Say("\n"@)]
        }
    } else if at == AT_WAIT {
        seq![
            Piece::Say("[lx] wait4: pid="@),
            Piece::Number(v),
            Piece::Say(" exit_code="@),
            Piece::Number(status_code(script::word_in(r.data, 0))),
            Piece::Say("\n"@),
        ] + summary(failed)
    } else if at == AT_EXEC {
        seq![Piece::Say("[lx] FAIL: execve returned\n"@)]
    } else {
        Seq::empty()
    }
}

/// The directory buffer holds 1024 bytes.
pub open spec fn buffer(b: Seq<u8>) -> Seq<u8> {
    if b.len() > 1024 {
        b.take(1024)
    } else {
        b
    }
}

fn print_words(out: &mut Vec<Piece<&'static str, Vec<u8>>>, at: u8, r: &Reply<Vec<u8>>, failed: u64)
    ensures
        script::out_of(final(out)@) == script::out_of(old(out)@) + words(
            at,
            (Reply { value: r.value, data: r.data@ }),
            failed,
        ),
{
    let v: u64 = r.value as u64;
    let ghost before = script::out_of(out@);
    match at {
        0 => {
            say(out, "[lx] pid=");
            say_number(out, v);
            say(out, "\n");
        },
        1 => {
            say(out, "[lx] uname: ");
            say_bytes(out, get_string(&r.data, 0));
            say(out, " ");
            say_bytes(out, get_string(&r.data, 195));
            say(out, "\n");
        },
        24 => {
            let b: Vec<u8> = if r.data.len() > 1024 {
                crate::bytes::copied(&r.data, 0, 1024)
            } else {
                crate::bytes::copied(&r.data, 0, r.data.len())
            };
            assert(b@ =~= buffer(r.data@));
            say(out, "[lx] ls /:");
            list(out, &b, v);
            say(out, "\n");
        },
        25 => say(out, "[lx] step: cwd tests\n"),
        26 => say(out, "[lx] step: chdir /etc\n"),
        27 => say(out, "[lx] step: getcwd /etc\n"),
        28 => say(out, "[lx] step: openat relative\n"),
        29 => say(out, "[lx] step: stat relative\n"),
        31 => say(out, "[lx] step: mkdirat\n"),
        32 => say(out, "[lx] step: clone\n"),
        35 => if r.value == 0 {
            say(out, "[lx] child: alive after clone\n");
        } else {
            say(out, "[lx] forked child pid=");
            say_number(out, v);
            say(out, "\n");
        },
        36 => print_end(out, v, get_word(&r.data, 0), failed),
        37 => say(out, "[lx] FAIL: execve returned\n"),
        _ => {},
    }
    assert(script::out_of(out@) =~= before + words(
        at,
        (Reply { value: r.value, data: r.data@ }),
        failed,
    ));
}

fn print_end(out: &mut Vec<Piece<&'static str, Vec<u8>>>, pid: u64, status: u32, failed: u64)
    ensures
        script::out_of(final(out)@) == script::out_of(old(out)@) + (seq![
            Piece::Say("[lx] wait4: pid="@),
            Piece::Number(pid),
            Piece::Say(" exit_code="@),
            Piece::Number(status_code(status)),
            Piece::Say("\n"@),
        ] + summary(failed)),
{
    let ghost before = script::out_of(out@);
    let code: u64 = if status < 0x8000_0000 {
        (status / 256) as u64
    } else {
        0xffff_ffff_ff00_0000 + (status / 256) as u64
    };
    say(out, "[lx] wait4: pid=");
    say_number(out, pid);
    say(out, " exit_code=");
    say_number(out, code);
    say(out, "\n");
    if failed == 0 {
        say(out, "[lx] ALL PASS\n");
    } else {
        say(out, "[lx] FAILURES=");
        say_number(out, failed);
        say(out, "\n");
    }
    assert(script::out_of(out@) =~= before + (seq![
        Piece::Say("[lx] wait4: pid="@),
        Piece::Number(pid),
        Piece::Say(" exit_code="@),
        Piece::Number(status_code(status)),
        Piece::Say("\n"@),
    ] + summary(failed)));
}

/// What the program remembers after a reply: the heap, a descriptor, a mapping
/// or the child.
pub open spec fn noted(at: u8, note: i64, v: i64) -> i64 {
    if at == 2 || at == 5 || at == 7 || at == 10 || at == 13 || at == 19 || at == 23 || at
        == AT_CLONE {
        v
    } else if at == AT_WAIT {
        0
    } else if at == AT_EXEC {
        44
    } else {
        note
    }
}

/// The next step.
pub open spec fn after(at: u8, v: i64) -> u8 {
    if at < AT_CLONE {
        (at + 1) as u8
    } else if at == AT_CLONE {
        if v == 0 {
            AT_EXEC
        } else {
            AT_WAIT
        }
    } else {
        AT_EXIT
    }
}

/// What the program does with a reply: its new state, what it prints, and its
/// next call.
pub open spec fn stepped(t: SelfTest, r: Reply<Seq<u8>>) -> (
    SelfTest,
    Seq<Piece<Seq<char>, Seq<u8>>>,
    Call<Seq<char>>,
) {
    let c = checked(t.at, t.note, r);
    let d = checked_data(t.at, r.data);
    let failed = t.failed.wrapping_add(failures(c)).wrapping_add(failures(d));
    let t1 = SelfTest {
        at: after(t.at, r.value),
        note: noted(t.at, t.note, r.value),
        failed,
    };
    (
        t1,
        lead(t.at) + complaints(c) + complaints(d) + words(t.at, r, failed),
        asked(t1.at, t1.note),
    )
}

/// How the program starts, with the argument it got, if any.
pub open spec fn started(arg: Option<Seq<u8>>) -> (
    SelfTest,
    Seq<Piece<Seq<char>, Seq<u8>>>,
    Call<Seq<char>>,
) {
    match arg {
        None => (
            SelfTest { at: 0, note: 0, failed: 0 },
            seq![Piece::Say("[lx] linux_demo: Linux ABI self-test\n"@)],
            Call::GetPid,
        ),
        Some(a) => if script::byte_at(a, 0) == CHILD_LETTER {
            (
                SelfTest { at: AT_EXIT, note: 42, failed: 0 },
                seq![
                    Piece::Say("[lx] child: execve OK, argv[1]="@),
                    Piece::Bytes(script::string_in(a, 0)),
                    Piece::Say("\n"@),
                ],
                Call::Exit(42),
            )
        } else {
            (
                SelfTest { at: AT_EXIT, note: 43, failed: 0 },
                seq![Piece::Say("[lx] FAIL: unexpected argv[1]\n"@)],
                Call::Exit(43),
            )
        },
    }
}

impl SelfTest {
    /// Start the program. Returns what it prints and its first call.
    pub fn start(arg: Option<Vec<u8>>) -> (r: (
        SelfTest,
        Vec<Piece<&'static str, Vec<u8>>>,
        Call<&'static str>,
    ))
        ensures
            (r.0, script::out_of(r.1@), call_of(r.2)) == started(
                match arg {
                    None => None,
                    Some(a) => Some(a@),
                },
            ),
    {
        let mut out: Vec<Piece<&'static str, Vec<u8>>> = nothing();
        match arg {
            None => {
                say(&mut out, "[lx] linux_demo: Linux ABI self-test\n");
                assert(script::out_of(out@) =~= started(None).1);
                (SelfTest { at: 0, note: 0, failed: 0 }, out, Call::GetPid)
            },
            Some(a) => {
                if get(&a, 0) == CHILD_LETTER {
                    say(&mut out, "[lx] child: execve OK, argv[1]=");
                    say_bytes(&mut out, get_string(&a, 0));
                    say(&mut out, "\n");
                    assert(script::out_of(out@) =~= started(Some(a@)).1);
                    (SelfTest { at: AT_EXIT, note: 42, failed: 0 }, out, Call::Exit(42))
                } else {
                    say(&mut out, "[lx] FAIL: unexpected argv[1]\n");
                    assert(script::out_of(out@) =~= started(Some(a@)).1);
                    (SelfTest { at: AT_EXIT, note: 43, failed: 0 }, out, Call::Exit(43))
                }
            },
        }
    }

    /// Take the reply to the last call. Returns what to print, and the call to
    /// make then.
    pub fn step(&mut self, r: Reply<Vec<u8>>) -> (s: (
        Vec<Piece<&'static str, Vec<u8>>>,
        Call<&'static str>,
    ))
        ensures
            (*final(self), script::out_of(s.0@), call_of(s.1)) == stepped(
                *old(self),
                (Reply { value: r.value, data: r.data@ }),
            ),
    {
        let at: u8 = self.at;
        let v: i64 = r.value;
        let mut out: Vec<Piece<&'static str, Vec<u8>>> = nothing();
        if at == AT_CLONE {
            say(&mut out, "[lx] step: clone returned\n");
        }
        assert(script::out_of(out@) =~= lead(at));
        let c: Option<(bool, &'static str)> = check(at, self.note, &r);
        let d: Option<(bool, &'static str)> = check_data(at, &r.data);
        let n1: u64 = complain(&mut out, c);
        let n2: u64 = complain(&mut out, d);
        let failed: u64 = self.failed.wrapping_add(n1).wrapping_add(n2);
        print_words(&mut out, at, &r, failed);
        self.failed = failed;
        if at == 2 || at == 5 || at == 7 || at == 10 || at == 13 || at == 19 || at == 23 || at
            == AT_CLONE {
            self.note = v;
        } else if at == AT_WAIT {
            self.note = 0;
        } else if at == AT_EXEC {
            self.note = 44;
        }
        self.at = if at < AT_CLONE {
            at + 1
        } else if at == AT_CLONE {
            if v == 0 {
                AT_EXEC
            } else {
                AT_WAIT
            }
        } else {
            AT_EXIT
        };
        (out, ask(self.at, self.note))
    }
}

} // verus!
