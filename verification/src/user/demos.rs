//! Small programs that show what processes can do: talk over endpoints, share
//! memory, use their capabilities, spawn, and use files.
//!
//! Like the shell, each asks for one thing at a time and is told the reply.
use crate::arch::riscv64::mmu::{PTE_R, PTE_W};
use crate::bytes::copied;
use crate::syscall::{error, label};
use crate::user::script::{self, get_string, nothing, say, say_bytes, say_number, Piece};
use vstd::prelude::*;

verus! {

pub const NEWLINE: u8 = 10;

pub const CARRIAGE_RETURN: u8 = 13;

/// Longest line that the console demonstration keeps.
pub const TTY_LINE: usize = 79;

/// Slot of the shared endpoint.
pub const SLOT_ENDPOINT: u64 = 11;

/// Slot of the shared frame.
pub const SLOT_FRAME: u64 = 15;

/// Slot where a new endpoint goes.
pub const SLOT_EP2: u64 = 16;

/// Where the shared frame is mapped.
pub const FRAME_VA: u64 = 0x3_0000;

/// Type codes of capabilities.
pub const TYPE_UNTYPED: u64 = 1;

pub const TYPE_CNODE: u64 = 2;

pub const TYPE_ENDPOINT: u64 = 5;

pub const TYPE_FRAME: u64 = 7;

pub const TYPE_IRQ_CONTROL: u64 = 9;

/// Kind that stat gives for a directory.
pub const KIND_DIR: u64 = 2;

/// The demonstration programs.
#[derive(Clone, Copy, PartialEq, Eq, Structural)]
pub enum Program {
    /// The first process: a greeting.
    Init,
    /// Reading a line from the console and echoing it.
    TtyTest,
    /// Retyping from a slot that is empty in the own CSpace.
    CspaceB,
    /// Calling a server once.
    Client,
    /// Serving three clients, each reply combined with the next receive.
    ServerRr,
    /// Making an endpoint, telling the other side of it, and serving one call on it.
    EpA,
    /// Learning of an endpoint and calling it.
    EpB,
    /// Handing a capability over with a message and serving one call on it.
    CapGrantor,
    /// Reading what another process wrote to a shared frame.
    ShmReader,
    /// Writing to a shared frame when asked to.
    ShmWriter,
    /// Spawning a program and waiting for it.
    SpawnDemo,
    /// Looking at the capabilities a process starts with, and using one.
    InitIcaps,
    /// Making directories, writing a file, listing and reading.
    FsDemo,
}

/// What a program asks for.
pub enum Ask<T> {
    /// A system call with the registers a0 to a6.
    Invoke([u64; 7]),
    /// A system call with this label on the object with this name; the last
    /// number goes to a4.
    Named(u64, T, u64),
    /// Write a text to a descriptor.
    Write(u64, T),
    /// Read up to 64 bytes from a descriptor.
    Read(u64),
    /// Read the next name from a directory, up to 64 bytes.
    ReadDir(u64),
    /// Read the zero-terminated bytes at an address.
    Load(u64),
    /// Put a text at an address.
    Store(u64, T),
    /// End, with this exit code if it matters.
    Exit(Option<u64>),
}

/// The reply in a0 to a2, and the bytes that were read.
pub struct Reply<D> {
    pub code: u64,
    pub value: u64,
    pub extra: u64,
    pub data: D,
}

/// A program between two calls: the step it has reached, a number and bytes that
/// it remembers.
pub struct Demo {
    pub program: Program,
    pub at: u8,
    pub note: u64,
    pub line: Vec<u8>,
}

/// The state that a step leaves, what it prints, and what it asks for.
pub struct Turn<T, B, O> {
    pub at: u8,
    pub note: u64,
    pub line: B,
    pub out: O,
    pub ask: Ask<T>,
}

pub type TurnView = Turn<Seq<char>, Seq<u8>, Seq<Piece<Seq<char>, Seq<u8>>>>;

pub open spec fn ask_of(a: Ask<&'static str>) -> Ask<Seq<char>> {
    match a {
        Ask::Invoke(regs) => Ask::Invoke(regs),
        Ask::Named(l, t, n) => Ask::Named(l, t@, n),
        Ask::Write(fd, t) => Ask::Write(fd, t@),
        Ask::Read(fd) => Ask::Read(fd),
        Ask::ReadDir(fd) => Ask::ReadDir(fd),
        Ask::Load(va) => Ask::Load(va),
        Ask::Store(va, t) => Ask::Store(va, t@),
        Ask::Exit(c) => Ask::Exit(c),
    }
}

pub open spec fn reply_of(r: Reply<Vec<u8>>) -> Reply<Seq<u8>> {
    Reply { code: r.code, value: r.value, extra: r.extra, data: r.data@ }
}

pub open spec fn turn_of(
    t: Turn<&'static str, Vec<u8>, Vec<Piece<&'static str, Vec<u8>>>>,
) -> TurnView {
    Turn {
        at: t.at,
        note: t.note,
        line: t.line@,
        out: script::out_of(t.out@),
        ask: ask_of(t.ask),
    }
}

/// A program that is over asks to end.
pub open spec fn finished(at: u8, note: u64, line: Seq<u8>) -> TurnView {
    Turn { at, note, line, out: Seq::empty(), ask: Ask::Exit(None) }
}

/// The first `n` bytes that were read.
pub open spec fn fitted(data: Seq<u8>, n: u64) -> Seq<u8> {
    if n < data.len() {
        data.take(n as int)
    } else {
        data
    }
}

fn fit(data: &Vec<u8>, n: u64) -> (r: Vec<u8>)
    ensures
        r@ == fitted(data@, n),
{
    let len: usize = if n < data.len() as u64 {
        n as usize
    } else {
        data.len()
    };
    let r: Vec<u8> = copied(data, 0, len);
    assert(r@ =~= fitted(data@, n));
    r
}

fn dup(b: &Vec<u8>) -> (r: Vec<u8>)
    ensures
        r@ == b@,
{
    let r: Vec<u8> = copied(b, 0, b.len());
    assert(r@ =~= b@);
    r
}

/// The first process: a greeting.
pub open spec fn init_turn(at: u8, note: u64, line: Seq<u8>, r: Reply<Seq<u8>>) -> TurnView {
    if at == 0 {
        Turn {
            at: 1,
            note,
            line,
            out: seq![Piece::Say("[init] Hello from ELF process!\n"@)],
            ask: Ask::Exit(None),
        }
    } else {
        finished(at, note, line)
    }
}

fn init(at: u8, note: u64, line: Vec<u8>, r: Reply<Vec<u8>>) -> (t: Turn<
    &'static str,
    Vec<u8>,
    Vec<Piece<&'static str, Vec<u8>>>,
>)
    ensures
        turn_of(t) == init_turn(at, note, line@, reply_of(r)),
{
    let ghost goal = init_turn(at, note, line@, reply_of(r));
    let mut out: Vec<Piece<&'static str, Vec<u8>>> = nothing();
    let (to, keep, ask): (u8, u64, Ask<&'static str>) = if at == 0 {
        say(&mut out, "[init] Hello from ELF process!\n");
        (1, note, Ask::Exit(None))
    } else {
        (at, note, Ask::Exit(None))
    };
    assert(script::out_of(out@) =~= goal.out);
    Turn { at: to, note: keep, line, out, ask }
}

/// Reading a line from the console and echoing it.
pub open spec fn tty_test_turn(at: u8, note: u64, line: Seq<u8>, r: Reply<Seq<u8>>) -> TurnView {
    if at == 0 {
        Turn {
            at: 1,
            note,
            line,
            out: seq![Piece::Say("[tty] tty> "@)],
            ask: Ask::Invoke([0, label::CONSOLE_GETCHAR, 0, 0, 0, 0, 0]),
        }
    } else if at == 1 {
        if r.value as u8 == NEWLINE || r.value as u8 == CARRIAGE_RETURN {
            Turn {
                at: 2,
                note,
                line,
                out: seq![
                    Piece::Say("[tty] echo: "@),
                    Piece::Bytes(line),
                    Piece::Say("\n"@),
                    Piece::Say("[OK] Phase 15: TTY input/output working\n"@),
                ],
                ask: Ask::Exit(None),
            }
        } else if line.len() < TTY_LINE {
            Turn {
                at: 1,
                note,
                line: line.push(r.value as u8),
                out: Seq::empty(),
                ask: Ask::Invoke([0, label::CONSOLE_GETCHAR, 0, 0, 0, 0, 0]),
            }
        } else {
            Turn {
                at: 1,
                note,
                line,
                out: Seq::empty(),
                ask: Ask::Invoke([0, label::CONSOLE_GETCHAR, 0, 0, 0, 0, 0]),
            }
        }
    } else {
        finished(at, note, line)
    }
}

fn tty_test(at: u8, note: u64, line: Vec<u8>, r: Reply<Vec<u8>>) -> (t: Turn<
    &'static str,
    Vec<u8>,
    Vec<Piece<&'static str, Vec<u8>>>,
>)
    ensures
        turn_of(t) == tty_test_turn(at, note, line@, reply_of(r)),
{
    let ghost goal = tty_test_turn(at, note, line@, reply_of(r));
    let mut line: Vec<u8> = line;
    let mut out: Vec<Piece<&'static str, Vec<u8>>> = nothing();
    let (to, keep, ask): (u8, u64, Ask<&'static str>) = if at == 0 {
        say(&mut out, "[tty] tty> ");
        (1, note, Ask::Invoke([0, label::CONSOLE_GETCHAR, 0, 0, 0, 0, 0]))
    } else if at == 1 {
        if r.value as u8 == NEWLINE || r.value as u8 == CARRIAGE_RETURN {
            say(&mut out, "[tty] echo: ");
            say_bytes(&mut out, dup(&line));
            say(&mut out, "\n");
            say(&mut out, "[OK] Phase 15: TTY input/output working\n");
            (2, note, Ask::Exit(None))
        } else if line.len() < TTY_LINE {
            line.push(r.value as u8);
            (1, note, Ask::Invoke([0, label::CONSOLE_GETCHAR, 0, 0, 0, 0, 0]))
        } else {
            (1, note, Ask::Invoke([0, label::CONSOLE_GETCHAR, 0, 0, 0, 0, 0]))
        }
    } else {
        (at, note, Ask::Exit(None))
    };
    assert(script::out_of(out@) =~= goal.out);
    assert(line@ =~= goal.line);
    Turn { at: to, note: keep, line, out, ask }
}

/// Retyping from a slot that is empty in the own CSpace.
pub open spec fn cspace_b_turn(at: u8, note: u64, line: Seq<u8>, r: Reply<Seq<u8>>) -> TurnView {
    if at == 0 {
        Turn {
            at: 1,
            note,
            line,
            out: Seq::empty(),
            ask: Ask::Invoke([1, label::UNTYPED_RETYPE, TYPE_ENDPOINT, 0, 2, 1, 0]),
        }
    } else if at == 1 {
        if r.code != error::OK {
            Turn {
                at: 2,
                note,
                line,
                out: seq![
                    Piece::Say("[B] retype: DENIED (slot 1 is null in B CSpace)\n"@),
                ],
                ask: Ask::Exit(None),
            }
        } else {
            Turn {
                at: 2,
                note,
                line,
                out: seq![Piece::Say("[B] retype: UNEXPECTED SUCCESS\n"@)],
                ask: Ask::Exit(None),
            }
        }
    } else {
        finished(at, note, line)
    }
}

fn cspace_b(at: u8, note: u64, line: Vec<u8>, r: Reply<Vec<u8>>) -> (t: Turn<
    &'static str,
    Vec<u8>,
    Vec<Piece<&'static str, Vec<u8>>>,
>)
    ensures
        turn_of(t) == cspace_b_turn(at, note, line@, reply_of(r)),
{
    let ghost goal = cspace_b_turn(at, note, line@, reply_of(r));
    let mut out: Vec<Piece<&'static str, Vec<u8>>> = nothing();
    let (to, keep, ask): (u8, u64, Ask<&'static str>) = if at == 0 {
        (1, note, Ask::Invoke([1, label::UNTYPED_RETYPE, TYPE_ENDPOINT, 0, 2, 1, 0]))
    } else if at == 1 {
        if r.code != error::OK {
            say(&mut out, "[B] retype: DENIED (slot 1 is null in B CSpace)\n");
            (2, note, Ask::Exit(None))
        } else {
            say(&mut out, "[B] retype: UNEXPECTED SUCCESS\n");
            (2, note, Ask::Exit(None))
        }
    } else {
        (at, note, Ask::Exit(None))
    };
    assert(script::out_of(out@) =~= goal.out);
    Turn { at: to, note: keep, line, out, ask }
}

/// Calling a server once.
pub open spec fn client_turn(at: u8, note: u64, line: Seq<u8>, r: Reply<Seq<u8>>) -> TurnView {
    if at == 0 {
        Turn {
            at: 1,
            note,
            line,
            out: seq![Piece::Say("[cl] calling\n"@)],
            ask: Ask::Invoke([SLOT_ENDPOINT, label::ENDPOINT_CALL, 0xbe, 42, 0, 0, 0]),
        }
    } else if at == 1 {
        Turn {
            at: 2,
            note,
            line,
            out: seq![
                Piece::Say("[cl] reply="@),
                Piece::Number(r.extra),
                Piece::Say("\n"@),
            ],
            ask: Ask::Exit(None),
        }
    } else {
        finished(at, note, line)
    }
}

fn client(at: u8, note: u64, line: Vec<u8>, r: Reply<Vec<u8>>) -> (t: Turn<
    &'static str,
    Vec<u8>,
    Vec<Piece<&'static str, Vec<u8>>>,
>)
    ensures
        turn_of(t) == client_turn(at, note, line@, reply_of(r)),
{
    let ghost goal = client_turn(at, note, line@, reply_of(r));
    let mut out: Vec<Piece<&'static str, Vec<u8>>> = nothing();
    let (to, keep, ask): (u8, u64, Ask<&'static str>) = if at == 0 {
        say(&mut out, "[cl] calling\n");
        (1, note, Ask::Invoke([SLOT_ENDPOINT, label::ENDPOINT_CALL, 0xbe, 42, 0, 0, 0]))
    } else if at == 1 {
        say(&mut out, "[cl] reply=");
        say_number(&mut out, r.extra);
        say(&mut out, "\n");
        (2, note, Ask::Exit(None))
    } else {
        (at, note, Ask::Exit(None))
    };
    assert(script::out_of(out@) =~= goal.out);
    Turn { at: to, note: keep, line, out, ask }
}

/// Serving three clients, each reply combined with the next receive.
pub open spec fn server_rr_turn(at: u8, note: u64, line: Seq<u8>, r: Reply<Seq<u8>>) -> TurnView {
    if at == 0 {
        Turn {
            at: 1,
            note,
            line,
            out: Seq::empty(),
            ask: Ask::Invoke([SLOT_ENDPOINT, label::ENDPOINT_RECV, 0, 0, 0, 0, 0]),
        }
    } else if at == 1 {
        Turn {
            at: 2,
            note,
            line,
            out: seq![
                Piece::Say("[sv] #1 msg="@),
                Piece::Number(r.extra),
                Piece::Say("\n"@),
            ],
            ask: Ask::Invoke([SLOT_ENDPOINT, label::ENDPOINT_REPLY_RECV, r.extra.wrapping_mul(2), 0, 0, 0, 0]),
        }
    } else if at == 2 {
        Turn {
            at: 3,
            note,
            line,
            out: seq![
                Piece::Say("[sv] #"@),
                Piece::Number(2),
                Piece::Say(" msg="@),
                Piece::Number(r.extra),
                Piece::Say("\n"@),
            ],
            ask: Ask::Invoke([SLOT_ENDPOINT, label::ENDPOINT_REPLY_RECV, r.extra.wrapping_mul(2), 0, 0, 0, 0]),
        }
    } else if at == 3 {
        Turn {
            at: 4,
            note,
            line,
            out: seq![
                Piece::Say("[sv] #"@),
                Piece::Number(3),
                Piece::Say(" msg="@),
                Piece::Number(r.extra),
                Piece::Say("\n"@),
            ],
            ask: Ask::Invoke([0, label::ENDPOINT_REPLY, r.extra.wrapping_mul(2), 0, 0, 0, 0]),
        }
    } else if at == 4 {
        Turn {
            at: 5,
            note,
            line,
            out: Seq::empty(),
            ask: Ask::Exit(None),
        }
    } else {
        finished(at, note, line)
    }
}

fn server_rr(at: u8, note: u64, line: Vec<u8>, r: Reply<Vec<u8>>) -> (t: Turn<
    &'static str,
    Vec<u8>,
    Vec<Piece<&'static str, Vec<u8>>>,
>)
    ensures
        turn_of(t) == server_rr_turn(at, note, line@, reply_of(r)),
{
    let ghost goal = server_rr_turn(at, note, line@, reply_of(r));
    let mut out: Vec<Piece<&'static str, Vec<u8>>> = nothing();
    let (to, keep, ask): (u8, u64, Ask<&'static str>) = if at == 0 {
        (1, note, Ask::Invoke([SLOT_ENDPOINT, label::ENDPOINT_RECV, 0, 0, 0, 0, 0]))
    } else if at == 1 {
        say(&mut out, "[sv] #1 msg=");
        say_number(&mut out, r.extra);
        say(&mut out, "\n");
        (2, note, Ask::Invoke([SLOT_ENDPOINT, label::ENDPOINT_REPLY_RECV, r.extra.wrapping_mul(2), 0, 0, 0, 0]))
    } else if at == 2 {
        say(&mut out, "[sv] #");
        say_number(&mut out, 2);
        say(&mut out, " msg=");
        say_number(&mut out, r.extra);
        say(&mut out, "\n");
        (3, note, Ask::Invoke([SLOT_ENDPOINT, label::ENDPOINT_REPLY_RECV, r.extra.wrapping_mul(2), 0, 0, 0, 0]))
    } else if at == 3 {
        say(&mut out, "[sv] #");
        say_number(&mut out, 3);
        say(&mut out, " msg=");
        say_number(&mut out, r.extra);
        say(&mut out, "\n");
        (4, note, Ask::Invoke([0, label::ENDPOINT_REPLY, r.extra.wrapping_mul(2), 0, 0, 0, 0]))
    } else if at == 4 {
        (5, note, Ask::Exit(None))
    } else {
        (at, note, Ask::Exit(None))
    };
    assert(script::out_of(out@) =~= goal.out);
    Turn { at: to, note: keep, line, out, ask }
}

/// Making an endpoint, telling the other side of it, and serving one call on it.
pub open spec fn ep_a_turn(at: u8, note: u64, line: Seq<u8>, r: Reply<Seq<u8>>) -> TurnView {
    if at == 0 {
        Turn {
            at: 1,
            note,
            line,
            out: Seq::empty(),
            ask: Ask::Invoke([1, label::UNTYPED_RETYPE, TYPE_ENDPOINT, 0, SLOT_EP2, 1, 0]),
        }
    } else if at == 1 {
        if r.code != error::OK {
            Turn {
                at: 4,
                note,
                line,
                out: Seq::empty(),
                ask: Ask::Exit(None),
            }
        } else {
            Turn {
                at: 2,
                note,
                line,
                out: seq![Piece::Say("[A] created ep2 at slot 16, notifying B...\n"@)],
                ask: Ask::Invoke([SLOT_ENDPOINT, label::ENDPOINT_SEND, SLOT_EP2, 0, 0, 0, 0]),
            }
        }
    } else if at == 2 {
        Turn {
            at: 3,
            note,
            line,
            out: Seq::empty(),
            ask: Ask::Invoke([SLOT_EP2, label::ENDPOINT_RECV, 0, 0, 0, 0, 0]),
        }
    } else if at == 3 {
        Turn {
            at: 4,
            note,
            line,
            out: seq![
                Piece::Say("[A] ep2 msg="@),
                Piece::Number(r.extra),
                Piece::Say(", replying with "@),
                Piece::Number(r.extra.wrapping_mul(2)),
                Piece::Say("\n"@),
            ],
            ask: Ask::Invoke([0, label::ENDPOINT_REPLY, r.extra.wrapping_mul(2), 0, 0, 0, 0]),
        }
    } else if at == 4 {
        Turn {
            at: 5,
            note,
            line,
            out: Seq::empty(),
            ask: Ask::Exit(None),
        }
    } else {
        finished(at, note, line)
    }
}

fn ep_a(at: u8, note: u64, line: Vec<u8>, r: Reply<Vec<u8>>) -> (t: Turn<
    &'static str,
    Vec<u8>,
    Vec<Piece<&'static str, Vec<u8>>>,
>)
    ensures
        turn_of(t) == ep_a_turn(at, note, line@, reply_of(r)),
{
    let ghost goal = ep_a_turn(at, note, line@, reply_of(r));
    let mut out: Vec<Piece<&'static str, Vec<u8>>> = nothing();
    let (to, keep, ask): (u8, u64, Ask<&'static str>) = if at == 0 {
        (1, note, Ask::Invoke([1, label::UNTYPED_RETYPE, TYPE_ENDPOINT, 0, SLOT_EP2, 1, 0]))
    } else if at == 1 {
        if r.code != error::OK {
            (4, note, Ask::Exit(None))
        } else {
            say(&mut out, "[A] created ep2 at slot 16, notifying B...\n");
            (2, note, Ask::Invoke([SLOT_ENDPOINT, label::ENDPOINT_SEND, SLOT_EP2, 0, 0, 0, 0]))
        }
    } else if at == 2 {
        (3, note, Ask::Invoke([SLOT_EP2, label::ENDPOINT_RECV, 0, 0, 0, 0, 0]))
    } else if at == 3 {
        say(&mut out, "[A] ep2 msg=");
        say_number(&mut out, r.extra);
        say(&mut out, ", replying with ");
        say_number(&mut out, r.extra.wrapping_mul(2));
        say(&mut out, "\n");
        (4, note, Ask::Invoke([0, label::ENDPOINT_REPLY, r.extra.wrapping_mul(2), 0, 0, 0, 0]))
    } else if at == 4 {
        (5, note, Ask::Exit(None))
    } else {
        (at, note, Ask::Exit(None))
    };
    assert(script::out_of(out@) =~= goal.out);
    Turn { at: to, note: keep, line, out, ask }
}

/// Learning of an endpoint and calling it.
pub open spec fn ep_b_turn(at: u8, note: u64, line: Seq<u8>, r: Reply<Seq<u8>>) -> TurnView {
    if at == 0 {
        Turn {
            at: 1,
            note,
            line,
            out: Seq::empty(),
            ask: Ask::Invoke([SLOT_ENDPOINT, label::ENDPOINT_RECV, 0, 0, 0, 0, 0]),
        }
    } else if at == 1 {
        Turn {
            at: 2,
            note,
            line,
            out: seq![
                Piece::Say("[B] ep2 ready at slot "@),
                Piece::Number(r.value),
                Piece::Say(", calling...\n"@),
            ],
            ask: Ask::Invoke([r.value, label::ENDPOINT_CALL, 0, 100, 0, 0, 0]),
        }
    } else if at == 2 {
        Turn {
            at: 3,
            note,
            line,
            out: seq![
                Piece::Say("[B] ep2 reply="@),
                Piece::Number(r.extra),
                Piece::Say("\n"@),
            ],
            ask: Ask::Exit(None),
        }
    } else {
        finished(at, note, line)
    }
}

fn ep_b(at: u8, note: u64, line: Vec<u8>, r: Reply<Vec<u8>>) -> (t: Turn<
    &'static str,
    Vec<u8>,
    Vec<Piece<&'static str, Vec<u8>>>,
>)
    ensures
        turn_of(t) == ep_b_turn(at, note, line@, reply_of(r)),
{
    let ghost goal = ep_b_turn(at, note, line@, reply_of(r));
    let mut out: Vec<Piece<&'static str, Vec<u8>>> = nothing();
    let (to, keep, ask): (u8, u64, Ask<&'static str>) = if at == 0 {
        (1, note, Ask::Invoke([SLOT_ENDPOINT, label::ENDPOINT_RECV, 0, 0, 0, 0, 0]))
    } else if at == 1 {
        say(&mut out, "[B] ep2 ready at slot ");
        say_number(&mut out, r.value);
        say(&mut out, ", calling...\n");
        (2, note, Ask::Invoke([r.value, label::ENDPOINT_CALL, 0, 100, 0, 0, 0]))
    } else if at == 2 {
        say(&mut out, "[B] ep2 reply=");
        say_number(&mut out, r.extra);
        say(&mut out, "\n");
        (3, note, Ask::Exit(None))
    } else {
        (at, note, Ask::Exit(None))
    };
    assert(script::out_of(out@) =~= goal.out);
    Turn { at: to, note: keep, line, out, ask }
}

/// Handing a capability over with a message and serving one call on it.
pub open spec fn cap_grantor_turn(at: u8, note: u64, line: Seq<u8>, r: Reply<Seq<u8>>) -> TurnView {
    if at == 0 {
        Turn {
            at: 1,
            note,
            line,
            out: Seq::empty(),
            ask: Ask::Invoke([1, label::ENDPOINT_SEND, 0, 0, 0, 0, 2]),
        }
    } else if at == 1 {
        Turn {
            at: 2,
            note,
            line,
            out: seq![
                Piece::Say("[grantor] sent ep_private to grantee via cap transfer\n"@),
            ],
            ask: Ask::Invoke([2, label::ENDPOINT_RECV, 0, 0, 0, 0, 0]),
        }
    } else if at == 2 {
        Turn {
            at: 3,
            note,
            line,
            out: seq![
                Piece::Say("[grantor] received msg="@),
                Piece::Number(r.extra),
                Piece::Say(", replying with "@),
                Piece::Number(r.extra.wrapping_mul(2)),
                Piece::Say("\n"@),
            ],
            ask: Ask::Invoke([0, label::ENDPOINT_REPLY, r.extra.wrapping_mul(2), 0, 0, 0, 0]),
        }
    } else if at == 3 {
        Turn {
            at: 4,
            note,
            line,
            out: Seq::empty(),
            ask: Ask::Exit(None),
        }
    } else {
        finished(at, note, line)
    }
}

fn cap_grantor(at: u8, note: u64, line: Vec<u8>, r: Reply<Vec<u8>>) -> (t: Turn<
    &'static str,
    Vec<u8>,
    Vec<Piece<&'static str, Vec<u8>>>,
>)
    ensures
        turn_of(t) == cap_grantor_turn(at, note, line@, reply_of(r)),
{
    let ghost goal = cap_grantor_turn(at, note, line@, reply_of(r));
    let mut out: Vec<Piece<&'static str, Vec<u8>>> = nothing();
    let (to, keep, ask): (u8, u64, Ask<&'static str>) = if at == 0 {
        (1, note, Ask::Invoke([1, label::ENDPOINT_SEND, 0, 0, 0, 0, 2]))
    } else if at == 1 {
        say(&mut out, "[grantor] sent ep_private to grantee via cap transfer\n");
        (2, note, Ask::Invoke([2, label::ENDPOINT_RECV, 0, 0, 0, 0, 0]))
    } else if at == 2 {
        say(&mut out, "[grantor] received msg=");
        say_number(&mut out, r.extra);
        say(&mut out, ", replying with ");
        say_number(&mut out, r.extra.wrapping_mul(2));
        say(&mut out, "\n");
        (3, note, Ask::Invoke([0, label::ENDPOINT_REPLY, r.extra.wrapping_mul(2), 0, 0, 0, 0]))
    } else if at == 3 {
        (4, note, Ask::Exit(None))
    } else {
        (at, note, Ask::Exit(None))
    };
    assert(script::out_of(out@) =~= goal.out);
    Turn { at: to, note: keep, line, out, ask }
}

/// Reading what another process wrote to a shared frame.
pub open spec fn shm_reader_turn(at: u8, note: u64, line: Seq<u8>, r: Reply<Seq<u8>>) -> TurnView {
    if at == 0 {
        Turn {
            at: 1,
            note,
            line,
            out: Seq::empty(),
            ask: Ask::Invoke([SLOT_FRAME, label::FRAME_MAP, FRAME_VA, PTE_R, 0, 0, 0]),
        }
    } else if at == 1 {
        Turn {
            at: 2,
            note,
            line,
            out: seq![Piece::Say("[cl] mapped shared frame, calling writer...\n"@)],
            ask: Ask::Invoke([SLOT_ENDPOINT, label::ENDPOINT_CALL, 0, 0, 0, 0, 0]),
        }
    } else if at == 2 {
        Turn {
            at: 3,
            note,
            line,
            out: Seq::empty(),
            ask: Ask::Load(FRAME_VA),
        }
    } else if at == 3 {
        Turn {
            at: 4,
            note,
            line,
            out: seq![
                Piece::Say("[cl] shared data: "@),
                Piece::Bytes(script::string_in(r.data, 0)),
                Piece::Say("\n"@),
            ],
            ask: Ask::Exit(None),
        }
    } else {
        finished(at, note, line)
    }
}

fn shm_reader(at: u8, note: u64, line: Vec<u8>, r: Reply<Vec<u8>>) -> (t: Turn<
    &'static str,
    Vec<u8>,
    Vec<Piece<&'static str, Vec<u8>>>,
>)
    ensures
        turn_of(t) == shm_reader_turn(at, note, line@, reply_of(r)),
{
    let ghost goal = shm_reader_turn(at, note, line@, reply_of(r));
    let mut out: Vec<Piece<&'static str, Vec<u8>>> = nothing();
    let (to, keep, ask): (u8, u64, Ask<&'static str>) = if at == 0 {
        (1, note, Ask::Invoke([SLOT_FRAME, label::FRAME_MAP, FRAME_VA, PTE_R, 0, 0, 0]))
    } else if at == 1 {
        say(&mut out, "[cl] mapped shared frame, calling writer...\n");
        (2, note, Ask::Invoke([SLOT_ENDPOINT, label::ENDPOINT_CALL, 0, 0, 0, 0, 0]))
    } else if at == 2 {
        (3, note, Ask::Load(FRAME_VA))
    } else if at == 3 {
        say(&mut out, "[cl] shared data: ");
        say_bytes(&mut out, get_string(&r.data, 0));
        say(&mut out, "\n");
        (4, note, Ask::Exit(None))
    } else {
        (at, note, Ask::Exit(None))
    };
    assert(script::out_of(out@) =~= goal.out);
    Turn { at: to, note: keep, line, out, ask }
}

/// Writing to a shared frame when asked to.
pub open spec fn shm_writer_turn(at: u8, note: u64, line: Seq<u8>, r: Reply<Seq<u8>>) -> TurnView {
    if at == 0 {
        Turn {
            at: 1,
            note,
            line,
            out: Seq::empty(),
            ask: Ask::Invoke([SLOT_ENDPOINT, label::ENDPOINT_RECV, 0, 0, 0, 0, 0]),
        }
    } else if at == 1 {
        Turn {
            at: 2,
            note,
            line,
            out: Seq::empty(),
            ask: Ask::Invoke([SLOT_FRAME, label::FRAME_MAP, FRAME_VA, PTE_R | PTE_W, 0, 0, 0]),
        }
    } else if at == 2 {
        if r.code != error::OK {
            Turn {
                at: 5,
                note,
                line,
                out: Seq::empty(),
                ask: Ask::Exit(None),
            }
        } else {
            Turn {
                at: 3,
                note,
                line,
                out: Seq::empty(),
                ask: Ask::Store(FRAME_VA, "Phase 11: shared memory!\0"@),
            }
        }
    } else if at == 3 {
        Turn {
            at: 4,
            note,
            line,
            out: seq![Piece::Say("[sv] wrote to shared frame\n"@)],
            ask: Ask::Invoke([0, label::ENDPOINT_REPLY, 0, 0, 0, 0, 0]),
        }
    } else if at == 4 {
        Turn {
            at: 5,
            note,
            line,
            out: Seq::empty(),
            ask: Ask::Exit(None),
        }
    } else {
        finished(at, note, line)
    }
}

fn shm_writer(at: u8, note: u64, line: Vec<u8>, r: Reply<Vec<u8>>) -> (t: Turn<
    &'static str,
    Vec<u8>,
    Vec<Piece<&'static str, Vec<u8>>>,
>)
    ensures
        turn_of(t) == shm_writer_turn(at, note, line@, reply_of(r)),
{
    let ghost goal = shm_writer_turn(at, note, line@, reply_of(r));
    let mut out: Vec<Piece<&'static str, Vec<u8>>> = nothing();
    let (to, keep, ask): (u8, u64, Ask<&'static str>) = if at == 0 {
        (1, note, Ask::Invoke([SLOT_ENDPOINT, label::ENDPOINT_RECV, 0, 0, 0, 0, 0]))
    } else if at == 1 {
        (2, note, Ask::Invoke([SLOT_FRAME, label::FRAME_MAP, FRAME_VA, PTE_R | PTE_W, 0, 0, 0]))
    } else if at == 2 {
        if r.code != error::OK {
            (5, note, Ask::Exit(None))
        } else {
            (3, note, Ask::Store(FRAME_VA, "Phase 11: shared memory!\0"))
        }
    } else if at == 3 {
        say(&mut out, "[sv] wrote to shared frame\n");
        (4, note, Ask::Invoke([0, label::ENDPOINT_REPLY, 0, 0, 0, 0, 0]))
    } else if at == 4 {
        (5, note, Ask::Exit(None))
    } else {
        (at, note, Ask::Exit(None))
    };
    assert(script::out_of(out@) =~= goal.out);
    Turn { at: to, note: keep, line, out, ask }
}

/// Spawning a program and waiting for it.
pub open spec fn spawn_demo_turn(at: u8, note: u64, line: Seq<u8>, r: Reply<Seq<u8>>) -> TurnView {
    if at == 0 {
        Turn {
            at: 1,
            note,
            line,
            out: seq![Piece::Say("[spawn] spawning 'init'...\n"@)],
            ask: Ask::Named(label::PROC_SPAWN, "init"@, 1),
        }
    } else if at == 1 {
        if r.code != error::OK {
            Turn {
                at: 3,
                note,
                line,
                out: seq![
                    Piece::Say("[spawn] PROC_SPAWN failed rc="@),
                    Piece::Number(r.code),
                    Piece::Say("\n"@),
                ],
                ask: Ask::Exit(Some(1)),
            }
        } else {
            Turn {
                at: 2,
                note,
                line,
                out: seq![Piece::Say("[spawn] init spawned, waiting...\n"@)],
                ask: Ask::Invoke([1, label::PROC_WAIT, 0, 0, 0, 0, 0]),
            }
        }
    } else if at == 2 {
        if r.code != error::OK {
            Turn {
                at: 3,
                note,
                line,
                out: seq![
                    Piece::Say("[spawn] PROC_WAIT failed rc="@),
                    Piece::Number(r.code),
                    Piece::Say("\n"@),
                ],
                ask: Ask::Exit(Some(1)),
            }
        } else {
            Turn {
                at: 3,
                note,
                line,
                out: seq![
                    Piece::Say("[spawn] init exited with code "@),
                    Piece::Number(r.value),
                    Piece::Say("\n"@),
                    Piece::Say("[OK] Phase 17: PROC_SPAWN + PROC_WAIT working\n"@),
                ],
                ask: Ask::Exit(Some(0)),
            }
        }
    } else {
        finished(at, note, line)
    }
}

fn spawn_demo(at: u8, note: u64, line: Vec<u8>, r: Reply<Vec<u8>>) -> (t: Turn<
    &'static str,
    Vec<u8>,
    Vec<Piece<&'static str, Vec<u8>>>,
>)
    ensures
        turn_of(t) == spawn_demo_turn(at, note, line@, reply_of(r)),
{
    let ghost goal = spawn_demo_turn(at, note, line@, reply_of(r));
    let mut out: Vec<Piece<&'static str, Vec<u8>>> = nothing();
    let (to, keep, ask): (u8, u64, Ask<&'static str>) = if at == 0 {
        say(&mut out, "[spawn] spawning 'init'...\n");
        (1, note, Ask::Named(label::PROC_SPAWN, "init", 1))
    } else if at == 1 {
        if r.code != error::OK {
            say(&mut out, "[spawn] PROC_SPAWN failed rc=");
            say_number(&mut out, r.code);
            say(&mut out, "\n");
            (3, note, Ask::Exit(Some(1)))
        } else {
            say(&mut out, "[spawn] init spawned, waiting...\n");
            (2, note, Ask::Invoke([1, label::PROC_WAIT, 0, 0, 0, 0, 0]))
        }
    } else if at == 2 {
        if r.code != error::OK {
            say(&mut out, "[spawn] PROC_WAIT failed rc=");
            say_number(&mut out, r.code);
            say(&mut out, "\n");
            (3, note, Ask::Exit(Some(1)))
        } else {
            say(&mut out, "[spawn] init exited with code ");
            say_number(&mut out, r.value);
            say(&mut out, "\n");
            say(&mut out, "[OK] Phase 17: PROC_SPAWN + PROC_WAIT working\n");
            (3, note, Ask::Exit(Some(0)))
        }
    } else {
        (at, note, Ask::Exit(None))
    };
    assert(script::out_of(out@) =~= goal.out);
    Turn { at: to, note: keep, line, out, ask }
}

/// Looking at the capabilities a process starts with, and using one.
pub open spec fn init_icaps_turn(at: u8, note: u64, line: Seq<u8>, r: Reply<Seq<u8>>) -> TurnView {
    if at == 0 {
        Turn {
            at: 1,
            note,
            line,
            out: seq![Piece::Say("[icaps] verifying InitCaps...\n"@)],
            ask: Ask::Invoke([0, label::CAP_IDENTIFY, 0, 0, 0, 0, 0]),
        }
    } else if at == 1 {
        if r.code != error::OK || r.value != TYPE_CNODE {
            Turn {
                at: 7,
                note,
                line,
                out: seq![
                    Piece::Say("[icaps] FAIL: "@),
                    Piece::Say("slot0=CNode"@),
                    Piece::Say(" rc="@),
                    Piece::Number(r.code),
                    Piece::Say(" kind="@),
                    Piece::Number(r.value),
                    Piece::Say(" expected="@),
                    Piece::Number(TYPE_CNODE),
                    Piece::Say("\n"@),
                ],
                ask: Ask::Exit(Some(1)),
            }
        } else {
            Turn {
                at: 2,
                note,
                line,
                out: seq![
                    Piece::Say("[icaps] OK: "@),
                    Piece::Say("slot0=CNode"@),
                    Piece::Say("\n"@),
                ],
                ask: Ask::Invoke([1, label::CAP_IDENTIFY, 0, 0, 0, 0, 0]),
            }
        }
    } else if at == 2 {
        if r.code != error::OK || r.value != TYPE_UNTYPED {
            Turn {
                at: 7,
                note,
                line,
                out: seq![
                    Piece::Say("[icaps] FAIL: "@),
                    Piece::Say("slot1=Untyped"@),
                    Piece::Say(" rc="@),
                    Piece::Number(r.code),
                    Piece::Say(" kind="@),
                    Piece::Number(r.value),
                    Piece::Say(" expected="@),
                    Piece::Number(TYPE_UNTYPED),
                    Piece::Say("\n"@),
                ],
                ask: Ask::Exit(Some(1)),
            }
        } else {
            Turn {
                at: 3,
                note,
                line,
                out: seq![
                    Piece::Say("[icaps] OK: "@),
                    Piece::Say("slot1=Untyped"@),
                    Piece::Say("\n"@),
                ],
                ask: Ask::Invoke([2, label::CAP_IDENTIFY, 0, 0, 0, 0, 0]),
            }
        }
    } else if at == 3 {
        if r.code != error::OK || r.value != TYPE_IRQ_CONTROL {
            Turn {
                at: 7,
                note,
                line,
                out: seq![
                    Piece::Say("[icaps] FAIL: "@),
                    Piece::Say("slot2=IRQControl"@),
                    Piece::Say(" rc="@),
                    Piece::Number(r.code),
                    Piece::Say(" kind="@),
                    Piece::Number(r.value),
                    Piece::Say(" expected="@),
                    Piece::Number(TYPE_IRQ_CONTROL),
                    Piece::Say("\n"@),
                ],
                ask: Ask::Exit(Some(1)),
            }
        } else {
            Turn {
                at: 4,
                note,
                line,
                out: seq![
                    Piece::Say("[icaps] OK: "@),
                    Piece::Say("slot2=IRQControl"@),
                    Piece::Say("\n"@),
                ],
                ask: Ask::Invoke([3, label::CAP_IDENTIFY, 0, 0, 0, 0, 0]),
            }
        }
    } else if at == 4 {
        if r.code != error::OK || r.value != TYPE_FRAME {
            Turn {
                at: 7,
                note,
                line,
                out: seq![
                    Piece::Say("[icaps] FAIL: "@),
                    Piece::Say("slot3=Frame"@),
                    Piece::Say(" rc="@),
                    Piece::Number(r.code),
                    Piece::Say(" kind="@),
                    Piece::Number(r.value),
                    Piece::Say(" expected="@),
                    Piece::Number(TYPE_FRAME),
                    Piece::Say("\n"@),
                ],
                ask: Ask::Exit(Some(1)),
            }
        } else {
            Turn {
                at: 5,
                note,
                line,
                out: seq![
                    Piece::Say("[icaps] OK: "@),
                    Piece::Say("slot3=Frame"@),
                    Piece::Say("\n"@),
                ],
                ask: Ask::Invoke([1, label::UNTYPED_RETYPE, TYPE_ENDPOINT, 0, 4, 1, 0]),
            }
        }
    } else if at == 5 {
        if r.code != error::OK {
            Turn {
                at: 7,
                note,
                line,
                out: seq![
                    Piece::Say("[icaps] FAIL: retype rc="@),
                    Piece::Number(r.code),
                    Piece::Say("\n"@),
                ],
                ask: Ask::Exit(Some(1)),
            }
        } else {
            Turn {
                at: 6,
                note,
                line,
                out: Seq::empty(),
                ask: Ask::Invoke([4, label::CAP_IDENTIFY, 0, 0, 0, 0, 0]),
            }
        }
    } else if at == 6 {
        if r.code != error::OK || r.value != TYPE_ENDPOINT {
            Turn {
                at: 7,
                note,
                line,
                out: seq![
                    Piece::Say("[icaps] FAIL: "@),
                    Piece::Say("slot4=Endpoint(retyped)"@),
                    Piece::Say(" rc="@),
                    Piece::Number(r.code),
                    Piece::Say(" kind="@),
                    Piece::Number(r.value),
                    Piece::Say(" expected="@),
                    Piece::Number(TYPE_ENDPOINT),
                    Piece::Say("\n"@),
                ],
                ask: Ask::Exit(Some(1)),
            }
        } else {
            Turn {
                at: 7,
                note,
                line,
                out: seq![
                    Piece::Say("[icaps] OK: "@),
                    Piece::Say("slot4=Endpoint(retyped)"@),
                    Piece::Say("\n"@),
                    Piece::Say("[OK] Phase 20: InitCaps handoff verified\n"@),
                ],
                ask: Ask::Exit(Some(0)),
            }
        }
    } else {
        finished(at, note, line)
    }
}

fn init_icaps(at: u8, note: u64, line: Vec<u8>, r: Reply<Vec<u8>>) -> (t: Turn<
    &'static str,
    Vec<u8>,
    Vec<Piece<&'static str, Vec<u8>>>,
>)
    ensures
        turn_of(t) == init_icaps_turn(at, note, line@, reply_of(r)),
{
    let ghost goal = init_icaps_turn(at, note, line@, reply_of(r));
    let mut out: Vec<Piece<&'static str, Vec<u8>>> = nothing();
    let (to, keep, ask): (u8, u64, Ask<&'static str>) = if at == 0 {
        say(&mut out, "[icaps] verifying InitCaps...\n");
        (1, note, Ask::Invoke([0, label::CAP_IDENTIFY, 0, 0, 0, 0, 0]))
    } else if at == 1 {
        if r.code != error::OK || r.value != TYPE_CNODE {
            say(&mut out, "[icaps] FAIL: ");
            say(&mut out, "slot0=CNode");
            say(&mut out, " rc=");
            say_number(&mut out, r.code);
            say(&mut out, " kind=");
            say_number(&mut out, r.value);
            say(&mut out, " expected=");
            say_number(&mut out, TYPE_CNODE);
            say(&mut out, "\n");
            (7, note, Ask::Exit(Some(1)))
        } else {
            say(&mut out, "[icaps] OK: ");
            say(&mut out, "slot0=CNode");
            say(&mut out, "\n");
            (2, note, Ask::Invoke([1, label::CAP_IDENTIFY, 0, 0, 0, 0, 0]))
        }
    } else if at == 2 {
        if r.code != error::OK || r.value != TYPE_UNTYPED {
            say(&mut out, "[icaps] FAIL: ");
            say(&mut out, "slot1=Untyped");
            say(&mut out, " rc=");
            say_number(&mut out, r.code);
            say(&mut out, " kind=");
            say_number(&mut out, r.value);
            say(&mut out, " expected=");
            say_number(&mut out, TYPE_UNTYPED);
            say(&mut out, "\n");
            (7, note, Ask::Exit(Some(1)))
        } else {
            say(&mut out, "[icaps] OK: ");
            say(&mut out, "slot1=Untyped");
            say(&mut out, "\n");
            (3, note, Ask::Invoke([2, label::CAP_IDENTIFY, 0, 0, 0, 0, 0]))
        }
    } else if at == 3 {
        if r.code != error::OK || r.value != TYPE_IRQ_CONTROL {
            say(&mut out, "[icaps] FAIL: ");
            say(&mut out, "slot2=IRQControl");
            say(&mut out, " rc=");
            say_number(&mut out, r.code);
            say(&mut out, " kind=");
            say_number(&mut out, r.value);
            say(&mut out, " expected=");
            say_number(&mut out, TYPE_IRQ_CONTROL);
            say(&mut out, "\n");
            (7, note, Ask::Exit(Some(1)))
        } else {
            say(&mut out, "[icaps] OK: ");
            say(&mut out, "slot2=IRQControl");
            say(&mut out, "\n");
            (4, note, Ask::Invoke([3, label::CAP_IDENTIFY, 0, 0, 0, 0, 0]))
        }
    } else if at == 4 {
        if r.code != error::OK || r.value != TYPE_FRAME {
            say(&mut out, "[icaps] FAIL: ");
            say(&mut out, "slot3=Frame");
            say(&mut out, " rc=");
            say_number(&mut out, r.code);
            say(&mut out, " kind=");
            say_number(&mut out, r.value);
            say(&mut out, " expected=");
            say_number(&mut out, TYPE_FRAME);
            say(&mut out, "\n");
            (7, note, Ask::Exit(Some(1)))
        } else {
            say(&mut out, "[icaps] OK: ");
            say(&mut out, "slot3=Frame");
            say(&mut out, "\n");
            (5, note, Ask::Invoke([1, label::UNTYPED_RETYPE, TYPE_ENDPOINT, 0, 4, 1, 0]))
        }
    } else if at == 5 {
        if r.code != error::OK {
            say(&mut out, "[icaps] FAIL: retype rc=");
            say_number(&mut out, r.code);
            say(&mut out, "\n");
            (7, note, Ask::Exit(Some(1)))
        } else {
            (6, note, Ask::Invoke([4, label::CAP_IDENTIFY, 0, 0, 0, 0, 0]))
        }
    } else if at == 6 {
        if r.code != error::OK || r.value != TYPE_ENDPOINT {
            say(&mut out, "[icaps] FAIL: ");
            say(&mut out, "slot4=Endpoint(retyped)");
            say(&mut out, " rc=");
            say_number(&mut out, r.code);
            say(&mut out, " kind=");
            say_number(&mut out, r.value);
            say(&mut out, " expected=");
            say_number(&mut out, TYPE_ENDPOINT);
            say(&mut out, "\n");
            (7, note, Ask::Exit(Some(1)))
        } else {
            say(&mut out, "[icaps] OK: ");
            say(&mut out, "slot4=Endpoint(retyped)");
            say(&mut out, "\n");
            say(&mut out, "[OK] Phase 20: InitCaps handoff verified\n");
            (7, note, Ask::Exit(Some(0)))
        }
    } else {
        (at, note, Ask::Exit(None))
    };
    assert(script::out_of(out@) =~= goal.out);
    Turn { at: to, note: keep, line, out, ask }
}

/// Making directories, writing a file, listing and reading.
pub open spec fn fs_demo_turn(at: u8, note: u64, line: Seq<u8>, r: Reply<Seq<u8>>) -> TurnView {
    if at == 0 {
        Turn {
            at: 1,
            note,
            line,
            out: Seq::empty(),
            ask: Ask::Named(label::FS_MKDIR, "/bin"@, 0),
        }
    } else if at == 1 {
        if r.code != error::OK {
            Turn {
                at: 12,
                note,
                line,
                out: seq![
                    Piece::Say("[fs] mkdir /bin FAIL rc="@),
                    Piece::Number(r.code),
                    Piece::Say("\n"@),
                ],
                ask: Ask::Exit(None),
            }
        } else {
            Turn {
                at: 2,
                note,
                line,
                out: seq![Piece::Say("[fs] mkdir /bin: OK\n"@)],
                ask: Ask::Named(label::FS_MKDIR, "/etc"@, 0),
            }
        }
    } else if at == 2 {
        if r.code != error::OK {
            Turn {
                at: 12,
                note,
                line,
                out: seq![
                    Piece::Say("[fs] mkdir /etc FAIL rc="@),
                    Piece::Number(r.code),
                    Piece::Say("\n"@),
                ],
                ask: Ask::Exit(None),
            }
        } else {
            Turn {
                at: 3,
                note,
                line,
                out: seq![Piece::Say("[fs] mkdir /etc: OK\n"@)],
                ask: Ask::Named(label::FS_CREATE, "/hello.txt"@, 0),
            }
        }
    } else if at == 3 {
        if r.code != error::OK {
            Turn {
                at: 12,
                note,
                line,
                out: seq![
                    Piece::Say("[fs] fs_create rc="@),
                    Piece::Number(r.code),
                    Piece::Say(" fd="@),
                    Piece::Number(r.value),
                    Piece::Say("\n"@),
                ],
                ask: Ask::Exit(None),
            }
        } else {
            Turn {
                at: 4,
                note: r.value,
                line,
                out: seq![
                    Piece::Say("[fs] fs_create rc="@),
                    Piece::Number(r.code),
                    Piece::Say(" fd="@),
                    Piece::Number(r.value),
                    Piece::Say("\n"@),
                ],
                ask: Ask::Write(r.value, "hello, ferrite!\n"@),
            }
        }
    } else if at == 4 {
        if r.code != error::OK || r.value == 0 {
            Turn {
                at: 12,
                note,
                line,
                out: seq![
                    Piece::Say("[fs] fs_write wc="@),
                    Piece::Number(r.code),
                    Piece::Say(" n="@),
                    Piece::Number(r.value),
                    Piece::Say("\n"@),
                ],
                ask: Ask::Exit(None),
            }
        } else {
            Turn {
                at: 5,
                note,
                line,
                out: seq![
                    Piece::Say("[fs] fs_write wc="@),
                    Piece::Number(r.code),
                    Piece::Say(" n="@),
                    Piece::Number(r.value),
                    Piece::Say("\n"@),
                ],
                ask: Ask::Invoke([0, label::FS_CLOSE, note, 0, 0, 0, 0]),
            }
        }
    } else if at == 5 {
        Turn {
            at: 6,
            note,
            line,
            out: seq![
                Piece::Say("[fs] write /hello.txt: OK\n"@),
                Piece::Say("[fs] opening /...\n"@),
            ],
            ask: Ask::Named(label::FS_OPEN, "/"@, 0),
        }
    } else if at == 6 {
        if r.code != error::OK {
            Turn {
                at: 12,
                note,
                line,
                out: seq![
                    Piece::Say("[fs] fs_open / rc="@),
                    Piece::Number(r.code),
                    Piece::Say(" dfd="@),
                    Piece::Number(r.value),
                    Piece::Say("\n"@),
                ],
                ask: Ask::Exit(None),
            }
        } else {
            Turn {
                at: 7,
                note: r.value,
                line,
                out: seq![
                    Piece::Say("[fs] fs_open / rc="@),
                    Piece::Number(r.code),
                    Piece::Say(" dfd="@),
                    Piece::Number(r.value),
                    Piece::Say("\n"@),
                    Piece::Say("[fs] ls /:\n"@),
                ],
                ask: Ask::ReadDir(r.value),
            }
        }
    } else if at == 7 {
        if r.value == 0 {
            Turn {
                at: 8,
                note,
                line,
                out: seq![
                    Piece::Say("[fs] readdir rrc="@),
                    Piece::Number(r.code),
                    Piece::Say(" n="@),
                    Piece::Number(r.value),
                    Piece::Say("\n"@),
                ],
                ask: Ask::Invoke([0, label::FS_CLOSE, note, 0, 0, 0, 0]),
            }
        } else {
            Turn {
                at: 7,
                note,
                line,
                out: seq![
                    Piece::Say("[fs] readdir rrc="@),
                    Piece::Number(r.code),
                    Piece::Say(" n="@),
                    Piece::Number(r.value),
                    Piece::Say("\n"@),
                    Piece::Say("  "@),
                    Piece::Bytes(fitted(r.data, r.value)),
                    Piece::Say("\n"@),
                ],
                ask: Ask::ReadDir(note),
            }
        }
    } else if at == 8 {
        Turn {
            at: 9,
            note,
            line,
            out: seq![Piece::Say("[fs] opening /hello.txt...\n"@)],
            ask: Ask::Named(label::FS_OPEN, "/hello.txt"@, 0),
        }
    } else if at == 9 {
        if r.code != error::OK {
            Turn {
                at: 12,
                note,
                line,
                out: seq![
                    Piece::Say("[fs] fs_open /hello.txt rc="@),
                    Piece::Number(r.code),
                    Piece::Say(" rfd="@),
                    Piece::Number(r.value),
                    Piece::Say("\n"@),
                ],
                ask: Ask::Exit(None),
            }
        } else {
            Turn {
                at: 10,
                note: r.value,
                line,
                out: seq![
                    Piece::Say("[fs] fs_open /hello.txt rc="@),
                    Piece::Number(r.code),
                    Piece::Say(" rfd="@),
                    Piece::Number(r.value),
                    Piece::Say("\n"@),
                ],
                ask: Ask::Read(r.value),
            }
        }
    } else if at == 10 {
        Turn {
            at: 11,
            note,
            line: fitted(r.data, r.value),
            out: seq![
                Piece::Say("[fs] fs_read rc="@),
                Piece::Number(r.code),
                Piece::Say(" n="@),
                Piece::Number(r.value),
                Piece::Say("\n"@),
            ],
            ask: Ask::Invoke([0, label::FS_CLOSE, note, 0, 0, 0, 0]),
        }
    } else if at == 11 {
        Turn {
            at: 13,
            note,
            line,
            out: seq![
                Piece::Say("[fs] cat /hello.txt: "@),
                Piece::Bytes(line),
                Piece::Say("[fs] stat /bin...\n"@),
            ],
            ask: Ask::Named(label::FS_STAT, "/bin"@, 0),
        }
    } else if at == 13 {
        if r.code != error::OK {
            Turn {
                at: 12,
                note,
                line,
                out: seq![
                    Piece::Say("[fs] stat rc="@),
                    Piece::Number(r.code),
                    Piece::Say(" kind="@),
                    Piece::Number(r.value),
                    Piece::Say(" size="@),
                    Piece::Number(r.extra),
                    Piece::Say("\n"@),
                ],
                ask: Ask::Exit(None),
            }
        } else if r.value != KIND_DIR {
            Turn {
                at: 12,
                note,
                line,
                out: seq![
                    Piece::Say("[fs] stat rc="@),
                    Piece::Number(r.code),
                    Piece::Say(" kind="@),
                    Piece::Number(r.value),
                    Piece::Say(" size="@),
                    Piece::Number(r.extra),
                    Piece::Say("\n"@),
                    Piece::Say("[fs] stat /bin: wrong kind\n"@),
                ],
                ask: Ask::Exit(None),
            }
        } else {
            Turn {
                at: 12,
                note,
                line,
                out: seq![
                    Piece::Say("[fs] stat rc="@),
                    Piece::Number(r.code),
                    Piece::Say(" kind="@),
                    Piece::Number(r.value),
                    Piece::Say(" size="@),
                    Piece::Number(r.extra),
                    Piece::Say("\n"@),
                    Piece::Say("[fs] stat /bin: dir, 0 entries\n"@),
                    Piece::Say("[OK] Phase 16: ramfs mkdir/ls/cat working\n"@),
                ],
                ask: Ask::Exit(None),
            }
        }
    } else {
        finished(at, note, line)
    }
}

fn fs_demo(at: u8, note: u64, line: Vec<u8>, r: Reply<Vec<u8>>) -> (t: Turn<
    &'static str,
    Vec<u8>,
    Vec<Piece<&'static str, Vec<u8>>>,
>)
    ensures
        turn_of(t) == fs_demo_turn(at, note, line@, reply_of(r)),
{
    let ghost goal = fs_demo_turn(at, note, line@, reply_of(r));
    let mut line: Vec<u8> = line;
    let mut out: Vec<Piece<&'static str, Vec<u8>>> = nothing();
    let (to, keep, ask): (u8, u64, Ask<&'static str>) = if at == 0 {
        (1, note, Ask::Named(label::FS_MKDIR, "/bin", 0))
    } else if at == 1 {
        if r.code != error::OK {
            say(&mut out, "[fs] mkdir /bin FAIL rc=");
            say_number(&mut out, r.code);
            say(&mut out, "\n");
            (12, note, Ask::Exit(None))
        } else {
            say(&mut out, "[fs] mkdir /bin: OK\n");
            (2, note, Ask::Named(label::FS_MKDIR, "/etc", 0))
        }
    } else if at == 2 {
        if r.code != error::OK {
            say(&mut out, "[fs] mkdir /etc FAIL rc=");
            say_number(&mut out, r.code);
            say(&mut out, "\n");
            (12, note, Ask::Exit(None))
        } else {
            say(&mut out, "[fs] mkdir /etc: OK\n");
            (3, note, Ask::Named(label::FS_CREATE, "/hello.txt", 0))
        }
    } else if at == 3 {
        if r.code != error::OK {
            say(&mut out, "[fs] fs_create rc=");
            say_number(&mut out, r.code);
            say(&mut out, " fd=");
            say_number(&mut out, r.value);
            say(&mut out, "\n");
            (12, note, Ask::Exit(None))
        } else {
            say(&mut out, "[fs] fs_create rc=");
            say_number(&mut out, r.code);
            say(&mut out, " fd=");
            say_number(&mut out, r.value);
            say(&mut out, "\n");
            (4, r.value, Ask::Write(r.value, "hello, ferrite!\n"))
        }
    } else if at == 4 {
        if r.code != error::OK || r.value == 0 {
            say(&mut out, "[fs] fs_write wc=");
            say_number(&mut out, r.code);
            say(&mut out, " n=");
            say_number(&mut out, r.value);
            say(&mut out, "\n");
            (12, note, Ask::Exit(None))
        } else {
            say(&mut out, "[fs] fs_write wc=");
            say_number(&mut out, r.code);
            say(&mut out, " n=");
            say_number(&mut out, r.value);
            say(&mut out, "\n");
            (5, note, Ask::Invoke([0, label::FS_CLOSE, note, 0, 0, 0, 0]))
        }
    } else if at == 5 {
        say(&mut out, "[fs] write /hello.txt: OK\n");
        say(&mut out, "[fs] opening /...\n");
        (6, note, Ask::Named(label::FS_OPEN, "/", 0))
    } else if at == 6 {
        if r.code != error::OK {
            say(&mut out, "[fs] fs_open / rc=");
            say_number(&mut out, r.code);
            say(&mut out, " dfd=");
            say_number(&mut out, r.value);
            say(&mut out, "\n");
            (12, note, Ask::Exit(None))
        } else {
            say(&mut out, "[fs] fs_open / rc=");
            say_number(&mut out, r.code);
            say(&mut out, " dfd=");
            say_number(&mut out, r.value);
            say(&mut out, "\n");
            say(&mut out, "[fs] ls /:\n");
            (7, r.value, Ask::ReadDir(r.value))
        }
    } else if at == 7 {
        if r.value == 0 {
            say(&mut out, "[fs] readdir rrc=");
            say_number(&mut out, r.code);
            say(&mut out, " n=");
            say_number(&mut out, r.value);
            say(&mut out, "\n");
            (8, note, Ask::Invoke([0, label::FS_CLOSE, note, 0, 0, 0, 0]))
        } else {
            say(&mut out, "[fs] readdir rrc=");
            say_number(&mut out, r.code);
            say(&mut out, " n=");
            say_number(&mut out, r.value);
            say(&mut out, "\n");
            say(&mut out, "  ");
            say_bytes(&mut out, fit(&r.data, r.value));
            say(&mut out, "\n");
            (7, note, Ask::ReadDir(note))
        }
    } else if at == 8 {
        say(&mut out, "[fs] opening /hello.txt...\n");
        (9, note, Ask::Named(label::FS_OPEN, "/hello.txt", 0))
    } else if at == 9 {
        if r.code != error::OK {
            say(&mut out, "[fs] fs_open /hello.txt rc=");
            say_number(&mut out, r.code);
            say(&mut out, " rfd=");
            say_number(&mut out, r.value);
            say(&mut out, "\n");
            (12, note, Ask::Exit(None))
        } else {
            say(&mut out, "[fs] fs_open /hello.txt rc=");
            say_number(&mut out, r.code);
            say(&mut out, " rfd=");
            say_number(&mut out, r.value);
            say(&mut out, "\n");
            (10, r.value, Ask::Read(r.value))
        }
    } else if at == 10 {
        say(&mut out, "[fs] fs_read rc=");
        say_number(&mut out, r.code);
        say(&mut out, " n=");
        say_number(&mut out, r.value);
        say(&mut out, "\n");
        line = fit(&r.data, r.value);
        (11, note, Ask::Invoke([0, label::FS_CLOSE, note, 0, 0, 0, 0]))
    } else if at == 11 {
        say(&mut out, "[fs] cat /hello.txt: ");
        say_bytes(&mut out, dup(&line));
        say(&mut out, "[fs] stat /bin...\n");
        (13, note, Ask::Named(label::FS_STAT, "/bin", 0))
    } else if at == 13 {
        if r.code != error::OK {
            say(&mut out, "[fs] stat rc=");
            say_number(&mut out, r.code);
            say(&mut out, " kind=");
            say_number(&mut out, r.value);
            say(&mut out, " size=");
            say_number(&mut out, r.extra);
            say(&mut out, "\n");
            (12, note, Ask::Exit(None))
        } else if r.value != KIND_DIR {
            say(&mut out, "[fs] stat rc=");
            say_number(&mut out, r.code);
            say(&mut out, " kind=");
            say_number(&mut out, r.value);
            say(&mut out, " size=");
            say_number(&mut out, r.extra);
            say(&mut out, "\n");
            say(&mut out, "[fs] stat /bin: wrong kind\n");
            (12, note, Ask::Exit(None))
        } else {
            say(&mut out, "[fs] stat rc=");
            say_number(&mut out, r.code);
            say(&mut out, " kind=");
            say_number(&mut out, r.value);
            say(&mut out, " size=");
            say_number(&mut out, r.extra);
            say(&mut out, "\n");
            say(&mut out, "[fs] stat /bin: dir, 0 entries\n");
            say(&mut out, "[OK] Phase 16: ramfs mkdir/ls/cat working\n");
            (12, note, Ask::Exit(None))
        }
    } else {
        (at, note, Ask::Exit(None))
    };
    assert(script::out_of(out@) =~= goal.out);
    assert(line@ =~= goal.line);
    Turn { at: to, note: keep, line, out, ask }
}

/// What a program does with the reply to its last call. The first turn takes any
/// reply.
pub open spec fn stepped(p: Program, at: u8, note: u64, line: Seq<u8>, r: Reply<Seq<u8>>) -> TurnView {
    match p {
        Program::Init => init_turn(at, note, line, r),
        Program::TtyTest => tty_test_turn(at, note, line, r),
        Program::CspaceB => cspace_b_turn(at, note, line, r),
        Program::Client => client_turn(at, note, line, r),
        Program::ServerRr => server_rr_turn(at, note, line, r),
        Program::EpA => ep_a_turn(at, note, line, r),
        Program::EpB => ep_b_turn(at, note, line, r),
        Program::CapGrantor => cap_grantor_turn(at, note, line, r),
        Program::ShmReader => shm_reader_turn(at, note, line, r),
        Program::ShmWriter => shm_writer_turn(at, note, line, r),
        Program::SpawnDemo => spawn_demo_turn(at, note, line, r),
        Program::InitIcaps => init_icaps_turn(at, note, line, r),
        Program::FsDemo => fs_demo_turn(at, note, line, r),
    }
}

impl Demo {
    /// A program that has not started.
    pub fn new(program: Program) -> (r: Demo)
        ensures
            r.program == program,
            r.at == 0,
            r.note == 0,
            r.line@ == Seq::<u8>::empty(),
    {
        Demo { program, at: 0, note: 0, line: Vec::new() }
    }

    /// Take the reply to the last call. Returns what to print, and what to do
    /// then.
    pub fn step(&mut self, r: Reply<Vec<u8>>) -> (s: (
        Vec<Piece<&'static str, Vec<u8>>>,
        Ask<&'static str>,
    ))
        ensures
            final(self).program == old(self).program,
            ({
                let t = stepped(
                    old(self).program,
                    old(self).at,
                    old(self).note,
                    old(self).line@,
                    reply_of(r),
                );
                &&& final(self).at == t.at
                &&& final(self).note == t.note
                &&& final(self).line@ == t.line
                &&& script::out_of(s.0@) == t.out
                &&& ask_of(s.1) == t.ask
            }),
    {
        let mut line: Vec<u8> = Vec::new();
        std::mem::swap(&mut line, &mut self.line);
        let t: Turn<&'static str, Vec<u8>, Vec<Piece<&'static str, Vec<u8>>>> = match self.program {
            Program::Init => init(self.at, self.note, line, r),
            Program::TtyTest => tty_test(self.at, self.note, line, r),
            Program::CspaceB => cspace_b(self.at, self.note, line, r),
            Program::Client => client(self.at, self.note, line, r),
            Program::ServerRr => server_rr(self.at, self.note, line, r),
            Program::EpA => ep_a(self.at, self.note, line, r),
            Program::EpB => ep_b(self.at, self.note, line, r),
            Program::CapGrantor => cap_grantor(self.at, self.note, line, r),
            Program::ShmReader => shm_reader(self.at, self.note, line, r),
            Program::ShmWriter => shm_writer(self.at, self.note, line, r),
            Program::SpawnDemo => spawn_demo(self.at, self.note, line, r),
            Program::InitIcaps => init_icaps(self.at, self.note, line, r),
            Program::FsDemo => fs_demo(self.at, self.note, line, r),
        };
        self.at = t.at;
        self.note = t.note;
        self.line = t.line;
        (t.out, t.ask)
    }
}

} // verus!
