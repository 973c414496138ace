//! The interactive shell.
//!
//! The shell asks for one system call at a time and is told the reply. Between
//! two calls it prints. It reads a line byte by byte (the console echoes them),
//! runs the command on it, and prompts again.
use crate::bytes::{copied, same_bytes};
use crate::path::{self, position, SLASH};
use crate::user::shell_path::{self, resolve};
use vstd::prelude::*;

verus! {

pub const SPACE: u8 = 32;

pub const NEWLINE: u8 = 10;

pub const CARRIAGE_RETURN: u8 = 13;

pub const BACKSPACE: u8 = 8;

pub const DELETE: u8 = 127;

pub const TILDE: u8 = 126;

/// Longest line.
pub const MAX_LINE: usize = 127;

/// Bytes asked for in one read.
pub const READ_BYTES: u64 = 256;

/// Bytes for a directory entry.
pub const NAME_BYTES: u64 = 64;

/// Slot for the thread of a program.
pub const CHILD_SLOT: u64 = 1;

/// Kind that stat gives for a directory.
pub const KIND_DIR: u64 = 2;

/// Code of an operation that is refused.
pub const REFUSED: u64 = 2;

/// Fixed texts.
#[derive(Clone, Copy, PartialEq, Eq, Structural)]
pub enum Text {
    Greeting,
    PromptHead,
    PromptTail,
    LineEnd,
    UsageCat,
    UsageWrite,
    UsageMkdir,
    UsageTouch,
    UsageRm,
    UsageMv,
    UsageCp,
    UsageStat,
    UsageRun,
    UsageLrun,
    Help,
    Goodbye,
    UnknownCommand,
    LsMissing,
    LsEmpty,
    CatHead,
    CatMissing,
    WriteNoCreate,
    WriteDone,
    WriteFailed,
    MkdirFailed,
    TouchFailed,
    RmHead,
    RmNotEmpty,
    RmFailed,
    MvFailed,
    CpHead,
    CpMissing,
    CpNoCreate,
    CdMissing,
    CdNotDir,
    StatMissing,
    StatDirHead,
    StatDirTail,
    StatFileHead,
    StatFileTail,
    SpawnFailed,
    SpawnMiddle,
    SpawnTail,
    WaitFailed,
    WaitTail,
    ExitHead,
    ExitTail,
}

/// A piece of output.
pub enum Piece<B> {
    Say(Text),
    Bytes(B),
    Number(u64),
}

/// A system call.
pub enum Call<B> {
    GetChar,
    Open(B),
    Create(B),
    Close(u64),
    Read(u64),
    Write(u64, B),
    Mkdir(B),
    ReadDir(u64),
    Stat(B),
    Unlink(B),
    Rename(B, B),
    Spawn(B),
    LinuxSpawn(B),
    Wait,
    DeleteChild,
    Exit,
}

/// What the reply to the last call is for.
pub enum Task<B> {
    Line,
    LsOpen(B),
    LsNext(u64, u64),
    CatOpen(B),
    CatNext(u64),
    WriteOpen(B, B),
    WriteCreate(B),
    WriteData(u64),
    WriteClose(u64, u64),
    MkdirDone(B),
    TouchOpen(B),
    TouchCreate,
    RmDone(B),
    MvDone,
    CpOpen(B, B),
    CpCreate(u64),
    CpRead(u64, u64),
    CpWrite(u64, u64),
    CpCloseSource(u64),
    CdStat(B, B),
    StatDone(B, B),
    RunSpawn(B),
    RunWait,
    RunDelete(u64, u64),
    /// The last call of a command; its reply does not matter.
    Last,
    Gone,
}

/// A command line.
pub enum Command<B> {
    Nothing,
    Usage(Text),
    Ls(B),
    Cat(B),
    Write(B, B),
    Mkdir(B),
    Touch(B),
    Rm(B),
    Mv(B, B),
    Cp(B, B),
    Cd(B),
    Pwd,
    Stat(B),
    Help,
    Run(B),
    Lrun(B),
    Echo(B),
    Exit,
    Unknown(B),
}

/// Where a command goes after some output.
pub enum Next<B> {
    /// It makes a call.
    Ask(Task<B>, Call<B>),
    /// It is over.
    Finish,
    /// It is over and the working directory has changed.
    Enter(B),
    /// The shell is over.
    Leave,
}

/// Output, and what follows.
pub struct Turn<O, B> {
    pub out: O,
    pub next: Next<B>,
}

/// The reply to a call: error code, two values, and bytes read.
pub struct Reply<D> {
    pub code: u64,
    pub value: u64,
    pub extra: u64,
    pub data: D,
}

pub open spec fn piece_of(p: Piece<Vec<u8>>) -> Piece<Seq<u8>> {
    match p {
        Piece::Say(t) => Piece::Say(t),
        Piece::Bytes(b) => Piece::Bytes(b@),
        Piece::Number(n) => Piece::Number(n),
    }
}

pub open spec fn out_of(v: Seq<Piece<Vec<u8>>>) -> Seq<Piece<Seq<u8>>> {
    Seq::new(v.len(), |i: int| piece_of(v[i]))
}

pub open spec fn call_of(c: Call<Vec<u8>>) -> Call<Seq<u8>> {
    match c {
        Call::GetChar => Call::GetChar,
        Call::Open(b) => Call::Open(b@),
        Call::Create(b) => Call::Create(b@),
        Call::Close(n) => Call::Close(n),
        Call::Read(n) => Call::Read(n),
        Call::Write(n, b) => Call::Write(n, b@),
        Call::Mkdir(b) => Call::Mkdir(b@),
        Call::ReadDir(n) => Call::ReadDir(n),
        Call::Stat(b) => Call::Stat(b@),
        Call::Unlink(b) => Call::Unlink(b@),
        Call::Rename(a, b) => Call::Rename(a@, b@),
        Call::Spawn(b) => Call::Spawn(b@),
        Call::LinuxSpawn(b) => Call::LinuxSpawn(b@),
        Call::Wait => Call::Wait,
        Call::DeleteChild => Call::DeleteChild,
        Call::Exit => Call::Exit,
    }
}

pub open spec fn task_of(t: Task<Vec<u8>>) -> Task<Seq<u8>> {
    match t {
        Task::Line => Task::Line,
        Task::LsOpen(b) => Task::LsOpen(b@),
        Task::LsNext(a, b) => Task::LsNext(a, b),
        Task::CatOpen(b) => Task::CatOpen(b@),
        Task::CatNext(a) => Task::CatNext(a),
        Task::WriteOpen(a, b) => Task::WriteOpen(a@, b@),
        Task::WriteCreate(b) => Task::WriteCreate(b@),
        Task::WriteData(a) => Task::WriteData(a),
        Task::WriteClose(a, b) => Task::WriteClose(a, b),
        Task::MkdirDone(b) => Task::MkdirDone(b@),
        Task::TouchOpen(b) => Task::TouchOpen(b@),
        Task::TouchCreate => Task::TouchCreate,
        Task::RmDone(b) => Task::RmDone(b@),
        Task::MvDone => Task::MvDone,
        Task::CpOpen(a, b) => Task::CpOpen(a@, b@),
        Task::CpCreate(a) => Task::CpCreate(a),
        Task::CpRead(a, b) => Task::CpRead(a, b),
        Task::CpWrite(a, b) => Task::CpWrite(a, b),
        Task::CpCloseSource(a) => Task::CpCloseSource(a),
        Task::CdStat(a, b) => Task::CdStat(a@, b@),
        Task::StatDone(a, b) => Task::StatDone(a@, b@),
        Task::RunSpawn(b) => Task::RunSpawn(b@),
        Task::RunWait => Task::RunWait,
        Task::RunDelete(a, b) => Task::RunDelete(a, b),
        Task::Last => Task::Last,
        Task::Gone => Task::Gone,
    }
}

pub open spec fn command_of(c: Command<Vec<u8>>) -> Command<Seq<u8>> {
    match c {
        Command::Nothing => Command::Nothing,
        Command::Usage(t) => Command::Usage(t),
        Command::Ls(b) => Command::Ls(b@),
        Command::Cat(b) => Command::Cat(b@),
        Command::Write(a, b) => Command::Write(a@, b@),
        Command::Mkdir(b) => Command::Mkdir(b@),
        Command::Touch(b) => Command::Touch(b@),
        Command::Rm(b) => Command::Rm(b@),
        Command::Mv(a, b) => Command::Mv(a@, b@),
        Command::Cp(a, b) => Command::Cp(a@, b@),
        Command::Cd(b) => Command::Cd(b@),
        Command::Pwd => Command::Pwd,
        Command::Stat(b) => Command::Stat(b@),
        Command::Help => Command::Help,
        Command::Run(b) => Command::Run(b@),
        Command::Lrun(b) => Command::Lrun(b@),
        Command::Echo(b) => Command::Echo(b@),
        Command::Exit => Command::Exit,
        Command::Unknown(b) => Command::Unknown(b@),
    }
}

pub open spec fn turn_of(t: Turn<Vec<Piece<Vec<u8>>>, Vec<u8>>) -> Turn<
    Seq<Piece<Seq<u8>>>,
    Seq<u8>,
> {
    Turn {
        out: out_of(t.out@),
        next: match t.next {
            Next::Ask(a, c) => Next::Ask(task_of(a), call_of(c)),
            Next::Finish => Next::Finish,
            Next::Enter(b) => Next::Enter(b@),
            Next::Leave => Next::Leave,
        },
    }
}

/// Typing `ch` on the line: a line end completes it, backspace takes the last
/// byte back, and printable bytes are added as long as there is room.
pub open spec fn typed(line: Seq<u8>, ch: u8) -> (Seq<u8>, bool) {
    if ch == NEWLINE || ch == CARRIAGE_RETURN {
        (line, true)
    } else if ch == DELETE || ch == BACKSPACE {
        (
            if line.len() > 0 {
                line.drop_last()
            } else {
                line
            },
            false,
        )
    } else if SPACE <= ch <= TILDE && line.len() < MAX_LINE {
        (line.push(ch), false)
    } else {
        (line, false)
    }
}

/// Type a byte. Returns whether the line is complete.
pub fn type_byte(line: &mut Vec<u8>, ch: u8) -> (r: bool)
    ensures
        (final(line)@, r) == typed(old(line)@, ch),
{
    if ch == NEWLINE || ch == CARRIAGE_RETURN {
        return true;
    }
    if ch == DELETE || ch == BACKSPACE {
        if line.len() > 0 {
            let _ = line.pop();
        }
    } else if ch >= SPACE && ch <= TILDE && line.len() < MAX_LINE {
        line.push(ch);
    }
    false
}

/// `s` without the spaces it starts with.
pub open spec fn unspaced(s: Seq<u8>) -> Seq<u8>
    decreases s.len(),
{
    if s.len() > 0 && s[0] == SPACE {
        unspaced(s.drop_first())
    } else {
        s
    }
}

/// The first word of `s`, and the rest after the spaces that follow it.
pub open spec fn word(s: Seq<u8>) -> (Seq<u8>, Seq<u8>) {
    let end = path::find_byte(s, SPACE, 0);
    (s.take(end), unspaced(s.skip(end)))
}

fn skip_spaces(s: &[u8]) -> (r: Vec<u8>)
    ensures
        r@ == unspaced(s@),
{
    let mut i: usize = 0;
    assert(s@.skip(0) =~= s@);
    while i < s.len() && s[i] == SPACE
        invariant
            i <= s@.len(),
            unspaced(s@.skip(i as int)) == unspaced(s@),
        decreases s@.len() - i,
    {
        assert(s@.skip(i as int)[0] == s@[i as int]);
        assert(s@.skip(i as int).drop_first() =~= s@.skip(i + 1));
        i += 1;
    }
    let r: Vec<u8> = copied(s, i, s.len());
    proof {
        assert(r@ =~= s@.skip(i as int));
        if i < s@.len() {
            assert(r@[0] == s@[i as int]);
        }
    }
    r
}

fn split_word(s: &[u8]) -> (r: (Vec<u8>, Vec<u8>))
    ensures
        (r.0@, r.1@) == word(s@),
{
    let end: usize = position(s, SPACE, 0);
    let first: Vec<u8> = copied(s, 0, end);
    let rest: Vec<u8> = copied(s, end, s.len());
    assert(first@ =~= s@.take(end as int));
    assert(rest@ =~= s@.skip(end as int));
    (first, skip_spaces(&rest))
}

/// Names of the commands.
pub open spec fn name_of(c: int) -> Seq<u8> {
    if c == 0 {
        seq![108u8, 115]
    } else if c == 1 {
        seq![99u8, 97, 116]
    } else if c == 2 {
        seq![119u8, 114, 105, 116, 101]
    } else if c == 3 {
        seq![109u8, 107, 100, 105, 114]
    } else if c == 4 {
        seq![116u8, 111, 117, 99, 104]
    } else if c == 5 {
        seq![114u8, 109]
    } else if c == 6 {
        seq![109u8, 118]
    } else if c == 7 {
        seq![99u8, 112]
    } else if c == 8 {
        seq![99u8, 100]
    } else if c == 9 {
        seq![112u8, 119, 100]
    } else if c == 10 {
        seq![115u8, 116, 97, 116]
    } else if c == 11 {
        seq![104u8, 101, 108, 112]
    } else if c == 12 {
        seq![114u8, 117, 110]
    } else if c == 13 {
        seq![108u8, 114, 117, 110]
    } else if c == 14 {
        seq![101u8, 99, 104, 111]
    } else {
        seq![101u8, 120, 105, 116]
    }
}

/// The number of the command with this name: ls, cat, write, mkdir, touch, rm,
/// mv, cp, cd, pwd, stat, help, run, lrun, echo and exit, from 0 on.
pub open spec fn number_of(name: Seq<u8>, from: int) -> Option<int>
    decreases 16 - from,
{
    if from >= 16 {
        None
    } else if name == name_of(from) {
        Some(from)
    } else {
        number_of(name, from + 1)
    }
}

fn command_name(c: usize) -> (r: Vec<u8>)
    requires
        c < 16,
    ensures
        r@ == name_of(c as int),
{
    let r: Vec<u8> = if c == 0 {
        vec![108, 115]
    } else if c == 1 {
        vec![99, 97, 116]
    } else if c == 2 {
        vec![119, 114, 105, 116, 101]
    } else if c == 3 {
        vec![109, 107, 100, 105, 114]
    } else if c == 4 {
        vec![116, 111, 117, 99, 104]
    } else if c == 5 {
        vec![114, 109]
    } else if c == 6 {
        vec![109, 118]
    } else if c == 7 {
        vec![99, 112]
    } else if c == 8 {
        vec![99, 100]
    } else if c == 9 {
        vec![112, 119, 100]
    } else if c == 10 {
        vec![115, 116, 97, 116]
    } else if c == 11 {
        vec![104, 101, 108, 112]
    } else if c == 12 {
        vec![114, 117, 110]
    } else if c == 13 {
        vec![108, 114, 117, 110]
    } else if c == 14 {
        vec![101, 99, 104, 111]
    } else {
        vec![101, 120, 105, 116]
    };
    assert(r@ =~= name_of(c as int));
    r
}

fn find_command(name: &[u8]) -> (r: Option<usize>)
    ensures
        match number_of(name@, 0) {
            None => r is None,
            Some(c) => r matches Some(x) && x == c && x < 16,
        },
{
    let mut c: usize = 0;
    while c < 16
        invariant
            c <= 16,
            number_of(name@, 0) == number_of(name@, c as int),
        decreases 16 - c,
    {
        if same_bytes(name, &command_name(c)) {
            return Some(c);
        }
        c += 1;
    }
    None
}

/// A command with one argument, or its usage.
pub open spec fn one_arg(arg: Seq<u8>, usage: Text, c: Command<Seq<u8>>) -> Command<Seq<u8>> {
    if arg.len() == 0 {
        Command::Usage(usage)
    } else {
        c
    }
}

/// The command on a line, given the working directory.
pub open spec fn parsed(line: Seq<u8>, cwd: Seq<u8>) -> Command<Seq<u8>> {
    let t = unspaced(line);
    let (name, arg) = word(t);
    let (first, rest) = word(arg);
    if t.len() == 0 {
        Command::Nothing
    } else {
        match number_of(name, 0) {
            None => Command::Unknown(name),
            Some(c) => if c == 0 {
                Command::Ls(
                    if arg.len() == 0 {
                        cwd
                    } else {
                        arg
                    },
                )
            } else if c == 1 {
                one_arg(arg, Text::UsageCat, Command::Cat(arg))
            } else if c == 2 {
                if first.len() == 0 || first.len() == arg.len() {
                    Command::Usage(Text::UsageWrite)
                } else {
                    Command::Write(first, rest)
                }
            } else if c == 3 {
                one_arg(arg, Text::UsageMkdir, Command::Mkdir(arg))
            } else if c == 4 {
                one_arg(arg, Text::UsageTouch, Command::Touch(arg))
            } else if c == 5 {
                one_arg(arg, Text::UsageRm, Command::Rm(arg))
            } else if c == 6 {
                if first.len() == 0 || rest.len() == 0 {
                    Command::Usage(Text::UsageMv)
                } else {
                    Command::Mv(first, rest)
                }
            } else if c == 7 {
                if first.len() == 0 || rest.len() == 0 {
                    Command::Usage(Text::UsageCp)
                } else {
                    Command::Cp(first, rest)
                }
            } else if c == 8 {
                Command::Cd(
                    if arg.len() == 0 {
                        seq![SLASH]
                    } else {
                        arg
                    },
                )
            } else if c == 9 {
                Command::Pwd
            } else if c == 10 {
                one_arg(arg, Text::UsageStat, Command::Stat(arg))
            } else if c == 11 {
                Command::Help
            } else if c == 12 {
                one_arg(arg, Text::UsageRun, Command::Run(arg))
            } else if c == 13 {
                one_arg(arg, Text::UsageLrun, Command::Lrun(arg))
            } else if c == 14 {
                Command::Echo(arg)
            } else {
                Command::Exit
            },
        }
    }
}

fn dup(v: &Vec<u8>) -> (r: Vec<u8>)
    ensures
        r@ == v@,
{
    let r: Vec<u8> = copied(v, 0, v.len());
    assert(r@ =~= v@);
    r
}

/// Parse a command line.
pub fn parse(line: &[u8], cwd: &Vec<u8>) -> (r: Command<Vec<u8>>)
    ensures
        command_of(r) == parsed(line@, cwd@),
{
    let t: Vec<u8> = skip_spaces(line);
    if t.len() == 0 {
        return Command::Nothing;
    }
    let (name, arg): (Vec<u8>, Vec<u8>) = split_word(&t);
    let c: usize = match find_command(&name) {
        None => {
            return Command::Unknown(name);
        },
        Some(c) => c,
    };
    let (first, rest): (Vec<u8>, Vec<u8>) = split_word(&arg);
    let none: bool = arg.len() == 0;
    if c == 0 {
        if none {
            Command::Ls(dup(cwd))
        } else {
            Command::Ls(arg)
        }
    } else if c == 2 {
        if first.len() == 0 || first.len() == arg.len() {
            Command::Usage(Text::UsageWrite)
        } else {
            Command::Write(first, rest)
        }
    } else if c == 6 {
        if first.len() == 0 || rest.len() == 0 {
            Command::Usage(Text::UsageMv)
        } else {
            Command::Mv(first, rest)
        }
    } else if c == 7 {
        if first.len() == 0 || rest.len() == 0 {
            Command::Usage(Text::UsageCp)
        } else {
            Command::Cp(first, rest)
        }
    } else if c == 8 {
        if none {
            let mut root: Vec<u8> = Vec::new();
            root.push(SLASH);
            assert(root@ =~= seq![SLASH]);
            Command::Cd(root)
        } else {
            Command::Cd(arg)
        }
    } else if c == 9 {
        Command::Pwd
    } else if c == 11 {
        Command::Help
    } else if c == 14 {
        Command::Echo(arg)
    } else if c == 15 {
        Command::Exit
    } else if c == 1 {
        if none {
            Command::Usage(Text::UsageCat)
        } else {
            Command::Cat(arg)
        }
    } else if c == 3 {
        if none {
            Command::Usage(Text::UsageMkdir)
        } else {
            Command::Mkdir(arg)
        }
    } else if c == 4 {
        if none {
            Command::Usage(Text::UsageTouch)
        } else {
            Command::Touch(arg)
        }
    } else if c == 5 {
        if none {
            Command::Usage(Text::UsageRm)
        } else {
            Command::Rm(arg)
        }
    } else if c == 10 {
        if none {
            Command::Usage(Text::UsageStat)
        } else {
            Command::Stat(arg)
        }
    } else if c == 12 {
        if none {
            Command::Usage(Text::UsageRun)
        } else {
            Command::Run(arg)
        }
    } else {
        if none {
            Command::Usage(Text::UsageLrun)
        } else {
            Command::Lrun(arg)
        }
    }
}

/// A turn that makes a call without output.
pub open spec fn asks(t: Task<Seq<u8>>, c: Call<Seq<u8>>) -> Turn<Seq<Piece<Seq<u8>>>, Seq<u8>> {
    Turn { out: Seq::empty(), next: Next::Ask(t, c) }
}

/// A turn that ends the command after some output.
pub open spec fn ends(out: Seq<Piece<Seq<u8>>>) -> Turn<Seq<Piece<Seq<u8>>>, Seq<u8>> {
    Turn { out, next: Next::Finish }
}

fn ask(t: Task<Vec<u8>>, c: Call<Vec<u8>>) -> (r: Turn<Vec<Piece<Vec<u8>>>, Vec<u8>>)
    ensures
        turn_of(r) == asks(task_of(t), call_of(c)),
{
    let r = Turn { out: Vec::new(), next: Next::Ask(t, c) };
    assert(out_of(r.out@) =~= Seq::<Piece<Seq<u8>>>::empty());
    r
}

fn end(out: Vec<Piece<Vec<u8>>>) -> (r: Turn<Vec<Piece<Vec<u8>>>, Vec<u8>>)
    ensures
        turn_of(r) == ends(out_of(out@)),
{
    Turn { out, next: Next::Finish }
}

fn say(t: Text) -> (r: Vec<Piece<Vec<u8>>>)
    ensures
        out_of(r@) == seq![Piece::<Seq<u8>>::Say(t)],
{
    let mut r: Vec<Piece<Vec<u8>>> = Vec::new();
    r.push(Piece::Say(t));
    assert(out_of(r@) =~= seq![Piece::<Seq<u8>>::Say(t)]);
    r
}

fn then_say(out: &mut Vec<Piece<Vec<u8>>>, t: Text)
    ensures
        out_of(final(out)@) == out_of(old(out)@).push(Piece::Say(t)),
{
    out.push(Piece::Say(t));
    assert(out_of(out@) =~= out_of(old(out)@).push(Piece::Say(t)));
}

fn then_bytes(out: &mut Vec<Piece<Vec<u8>>>, b: Vec<u8>)
    ensures
        out_of(final(out)@) == out_of(old(out)@).push(Piece::Bytes(b@)),
{
    out.push(Piece::Bytes(b));
    assert(out_of(out@) =~= out_of(old(out)@).push(Piece::Bytes(b@)));
}

fn then_number(out: &mut Vec<Piece<Vec<u8>>>, n: u64)
    ensures
        out_of(final(out)@) == out_of(old(out)@).push(Piece::Number(n)),
{
    out.push(Piece::Number(n));
    assert(out_of(out@) =~= out_of(old(out)@).push(Piece::Number(n)));
}

fn nothing() -> (r: Vec<Piece<Vec<u8>>>)
    ensures
        out_of(r@) == Seq::<Piece<Seq<u8>>>::empty(),
{
    let r: Vec<Piece<Vec<u8>>> = Vec::new();
    assert(out_of(r@) =~= Seq::<Piece<Seq<u8>>>::empty());
    r
}

/// How a command starts in the directory `cwd`.
pub open spec fn started(c: Command<Seq<u8>>, cwd: Seq<u8>) -> Turn<Seq<Piece<Seq<u8>>>, Seq<u8>> {
    match c {
        Command::Nothing => ends(Seq::empty()),
        Command::Usage(t) => ends(seq![Piece::Say(t)]),
        Command::Ls(p) => asks(Task::LsOpen(p), Call::Open(shell_path::resolved(cwd, p))),
        Command::Cat(p) => asks(Task::CatOpen(p), Call::Open(shell_path::resolved(cwd, p))),
        Command::Write(p, text) => {
            let q = shell_path::resolved(cwd, p);
            asks(Task::WriteOpen(q, text), Call::Open(q))
        },
        Command::Mkdir(p) => {
            let q = shell_path::resolved(cwd, p);
            asks(Task::MkdirDone(q), Call::Mkdir(q))
        },
        Command::Touch(p) => {
            let q = shell_path::resolved(cwd, p);
            asks(Task::TouchOpen(q), Call::Open(q))
        },
        Command::Rm(p) => asks(Task::RmDone(p), Call::Unlink(shell_path::resolved(cwd, p))),
        Command::Mv(a, b) => asks(
            Task::MvDone,
            Call::Rename(shell_path::resolved(cwd, a), shell_path::resolved(cwd, b)),
        ),
        Command::Cp(a, b) => asks(
            Task::CpOpen(a, shell_path::resolved(cwd, b)),
            Call::Open(shell_path::resolved(cwd, a)),
        ),
        Command::Cd(p) => {
            let q = shell_path::resolved(cwd, p);
            asks(Task::CdStat(p, q), Call::Stat(q))
        },
        Command::Pwd => ends(seq![Piece::Bytes(cwd), Piece::Say(Text::LineEnd)]),
        Command::Stat(p) => {
            let q = shell_path::resolved(cwd, p);
            asks(Task::StatDone(p, q), Call::Stat(q))
        },
        Command::Help => ends(seq![Piece::Say(Text::Help)]),
        Command::Run(name) => asks(Task::RunSpawn(name), Call::Spawn(name)),
        Command::Lrun(name) => asks(Task::RunSpawn(name), Call::LinuxSpawn(name)),
        Command::Echo(t) => ends(seq![Piece::Bytes(t), Piece::Say(Text::LineEnd)]),
        Command::Exit => Turn { out: seq![Piece::Say(Text::Goodbye)], next: Next::Leave },
        Command::Unknown(name) => ends(
            seq![
                Piece::Say(Text::UnknownCommand),
                Piece::Bytes(name),
                Piece::Say(Text::LineEnd),
            ],
        ),
    }
}

/// Start a command.
pub fn start(c: Command<Vec<u8>>, cwd: &Vec<u8>) -> (r: Turn<Vec<Piece<Vec<u8>>>, Vec<u8>>)
    ensures
        turn_of(r) == started(command_of(c), cwd@),
{
    match c {
        Command::Nothing => end(nothing()),
        Command::Usage(t) => end(say(t)),
        Command::Ls(p) => {
            let q: Vec<u8> = resolve(cwd, &p);
            ask(Task::LsOpen(p), Call::Open(q))
        },
        Command::Cat(p) => {
            let q: Vec<u8> = resolve(cwd, &p);
            ask(Task::CatOpen(p), Call::Open(q))
        },
        Command::Write(p, text) => {
            let q: Vec<u8> = resolve(cwd, &p);
            ask(Task::WriteOpen(dup(&q), text), Call::Open(q))
        },
        Command::Mkdir(p) => {
            let q: Vec<u8> = resolve(cwd, &p);
            ask(Task::MkdirDone(dup(&q)), Call::Mkdir(q))
        },
        Command::Touch(p) => {
            let q: Vec<u8> = resolve(cwd, &p);
            ask(Task::TouchOpen(dup(&q)), Call::Open(q))
        },
        Command::Rm(p) => {
            let q: Vec<u8> = resolve(cwd, &p);
            ask(Task::RmDone(p), Call::Unlink(q))
        },
        Command::Mv(a, b) => ask(Task::MvDone, Call::Rename(resolve(cwd, &a), resolve(cwd, &b))),
        Command::Cp(a, b) => {
            let q: Vec<u8> = resolve(cwd, &a);
            ask(Task::CpOpen(a, resolve(cwd, &b)), Call::Open(q))
        },
        Command::Cd(p) => {
            let q: Vec<u8> = resolve(cwd, &p);
            ask(Task::CdStat(p, dup(&q)), Call::Stat(q))
        },
        Command::Pwd => {
            let mut out: Vec<Piece<Vec<u8>>> = nothing();
            then_bytes(&mut out, dup(cwd));
            then_say(&mut out, Text::LineEnd);
            assert(out_of(out@) =~= seq![Piece::Bytes(cwd@), Piece::Say(Text::LineEnd)]);
            end(out)
        },
        Command::Stat(p) => {
            let q: Vec<u8> = resolve(cwd, &p);
            ask(Task::StatDone(p, dup(&q)), Call::Stat(q))
        },
        Command::Help => end(say(Text::Help)),
        Command::Run(name) => ask(Task::RunSpawn(dup(&name)), Call::Spawn(name)),
        Command::Lrun(name) => ask(Task::RunSpawn(dup(&name)), Call::LinuxSpawn(name)),
        Command::Echo(t) => {
            let ghost text = t@;
            let mut out: Vec<Piece<Vec<u8>>> = nothing();
            then_bytes(&mut out, t);
            then_say(&mut out, Text::LineEnd);
            assert(out_of(out@) =~= seq![Piece::Bytes(text), Piece::Say(Text::LineEnd)]);
            end(out)
        },
        Command::Exit => {
            let r = Turn { out: say(Text::Goodbye), next: Next::Leave };
            r
        },
        Command::Unknown(name) => {
            let ghost text = name@;
            let mut out: Vec<Piece<Vec<u8>>> = say(Text::UnknownCommand);
            then_bytes(&mut out, name);
            then_say(&mut out, Text::LineEnd);
            assert(out_of(out@) =~= seq![
                Piece::Say(Text::UnknownCommand),
                Piece::Bytes(text),
                Piece::Say(Text::LineEnd),
            ]);
            end(out)
        },
    }
}

/// A turn that makes a call after some output.
pub open spec fn says(out: Seq<Piece<Seq<u8>>>, t: Task<Seq<u8>>, c: Call<Seq<u8>>) -> Turn<
    Seq<Piece<Seq<u8>>>,
    Seq<u8>,
> {
    Turn { out, next: Next::Ask(t, c) }
}

fn say_and_ask(out: Vec<Piece<Vec<u8>>>, t: Task<Vec<u8>>, c: Call<Vec<u8>>) -> (r: Turn<
    Vec<Piece<Vec<u8>>>,
    Vec<u8>,
>)
    ensures
        turn_of(r) == says(out_of(out@), task_of(t), call_of(c)),
{
    Turn { out, next: Next::Ask(t, c) }
}

/// Three pieces: a text, some bytes and a text.
pub open spec fn about(a: Text, b: Seq<u8>, c: Text) -> Seq<Piece<Seq<u8>>> {
    seq![Piece::Say(a), Piece::Bytes(b), Piece::Say(c)]
}

fn say_about(a: Text, b: Vec<u8>, c: Text) -> (r: Vec<Piece<Vec<u8>>>)
    ensures
        out_of(r@) == about(a, b@, c),
{
    let ghost bytes = b@;
    let mut out: Vec<Piece<Vec<u8>>> = say(a);
    then_bytes(&mut out, b);
    then_say(&mut out, c);
    assert(out_of(out@) =~= about(a, bytes, c));
    out
}

/// Three pieces: a text, a number and a text.
pub open spec fn counted(a: Text, n: u64, c: Text) -> Seq<Piece<Seq<u8>>> {
    seq![Piece::Say(a), Piece::Number(n), Piece::Say(c)]
}

fn say_counted(a: Text, n: u64, c: Text) -> (r: Vec<Piece<Vec<u8>>>)
    ensures
        out_of(r@) == counted(a, n, c),
{
    let mut out: Vec<Piece<Vec<u8>>> = say(a);
    then_number(&mut out, n);
    then_say(&mut out, c);
    assert(out_of(out@) =~= counted(a, n, c));
    out
}

/// Bytes and a text.
pub open spec fn shown(b: Seq<u8>, t: Text) -> Seq<Piece<Seq<u8>>> {
    seq![Piece::Bytes(b), Piece::Say(t)]
}

fn show(b: Vec<u8>, t: Text) -> (r: Vec<Piece<Vec<u8>>>)
    ensures
        out_of(r@) == shown(b@, t),
{
    let ghost bytes = b@;
    let mut out: Vec<Piece<Vec<u8>>> = nothing();
    then_bytes(&mut out, b);
    then_say(&mut out, t);
    assert(out_of(out@) =~= shown(bytes, t));
    out
}

/// How ls and cat go on.
pub open spec fn listed_on(t: Task<Seq<u8>>, r: Reply<Seq<u8>>) -> Turn<
    Seq<Piece<Seq<u8>>>,
    Seq<u8>,
> {
    match t {
        Task::LsOpen(p) => if r.code != 0 {
            ends(about(Text::LsMissing, p, Text::LineEnd))
        } else {
            asks(Task::LsNext(r.value, 0), Call::ReadDir(r.value))
        },
        Task::LsNext(fd, n) => if r.value != 0 {
            says(
                shown(r.data, Text::LineEnd),
                Task::LsNext(fd, n.wrapping_add(1)),
                Call::ReadDir(fd),
            )
        } else if n == 0 {
            says(seq![Piece::Say(Text::LsEmpty)], Task::Last, Call::Close(fd))
        } else {
            asks(Task::Last, Call::Close(fd))
        },
        Task::CatOpen(p) => if r.code != 0 {
            ends(about(Text::CatHead, p, Text::CatMissing))
        } else {
            asks(Task::CatNext(r.value), Call::Read(r.value))
        },
        Task::CatNext(fd) => if r.value != 0 {
            says(seq![Piece::Bytes(r.data)], Task::CatNext(fd), Call::Read(fd))
        } else {
            says(seq![Piece::Say(Text::LineEnd)], Task::Last, Call::Close(fd))
        },
        _ => ends(Seq::empty()),
    }
}

fn list_on(t: Task<Vec<u8>>, r: Reply<Vec<u8>>) -> (u: Turn<Vec<Piece<Vec<u8>>>, Vec<u8>>)
    ensures
        turn_of(u) == listed_on(
            task_of(t),
            (Reply { code: r.code, value: r.value, extra: r.extra, data: r.data@ }),
        ),
{
    match t {
        Task::LsOpen(p) => {
            if r.code != 0 {
                end(say_about(Text::LsMissing, p, Text::LineEnd))
            } else {
                ask(Task::LsNext(r.value, 0), Call::ReadDir(r.value))
            }
        },
        Task::LsNext(fd, n) => {
            if r.value != 0 {
                say_and_ask(
                    show(r.data, Text::LineEnd),
                    Task::LsNext(fd, n.wrapping_add(1)),
                    Call::ReadDir(fd),
                )
            } else if n == 0 {
                say_and_ask(say(Text::LsEmpty), Task::Last, Call::Close(fd))
            } else {
                ask(Task::Last, Call::Close(fd))
            }
        },
        Task::CatOpen(p) => {
            if r.code != 0 {
                end(say_about(Text::CatHead, p, Text::CatMissing))
            } else {
                ask(Task::CatNext(r.value), Call::Read(r.value))
            }
        },
        Task::CatNext(fd) => {
            if r.value != 0 {
                let ghost data = r.data@;
                let mut out: Vec<Piece<Vec<u8>>> = nothing();
                then_bytes(&mut out, r.data);
                assert(out_of(out@) =~= seq![Piece::Bytes(data)]);
                say_and_ask(out, Task::CatNext(fd), Call::Read(fd))
            } else {
                say_and_ask(say(Text::LineEnd), Task::Last, Call::Close(fd))
            }
        },
        _ => end(nothing()),
    }
}

/// How write, mkdir, touch, rm and mv go on.
pub open spec fn changed_on(t: Task<Seq<u8>>, r: Reply<Seq<u8>>) -> Turn<
    Seq<Piece<Seq<u8>>>,
    Seq<u8>,
> {
    match t {
        Task::WriteOpen(q, text) => if r.code == 0 {
            asks(Task::WriteData(r.value), Call::Write(r.value, text))
        } else {
            asks(Task::WriteCreate(text), Call::Create(q))
        },
        Task::WriteCreate(text) => if r.code == 0 {
            asks(Task::WriteData(r.value), Call::Write(r.value, text))
        } else {
            ends(seq![Piece::Say(Text::WriteNoCreate)])
        },
        Task::WriteData(fd) => asks(Task::WriteClose(r.code, r.value), Call::Close(fd)),
        Task::WriteClose(code, n) => if code == 0 {
            ends(seq![Piece::Number(n), Piece::Say(Text::WriteDone)])
        } else {
            ends(seq![Piece::Say(Text::WriteFailed)])
        },
        Task::MkdirDone(q) => if r.code == 0 {
            ends(shown(q, Text::LineEnd))
        } else {
            ends(seq![Piece::Say(Text::MkdirFailed)])
        },
        Task::TouchOpen(q) => if r.code == 0 {
            asks(Task::Last, Call::Close(r.value))
        } else {
            asks(Task::TouchCreate, Call::Create(q))
        },
        Task::TouchCreate => if r.code == 0 {
            asks(Task::Last, Call::Close(r.value))
        } else {
            ends(seq![Piece::Say(Text::TouchFailed)])
        },
        Task::RmDone(p) => if r.code == 0 {
            ends(Seq::empty())
        } else if r.code == REFUSED {
            ends(about(Text::RmHead, p, Text::RmNotEmpty))
        } else {
            ends(about(Text::RmHead, p, Text::RmFailed))
        },
        Task::MvDone => if r.code == 0 {
            ends(Seq::empty())
        } else {
            ends(seq![Piece::Say(Text::MvFailed)])
        },
        _ => ends(Seq::empty()),
    }
}

fn change_on(t: Task<Vec<u8>>, r: Reply<Vec<u8>>) -> (u: Turn<Vec<Piece<Vec<u8>>>, Vec<u8>>)
    ensures
        turn_of(u) == changed_on(
            task_of(t),
            (Reply { code: r.code, value: r.value, extra: r.extra, data: r.data@ }),
        ),
{
    match t {
        Task::WriteOpen(q, text) => {
            if r.code == 0 {
                ask(Task::WriteData(r.value), Call::Write(r.value, text))
            } else {
                ask(Task::WriteCreate(text), Call::Create(q))
            }
        },
        Task::WriteCreate(text) => {
            if r.code == 0 {
                ask(Task::WriteData(r.value), Call::Write(r.value, text))
            } else {
                end(say(Text::WriteNoCreate))
            }
        },
        Task::WriteData(fd) => ask(Task::WriteClose(r.code, r.value), Call::Close(fd)),
        Task::WriteClose(code, n) => {
            if code == 0 {
                let mut out: Vec<Piece<Vec<u8>>> = nothing();
                then_number(&mut out, n);
                then_say(&mut out, Text::WriteDone);
                assert(out_of(out@) =~= seq![Piece::Number(n), Piece::Say(Text::WriteDone)]);
                end(out)
            } else {
                end(say(Text::WriteFailed))
            }
        },
        Task::MkdirDone(q) => {
            if r.code == 0 {
                end(show(q, Text::LineEnd))
            } else {
                end(say(Text::MkdirFailed))
            }
        },
        Task::TouchOpen(q) => {
            if r.code == 0 {
                ask(Task::Last, Call::Close(r.value))
            } else {
                ask(Task::TouchCreate, Call::Create(q))
            }
        },
        Task::TouchCreate => {
            if r.code == 0 {
                ask(Task::Last, Call::Close(r.value))
            } else {
                end(say(Text::TouchFailed))
            }
        },
        Task::RmDone(p) => {
            if r.code == 0 {
                end(nothing())
            } else if r.code == REFUSED {
                end(say_about(Text::RmHead, p, Text::RmNotEmpty))
            } else {
                end(say_about(Text::RmHead, p, Text::RmFailed))
            }
        },
        Task::MvDone => {
            if r.code == 0 {
                end(nothing())
            } else {
                end(say(Text::MvFailed))
            }
        },
        _ => end(nothing()),
    }
}

/// How cp goes on.
pub open spec fn copied_on(t: Task<Seq<u8>>, r: Reply<Seq<u8>>) -> Turn<
    Seq<Piece<Seq<u8>>>,
    Seq<u8>,
> {
    match t {
        Task::CpOpen(p, dst) => if r.code == 0 {
            asks(Task::CpCreate(r.value), Call::Create(dst))
        } else {
            ends(about(Text::CpHead, p, Text::CpMissing))
        },
        Task::CpCreate(src) => if r.code == 0 {
            asks(Task::CpRead(src, r.value), Call::Read(src))
        } else {
            says(seq![Piece::Say(Text::CpNoCreate)], Task::Last, Call::Close(src))
        },
        Task::CpRead(src, dst) => if r.value != 0 {
            asks(Task::CpWrite(src, dst), Call::Write(dst, r.data))
        } else {
            asks(Task::CpCloseSource(dst), Call::Close(src))
        },
        Task::CpWrite(src, dst) => asks(Task::CpRead(src, dst), Call::Read(src)),
        Task::CpCloseSource(dst) => asks(Task::Last, Call::Close(dst)),
        _ => ends(Seq::empty()),
    }
}

fn copy_on(t: Task<Vec<u8>>, r: Reply<Vec<u8>>) -> (u: Turn<Vec<Piece<Vec<u8>>>, Vec<u8>>)
    ensures
        turn_of(u) == copied_on(
            task_of(t),
            (Reply { code: r.code, value: r.value, extra: r.extra, data: r.data@ }),
        ),
{
    match t {
        Task::CpOpen(p, dst) => {
            if r.code == 0 {
                ask(Task::CpCreate(r.value), Call::Create(dst))
            } else {
                end(say_about(Text::CpHead, p, Text::CpMissing))
            }
        },
        Task::CpCreate(src) => {
            if r.code == 0 {
                ask(Task::CpRead(src, r.value), Call::Read(src))
            } else {
                say_and_ask(say(Text::CpNoCreate), Task::Last, Call::Close(src))
            }
        },
        Task::CpRead(src, dst) => {
            if r.value != 0 {
                ask(Task::CpWrite(src, dst), Call::Write(dst, r.data))
            } else {
                ask(Task::CpCloseSource(dst), Call::Close(src))
            }
        },
        Task::CpWrite(src, dst) => ask(Task::CpRead(src, dst), Call::Read(src)),
        Task::CpCloseSource(dst) => ask(Task::Last, Call::Close(dst)),
        _ => end(nothing()),
    }
}

/// How cd, stat, run and lrun go on.
pub open spec fn asked_on(t: Task<Seq<u8>>, r: Reply<Seq<u8>>) -> Turn<
    Seq<Piece<Seq<u8>>>,
    Seq<u8>,
> {
    match t {
        Task::CdStat(p, q) => if r.code != 0 {
            ends(about(Text::CdMissing, p, Text::LineEnd))
        } else if r.value != KIND_DIR {
            ends(seq![Piece::Say(Text::CdNotDir)])
        } else {
            Turn { out: Seq::empty(), next: Next::Enter(q) }
        },
        Task::StatDone(p, q) => if r.code != 0 {
            ends(about(Text::StatMissing, p, Text::LineEnd))
        } else if r.value == KIND_DIR {
            ends(seq![Piece::Bytes(q)] + counted(Text::StatDirHead, r.extra, Text::StatDirTail))
        } else {
            ends(seq![Piece::Bytes(q)] + counted(Text::StatFileHead, r.extra, Text::StatFileTail))
        },
        Task::RunSpawn(name) => if r.code != 0 {
            ends(
                counted(Text::SpawnFailed, r.code, Text::SpawnMiddle) + seq![
                    Piece::Bytes(name),
                    Piece::Say(Text::SpawnTail),
                ],
            )
        } else {
            asks(Task::RunWait, Call::Wait)
        },
        Task::RunWait => asks(Task::RunDelete(r.code, r.value), Call::DeleteChild),
        Task::RunDelete(rc, code) => if rc != 0 {
            ends(counted(Text::WaitFailed, rc, Text::WaitTail))
        } else {
            ends(counted(Text::ExitHead, code, Text::ExitTail))
        },
        _ => ends(Seq::empty()),
    }
}

fn ask_on(t: Task<Vec<u8>>, r: Reply<Vec<u8>>) -> (u: Turn<Vec<Piece<Vec<u8>>>, Vec<u8>>)
    ensures
        turn_of(u) == asked_on(
            task_of(t),
            (Reply { code: r.code, value: r.value, extra: r.extra, data: r.data@ }),
        ),
{
    match t {
        Task::CdStat(p, q) => {
            if r.code != 0 {
                end(say_about(Text::CdMissing, p, Text::LineEnd))
            } else if r.value != KIND_DIR {
                end(say(Text::CdNotDir))
            } else {
                Turn { out: nothing(), next: Next::Enter(q) }
            }
        },
        Task::StatDone(p, q) => {
            if r.code != 0 {
                end(say_about(Text::StatMissing, p, Text::LineEnd))
            } else {
                let (head, tail): (Text, Text) = if r.value == KIND_DIR {
                    (Text::StatDirHead, Text::StatDirTail)
                } else {
                    (Text::StatFileHead, Text::StatFileTail)
                };
                let ghost bytes = q@;
                let mut out: Vec<Piece<Vec<u8>>> = nothing();
                then_bytes(&mut out, q);
                then_say(&mut out, head);
                then_number(&mut out, r.extra);
                then_say(&mut out, tail);
                assert(out_of(out@) =~= seq![Piece::Bytes(bytes)] + counted(head, r.extra, tail));
                end(out)
            }
        },
        Task::RunSpawn(name) => {
            if r.code != 0 {
                let ghost bytes = name@;
                let mut out: Vec<Piece<Vec<u8>>> = say_counted(
                    Text::SpawnFailed,
                    r.code,
                    Text::SpawnMiddle,
                );
                then_bytes(&mut out, name);
                then_say(&mut out, Text::SpawnTail);
                assert(out_of(out@) =~= counted(Text::SpawnFailed, r.code, Text::SpawnMiddle)
                    + seq![Piece::Bytes(bytes), Piece::Say(Text::SpawnTail)]);
                end(out)
            } else {
                ask(Task::RunWait, Call::Wait)
            }
        },
        Task::RunWait => ask(Task::RunDelete(r.code, r.value), Call::DeleteChild),
        Task::RunDelete(rc, code) => {
            if rc != 0 {
                end(say_counted(Text::WaitFailed, rc, Text::WaitTail))
            } else {
                end(say_counted(Text::ExitHead, code, Text::ExitTail))
            }
        },
        _ => end(nothing()),
    }
}

/// The shell, waiting for a reply.
pub struct Shell {
    pub cwd: Vec<u8>,
    pub line: Vec<u8>,
    pub task: Task<Vec<u8>>,
}

/// The shell as mathematical values.
#[verifier::ext_equal]
pub struct ShellState {
    pub cwd: Seq<u8>,
    pub line: Seq<u8>,
    pub task: Task<Seq<u8>>,
}

impl View for Shell {
    type V = ShellState;

    open spec fn view(&self) -> ShellState {
        ShellState { cwd: self.cwd@, line: self.line@, task: task_of(self.task) }
    }
}

/// The prompt shows the working directory.
pub open spec fn prompt(cwd: Seq<u8>) -> Seq<Piece<Seq<u8>>> {
    about(Text::PromptHead, cwd, Text::PromptTail)
}

/// The shell when it starts: a greeting and a prompt, and the first byte.
pub open spec fn greeted() -> (ShellState, Seq<Piece<Seq<u8>>>) {
    let cwd = seq![SLASH];
    (
        ShellState { cwd, line: Seq::empty(), task: Task::Line },
        seq![Piece::Say(Text::Greeting)] + prompt(cwd),
    )
}

/// Taking a turn: a command that is over leads to the prompt.
pub open spec fn turned(s: ShellState, t: Turn<Seq<Piece<Seq<u8>>>, Seq<u8>>) -> (
    ShellState,
    Seq<Piece<Seq<u8>>>,
    Call<Seq<u8>>,
) {
    match t.next {
        Next::Ask(task, call) => (ShellState { task, ..s }, t.out, call),
        Next::Finish => (
            ShellState { line: Seq::empty(), task: Task::Line, ..s },
            t.out + prompt(s.cwd),
            Call::GetChar,
        ),
        Next::Enter(cwd) => (
            ShellState { cwd, line: Seq::empty(), task: Task::Line },
            t.out + prompt(cwd),
            Call::GetChar,
        ),
        Next::Leave => (ShellState { task: Task::Gone, ..s }, t.out, Call::Exit),
    }
}

/// What the shell does with the reply to its last call: its new state, what it
/// prints, and its next call.
pub open spec fn stepped(s: ShellState, r: Reply<Seq<u8>>) -> (
    ShellState,
    Seq<Piece<Seq<u8>>>,
    Call<Seq<u8>>,
) {
    match s.task {
        Task::Line => {
            let (line, done) = typed(s.line, r.value as u8);
            let s1 = ShellState { line, ..s };
            if done {
                let (s2, out, call) = turned(s1, started(parsed(line, s.cwd), s.cwd));
                (s2, seq![Piece::Say(Text::LineEnd)] + out, call)
            } else {
                (s1, Seq::empty(), Call::GetChar)
            }
        },
        Task::LsOpen(_) | Task::LsNext(_, _) | Task::CatOpen(_) | Task::CatNext(_) => turned(
            s,
            listed_on(s.task, r),
        ),
        Task::CpOpen(_, _) | Task::CpCreate(_) | Task::CpRead(_, _) | Task::CpWrite(_, _)
        | Task::CpCloseSource(_) => turned(s, copied_on(s.task, r)),
        Task::CdStat(_, _) | Task::StatDone(_, _) | Task::RunSpawn(_) | Task::RunWait
        | Task::RunDelete(_, _) => turned(s, asked_on(s.task, r)),
        Task::Last => turned(s, ends(Seq::empty())),
        Task::Gone => (s, Seq::empty(), Call::Exit),
        _ => turned(s, changed_on(s.task, r)),
    }
}

impl Shell {
    /// Start the shell: what it prints first. It then waits for a byte.
    pub fn new() -> (r: (Shell, Vec<Piece<Vec<u8>>>))
        ensures
            (r.0@, out_of(r.1@)) == greeted(),
    {
        let mut cwd: Vec<u8> = Vec::new();
        cwd.push(SLASH);
        assert(cwd@ =~= seq![SLASH]);
        let mut out: Vec<Piece<Vec<u8>>> = say(Text::Greeting);
        then_say(&mut out, Text::PromptHead);
        then_bytes(&mut out, dup(&cwd));
        then_say(&mut out, Text::PromptTail);
        assert(out_of(out@) =~= seq![Piece::Say(Text::Greeting)] + prompt(cwd@));
        (Shell { cwd, line: Vec::new(), task: Task::Line }, out)
    }

    fn turn(&mut self, t: Turn<Vec<Piece<Vec<u8>>>, Vec<u8>>) -> (r: (
        Vec<Piece<Vec<u8>>>,
        Call<Vec<u8>>,
    ))
        ensures
            (final(self)@, out_of(r.0@), call_of(r.1)) == turned(old(self)@, turn_of(t)),
    {
        let mut out: Vec<Piece<Vec<u8>>> = t.out;
        match t.next {
            Next::Ask(task, call) => {
                self.task = task;
                return (out, call);
            },
            Next::Leave => {
                self.task = Task::Gone;
                return (out, Call::Exit);
            },
            Next::Finish => {},
            Next::Enter(cwd) => {
                self.cwd = cwd;
            },
        }
        let ghost before = out_of(out@);
        then_say(&mut out, Text::PromptHead);
        then_bytes(&mut out, dup(&self.cwd));
        then_say(&mut out, Text::PromptTail);
        assert(out_of(out@) =~= before + prompt(self.cwd@));
        self.line = Vec::new();
        self.task = Task::Line;
        (out, Call::GetChar)
    }

    /// Take the reply to the last call. Returns what to print, and the call to
    /// make then.
    pub fn step(&mut self, r: Reply<Vec<u8>>) -> (s: (Vec<Piece<Vec<u8>>>, Call<Vec<u8>>))
        ensures
            (final(self)@, out_of(s.0@), call_of(s.1)) == stepped(
                old(self)@,
                (Reply { code: r.code, value: r.value, extra: r.extra, data: r.data@ }),
            ),
    {
        let ghost s0 = self@;
        let mut task: Task<Vec<u8>> = Task::Last;
        std::mem::swap(&mut task, &mut self.task);
        match task {
            Task::Line => {
                self.task = Task::Line;
                if !type_byte(&mut self.line, r.value as u8) {
                    return (nothing(), Call::GetChar);
                }
                let c: Command<Vec<u8>> = parse(&self.line, &self.cwd);
                let t = start(c, &self.cwd);
                let (mut out, call) = self.turn(t);
                let mut all: Vec<Piece<Vec<u8>>> = say(Text::LineEnd);
                let ghost rest = out_of(out@);
                let ghost a0 = all@;
                let ghost o0 = out@;
                all.append(&mut out);
                assert(all@ =~= a0 + o0);
                assert(out_of(all@) =~= out_of(a0) + out_of(o0));
                (all, call)
            },
            Task::Gone => {
                self.task = Task::Gone;
                (nothing(), Call::Exit)
            },
            Task::Last => {
                let t = end(nothing());
                self.turn(t)
            },
            Task::LsOpen(_) | Task::LsNext(_, _) | Task::CatOpen(_) | Task::CatNext(_) => {
                let t = list_on(task, r);
                self.turn(t)
            },
            Task::CpOpen(_, _) | Task::CpCreate(_) | Task::CpRead(_, _) | Task::CpWrite(_, _)
            | Task::CpCloseSource(_) => {
                let t = copy_on(task, r);
                self.turn(t)
            },
            Task::CdStat(_, _) | Task::StatDone(_, _) | Task::RunSpawn(_) | Task::RunWait
            | Task::RunDelete(_, _) => {
                let t = ask_on(task, r);
                self.turn(t)
            },
            _ => {
                let t = change_on(task, r);
                self.turn(t)
            },
        }
    }
}

/// The characters of a fixed text.
pub open spec fn chars_of(t: Text) -> Seq<char> {
    match t {
        Text::Greeting => "\r\nFerrite OS shell ready. Type 'help' for commands.\r\n"@,
        Text::PromptHead => "ferrite:"@,
        Text::PromptTail => "$ "@,
        Text::LineEnd => "\r\n"@,
        Text::UsageCat => "usage: cat <file>\r\n"@,
        Text::UsageWrite => "usage: write <file> <text>\r\n"@,
        Text::UsageMkdir => "usage: mkdir <dir>\r\n"@,
        Text::UsageTouch => "usage: touch <file>\r\n"@,
        Text::UsageRm => "usage: rm <file>\r\n"@,
        Text::UsageMv => "usage: mv <src> <dst>\r\n"@,
        Text::UsageCp => "usage: cp <src> <dst>\r\n"@,
        Text::UsageStat => "usage: stat <path>\r\n"@,
        Text::UsageRun => "usage: run <name>\r\n"@,
        Text::UsageLrun => "usage: lrun <name>\r\n"@,
        Text::Help => "Commands:\r\n  ls [path]           list directory contents\r\n  cat <file>          print file to screen\r\n  write <file> <text> write text to file (creates if needed)\r\n  mkdir <dir>         create directory\r\n  touch <file>        create file if it does not exist\r\n  rm <file>           remove file or empty directory\r\n  mv <src> <dst>      move/rename a file or directory\r\n  cp <src> <dst>      copy a file\r\n  cd [path]           change directory (default /)\r\n  pwd                 print working directory\r\n  stat <path>         show type and size\r\n  run <name>          spawn Ferrite-native process and wait\r\n  lrun <name>         spawn Linux-ABI process and wait\r\n  echo [text]         print text to screen\r\n  help                show this help\r\n  exit                exit shell\r\nPrograms (run): init, spawn_demo\r\nPrograms (lrun): linux_demo\r\n"@,
        Text::Goodbye => "Goodbye!\r\n"@,
        Text::UnknownCommand => "Unknown command: "@,
        Text::LsMissing => "ls: no such file or directory: "@,
        Text::LsEmpty => "(empty)\r\n"@,
        Text::CatHead => "cat: "@,
        Text::CatMissing => ": no such file\r\n"@,
        Text::WriteNoCreate => "write: cannot create file\r\n"@,
        Text::WriteDone => " bytes written\r\n"@,
        Text::WriteFailed => "write: failed\r\n"@,
        Text::MkdirFailed => "mkdir: failed (already exists?)\r\n"@,
        Text::TouchFailed => "touch: failed\r\n"@,
        Text::RmHead => "rm: "@,
        Text::RmNotEmpty => ": not empty\r\n"@,
        Text::RmFailed => ": failed\r\n"@,
        Text::MvFailed => "mv: failed\r\n"@,
        Text::CpHead => "cp: "@,
        Text::CpMissing => ": no such file\r\n"@,
        Text::CpNoCreate => "cp: cannot create destination\r\n"@,
        Text::CdMissing => "cd: no such directory: "@,
        Text::CdNotDir => "cd: not a directory\r\n"@,
        Text::StatMissing => "stat: not found: "@,
        Text::StatDirHead => "  [directory, "@,
        Text::StatDirTail => " entries]\r\n"@,
        Text::StatFileHead => "  [file, "@,
        Text::StatFileTail => " bytes]\r\n"@,
        Text::SpawnFailed => "run: spawn failed (rc="@,
        Text::SpawnMiddle => ") - is '"@,
        Text::SpawnTail => "' registered?\r\n"@,
        Text::WaitFailed => "run: wait failed (rc="@,
        Text::WaitTail => ")\r\n"@,
        Text::ExitHead => "[exited "@,
        Text::ExitTail => "]\r\n"@,
    }
}

/// A fixed text.
pub fn text(t: Text) -> (r: &'static str)
    ensures
        r@ == chars_of(t),
{
    match t {
        Text::Greeting => "\r\nFerrite OS shell ready. Type 'help' for commands.\r\n",
        Text::PromptHead => "ferrite:",
        Text::PromptTail => "$ ",
        Text::LineEnd => "\r\n",
        Text::UsageCat => "usage: cat <file>\r\n",
        Text::UsageWrite => "usage: write <file> <text>\r\n",
        Text::UsageMkdir => "usage: mkdir <dir>\r\n",
        Text::UsageTouch => "usage: touch <file>\r\n",
        Text::UsageRm => "usage: rm <file>\r\n",
        Text::UsageMv => "usage: mv <src> <dst>\r\n",
        Text::UsageCp => "usage: cp <src> <dst>\r\n",
        Text::UsageStat => "usage: stat <path>\r\n",
        Text::UsageRun => "usage: run <name>\r\n",
        Text::UsageLrun => "usage: lrun <name>\r\n",
        Text::Help => "Commands:\r\n  ls [path]           list directory contents\r\n  cat <file>          print file to screen\r\n  write <file> <text> write text to file (creates if needed)\r\n  mkdir <dir>         create directory\r\n  touch <file>        create file if it does not exist\r\n  rm <file>           remove file or empty directory\r\n  mv <src> <dst>      move/rename a file or directory\r\n  cp <src> <dst>      copy a file\r\n  cd [path]           change directory (default /)\r\n  pwd                 print working directory\r\n  stat <path>         show type and size\r\n  run <name>          spawn Ferrite-native process and wait\r\n  lrun <name>         spawn Linux-ABI process and wait\r\n  echo [text]         print text to screen\r\n  help                show this help\r\n  exit                exit shell\r\nPrograms (run): init, spawn_demo\r\nPrograms (lrun): linux_demo\r\n",
        Text::Goodbye => "Goodbye!\r\n",
        Text::UnknownCommand => "Unknown command: ",
        Text::LsMissing => "ls: no such file or directory: ",
        Text::LsEmpty => "(empty)\r\n",
        Text::CatHead => "cat: ",
        Text::CatMissing => ": no such file\r\n",
        Text::WriteNoCreate => "write: cannot create file\r\n",
        Text::WriteDone => " bytes written\r\n",
        Text::WriteFailed => "write: failed\r\n",
        Text::MkdirFailed => "mkdir: failed (already exists?)\r\n",
        Text::TouchFailed => "touch: failed\r\n",
        Text::RmHead => "rm: ",
        Text::RmNotEmpty => ": not empty\r\n",
        Text::RmFailed => ": failed\r\n",
        Text::MvFailed => "mv: failed\r\n",
        Text::CpHead => "cp: ",
        Text::CpMissing => ": no such file\r\n",
        Text::CpNoCreate => "cp: cannot create destination\r\n",
        Text::CdMissing => "cd: no such directory: ",
        Text::CdNotDir => "cd: not a directory\r\n",
        Text::StatMissing => "stat: not found: ",
        Text::StatDirHead => "  [directory, ",
        Text::StatDirTail => " entries]\r\n",
        Text::StatFileHead => "  [file, ",
        Text::StatFileTail => " bytes]\r\n",
        Text::SpawnFailed => "run: spawn failed (rc=",
        Text::SpawnMiddle => ") - is '",
        Text::SpawnTail => "' registered?\r\n",
        Text::WaitFailed => "run: wait failed (rc=",
        Text::WaitTail => ")\r\n",
        Text::ExitHead => "[exited ",
        Text::ExitTail => "]\r\n",
    }
}

} // verus!
