//! What the commands of the shell amount to: which calls a whole command makes,
//! and what it prints.
use crate::path;
use crate::user::shell::{self, Call, Command, Piece, Reply, ShellState, Task, Text, NEWLINE, SPACE};
use crate::user::shell_path;
use vstd::prelude::*;

verus! {

/// The shell after the replies `rs`.
pub open spec fn after(s: ShellState, rs: Seq<Reply<Seq<u8>>>) -> ShellState
    decreases rs.len(),
{
    if rs.len() == 0 {
        s
    } else {
        after(shell::stepped(s, rs[0]).0, rs.drop_first())
    }
}

/// The calls that the replies `rs` lead to, one for each reply.
pub open spec fn calls(s: ShellState, rs: Seq<Reply<Seq<u8>>>) -> Seq<Call<Seq<u8>>>
    decreases rs.len(),
{
    if rs.len() == 0 {
        Seq::empty()
    } else {
        let (s1, out, call) = shell::stepped(s, rs[0]);
        seq![call] + calls(s1, rs.drop_first())
    }
}

/// What the shell prints on the replies `rs`.
pub open spec fn printed(s: ShellState, rs: Seq<Reply<Seq<u8>>>) -> Seq<Piece<Seq<u8>>>
    decreases rs.len(),
{
    if rs.len() == 0 {
        Seq::empty()
    } else {
        let (s1, out, call) = shell::stepped(s, rs[0]);
        out + printed(s1, rs.drop_first())
    }
}

/// What the calls `cs` write to descriptor `fd`, all together.
pub open spec fn written(cs: Seq<Call<Seq<u8>>>, fd: u64) -> Seq<u8>
    decreases cs.len(),
{
    if cs.len() == 0 {
        Seq::empty()
    } else {
        (match cs[0] {
            Call::Write(n, b) if n == fd => b,
            _ => Seq::empty(),
        }) + written(cs.drop_first(), fd)
    }
}

/// The data of all the replies `rs`, one after the other.
pub open spec fn all_data(rs: Seq<Reply<Seq<u8>>>) -> Seq<u8>
    decreases rs.len(),
{
    if rs.len() == 0 {
        Seq::empty()
    } else {
        rs[0].data + all_data(rs.drop_first())
    }
}

/// The bytes among some output, one after the other.
pub open spec fn all_bytes(out: Seq<Piece<Seq<u8>>>) -> Seq<u8>
    decreases out.len(),
{
    if out.len() == 0 {
        Seq::empty()
    } else {
        (match out[0] {
            Piece::Bytes(b) => b,
            _ => Seq::empty(),
        }) + all_bytes(out.drop_first())
    }
}

/// Replies to reads, each followed by the reply to a write.
pub open spec fn alternating(reads: Seq<Reply<Seq<u8>>>, writes: Seq<Reply<Seq<u8>>>) -> Seq<
    Reply<Seq<u8>>,
>
    decreases reads.len(),
{
    if reads.len() == 0 {
        Seq::empty()
    } else {
        seq![reads[0], writes[0]] + alternating(reads.drop_first(), writes.drop_first())
    }
}

/// Every one of the replies to a read carries bytes.
pub open spec fn all_full(rs: Seq<Reply<Seq<u8>>>) -> bool {
    forall|i: int| 0 <= i < rs.len() ==> (#[trigger] rs[i]).value != 0
}

/// The shell at the prompt in the same directory.
pub open spec fn at_prompt(s: ShellState, cwd: Seq<u8>) -> bool {
    s.cwd == cwd && s.line == Seq::<u8>::empty() && s.task == Task::<Seq<u8>>::Line
}

proof fn lemma_tail(rs: Seq<Reply<Seq<u8>>>)
    requires
        rs.len() > 0,
        all_full(rs),
    ensures
        rs[0].value != 0,
        all_full(rs.drop_first()),
{
    assert forall|i: int| 0 <= i < rs.drop_first().len() implies (#[trigger] rs.drop_first()[i]).value
        != 0 by {
        assert(rs.drop_first()[i] == rs[i + 1]);
    }
}

/// Going through `a` and then through `b`.
proof fn lemma_append(s: ShellState, a: Seq<Reply<Seq<u8>>>, b: Seq<Reply<Seq<u8>>>)
    ensures
        after(s, a + b) == after(after(s, a), b),
        calls(s, a + b) == calls(s, a) + calls(after(s, a), b),
        printed(s, a + b) == printed(s, a) + printed(after(s, a), b),
    decreases a.len(),
{
    if a.len() == 0 {
        assert(a + b =~= b);
        assert(calls(s, a) + calls(s, b) =~= calls(s, b));
        assert(printed(s, a) + printed(s, b) =~= printed(s, b));
    } else {
        let (s1, out, call) = shell::stepped(s, a[0]);
        lemma_append(s1, a.drop_first(), b);
        assert((a + b).drop_first() =~= a.drop_first() + b);
        assert((a + b)[0] == a[0]);
        assert(seq![call] + (calls(s1, a.drop_first()) + calls(after(s, a), b)) =~= (seq![call]
            + calls(s1, a.drop_first())) + calls(after(s, a), b));
        assert(out + (printed(s1, a.drop_first()) + printed(after(s, a), b)) =~= (out + printed(
            s1,
            a.drop_first(),
        )) + printed(after(s, a), b));
    }
}

/// One step.
proof fn lemma_one(s: ShellState, r: Reply<Seq<u8>>)
    ensures
        after(s, seq![r]) == shell::stepped(s, r).0,
        calls(s, seq![r]) == seq![shell::stepped(s, r).2],
        printed(s, seq![r]) == shell::stepped(s, r).1,
{
    let rest = seq![r].drop_first();
    assert(rest =~= Seq::<Reply<Seq<u8>>>::empty());
    let (s1, out, call) = shell::stepped(s, r);
    assert(after(s1, rest) == s1);
    assert(seq![call] + calls(s1, rest) =~= seq![call]);
    assert(out + printed(s1, rest) =~= out);
}

proof fn lemma_written_append(a: Seq<Call<Seq<u8>>>, b: Seq<Call<Seq<u8>>>, fd: u64)
    ensures
        written(a + b, fd) == written(a, fd) + written(b, fd),
    decreases a.len(),
{
    if a.len() == 0 {
        assert(a + b =~= b);
        assert(written(a, fd) + written(b, fd) =~= written(b, fd));
    } else {
        lemma_written_append(a.drop_first(), b, fd);
        assert((a + b).drop_first() =~= a.drop_first() + b);
        let first = match a[0] {
            Call::Write(n, d) if n == fd => d,
            _ => Seq::<u8>::empty(),
        };
        assert(first + (written(a.drop_first(), fd) + written(b, fd)) =~= (first + written(
            a.drop_first(),
            fd,
        )) + written(b, fd));
    }
}

proof fn lemma_written_one(c: Call<Seq<u8>>, fd: u64)
    ensures
        written(seq![c], fd) == (match c {
            Call::Write(n, b) if n == fd => b,
            _ => Seq::<u8>::empty(),
        }),
{
    let rest = seq![c].drop_first();
    assert(rest =~= Seq::<Call<Seq<u8>>>::empty());
    let first = match c {
        Call::Write(n, b) if n == fd => b,
        _ => Seq::<u8>::empty(),
    };
    assert(first + written(rest, fd) =~= first);
}

proof fn lemma_bytes_append(a: Seq<Piece<Seq<u8>>>, b: Seq<Piece<Seq<u8>>>)
    ensures
        all_bytes(a + b) == all_bytes(a) + all_bytes(b),
    decreases a.len(),
{
    if a.len() == 0 {
        assert(a + b =~= b);
        assert(all_bytes(a) + all_bytes(b) =~= all_bytes(b));
    } else {
        lemma_bytes_append(a.drop_first(), b);
        assert((a + b).drop_first() =~= a.drop_first() + b);
        let first = match a[0] {
            Piece::Bytes(d) => d,
            _ => Seq::<u8>::empty(),
        };
        assert(first + (all_bytes(a.drop_first()) + all_bytes(b)) =~= (first + all_bytes(
            a.drop_first(),
        )) + all_bytes(b));
    }
}

/// While cp reads its source, what it writes to the destination is all that it
/// has read, in order, and it writes nowhere else and prints nothing.
pub proof fn law_cp_writes_what_it_reads(
    s: ShellState,
    src: u64,
    dst: u64,
    reads: Seq<Reply<Seq<u8>>>,
    writes: Seq<Reply<Seq<u8>>>,
    other: u64,
)
    requires
        s.task == Task::<Seq<u8>>::CpRead(src, dst),
        reads.len() == writes.len(),
        all_full(reads),
    ensures
        ({
            let rs = alternating(reads, writes);
            &&& written(calls(s, rs), dst) == all_data(reads)
            &&& other != dst ==> written(calls(s, rs), other) == Seq::<u8>::empty()
            &&& after(s, rs) == s
            &&& printed(s, rs) == Seq::<Piece<Seq<u8>>>::empty()
            &&& rs.len() > 0 ==> calls(s, rs).len() > 0 && calls(s, rs).last() == Call::<
                Seq<u8>,
            >::Read(src)
        }),
    decreases reads.len(),
{
    let rs = alternating(reads, writes);
    if reads.len() > 0 {
        lemma_tail(reads);
        let pair = seq![reads[0], writes[0]];
        let rest = alternating(reads.drop_first(), writes.drop_first());
        let s1 = shell::stepped(s, reads[0]).0;
        assert(pair =~= seq![reads[0]] + seq![writes[0]]);
        lemma_append(s, seq![reads[0]], seq![writes[0]]);
        lemma_one(s, reads[0]);
        lemma_one(s1, writes[0]);
        lemma_append(s, pair, rest);
        let two = seq![Call::Write(dst, reads[0].data)] + seq![Call::Read(src)];
        assert(calls(s, pair) == two);
        assert(after(s, pair) == s);
        assert(printed(s, pair) =~= Seq::<Piece<Seq<u8>>>::empty());
        law_cp_writes_what_it_reads(s, src, dst, reads.drop_first(), writes.drop_first(), other);
        lemma_written_append(seq![Call::Write(dst, reads[0].data)], seq![Call::Read(src)], dst);
        lemma_written_append(seq![Call::Write(dst, reads[0].data)], seq![Call::Read(src)], other);
        lemma_written_one(Call::Write(dst, reads[0].data), dst);
        lemma_written_one(Call::Write(dst, reads[0].data), other);
        lemma_written_one(Call::Read(src), dst);
        lemma_written_one(Call::Read(src), other);
        lemma_written_append(two, calls(s, rest), dst);
        lemma_written_append(two, calls(s, rest), other);
        assert(written(two, dst) =~= reads[0].data);
        if other != dst {
            assert(written(two, other) =~= Seq::<u8>::empty());
            assert(written(calls(s, rs), other) =~= Seq::<u8>::empty());
        }
        assert(printed(s, rs) =~= Seq::<Piece<Seq<u8>>>::empty());
        if rest.len() == 0 {
            assert(rest =~= Seq::<Reply<Seq<u8>>>::empty());
            assert(calls(s, rs) =~= two);
        } else {
            assert(calls(s, rs).last() == calls(s, rest).last());
        }
    }
}

/// cp opens its source, creates its destination, copies until a read gives
/// nothing, closes both and prompts again: in the end all that was read from the
/// source is written to the destination.
pub proof fn law_cp_copies(
    s: ShellState,
    a: Seq<u8>,
    b: Seq<u8>,
    opened: Reply<Seq<u8>>,
    created: Reply<Seq<u8>>,
    reads: Seq<Reply<Seq<u8>>>,
    writes: Seq<Reply<Seq<u8>>>,
    last: Reply<Seq<u8>>,
    closed: Reply<Seq<u8>>,
    done: Reply<Seq<u8>>,
)
    requires
        opened.code == 0,
        created.code == 0,
        opened.value != created.value,
        reads.len() == writes.len(),
        all_full(reads),
        last.value == 0,
    ensures
        ({
            let (s0, out, first) = shell::turned(s, shell::started(Command::Cp(a, b), s.cwd));
            let head = seq![opened] + seq![created];
            let rs = head + alternating(reads, writes) + (seq![last] + seq![closed] + seq![done]);
            let cs = calls(s0, rs);
            &&& first == Call::<Seq<u8>>::Open(shell_path::resolved(s.cwd, a))
            &&& calls(s0, head) == seq![
                Call::Create(shell_path::resolved(s.cwd, b)),
                Call::Read(opened.value),
            ]
            &&& written(cs, created.value) == all_data(reads)
            &&& written(cs, opened.value) == Seq::<u8>::empty()
            &&& cs.skip(cs.len() - 3) == seq![
                Call::<Seq<u8>>::Close(opened.value),
                Call::Close(created.value),
                Call::GetChar,
            ]
            &&& at_prompt(after(s0, rs), s.cwd)
            &&& printed(s0, rs) == shell::prompt(s.cwd)
        }),
{
    let src = opened.value;
    let dst = created.value;
    let (s0, out, first) = shell::turned(s, shell::started(Command::Cp(a, b), s.cwd));
    let s1 = shell::stepped(s0, opened).0;
    let s2 = shell::stepped(s1, created).0;
    let head = seq![opened] + seq![created];
    lemma_one(s0, opened);
    lemma_one(s1, created);
    lemma_append(s0, seq![opened], seq![created]);
    assert(s2.task == Task::<Seq<u8>>::CpRead(src, dst));
    assert(after(s0, head) == s2);
    let q = shell_path::resolved(s.cwd, b);
    let c0: Seq<Call<Seq<u8>>> = seq![Call::Create(q)] + seq![Call::Read(src)];
    assert(calls(s0, head) == c0);
    assert(c0 =~= seq![Call::Create(q), Call::Read(src)]);
    let mid = alternating(reads, writes);
    law_cp_writes_what_it_reads(s2, src, dst, reads, writes, src);
    lemma_append(s0, head, mid);
    let s3 = shell::stepped(s2, last).0;
    let s4 = shell::stepped(s3, closed).0;
    let s5 = shell::stepped(s4, done).0;
    lemma_one(s2, last);
    lemma_one(s3, closed);
    lemma_one(s4, done);
    lemma_append(s2, seq![last], seq![closed]);
    lemma_append(s2, seq![last] + seq![closed], seq![done]);
    let tail = seq![last] + seq![closed] + seq![done];
    lemma_append(s0, head + mid, tail);
    let c2: Seq<Call<Seq<u8>>> = seq![Call::Close(src)] + seq![Call::Close(dst)] + seq![
        Call::GetChar,
    ];
    assert(calls(s2, tail) == c2);
    let cs = calls(s0, head + mid + tail);
    assert(cs == c0 + calls(s2, mid) + c2);
    assert(cs.skip(cs.len() - 3) =~= c2);
    assert(c2 =~= seq![Call::Close(src), Call::Close(dst), Call::GetChar]);
    lemma_written_append(c0 + calls(s2, mid), c2, dst);
    lemma_written_append(c0, calls(s2, mid), dst);
    lemma_written_append(c0 + calls(s2, mid), c2, src);
    lemma_written_append(c0, calls(s2, mid), src);
    assert forall|fd: u64| written(c0, fd) == Seq::<u8>::empty() && #[trigger] written(c2, fd)
        == Seq::<u8>::empty() by {
        lemma_written_append(seq![Call::Create(q)], seq![Call::Read(src)], fd);
        lemma_written_one(Call::Create(q), fd);
        lemma_written_one(Call::Read(src), fd);
        lemma_written_append(
            seq![Call::Close(src)] + seq![Call::Close(dst)],
            seq![Call::GetChar],
            fd,
        );
        lemma_written_append(seq![Call::Close(src)], seq![Call::Close(dst)], fd);
        lemma_written_one(Call::Close(src), fd);
        lemma_written_one(Call::Close(dst), fd);
        lemma_written_one(Call::GetChar, fd);
        assert(written(c0, fd) =~= Seq::<u8>::empty());
        assert(written(c2, fd) =~= Seq::<u8>::empty());
    }
    assert(written(c0, dst) == Seq::<u8>::empty() && written(c2, dst) == Seq::<u8>::empty());
    assert(written(c0, src) == Seq::<u8>::empty() && written(c2, src) == Seq::<u8>::empty());
    assert(written(cs, dst) =~= all_data(reads));
    assert(written(cs, src) =~= Seq::<u8>::empty());
    assert(printed(s0, head + mid + tail) =~= shell::prompt(s.cwd));
}

/// cat prints all that it reads, in order, reads on until a read gives nothing,
/// and writes to no file.
pub proof fn law_cat_prints_what_it_reads(s: ShellState, fd: u64, reads: Seq<Reply<Seq<u8>>>)
    requires
        s.task == Task::<Seq<u8>>::CatNext(fd),
        all_full(reads),
    ensures
        all_bytes(printed(s, reads)) == all_data(reads),
        printed(s, reads).len() == reads.len(),
        after(s, reads) == s,
        calls(s, reads).len() == reads.len(),
        forall|i: int|
            0 <= i < reads.len() ==> #[trigger] calls(s, reads)[i] == Call::<Seq<u8>>::Read(fd),
    decreases reads.len(),
{
    if reads.len() > 0 {
        lemma_tail(reads);
        let rest = reads.drop_first();
        law_cat_prints_what_it_reads(s, fd, rest);
        let (s1, out, call) = shell::stepped(s, reads[0]);
        assert(s1 == s);
        lemma_bytes_append(out, printed(s, rest));
        assert(out.drop_first() =~= Seq::<Piece<Seq<u8>>>::empty());
        reveal_with_fuel(all_bytes, 2);
        assert(all_bytes(out) =~= reads[0].data);
        assert forall|i: int| 0 <= i < reads.len() implies #[trigger] calls(s, reads)[i] == Call::<
            Seq<u8>,
        >::Read(fd) by {
            if i > 0 {
                assert(calls(s, reads)[i] == calls(s, rest)[i - 1]);
            }
        }
    }
}

/// cat opens the file that its argument names, and at the end closes it and
/// prompts again.
pub proof fn law_cat_opens_and_closes(
    s: ShellState,
    p: Seq<u8>,
    opened: Reply<Seq<u8>>,
    last: Reply<Seq<u8>>,
    done: Reply<Seq<u8>>,
)
    requires
        last.value == 0,
    ensures
        ({
            let (s0, out0, c0) = shell::turned(s, shell::started(Command::Cat(p), s.cwd));
            let (s1, out1, c1) = shell::stepped(s0, opened);
            &&& c0 == Call::<Seq<u8>>::Open(shell_path::resolved(s.cwd, p))
            &&& opened.code == 0 ==> {
                let (s2, out2, c2) = shell::stepped(s1, last);
                let (s3, out3, c3) = shell::stepped(s2, done);
                &&& s1.task == Task::<Seq<u8>>::CatNext(opened.value)
                &&& c1 == Call::<Seq<u8>>::Read(opened.value)
                &&& c2 == Call::<Seq<u8>>::Close(opened.value)
                &&& at_prompt(s3, s.cwd)
            }
            &&& opened.code != 0 ==> at_prompt(s1, s.cwd) && all_bytes(out1) == p + s.cwd
        }),
{
    let (s0, out0, c0) = shell::turned(s, shell::started(Command::Cat(p), s.cwd));
    let (s1, out1, c1) = shell::stepped(s0, opened);
    if opened.code != 0 {
        let a = shell::about(Text::CatHead, p, Text::CatMissing);
        let b = shell::prompt(s.cwd);
        lemma_bytes_append(a, b);
        lemma_about(Text::CatHead, p, Text::CatMissing);
        lemma_about(Text::PromptHead, s.cwd, Text::PromptTail);
    }
}

proof fn lemma_about(a: Text, b: Seq<u8>, c: Text)
    ensures
        all_bytes(shell::about(a, b, c)) == b,
{
    let x = shell::about(a, b, c);
    assert(x.drop_first()[0] == Piece::Bytes(b));
    assert(x.drop_first().drop_first()[0] == Piece::<Seq<u8>>::Say(c));
    assert(x.drop_first().drop_first().drop_first() =~= Seq::<Piece<Seq<u8>>>::empty());
    reveal_with_fuel(all_bytes, 4);
    assert(all_bytes(x) =~= b);
}

/// ls prints the name in every reply, in order, and asks for the next one until
/// there is none.
pub proof fn law_ls_prints_every_name(s: ShellState, fd: u64, n: u64, names: Seq<Reply<Seq<u8>>>)
    requires
        s.task == Task::<Seq<u8>>::LsNext(fd, n),
        n + names.len() <= u64::MAX,
        all_full(names),
    ensures
        all_bytes(printed(s, names)) == all_data(names),
        printed(s, names).len() == 2 * names.len(),
        forall|i: int|
            0 <= i < names.len() ==> #[trigger] printed(s, names)[2 * i] == Piece::Bytes(
                names[i].data,
            ),
        after(s, names) == (ShellState {
            task: Task::LsNext(fd, (n + names.len()) as u64),
            ..s
        }),
        calls(s, names).len() == names.len(),
        forall|i: int|
            0 <= i < names.len() ==> #[trigger] calls(s, names)[i] == Call::<Seq<u8>>::ReadDir(fd),
    decreases names.len(),
{
    if names.len() > 0 {
        lemma_tail(names);
        let rest = names.drop_first();
        let (s1, out, call) = shell::stepped(s, names[0]);
        law_ls_prints_every_name(s1, fd, (n + 1) as u64, rest);
        lemma_bytes_append(out, printed(s1, rest));
        assert(out.drop_first()[0] == Piece::<Seq<u8>>::Say(Text::LineEnd));
        assert(out.drop_first().drop_first() =~= Seq::<Piece<Seq<u8>>>::empty());
        reveal_with_fuel(all_bytes, 3);
        assert(all_bytes(out) =~= names[0].data);
        assert forall|i: int| 0 <= i < names.len() implies #[trigger] printed(s, names)[2 * i]
            == Piece::Bytes(names[i].data) by {
            if i > 0 {
                assert(printed(s, names)[2 * i] == printed(s1, rest)[2 * (i - 1)]);
                assert(rest[i - 1] == names[i]);
            }
        }
        assert forall|i: int| 0 <= i < names.len() implies #[trigger] calls(s, names)[i] == Call::<
            Seq<u8>,
        >::ReadDir(fd) by {
            if i > 0 {
                assert(calls(s, names)[i] == calls(s1, rest)[i - 1]);
            }
        }
    }
}

/// ls opens the directory that its argument names and lists it; it closes it
/// after the last name, and says so where there was none.
pub proof fn law_ls_opens_and_closes(
    s: ShellState,
    p: Seq<u8>,
    opened: Reply<Seq<u8>>,
    fd: u64,
    n: u64,
    last: Reply<Seq<u8>>,
    done: Reply<Seq<u8>>,
)
    requires
        last.value == 0,
    ensures
        ({
            let (s0, out0, c0) = shell::turned(s, shell::started(Command::Ls(p), s.cwd));
            let (s1, out1, c1) = shell::stepped(s0, opened);
            let t = ShellState { task: Task::LsNext(fd, n), ..s };
            let (t1, out2, c2) = shell::stepped(t, last);
            &&& c0 == Call::<Seq<u8>>::Open(shell_path::resolved(s.cwd, p))
            &&& opened.code == 0 ==> s1 == (ShellState {
                task: Task::LsNext(opened.value, 0),
                ..s
            }) && c1 == Call::<Seq<u8>>::ReadDir(opened.value)
            &&& opened.code != 0 ==> at_prompt(s1, s.cwd)
            &&& c2 == Call::<Seq<u8>>::Close(fd)
            &&& out2.contains(Piece::Say(Text::LsEmpty)) <==> n == 0
            &&& at_prompt(shell::stepped(t1, done).0, s.cwd)
        }),
{
    let t = ShellState { task: Task::LsNext(fd, n), ..s };
    let (t1, out2, c2) = shell::stepped(t, last);
    if n == 0 {
        assert(out2[0] == Piece::<Seq<u8>>::Say(Text::LsEmpty));
    }
}

/// write puts exactly its text into the file that its argument names, which it
/// opens, or creates where it cannot be opened; then it closes the file and
/// reports how many bytes were taken.
#[verifier::rlimit(60)]
pub proof fn law_write_writes_text(
    s: ShellState,
    p: Seq<u8>,
    text: Seq<u8>,
    opened: Reply<Seq<u8>>,
    created: Reply<Seq<u8>>,
    wrote: Reply<Seq<u8>>,
    done: Reply<Seq<u8>>,
)
    ensures
        ({
            let q = shell_path::resolved(s.cwd, p);
            let (s0, out0, c0) = shell::turned(s, shell::started(Command::Write(p, text), s.cwd));
            let (s1, out1, c1) = shell::stepped(s0, opened);
            let (s2, out2, c2) = shell::stepped(s1, created);
            &&& c0 == Call::Open(q)
            &&& opened.code == 0 ==> c1 == Call::Write(opened.value, text) && finishes(
                s1,
                s.cwd,
                opened.value,
                wrote,
                done,
            )
            &&& opened.code != 0 ==> c1 == Call::Create(q)
            &&& opened.code != 0 && created.code == 0 ==> c2 == Call::Write(created.value, text)
                && finishes(s2, s.cwd, created.value, wrote, done)
            &&& opened.code != 0 && created.code != 0 ==> at_prompt(s2, s.cwd)
        }),
{
    let q = shell_path::resolved(s.cwd, p);
    let s0 = ShellState { task: Task::WriteOpen(q, text), ..s };
    assert(shell::turned(s, shell::started(Command::Write(p, text), s.cwd)).0 == s0);
    if opened.code == 0 {
        let s1 = ShellState { task: Task::WriteData(opened.value), ..s };
        assert(shell::stepped(s0, opened).0 == s1);
        lemma_finishes(s1, opened.value, wrote, done);
    } else {
        let s1 = ShellState { task: Task::WriteCreate(text), ..s };
        assert(shell::stepped(s0, opened).0 == s1);
        if created.code == 0 {
            let s2 = ShellState { task: Task::WriteData(created.value), ..s };
            assert(shell::stepped(s1, created).0 == s2);
            lemma_finishes(s2, created.value, wrote, done);
        }
    }
}

#[verifier::rlimit(40)]
proof fn lemma_finishes(s: ShellState, fd: u64, wrote: Reply<Seq<u8>>, done: Reply<Seq<u8>>)
    requires
        s.task == Task::<Seq<u8>>::WriteData(fd),
    ensures
        finishes(s, s.cwd, fd, wrote, done),
{
    let s1 = ShellState { task: Task::WriteClose(wrote.code, wrote.value), ..s };
    assert(shell::stepped(s, wrote).0 == s1);
}

/// After the reply `wrote` to its write, the shell closes `fd`, reports the
/// result and prompts.
pub open spec fn finishes(
    s: ShellState,
    cwd: Seq<u8>,
    fd: u64,
    wrote: Reply<Seq<u8>>,
    done: Reply<Seq<u8>>,
) -> bool {
    let (s1, out1, c1) = shell::stepped(s, wrote);
    let (s2, out2, c2) = shell::stepped(s1, done);
    &&& c1 == Call::<Seq<u8>>::Close(fd)
    &&& out1.len() == 0
    &&& at_prompt(s2, cwd)
    &&& wrote.code == 0 ==> out2[0] == Piece::<Seq<u8>>::Number(wrote.value) && out2[1] == Piece::<
        Seq<u8>,
    >::Say(Text::WriteDone)
    &&& wrote.code != 0 ==> out2[0] == Piece::<Seq<u8>>::Say(Text::WriteFailed)
}

/// mkdir, rm and mv make one call on the paths that their arguments name in the
/// working directory, and prompt again; a call that fails is reported.
pub proof fn law_changes_make_one_call(s: ShellState, a: Seq<u8>, b: Seq<u8>, r: Reply<Seq<u8>>)
    ensures
        ({
            let (s0, out0, c0) = shell::turned(s, shell::started(Command::Mkdir(a), s.cwd));
            let (s1, out1, c1) = shell::stepped(s0, r);
            &&& c0 == Call::Mkdir(shell_path::resolved(s.cwd, a))
            &&& at_prompt(s1, s.cwd)
            &&& out1[0] == (if r.code == 0 {
                Piece::Bytes(shell_path::resolved(s.cwd, a))
            } else {
                Piece::Say(Text::MkdirFailed)
            })
        }),
        ({
            let (s0, out0, c0) = shell::turned(s, shell::started(Command::Rm(a), s.cwd));
            let (s1, out1, c1) = shell::stepped(s0, r);
            &&& c0 == Call::Unlink(shell_path::resolved(s.cwd, a))
            &&& at_prompt(s1, s.cwd)
            &&& r.code == 0 <==> out1 == shell::prompt(s.cwd)
            &&& r.code != 0 ==> out1[1] == Piece::Bytes(a) && out1[2] == Piece::<Seq<u8>>::Say(
                if r.code == shell::REFUSED {
                    Text::RmNotEmpty
                } else {
                    Text::RmFailed
                },
            )
        }),
        ({
            let (s0, out0, c0) = shell::turned(s, shell::started(Command::Mv(a, b), s.cwd));
            let (s1, out1, c1) = shell::stepped(s0, r);
            &&& c0 == Call::Rename(
                shell_path::resolved(s.cwd, a),
                shell_path::resolved(s.cwd, b),
            )
            &&& at_prompt(s1, s.cwd)
            &&& r.code == 0 <==> out1 == shell::prompt(s.cwd)
        }),
{
    let p = shell::prompt(s.cwd);
    assert(Seq::<Piece<Seq<u8>>>::empty() + p =~= p);
    assert((shell::about(Text::RmHead, a, Text::RmNotEmpty) + p).len() == 6);
    assert((shell::about(Text::RmHead, a, Text::RmFailed) + p).len() == 6);
    assert((seq![Piece::<Seq<u8>>::Say(Text::MvFailed)] + p).len() == 4);
}

/// touch leaves a file that exists alone and creates one that does not.
pub proof fn law_touch_creates_missing(
    s: ShellState,
    p: Seq<u8>,
    opened: Reply<Seq<u8>>,
    created: Reply<Seq<u8>>,
)
    ensures
        ({
            let q = shell_path::resolved(s.cwd, p);
            let (s0, out0, c0) = shell::turned(s, shell::started(Command::Touch(p), s.cwd));
            let (s1, out1, c1) = shell::stepped(s0, opened);
            let (s2, out2, c2) = shell::stepped(s1, created);
            &&& c0 == Call::Open(q)
            &&& opened.code == 0 ==> c1 == Call::<Seq<u8>>::Close(opened.value)
            &&& opened.code != 0 ==> c1 == Call::Create(q)
            &&& opened.code != 0 && created.code == 0 ==> c2 == Call::<Seq<u8>>::Close(
                created.value,
            )
            &&& opened.code == 0 ==> at_prompt(s2, s.cwd)
        }),
{
}

/// cd changes the working directory to the directory that its argument names,
/// and only if there is one; the prompt shows it.
pub proof fn law_cd_enters_directories(s: ShellState, p: Seq<u8>, r: Reply<Seq<u8>>)
    ensures
        ({
            let q = shell_path::resolved(s.cwd, p);
            let (s0, out0, c0) = shell::turned(s, shell::started(Command::Cd(p), s.cwd));
            let (s1, out1, c1) = shell::stepped(s0, r);
            &&& c0 == Call::Stat(q)
            &&& s0.cwd == s.cwd
            &&& at_prompt(
                s1,
                if r.code == 0 && r.value == shell::KIND_DIR {
                    q
                } else {
                    s.cwd
                },
            )
            &&& out1.len() >= 3 && out1.skip(out1.len() - 3) == shell::prompt(s1.cwd)
        }),
{
    let (s0, out0, c0) = shell::turned(s, shell::started(Command::Cd(p), s.cwd));
    let (s1, out1, c1) = shell::stepped(s0, r);
    let pr = shell::prompt(s1.cwd);
    assert(out1 == out1.take(out1.len() - 3) + pr) by {
        assert(out1 =~= out1.take(out1.len() - 3) + out1.skip(out1.len() - 3));
        assert(out1.skip(out1.len() - 3) =~= pr);
    }
    assert(out1.skip(out1.len() - 3) =~= pr);
}

/// run and lrun start the program that they name, wait for it, give up its
/// thread, and print its exit code.
#[verifier::rlimit(60)]
pub proof fn law_run_waits(
    s: ShellState,
    name: Seq<u8>,
    linux: bool,
    spawned: Reply<Seq<u8>>,
    waited: Reply<Seq<u8>>,
    deleted: Reply<Seq<u8>>,
)
    ensures
        ({
            let command = if linux {
                Command::Lrun(name)
            } else {
                Command::Run(name)
            };
            let (s0, out0, c0) = shell::turned(s, shell::started(command, s.cwd));
            let (s1, out1, c1) = shell::stepped(s0, spawned);
            let (s2, out2, c2) = shell::stepped(s1, waited);
            let (s3, out3, c3) = shell::stepped(s2, deleted);
            &&& c0 == (if linux {
                Call::LinuxSpawn(name)
            } else {
                Call::Spawn(name)
            })
            &&& spawned.code != 0 ==> at_prompt(s1, s.cwd) && out1[1] == Piece::<Seq<u8>>::Number(
                spawned.code,
            ) && out1[3] == Piece::Bytes(name)
            &&& spawned.code == 0 ==> {
                &&& c1 == Call::<Seq<u8>>::Wait
                &&& c2 == Call::<Seq<u8>>::DeleteChild
                &&& at_prompt(s3, s.cwd)
                &&& waited.code == 0 ==> out3[0] == Piece::<Seq<u8>>::Say(Text::ExitHead)
                    && out3[1] == Piece::<Seq<u8>>::Number(waited.value)
                &&& waited.code != 0 ==> out3[0] == Piece::<Seq<u8>>::Say(Text::WaitFailed)
                    && out3[1] == Piece::<Seq<u8>>::Number(waited.code)
            }
        }),
{
    let command = if linux {
        Command::Lrun(name)
    } else {
        Command::Run(name)
    };
    let s0 = ShellState { task: Task::RunSpawn(name), ..s };
    assert(shell::turned(s, shell::started(command, s.cwd)).0 == s0);
    if spawned.code == 0 {
        let s1 = ShellState { task: Task::RunWait, ..s };
        assert(shell::stepped(s0, spawned).0 == s1);
        lemma_run_ends(s1, waited, deleted);
    }
}

#[verifier::rlimit(40)]
proof fn lemma_run_ends(s: ShellState, waited: Reply<Seq<u8>>, deleted: Reply<Seq<u8>>)
    requires
        s.task == Task::<Seq<u8>>::RunWait,
    ensures
        ({
            let (s2, out2, c2) = shell::stepped(s, waited);
            let (s3, out3, c3) = shell::stepped(s2, deleted);
            &&& c2 == Call::<Seq<u8>>::DeleteChild
            &&& at_prompt(s3, s.cwd)
            &&& waited.code == 0 ==> out3[0] == Piece::<Seq<u8>>::Say(Text::ExitHead) && out3[1]
                == Piece::<Seq<u8>>::Number(waited.value)
            &&& waited.code != 0 ==> out3[0] == Piece::<Seq<u8>>::Say(Text::WaitFailed) && out3[1]
                == Piece::<Seq<u8>>::Number(waited.code)
        }),
{
    let s2 = ShellState { task: Task::RunDelete(waited.code, waited.value), ..s };
    assert(shell::stepped(s, waited).0 == s2);
}

/// stat asks for the path that its argument names and prints that path and its
/// size.
pub proof fn law_stat_reports(s: ShellState, p: Seq<u8>, r: Reply<Seq<u8>>)
    ensures
        ({
            let q = shell_path::resolved(s.cwd, p);
            let (s0, out0, c0) = shell::turned(s, shell::started(Command::Stat(p), s.cwd));
            let (s1, out1, c1) = shell::stepped(s0, r);
            &&& c0 == Call::Stat(q)
            &&& at_prompt(s1, s.cwd)
            &&& r.code != 0 ==> out1[0] == Piece::<Seq<u8>>::Say(Text::StatMissing) && out1[1]
                == Piece::Bytes(p)
            &&& r.code == 0 ==> out1[0] == Piece::Bytes(q) && out1[2] == Piece::<Seq<u8>>::Number(
                r.extra,
            ) && out1[1] == Piece::<Seq<u8>>::Say(
                if r.value == shell::KIND_DIR {
                    Text::StatDirHead
                } else {
                    Text::StatFileHead
                },
            )
        }),
{
}

/// echo prints its text, pwd the working directory, and exit leaves the shell;
/// none of them makes another call before that.
pub proof fn law_plain_commands(s: ShellState, t: Seq<u8>)
    ensures
        ({
            let (s1, out, c) = shell::turned(s, shell::started(Command::Echo(t), s.cwd));
            at_prompt(s1, s.cwd) && out[0] == Piece::Bytes(t) && c == Call::<Seq<u8>>::GetChar
        }),
        ({
            let (s1, out, c) = shell::turned(s, shell::started(Command::Pwd, s.cwd));
            at_prompt(s1, s.cwd) && out[0] == Piece::Bytes(s.cwd) && c == Call::<Seq<u8>>::GetChar
        }),
        ({
            let (s1, out, c) = shell::turned(s, shell::started(Command::Exit, s.cwd));
            c == Call::<Seq<u8>>::Exit && s1.task == Task::<Seq<u8>>::Gone
        }),
        ({
            let (s1, out, c) = shell::turned(s, shell::started(Command::Unknown(t), s.cwd));
            at_prompt(s1, s.cwd) && out[1] == Piece::Bytes(t)
        }),
{
}

/// The bytes of `t` as replies to the shell, one by one.
pub open spec fn keys(t: Seq<u8>) -> Seq<Reply<Seq<u8>>> {
    Seq::new(t.len(), |i: int| Reply { code: 0, value: t[i] as u64, extra: 0, data: Seq::empty() })
}

/// Printable bytes.
pub open spec fn printable(t: Seq<u8>) -> bool {
    forall|i: int| 0 <= i < t.len() ==> SPACE <= #[trigger] t[i] <= shell::TILDE
}

/// A line is what was typed on it, and the line end runs the command that it
/// holds.
pub proof fn law_typed_line_runs(s: ShellState, t: Seq<u8>, end: Reply<Seq<u8>>)
    requires
        s.task == Task::<Seq<u8>>::Line,
        printable(t),
        s.line.len() + t.len() <= shell::MAX_LINE,
        end.value == NEWLINE,
    ensures
        ({
            let s1 = after(s, keys(t));
            let (s2, out, c) = shell::stepped(s1, end);
            let (s3, out3, c3) = shell::turned(
                s1,
                shell::started(shell::parsed(s.line + t, s.cwd), s.cwd),
            );
            &&& s1 == (ShellState { line: s.line + t, ..s })
            &&& c == c3
            &&& s2 == s3
        }),
    decreases t.len(),
{
    if t.len() == 0 {
        assert(keys(t) =~= Seq::<Reply<Seq<u8>>>::empty());
        assert(s.line + t =~= s.line);
        assert((10u64 as u8) == 10u8);
    } else {
        let s1 = ShellState { line: s.line.push(t[0]), ..s };
        assert(((t[0] as u64) as u8) == t[0]);
        assert(shell::stepped(s, keys(t)[0]).0 == s1);
        let rest = t.drop_first();
        assert(keys(t).drop_first() =~= keys(rest));
        assert(printable(rest)) by {
            assert forall|i: int| 0 <= i < rest.len() implies SPACE <= #[trigger] rest[i]
                <= shell::TILDE by {
                assert(rest[i] == t[i + 1]);
            }
        }
        law_typed_line_runs(s1, rest, end);
        assert(s1.line + rest =~= s.line + t);
    }
}

/// A backspace takes back the last byte that was typed.
pub proof fn law_backspace_undoes(line: Seq<u8>, ch: u8, back: u8)
    requires
        SPACE <= ch <= shell::TILDE,
        line.len() < shell::MAX_LINE,
        back == shell::BACKSPACE || back == shell::DELETE,
    ensures
        shell::typed(shell::typed(line, ch).0, back) == (line, false),
{
    assert(line.push(ch).drop_last() =~= line);
}

/// The text holds no space.
pub open spec fn one_word(t: Seq<u8>) -> bool {
    t.len() > 0 && forall|i: int| 0 <= i < t.len() ==> #[trigger] t[i] != SPACE
}

proof fn lemma_find_space(a: Seq<u8>, b: Seq<u8>, from: int)
    requires
        0 <= from <= a.len(),
        forall|i: int| 0 <= i < a.len() ==> #[trigger] a[i] != SPACE,
        b.len() == 0 || b[0] == SPACE,
    ensures
        path::find_byte(a + b, SPACE, from) == a.len(),
    decreases a.len() - from,
{
    if from < a.len() {
        assert((a + b)[from] == a[from]);
        lemma_find_space(a, b, from + 1);
    } else if b.len() > 0 {
        assert((a + b)[from] == b[0]);
    }
}

/// The first word of a text is split off at the space after it.
proof fn lemma_word(a: Seq<u8>, rest: Seq<u8>)
    requires
        one_word(a),
        rest.len() > 0,
        rest[0] != SPACE,
    ensures
        shell::word(a + seq![SPACE] + rest) == (a, rest),
        shell::word(a) == (a, Seq::<u8>::empty()),
{
    let t = a + seq![SPACE] + rest;
    assert(t =~= a + (seq![SPACE] + rest));
    lemma_find_space(a, seq![SPACE] + rest, 0);
    assert(t.take(a.len() as int) =~= a);
    let r = t.skip(a.len() as int);
    assert(r =~= seq![SPACE] + rest);
    assert(r.drop_first() =~= rest);
    assert(shell::unspaced(rest) == rest);
    assert(shell::unspaced(r) == shell::unspaced(r.drop_first()));
    lemma_find_space(a, Seq::empty(), 0);
    assert(a + Seq::<u8>::empty() =~= a);
    assert(a.take(a.len() as int) =~= a);
    assert(a.skip(a.len() as int) =~= Seq::<u8>::empty());
}

/// The names of the commands are words, and no two are the same.
proof fn lemma_names(c: int, from: int)
    requires
        0 <= from <= c < 16,
    ensures
        one_word(shell::name_of(c)),
        shell::number_of(shell::name_of(c), from) == Some(c),
    decreases 16 - from,
{
    if from < c {
        lemma_names(c, from + 1);
        let a = shell::name_of(from);
        let b = shell::name_of(c);
        assert(a != b) by {
            if a.len() == b.len() {
                assert(a[0] != b[0] || a[1] != b[1] || a[a.len() - 1] != b[a.len() - 1] || a[a.len()
                    - 2] != b[a.len() - 2]);
            }
        }
    }
}

/// A command with an argument: the name is the first word of the line and the
/// argument is all that follows the space behind it.
pub proof fn law_argument_parsed(arg: Seq<u8>, cwd: Seq<u8>)
    requires
        arg.len() > 0,
        arg[0] != SPACE,
    ensures
        shell::parsed(shell::name_of(0) + seq![SPACE] + arg, cwd) == Command::Ls(arg),
        shell::parsed(shell::name_of(1) + seq![SPACE] + arg, cwd) == Command::Cat(arg),
        shell::parsed(shell::name_of(3) + seq![SPACE] + arg, cwd) == Command::Mkdir(arg),
        shell::parsed(shell::name_of(4) + seq![SPACE] + arg, cwd) == Command::Touch(arg),
        shell::parsed(shell::name_of(5) + seq![SPACE] + arg, cwd) == Command::Rm(arg),
        shell::parsed(shell::name_of(8) + seq![SPACE] + arg, cwd) == Command::Cd(arg),
        shell::parsed(shell::name_of(10) + seq![SPACE] + arg, cwd) == Command::Stat(arg),
        shell::parsed(shell::name_of(12) + seq![SPACE] + arg, cwd) == Command::Run(arg),
        shell::parsed(shell::name_of(13) + seq![SPACE] + arg, cwd) == Command::Lrun(arg),
        shell::parsed(shell::name_of(14) + seq![SPACE] + arg, cwd) == Command::Echo(arg),
{
    lemma_parse(0, arg);
    lemma_parse(1, arg);
    lemma_parse(3, arg);
    lemma_parse(4, arg);
    lemma_parse(5, arg);
    lemma_parse(8, arg);
    lemma_parse(10, arg);
    lemma_parse(12, arg);
    lemma_parse(13, arg);
    lemma_parse(14, arg);
}

proof fn lemma_parse(c: int, arg: Seq<u8>)
    requires
        0 <= c < 16,
        arg.len() > 0,
        arg[0] != SPACE,
    ensures
        ({
            let line = shell::name_of(c) + seq![SPACE] + arg;
            &&& shell::unspaced(line) == line
            &&& line.len() > 0
            &&& shell::word(line) == (shell::name_of(c), arg)
            &&& shell::number_of(shell::name_of(c), 0) == Some(c)
        }),
{
    let name = shell::name_of(c);
    lemma_names(c, 0);
    lemma_word(name, arg);
    let line = name + seq![SPACE] + arg;
    assert(line[0] == name[0]);
}

/// write, mv and cp take a first argument without spaces and then all that
/// follows.
pub proof fn law_two_arguments_parsed(a: Seq<u8>, b: Seq<u8>, cwd: Seq<u8>)
    requires
        one_word(a),
        b.len() > 0,
        b[0] != SPACE,
    ensures
        ({
            let args = a + seq![SPACE] + b;
            &&& shell::parsed(shell::name_of(2) + seq![SPACE] + args, cwd) == Command::Write(a, b)
            &&& shell::parsed(shell::name_of(6) + seq![SPACE] + args, cwd) == Command::Mv(a, b)
            &&& shell::parsed(shell::name_of(7) + seq![SPACE] + args, cwd) == Command::Cp(a, b)
        }),
{
    let args = a + seq![SPACE] + b;
    assert(args[0] == a[0]);
    lemma_word(a, b);
    lemma_parse(2, args);
    lemma_parse(6, args);
    lemma_parse(7, args);
}

} // verus!
