//! How the demonstration programs answer one another.
use crate::syscall::{error, label};
use crate::user::demos::{self, Ask, Program, Reply, TurnView};
use vstd::prelude::*;

verus! {

/// The program asks for a call with this label.
pub open spec fn calls(a: Ask<Seq<char>>, l: u64) -> bool {
    a matches Ask::Invoke(regs) && regs[1] == l
}

/// What the program does with the reply to what it asked for in `t`.
pub open spec fn next(p: Program, t: TurnView, r: Reply<Seq<u8>>) -> TurnView {
    demos::stepped(p, t.at, t.note, t.line, r)
}

/// A server answers every message with its double.
pub proof fn law_servers_double(
    p: Program,
    at: u8,
    note: u64,
    line: Seq<u8>,
    before: Reply<Seq<u8>>,
    r: Reply<Seq<u8>>,
)
    requires
        p is ServerRr || p is EpA || p is CapGrantor,
    ensures
        ({
            let t = demos::stepped(p, at, note, line, before);
            let u = next(p, t, r);
            calls(t.ask, label::ENDPOINT_RECV) || calls(t.ask, label::ENDPOINT_REPLY_RECV) ==> {
                &&& u.ask matches Ask::Invoke(regs)
                &&& regs[1] == label::ENDPOINT_REPLY || regs[1] == label::ENDPOINT_REPLY_RECV
                &&& regs[2] == r.extra.wrapping_mul(2)
            }
        }),
{
}

/// A program that makes an endpoint tells its peer the slot it made it in, and
/// serves there; the peer calls the slot that it was told.
pub proof fn law_endpoint_announced(
    at: u8,
    note: u64,
    line: Seq<u8>,
    before: Reply<Seq<u8>>,
    done: Reply<Seq<u8>>,
    r: Reply<Seq<u8>>,
)
    ensures
        ({
            let t = demos::stepped(Program::EpA, at, note, line, before);
            let u = next(Program::EpA, t, done);
            let v = next(Program::EpA, u, r);
            t.ask matches Ask::Invoke(made) ==> made[1] == label::UNTYPED_RETYPE ==> if done.code
                == error::OK {
                &&& u.ask matches Ask::Invoke(sent) && sent[1] == label::ENDPOINT_SEND && sent[2]
                    == made[4]
                &&& v.ask matches Ask::Invoke(got) && got[1] == label::ENDPOINT_RECV && got[0]
                    == made[4]
            } else {
                u.ask is Exit
            }
        }),
        ({
            let t = demos::stepped(Program::EpB, at, note, line, before);
            let u = next(Program::EpB, t, r);
            calls(t.ask, label::ENDPOINT_RECV) ==> {
                &&& u.ask matches Ask::Invoke(regs)
                &&& regs[1] == label::ENDPOINT_CALL
                &&& regs[0] == r.value
            }
        }),
{
}

/// The capability that is handed over is the one to the endpoint that is then
/// served.
pub proof fn law_granted_endpoint_served(
    at: u8,
    note: u64,
    line: Seq<u8>,
    before: Reply<Seq<u8>>,
    r: Reply<Seq<u8>>,
)
    ensures
        ({
            let t = demos::stepped(Program::CapGrantor, at, note, line, before);
            let u = next(Program::CapGrantor, t, r);
            t.ask matches Ask::Invoke(sent) ==> sent[1] == label::ENDPOINT_SEND ==> {
                &&& sent[6] != 0
                &&& u.ask matches Ask::Invoke(got) && got[1] == label::ENDPOINT_RECV && got[0]
                    == sent[6]
            }
        }),
{
}

/// Writer and reader map the same frame at the same address; the writer puts its
/// text there before it replies, and the reader looks there after its call.
pub proof fn law_shared_frame(
    at: u8,
    to: u8,
    note: u64,
    line: Seq<u8>,
    before: Reply<Seq<u8>>,
    done: Reply<Seq<u8>>,
    r: Reply<Seq<u8>>,
)
    ensures
        ({
            let w = demos::stepped(Program::ShmWriter, at, note, line, before);
            let stored = next(Program::ShmWriter, w, done);
            let told = next(Program::ShmWriter, stored, r);
            let m = demos::stepped(Program::ShmReader, to, note, line, before);
            let called = next(Program::ShmReader, m, done);
            let read = next(Program::ShmReader, called, r);
            w.ask matches Ask::Invoke(a) ==> m.ask matches Ask::Invoke(b) ==> a[1]
                == label::FRAME_MAP ==> b[1] == label::FRAME_MAP ==> {
                &&& a[0] == b[0]
                &&& a[2] == b[2]
                &&& done.code == error::OK ==> (stored.ask matches Ask::Store(va, text) && va
                    == a[2])
                &&& done.code == error::OK ==> calls(told.ask, label::ENDPOINT_REPLY)
                &&& done.code != error::OK ==> stored.ask is Exit
                &&& calls(called.ask, label::ENDPOINT_CALL)
                &&& read.ask == Ask::<Seq<char>>::Load(b[2])
            }
        }),
{
}

/// A program that has asked to end asks for nothing else.
pub proof fn law_end_is_final(
    p: Program,
    at: u8,
    note: u64,
    line: Seq<u8>,
    before: Reply<Seq<u8>>,
    r: Reply<Seq<u8>>,
)
    requires
        p is Init || p is Client || p is ServerRr || p is EpA || p is EpB || p is CapGrantor
            || p is ShmReader || p is ShmWriter,
    ensures
        ({
            let t = demos::stepped(p, at, note, line, before);
            t.ask is Exit ==> next(p, t, r).ask is Exit && next(p, t, r).out.len() == 0
        }),
{
}

} // verus!
