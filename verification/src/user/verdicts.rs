//! What the self-test of the Linux ABI finds: each reply is held against the call
//! it answers, and the verdict against all of them.
use crate::user::script::{self, Piece};
use crate::user::selftest::{self, Call, Reply, SelfTest};
use vstd::prelude::*;

verus! {

/// A check that holds, or none.
pub open spec fn fine(c: Option<(bool, Seq<char>)>) -> bool {
    c matches Some((ok, name)) ==> ok
}

/// The reply to the call that the program waits for is found right.
#[verifier::opaque]
pub open spec fn approved(t: SelfTest, r: Reply<Seq<u8>>) -> bool {
    fine(selftest::checked(t.at, t.note, r)) && fine(selftest::checked_data(t.at, r.data))
}

/// The program after a reply.
#[verifier::opaque]
pub open spec fn judged(t: SelfTest, r: Reply<Seq<u8>>) -> SelfTest {
    selftest::stepped(t, r).0
}

/// The program after the replies `rs`.
pub open spec fn after_all(t: SelfTest, rs: Seq<Reply<Seq<u8>>>) -> SelfTest
    decreases rs.len(),
{
    if rs.len() == 0 {
        t
    } else {
        judged(after_all(t, rs.drop_last()), rs.last())
    }
}

/// A reply that is found wrong counts, and no other.
proof fn lemma_judged(t: SelfTest, r: Reply<Seq<u8>>)
    requires
        t.failed < 0x2_0000_0000,
    ensures
        t.failed <= judged(t, r).failed <= t.failed + 2,
        judged(t, r).failed == t.failed <==> approved(t, r),
{
    reveal(approved);
    reveal(judged);
}

/// No failure is counted exactly when every reply was found right, from the first
/// to the last.
pub proof fn law_failures_counted(t: SelfTest, rs: Seq<Reply<Seq<u8>>>)
    requires
        t.failed == 0,
        rs.len() < 0x1_0000_0000,
    ensures
        after_all(t, rs).failed <= 2 * rs.len(),
        after_all(t, rs).failed == 0 <==> forall|i: int|
            0 <= i < rs.len() ==> approved(after_all(t, rs.take(i)), #[trigger] rs[i]),
    decreases rs.len(),
{
    if rs.len() > 0 {
        let n = rs.len() - 1;
        let rest = rs.drop_last();
        law_failures_counted(t, rest);
        assert(rs.take(n) =~= rest);
        assert forall|i: int| 0 <= i < n implies rs.take(i) == rest.take(i) && rs[i] == rest[i] by {
            assert(rs.take(i) =~= rest.take(i));
        }
        let before = after_all(t, rest);
        let now = after_all(t, rs);
        lemma_judged(before, rs[n]);
        assert(now.failed == 0 <==> before.failed == 0 && approved(before, rs[n]));
        if now.failed == 0 {
            assert forall|i: int| 0 <= i < rs.len() implies approved(
                after_all(t, rs.take(i)),
                #[trigger] rs[i],
            ) by {
                if i < n {
                    assert(approved(after_all(t, rest.take(i)), rest[i]));
                }
            }
        }
        if forall|i: int|
            0 <= i < rs.len() ==> approved(after_all(t, rs.take(i)), #[trigger] rs[i]) {
            assert forall|i: int| 0 <= i < rest.len() implies approved(
                after_all(t, rest.take(i)),
                #[trigger] rest[i],
            ) by {
                assert(approved(after_all(t, rs.take(i)), rs[i]));
            }
            assert(approved(after_all(t, rs.take(n)), rs[n]));
        }
    }
}

/// After the last reply the program says that all has passed exactly when no
/// check has failed, and then exits with 0.
pub proof fn law_verdict_printed(t: SelfTest, r: Reply<Seq<u8>>)
    requires
        selftest::asked(t.at, t.note) is Wait,
    ensures
        ({
            let (t1, out, next) = selftest::stepped(t, r);
            &&& t1.failed == 0 <==> out.last() == Piece::<Seq<char>, Seq<u8>>::Say(
                "[lx] ALL PASS\n"@,
            )
            &&& next == Call::<Seq<char>>::Exit(0)
        }),
{
    reveal_strlit("[lx] ALL PASS\n");
    reveal_strlit("\n");
    let (t1, out, next) = selftest::stepped(t, r);
    let tail = selftest::words(t.at, r, t1.failed);
    assert(tail.len() > 0 && out.last() == tail.last());
    assert(selftest::summary(t1.failed).len() > 0);
    assert(tail.last() == selftest::summary(t1.failed).last());
    assert("[lx] ALL PASS\n"@.len() != "\n"@.len());
}

/// The heap must end where it was asked to end.
pub proof fn law_heap_checked(t: SelfTest, r: Reply<Seq<u8>>, a: u64)
    requires
        selftest::asked(t.at, t.note) == Call::<Seq<char>>::Brk(a),
        a != 0,
    ensures
        approved(t, r) <==> r.value as u64 == a,
{
    reveal(approved);
}

/// Of a text that is written every byte must be taken.
pub proof fn law_write_checked(t: SelfTest, r: Reply<Seq<u8>>, fd: u64, text: Seq<char>)
    requires
        selftest::asked(t.at, t.note) == Call::<Seq<char>>::Write(fd, text),
    ensures
        fd == t.note as u64,
        approved(t, r) <==> r.value == text.len(),
{
    reveal(approved);
    reveal_strlit("hello");
    reveal_strlit("+++");
    reveal_strlit("HELLO");
}

/// The descriptor of an opened file is the one that the next call names.
pub proof fn law_descriptor_passed(t: SelfTest, r: Reply<Seq<u8>>)
    requires
        selftest::asked(t.at, t.note) is Open,
    ensures
        ({
            let next = selftest::stepped(t, r).2;
            &&& next matches Call::Write(fd, text) ==> fd == r.value as u64
            &&& next matches Call::Read(fd) ==> fd == r.value as u64
            &&& next matches Call::Fstat(fd) ==> fd == r.value as u64
            &&& next matches Call::Dents(fd) ==> fd == r.value as u64
            &&& r.value < 0 && t.at != 19 ==> !approved(t, r)
        }),
{
    reveal(approved);
}

/// What is read back must be the two texts that were written, one after the
/// other.
pub proof fn law_content_checked(t: SelfTest, r: Reply<Seq<u8>>)
    requires
        selftest::asked(t.at, t.note) is Read,
        r.data.len() >= 8,
    ensures
        approved(t, r) <==> r.value == 8 && r.data.take(8) == seq![
            104u8,
            101,
            108,
            108,
            111,
            43,
            43,
            43,
        ],
{
    reveal(approved);
    let want = seq![104u8, 101, 108, 108, 111, 43, 43, 43];
    let got = r.data.take(8);
    if selftest::is_whole_text(r.data) {
        assert(got =~= want);
    }
    if got == want {
        assert(got[0] == r.data[0] && got[1] == r.data[1] && got[2] == r.data[2] && got[3]
            == r.data[3] && got[4] == r.data[4] && got[5] == r.data[5] && got[6] == r.data[6]
            && got[7] == r.data[7]);
    }
}

/// The parent waits for the child that it got, and must get that child's number
/// and the code that a child exits with; the child executes the program again.
pub proof fn law_child_checked(t: SelfTest, r: Reply<Seq<u8>>, w: Reply<Seq<u8>>)
    requires
        selftest::asked(t.at, t.note) is Clone,
    ensures
        ({
            let (t1, out, next) = selftest::stepped(t, r);
            &&& r.value == 0 ==> next is Exec
            &&& r.value < 0 ==> !approved(t, r)
            &&& r.value > 0 ==> {
                &&& next == Call::<Seq<char>>::Wait(r.value as u64)
                &&& approved(t1, w) <==> w.value == r.value && script::word_in(w.data, 0) == 42 * 256
            }
        }),
{
    reveal(approved);
}

} // verus!
