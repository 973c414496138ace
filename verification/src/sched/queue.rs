//! Queues of threads, linked through the threads themselves: the order in which
//! threads leave them.
use crate::kernel::{self, State};
use crate::sched;
use crate::thread::MLFQ_LEVELS;
use vstd::prelude::*;

verus! {

/// `head` and `tail` are the ends of a queue that holds the threads `q`, first
/// to last.
pub open spec fn chain(s: State, head: u64, tail: u64, q: Seq<u64>) -> bool {
    &&& q.no_duplicates()
    &&& !q.contains(0)
    &&& if q.len() == 0 {
        head == 0 && tail == 0
    } else {
        head == q[0] && tail == q.last()
    }
    &&& forall|i: int|
        0 <= i < q.len() ==> kernel::tcb(s, #[trigger] q[i]).next_pa == link(q, i)
}

/// What follows position `i` of `q` (0 at the end).
pub open spec fn link(q: Seq<u64>, i: int) -> u64 {
    if i + 1 < q.len() {
        q[i + 1]
    } else {
        0
    }
}

/// The run queue of `level` holds the threads `q`, first to last.
pub open spec fn run_queue(s: State, level: int, q: Seq<u64>) -> bool {
    chain(s, s.sched.queue_head[level], s.sched.queue_tail[level], q)
}

/// No thread is in two of the queues `qs`, and `qs` are the run queues.
pub open spec fn run_queues(s: State, qs: Seq<Seq<u64>>) -> bool {
    &&& qs.len() == MLFQ_LEVELS
    &&& forall|l: int| 0 <= l < MLFQ_LEVELS ==> run_queue(s, l, #[trigger] qs[l])
    &&& forall|l: int, m: int, pa: u64|
        #![trigger qs[l].contains(pa), qs[m].contains(pa)]
        0 <= l < MLFQ_LEVELS && 0 <= m < MLFQ_LEVELS && qs[l].contains(pa) && qs[m].contains(pa)
            ==> l == m
}

/// A chain is not affected by other threads.
pub proof fn lemma_chain_kept(s: State, t: State, head: u64, tail: u64, q: Seq<u64>)
    requires
        chain(s, head, tail, q),
        forall|pa: u64|
            q.contains(pa) ==> kernel::tcb(t, pa).next_pa == #[trigger] kernel::tcb(s, pa).next_pa,
    ensures
        chain(t, head, tail, q),
{
    assert forall|i: int| 0 <= i < q.len() implies kernel::tcb(t, #[trigger] q[i]).next_pa == link(
        q,
        i,
    ) by {
        assert(q.contains(q[i]));
        assert(kernel::tcb(t, q[i]).next_pa == kernel::tcb(s, q[i]).next_pa);
    }
}

/// A thread that is linked behind the last one is the last one.
pub proof fn lemma_chain_append(s: State, t: State, head: u64, tail: u64, q: Seq<u64>, pa: u64)
    requires
        chain(s, head, tail, q),
        pa != 0,
        !q.contains(pa),
        kernel::tcb(t, pa).next_pa == 0,
        q.len() > 0 ==> kernel::tcb(t, tail).next_pa == pa,
        forall|p: u64|
            p != pa && p != tail ==> kernel::tcb(t, p).next_pa == #[trigger] kernel::tcb(
                s,
                p,
            ).next_pa,
    ensures
        chain(
            t,
            if q.len() == 0 {
                pa
            } else {
                head
            },
            pa,
            q.push(pa),
        ),
{
    let r = q.push(pa);
    assert forall|i: int, j: int| 0 <= i < r.len() && 0 <= j < r.len() && i != j implies r[i]
        != r[j] by {
        if i < q.len() {
            assert(q.contains(q[i]));
        }
        if j < q.len() {
            assert(q.contains(q[j]));
        }
    }
    if r.contains(0) {
        let i = choose|i: int| 0 <= i < r.len() && r[i] == 0;
        assert(q.contains(q[i]));
    }
    assert forall|i: int| 0 <= i < r.len() implies kernel::tcb(t, #[trigger] r[i]).next_pa == link(
        r,
        i,
    ) by {
        if i < q.len() - 1 {
            assert(q[i] != q.last());
            assert(q.contains(q[i]));
            assert(kernel::tcb(t, q[i]).next_pa == kernel::tcb(s, q[i]).next_pa);
        }
    }
}

/// Without its first thread, a chain starts at the second.
pub proof fn lemma_chain_rest(s: State, t: State, head: u64, tail: u64, q: Seq<u64>)
    requires
        chain(s, head, tail, q),
        q.len() > 0,
        forall|p: u64|
            p != head ==> kernel::tcb(t, p).next_pa == #[trigger] kernel::tcb(s, p).next_pa,
    ensures
        kernel::tcb(s, head).next_pa == link(q, 0),
        link(q, 0) == 0 <==> q.len() == 1,
        chain(
            t,
            link(q, 0),
            if q.len() == 1 {
                0
            } else {
                tail
            },
            q.drop_first(),
        ),
{
    let r = q.drop_first();
    assert(kernel::tcb(s, q[0]).next_pa == link(q, 0));
    if q.len() > 1 {
        assert(q.contains(q[1]));
        assert(r.last() == q.last());
    }
    if r.contains(0) {
        let i = choose|i: int| 0 <= i < r.len() && r[i] == 0;
        assert(q.contains(q[i + 1]));
    }
    assert forall|i: int| 0 <= i < r.len() implies kernel::tcb(t, #[trigger] r[i]).next_pa == link(
        r,
        i,
    ) by {
        assert(r[i] == q[i + 1]);
        assert(q[i + 1] != q[0]);
        assert(kernel::tcb(s, q[i + 1]).next_pa == link(q, i + 1));
        assert(kernel::tcb(t, q[i + 1]).next_pa == kernel::tcb(s, q[i + 1]).next_pa);
    }
}

/// A thread joins its run queue at the end, and no other run queue changes.
pub proof fn law_enqueue_appends(s: State, qs: Seq<Seq<u64>>, pa: u64, level: int)
    requires
        run_queues(s, qs),
        0 <= level < MLFQ_LEVELS,
        pa != 0,
        forall|l: int| 0 <= l < MLFQ_LEVELS ==> !(#[trigger] qs[l]).contains(pa),
    ensures
        run_queues(sched::linked(s, pa, level), qs.update(level, qs[level].push(pa))),
{
    let t = sched::linked(s, pa, level);
    let q = qs[level];
    let rs = qs.update(level, q.push(pa));
    let head = s.sched.queue_head[level];
    let tail = s.sched.queue_tail[level];
    assert(run_queue(s, level, q));
    if q.len() > 0 {
        assert(q.contains(q.last()));
        assert(q.last() != 0);
    }
    lemma_chain_append(s, t, head, tail, q, pa);
    assert forall|l: int| 0 <= l < MLFQ_LEVELS implies run_queue(t, l, #[trigger] rs[l]) by {
        if l != level {
            assert(run_queue(s, l, qs[l]));
            assert forall|p: u64| qs[l].contains(p) implies kernel::tcb(t, p).next_pa
                == #[trigger] kernel::tcb(s, p).next_pa by {
                assert(q.len() > 0 ==> q.contains(tail));
                assert(!qs[l].contains(pa));
            }
            lemma_chain_kept(s, t, s.sched.queue_head[l], s.sched.queue_tail[l], qs[l]);
        }
    }
    assert forall|l: int, m: int, p: u64|
        #![trigger rs[l].contains(p), rs[m].contains(p)]
        0 <= l < MLFQ_LEVELS && 0 <= m < MLFQ_LEVELS && rs[l].contains(p) && rs[m].contains(
            p,
        ) implies l == m by {
        lemma_push_contains(q, pa, p);
        assert(!qs[l].contains(pa) && !qs[m].contains(pa));
        if p != pa {
            assert(qs[l].contains(p) && qs[m].contains(p));
        }
    }
}

proof fn lemma_push_contains(q: Seq<u64>, pa: u64, p: u64)
    ensures
        q.push(pa).contains(p) <==> q.contains(p) || p == pa,
{
    let r = q.push(pa);
    if q.contains(p) {
        let i = choose|i: int| 0 <= i < q.len() && q[i] == p;
        assert(r[i] == p);
    }
    if p == pa {
        assert(r[q.len() as int] == p);
    }
    if r.contains(p) && p != pa {
        let i = choose|i: int| 0 <= i < r.len() && r[i] == p;
        assert(q[i] == p);
    }
}

/// The highest level that holds a thread.
proof fn lemma_top_level(s: State, qs: Seq<Seq<u64>>, from: int)
    requires
        run_queues(s, qs),
        0 <= from <= MLFQ_LEVELS,
    ensures
        from <= sched::top_level(s, from) <= MLFQ_LEVELS,
        forall|l: int| from <= l < sched::top_level(s, from) ==> (#[trigger] qs[l]).len() == 0,
        sched::top_level(s, from) < MLFQ_LEVELS ==> qs[sched::top_level(s, from)].len() > 0,
    decreases MLFQ_LEVELS - from,
{
    if from < MLFQ_LEVELS {
        assert(run_queue(s, from, qs[from]));
        if qs[from].len() > 0 {
            assert(qs[from].contains(qs[from][0]));
        } else {
            lemma_top_level(s, qs, from + 1);
        }
    }
}

/// The thread that leaves the run queues is the one that has waited longest at
/// the highest level that holds any; all others keep their place.
pub proof fn law_dequeue_takes_first(s: State, qs: Seq<Seq<u64>>)
    requires
        run_queues(s, qs),
    ensures
        ({
            let (t, pa) = sched::dequeued(s);
            let level = sched::top_level(s, 0);
            if forall|l: int| 0 <= l < MLFQ_LEVELS ==> (#[trigger] qs[l]).len() == 0 {
                pa == 0 && t == s
            } else {
                &&& 0 <= level < MLFQ_LEVELS
                &&& forall|l: int| 0 <= l < level ==> (#[trigger] qs[l]).len() == 0
                &&& qs[level].len() > 0
                &&& pa == qs[level][0]
                &&& run_queues(t, qs.update(level, qs[level].drop_first()))
            }
        }),
{
    let (t, pa) = sched::dequeued(s);
    let level = sched::top_level(s, 0);
    lemma_top_level(s, qs, 0);
    if level < MLFQ_LEVELS {
        let q = qs[level];
        let rs = qs.update(level, q.drop_first());
        assert(run_queue(s, level, q));
        lemma_chain_rest(s, t, s.sched.queue_head[level], s.sched.queue_tail[level], q);
        assert forall|l: int| 0 <= l < MLFQ_LEVELS implies run_queue(t, l, #[trigger] rs[l]) by {
            if l != level {
                assert(run_queue(s, l, qs[l]));
                assert(q.contains(q[0]));
                assert forall|p: u64| qs[l].contains(p) implies kernel::tcb(t, p).next_pa
                    == #[trigger] kernel::tcb(s, p).next_pa by {
                    if p == q[0] {
                        assert(qs[level].contains(p));
                    }
                }
                lemma_chain_kept(s, t, s.sched.queue_head[l], s.sched.queue_tail[l], qs[l]);
            }
        }
        assert forall|l: int, m: int, p: u64|
            #![trigger rs[l].contains(p), rs[m].contains(p)]
            0 <= l < MLFQ_LEVELS && 0 <= m < MLFQ_LEVELS && rs[l].contains(p) && rs[m].contains(
                p,
            ) implies l == m by {
            lemma_rest_contains(q, p);
            assert(qs[l].contains(p) && qs[m].contains(p));
        }
    }
}

proof fn lemma_rest_contains(q: Seq<u64>, p: u64)
    requires
        q.len() > 0,
    ensures
        q.drop_first().contains(p) ==> q.contains(p),
{
    if q.drop_first().contains(p) {
        let i = choose|i: int| 0 <= i < q.drop_first().len() && q.drop_first()[i] == p;
        assert(q[i + 1] == p);
    }
}

/// An idle scheduler has empty run queues.
pub proof fn law_idle_queues_empty(s: State)
    requires
        s.sched == sched::idle_sched(),
    ensures
        run_queues(s, seq![Seq::empty(), Seq::empty(), Seq::empty()]),
{
    let qs = seq![Seq::<u64>::empty(), Seq::<u64>::empty(), Seq::<u64>::empty()];
    assert forall|l: int| 0 <= l < MLFQ_LEVELS implies run_queue(s, l, #[trigger] qs[l]) by {
        assert(qs[l] =~= Seq::<u64>::empty());
    }
    assert forall|l: int, m: int, p: u64|
        #![trigger qs[l].contains(p), qs[m].contains(p)]
        0 <= l < MLFQ_LEVELS && 0 <= m < MLFQ_LEVELS && qs[l].contains(p) && qs[m].contains(
            p,
        ) implies l == m by {
        assert(qs[l] =~= Seq::<u64>::empty());
    }
}

} // verus!
