//! Paths in the shell: bounded in length and depth.
use crate::path::{self, position, DOT, SLASH};
use vstd::prelude::*;

verus! {

/// Longest path.
pub const MAX_PATH: usize = 128;

/// Components that are followed; more are dropped.
pub const MAX_DEPTH: usize = 16;

/// A normalized path with the length it had before each of its components.
#[verifier::ext_equal]
pub struct Trail {
    pub text: Seq<u8>,
    pub marks: Seq<int>,
}

/// The root directory.
pub open spec fn root_trail() -> Trail {
    Trail { text: seq![SLASH], marks: Seq::empty() }
}

/// Following one component: `.` stays, `..` goes back, and a name is appended
/// as far as it fits.
pub open spec fn followed(t: Trail, c: Seq<u8>) -> Trail {
    if path::is_dot(c) {
        t
    } else if path::is_dot_dot(c) {
        if t.marks.len() > 0 {
            Trail { text: t.text.take(t.marks.last()), marks: t.marks.drop_last() }
        } else {
            t
        }
    } else if t.marks.len() >= MAX_DEPTH {
        t
    } else {
        let base = if 1 < t.text.len() < MAX_PATH {
            t.text.push(SLASH)
        } else {
            t.text
        };
        let room = MAX_PATH - base.len();
        Trail {
            text: base + (if c.len() <= room {
                c
            } else {
                c.take(room)
            }),
            marks: t.marks.push(t.text.len() as int),
        }
    }
}

/// Following components in their order.
pub open spec fn all_followed(t: Trail, cs: Seq<Seq<u8>>) -> Trail
    decreases cs.len(),
{
    if cs.len() == 0 {
        t
    } else {
        all_followed(followed(t, cs[0]), cs.drop_first())
    }
}

/// The normal form of a path.
pub open spec fn normalized(p: Seq<u8>) -> Seq<u8> {
    all_followed(root_trail(), path::components(p)).text
}

/// The marks of a trail lie within its text, in ascending order.
pub open spec fn trail_ok(t: Trail) -> bool {
    &&& 1 <= t.text.len() <= MAX_PATH
    &&& t.marks.len() <= MAX_DEPTH
    &&& forall|i: int| 0 <= i < t.marks.len() ==> 1 <= #[trigger] t.marks[i] <= t.text.len()
    &&& forall|i: int, j: int|
        0 <= i <= j < t.marks.len() ==> #[trigger] t.marks[i] <= #[trigger] t.marks[j]
}

proof fn lemma_followed_ok(t: Trail, c: Seq<u8>)
    requires
        trail_ok(t),
    ensures
        trail_ok(followed(t, c)),
{
    let n = followed(t, c);
    if !path::is_dot(c) && path::is_dot_dot(c) && t.marks.len() > 0 {
        let last = t.marks.len() - 1;
        assert(n.marks =~= t.marks.take(last));
        assert(1 <= t.marks[last] <= t.text.len());
        assert forall|i: int| 0 <= i < n.marks.len() implies 1 <= #[trigger] n.marks[i]
            <= n.text.len() by {
            assert(t.marks[i] <= t.marks[last]);
        }
    }
}

/// The marks as machine integers.
spec fn marks_of(v: Seq<usize>) -> Seq<int> {
    Seq::new(v.len(), |i: int| v[i] as int)
}

fn follow(text: &mut Vec<u8>, marks: &mut Vec<usize>, c: &[u8])
    requires
        trail_ok(Trail { text: old(text)@, marks: marks_of(old(marks)@) }),
    ensures
        (Trail { text: final(text)@, marks: marks_of(final(marks)@) }) == followed(
            Trail { text: old(text)@, marks: marks_of(old(marks)@) },
            c@,
        ),
        trail_ok(Trail { text: final(text)@, marks: marks_of(final(marks)@) }),
{
    let ghost t = Trail { text: text@, marks: marks_of(marks@) };
    proof {
        lemma_followed_ok(t, c@);
    }
    if c.len() == 1 && c[0] == DOT {
        assert(c@ =~= seq![DOT]);
        return ;
    }
    if c.len() == 2 && c[0] == DOT && c[1] == DOT {
        assert(c@ =~= seq![DOT, DOT]);
        if marks.len() > 0 {
            assert(t.marks[marks@.len() - 1] <= t.text.len());
            if let Some(m) = marks.pop() {
                text.truncate(m);
                assert(marks_of(marks@) =~= t.marks.drop_last());
            }
        }
        return ;
    }
    if marks.len() >= MAX_DEPTH {
        return ;
    }
    marks.push(text.len());
    assert(marks_of(marks@) =~= t.marks.push(t.text.len() as int));
    if text.len() > 1 && text.len() < MAX_PATH {
        text.push(SLASH);
    }
    let room: usize = MAX_PATH - text.len();
    let n: usize = if c.len() <= room {
        c.len()
    } else {
        room
    };
    let mut add: Vec<u8> = crate::bytes::copied(c, 0, n);
    assert(add@ =~= if c@.len() <= room {
        c@
    } else {
        c@.take(room as int)
    });
    text.append(&mut add);
}

/// Resolve `.` and `..` in an absolute path.
pub fn path_normalize(input: &[u8]) -> (r: Vec<u8>)
    ensures
        r@ == normalized(input@),
        1 <= r@.len() <= MAX_PATH,
{
    let mut text: Vec<u8> = Vec::new();
    text.push(SLASH);
    let mut marks: Vec<usize> = Vec::new();
    let mut at: usize = 0;
    proof {
        assert(text@ =~= seq![SLASH]);
        assert(marks_of(marks@) =~= Seq::<int>::empty());
    }
    while at < input.len()
        invariant
            at <= input@.len(),
            trail_ok(Trail { text: text@, marks: marks_of(marks@) }),
            all_followed(
                Trail { text: text@, marks: marks_of(marks@) },
                path::components_from(input@, at as int),
            ).text == normalized(input@),
        decreases input@.len() - at,
    {
        let end: usize = position(input, SLASH, at);
        if end > at {
            let c: &[u8] = &input[at..end];
            proof {
                let rest = path::components_from(input@, end + 1);
                assert((seq![c@] + rest)[0] == c@);
                assert((seq![c@] + rest).drop_first() =~= rest);
            }
            follow(&mut text, &mut marks, c);
            if end < input.len() {
                at = end + 1;
            } else {
                assert(path::components_from(input@, end + 1) =~= path::components_from(
                    input@,
                    end as int,
                ));
                at = end;
            }
        } else {
            at += 1;
        }
    }
    text
}

/// The path that `p` stands for in the directory `cwd`, cut to what fits.
pub open spec fn raw_path(cwd: Seq<u8>, p: Seq<u8>) -> Seq<u8> {
    if p.len() == 0 {
        cut(cwd, 128)
    } else if p[0] == SLASH {
        cut(p, 128)
    } else if cwd.len() == 1 {
        seq![SLASH] + cut(p, 127)
    } else {
        let c = cut(cwd, 126);
        c.push(SLASH) + cut(p, 127 - c.len())
    }
}

/// At most `n` bytes of `s`.
pub open spec fn cut(s: Seq<u8>, n: int) -> Seq<u8> {
    if s.len() <= n {
        s
    } else {
        s.take(n)
    }
}

fn cut_to(s: &[u8], n: usize) -> (r: Vec<u8>)
    ensures
        r@ == cut(s@, n as int),
{
    let m: usize = if s.len() <= n {
        s.len()
    } else {
        n
    };
    let r: Vec<u8> = crate::bytes::copied(s, 0, m);
    assert(r@ =~= cut(s@, n as int));
    r
}

/// The absolute path of `p` in the directory `cwd`.
pub open spec fn resolved(cwd: Seq<u8>, p: Seq<u8>) -> Seq<u8> {
    normalized(raw_path(cwd, p))
}

/// Resolve `p` against the directory `cwd`.
pub fn resolve(cwd: &[u8], p: &[u8]) -> (r: Vec<u8>)
    ensures
        r@ == resolved(cwd@, p@),
        1 <= r@.len() <= MAX_PATH,
{
    let raw: Vec<u8> = if p.len() == 0 {
        cut_to(cwd, 128)
    } else if p[0] == SLASH {
        cut_to(p, 128)
    } else if cwd.len() == 1 {
        let mut v: Vec<u8> = Vec::new();
        v.push(SLASH);
        let mut rest: Vec<u8> = cut_to(p, 127);
        v.append(&mut rest);
        assert(v@ =~= seq![SLASH] + cut(p@, 127));
        v
    } else {
        let mut v: Vec<u8> = cut_to(cwd, 126);
        let n: usize = v.len();
        v.push(SLASH);
        let mut rest: Vec<u8> = cut_to(p, 127 - n);
        v.append(&mut rest);
        v
    };
    path_normalize(&raw)
}

/// The trail of a reduced path that fits.
spec fn trail_of(cs: Seq<Seq<u8>>) -> Trail {
    Trail {
        text: path::rendered(cs),
        marks: Seq::new(cs.len(), |i: int| path::rendered(cs.take(i)).len() as int),
    }
}

proof fn lemma_follow_step(cs: Seq<Seq<u8>>, c: Seq<u8>)
    requires
        path::all_names(cs),
        !path::is_dot(c) && !path::is_dot_dot(c) ==> cs.len() < MAX_DEPTH && path::rendered(
            cs.push(c),
        ).len() <= MAX_PATH,
    ensures
        followed(trail_of(cs), c) == trail_of(
            if path::is_dot(c) {
                cs
            } else if path::is_dot_dot(c) {
                if cs.len() == 0 {
                    cs
                } else {
                    cs.drop_last()
                }
            } else {
                cs.push(c)
            },
        ),
{
    let t = trail_of(cs);
    let n = followed(t, c);
    if path::is_dot(c) {
    } else if path::is_dot_dot(c) {
        if cs.len() > 0 {
            let d = cs.drop_last();
            assert(cs.take(cs.len() - 1) =~= d);
            assert(t.marks.last() == path::rendered(d).len());
            assert(path::is_name(cs[cs.len() - 1]));
            if d.len() == 0 {
                assert(path::joined(d) =~= Seq::<u8>::empty());
                assert(n.text =~= seq![SLASH]);
            } else {
                assert(n.text =~= path::joined(d));
            }
            assert forall|i: int| 0 <= i < d.len() implies d.take(i) == cs.take(i) by {
                assert(d.take(i) =~= cs.take(i));
            }
            assert(n.marks =~= trail_of(d).marks);
        }
    } else {
        let e = cs.push(c);
        assert(e.drop_last() =~= cs);
        if cs.len() == 0 {
            assert(path::joined(cs) =~= Seq::<u8>::empty());
            assert(n.text =~= path::joined(e));
        } else {
            assert(path::is_name(cs[cs.len() - 1]));
            assert(n.text =~= path::joined(e));
        }
        assert forall|i: int| 0 <= i < e.len() implies #[trigger] n.marks[i] == trail_of(
            e,
        ).marks[i] by {
            assert(e.take(i) =~= cs.take(i));
            assert(cs.take(cs.len() as int) =~= cs);
        }
        assert(n.marks =~= trail_of(e).marks);
    }
}

/// On the way through the components, the path stays within the bounds.
pub open spec fn fits(cs: Seq<Seq<u8>>) -> bool {
    forall|i: int|
        0 <= i <= cs.len() ==> {
            let r = path::reduced(#[trigger] cs.take(i));
            r.len() <= MAX_DEPTH && path::rendered(r).len() <= MAX_PATH
        }
}

proof fn lemma_follow_all(cs: Seq<Seq<u8>>, i: int)
    requires
        path::all_names(cs),
        fits(cs),
        0 <= i <= cs.len(),
    ensures
        all_followed(trail_of(path::reduced(cs.take(i))), cs.skip(i)) == trail_of(
            path::reduced(cs),
        ),
    decreases cs.len() - i,
{
    if i == cs.len() {
        assert(cs.take(i) =~= cs);
    } else {
        let done = cs.take(i);
        let next = cs.take(i + 1);
        assert(next.drop_last() =~= done);
        assert(next.last() == cs[i]);
        assert(cs.skip(i)[0] == cs[i]);
        assert(cs.skip(i).drop_first() =~= cs.skip(i + 1));
        assert(path::all_names(done)) by {
            assert forall|j: int| 0 <= j < done.len() implies path::is_name(#[trigger] done[j]) by {
                assert(done[j] == cs[j]);
            }
        }
        path::lemma_reduced_names(done);
        assert(path::reduced(next).len() <= MAX_DEPTH);
        lemma_follow_step(path::reduced(done), cs[i]);
        lemma_follow_all(cs, i + 1);
    }
}

/// A path that stays within 128 bytes and 16 components is brought to the same
/// normal form as in the kernel.
pub proof fn law_normalize_is_canonical(p: Seq<u8>)
    requires
        fits(path::components(p)),
    ensures
        normalized(p) == path::canonical(p),
{
    let cs = path::components(p);
    path::lemma_components_are_names(p, 0);
    let none = Seq::<Seq<u8>>::empty();
    assert(cs.take(0) =~= none);
    assert(cs.skip(0) =~= cs);
    assert(path::joined(none) =~= Seq::<u8>::empty());
    assert(path::reduced(none) =~= none);
    assert(trail_of(none).marks =~= Seq::<int>::empty());
    assert(trail_of(none) =~= root_trail());
    lemma_follow_all(cs, 0);
}

} // verus!
