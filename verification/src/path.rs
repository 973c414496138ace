//! Paths: byte strings of components separated by slashes.
use vstd::prelude::*;

verus! {

pub const SLASH: u8 = 47;

pub const DOT: u8 = 46;

/// Position of the first `b` from `from` on, or the length if there is none.
pub open spec fn find_byte(s: Seq<u8>, b: u8, from: int) -> int
    decreases s.len() - from,
{
    if from >= s.len() || s[from] == b {
        from
    } else {
        find_byte(s, b, from + 1)
    }
}

/// Position of the last slash, or -1 if there is none.
pub open spec fn last_slash(s: Seq<u8>) -> int
    decreases s.len(),
{
    if s.len() == 0 {
        -1
    } else if s.last() == SLASH {
        s.len() - 1
    } else {
        last_slash(s.drop_last())
    }
}

/// `s` without the slashes it starts with.
pub open spec fn stripped(s: Seq<u8>) -> Seq<u8>
    decreases s.len(),
{
    if s.len() > 0 && s[0] == SLASH {
        stripped(s.drop_first())
    } else {
        s
    }
}

/// The components of `s` from `from` on; empty ones do not count.
pub open spec fn components_from(s: Seq<u8>, from: int) -> Seq<Seq<u8>>
    decreases
            (if from < s.len() {
                s.len() - from
            } else {
                0
            }),
{
    if from >= s.len() {
        Seq::empty()
    } else {
        let end = find_byte(s, SLASH, from);
        let rest = if end > from {
            components_from(s, end + 1)
        } else {
            components_from(s, from + 1)
        };
        if end > from {
            seq![s.subrange(from, end)] + rest
        } else {
            rest
        }
    }
}

/// The components of a path.
pub open spec fn components(s: Seq<u8>) -> Seq<Seq<u8>> {
    components_from(s, 0)
}

pub proof fn lemma_find_byte(s: Seq<u8>, b: u8, from: int)
    requires
        0 <= from <= s.len(),
    ensures
        from <= find_byte(s, b, from) <= s.len(),
        forall|i: int| from <= i < find_byte(s, b, from) ==> s[i] != b,
        find_byte(s, b, from) < s.len() ==> s[find_byte(s, b, from)] == b,
    decreases s.len() - from,
{
    if from < s.len() && s[from] != b {
        lemma_find_byte(s, b, from + 1);
    }
}

/// Find the first `b` from `from` on.
pub fn position(s: &[u8], b: u8, from: usize) -> (r: usize)
    requires
        from <= s@.len(),
    ensures
        r == find_byte(s@, b, from as int),
        from <= r <= s@.len(),
{
    let mut i: usize = from;
    while i < s.len() && s[i] != b
        invariant
            from <= i <= s@.len(),
            find_byte(s@, b, from as int) == find_byte(s@, b, i as int),
        decreases s@.len() - i,
    {
        i += 1;
    }
    i
}

/// Find the last slash.
pub fn last_slash_position(s: &[u8]) -> (r: Option<usize>)
    ensures
        match r {
            Some(i) => i == last_slash(s@) && i < s@.len(),
            None => last_slash(s@) == -1,
        },
{
    let mut i: usize = s.len();
    assert(s@.take(s@.len() as int) =~= s@);
    while i > 0
        invariant
            i <= s@.len(),
            last_slash(s@) == last_slash(s@.take(i as int)),
        decreases i,
    {
        i -= 1;
        assert(s@.take(i + 1).drop_last() =~= s@.take(i as int));
        if s[i] == SLASH {
            return Some(i);
        }
    }
    None
}

/// The number of slashes that `s` starts with.
pub fn leading_slashes(s: &[u8]) -> (r: usize)
    ensures
        r <= s@.len(),
        stripped(s@) == s@.skip(r as int),
{
    let mut i: usize = 0;
    assert(s@.skip(0) =~= s@);
    while i < s.len() && s[i] == SLASH
        invariant
            i <= s@.len(),
            stripped(s@) == stripped(s@.skip(i as int)),
        decreases s@.len() - i,
    {
        assert(s@.skip(i as int).drop_first() =~= s@.skip(i + 1));
        i += 1;
    }
    i
}

/// A component that stands for the directory it is in.
pub open spec fn is_dot(c: Seq<u8>) -> bool {
    c == seq![DOT]
}

/// A component that stands for the parent directory.
pub open spec fn is_dot_dot(c: Seq<u8>) -> bool {
    c == seq![DOT, DOT]
}

/// The components that are left once `.` and `..` have been followed. The
/// parent of the root is the root.
pub open spec fn reduced(cs: Seq<Seq<u8>>) -> Seq<Seq<u8>>
    decreases cs.len(),
{
    if cs.len() == 0 {
        Seq::empty()
    } else {
        let before = reduced(cs.drop_last());
        let c = cs.last();
        if is_dot(c) {
            before
        } else if is_dot_dot(c) {
            if before.len() == 0 {
                before
            } else {
                before.drop_last()
            }
        } else {
            before.push(c)
        }
    }
}

/// A slash and a component, for each component.
pub open spec fn joined(cs: Seq<Seq<u8>>) -> Seq<u8>
    decreases cs.len(),
{
    if cs.len() == 0 {
        Seq::empty()
    } else {
        joined(cs.drop_last()).push(SLASH) + cs.last()
    }
}

/// The absolute path with these components.
pub open spec fn rendered(cs: Seq<Seq<u8>>) -> Seq<u8> {
    if cs.len() == 0 {
        seq![SLASH]
    } else {
        joined(cs)
    }
}

/// The normal form of an absolute path.
pub open spec fn canonical(p: Seq<u8>) -> Seq<u8> {
    rendered(reduced(components(p)))
}

/// A name: not empty, and without a slash.
pub open spec fn is_name(c: Seq<u8>) -> bool {
    c.len() > 0 && forall|i: int| 0 <= i < c.len() ==> c[i] != SLASH
}

pub open spec fn all_names(cs: Seq<Seq<u8>>) -> bool {
    forall|i: int| 0 <= i < cs.len() ==> is_name(#[trigger] cs[i])
}

proof fn lemma_last_slash_at(a: Seq<u8>, c: Seq<u8>)
    requires
        forall|i: int| 0 <= i < c.len() ==> c[i] != SLASH,
    ensures
        last_slash(a.push(SLASH) + c) == a.len(),
    decreases c.len(),
{
    let s = a.push(SLASH) + c;
    if c.len() == 0 {
        assert(s =~= a.push(SLASH));
    } else {
        assert(s.drop_last() =~= a.push(SLASH) + c.drop_last());
        lemma_last_slash_at(a, c.drop_last());
    }
}

pub proof fn lemma_components_are_names(s: Seq<u8>, from: int)
    requires
        0 <= from,
    ensures
        all_names(components_from(s, from)),
    decreases
            (if from < s.len() {
                s.len() - from
            } else {
                0
            }),
{
    if from < s.len() {
        lemma_find_byte(s, SLASH, from);
        let end = find_byte(s, SLASH, from);
        if end > from {
            lemma_components_are_names(s, end + 1);
        } else {
            lemma_components_are_names(s, from + 1);
        }
    }
}

pub proof fn lemma_reduced_names(cs: Seq<Seq<u8>>)
    requires
        all_names(cs),
    ensures
        all_names(reduced(cs)),
        forall|i: int|
            0 <= i < reduced(cs).len() ==> !is_dot(#[trigger] reduced(cs)[i]) && !is_dot_dot(
                reduced(cs)[i],
            ),
    decreases cs.len(),
{
    if cs.len() > 0 {
        assert(all_names(cs.drop_last()));
        lemma_reduced_names(cs.drop_last());
        assert(is_name(cs[cs.len() - 1]));
    }
}

/// Bring an absolute path to its normal form.
pub fn canonicalize(p: &[u8]) -> (r: Vec<u8>)
    ensures
        r@ == canonical(p@),
{
    let mut out: Vec<u8> = Vec::new();
    let mut at: usize = 0;
    let ghost mut done: Seq<Seq<u8>> = Seq::empty();
    assert(done + components(p@) =~= components(p@));
    while at < p.len()
        invariant
            at <= p@.len(),
            done + components_from(p@, at as int) == components(p@),
            all_names(done),
            out@ == joined(reduced(done)),
        decreases p@.len() - at,
    {
        let end: usize = position(p, SLASH, at);
        proof {
            lemma_find_byte(p@, SLASH, at as int);
            lemma_reduced_names(done);
        }
        if end > at {
            let c: &[u8] = &p[at..end];
            let ghost st = reduced(done);
            proof {
                let rest = components_from(p@, end + 1);
                assert(done + (seq![c@] + rest) =~= done.push(c@) + rest);
                assert(done.push(c@).drop_last() =~= done);
                assert(is_name(c@));
                done = done.push(c@);
            }
            let dot: bool = c.len() == 1 && c[0] == DOT;
            let dot_dot: bool = c.len() == 2 && c[0] == DOT && c[1] == DOT;
            proof {
                if c@.len() == 1 && c@[0] == DOT {
                    assert(c@ =~= seq![DOT]);
                }
                if c@.len() == 2 && c@[0] == DOT && c@[1] == DOT {
                    assert(c@ =~= seq![DOT, DOT]);
                }
            }
            if dot_dot {
                if let Some(cut) = last_slash_position(&out) {
                    proof {
                        if st.len() > 0 {
                            let a = joined(st.drop_last());
                            assert(is_name(st[st.len() - 1]));
                            lemma_last_slash_at(a, st.last());
                            assert(out@.take(cut as int) =~= a);
                        }
                    }
                    out.truncate(cut);
                } else {
                    proof {
                        if st.len() > 0 {
                            assert(is_name(st[st.len() - 1]));
                            lemma_last_slash_at(joined(st.drop_last()), st.last());
                        }
                    }
                }
            } else if !dot {
                let ghost before = out@;
                out.push(SLASH);
                let mut i: usize = at;
                while i < end
                    invariant
                        at <= i <= end <= p@.len(),
                        out@ =~= before.push(SLASH) + p@.subrange(at as int, i as int),
                    decreases end - i,
                {
                    out.push(p[i]);
                    i += 1;
                }
                assert(st.push(c@).drop_last() =~= st);
            }
            if end < p.len() {
                at = end + 1;
            } else {
                proof {
                    assert(components_from(p@, end + 1) =~= components_from(p@, end as int));
                }
                at = end;
            }
        } else {
            at += 1;
        }
    }
    assert(done + Seq::<Seq<u8>>::empty() =~= done);
    if out.len() == 0 {
        proof {
            let st = reduced(done);
            if st.len() > 0 {
                assert(joined(st).len() > 0);
            }
        }
        out.push(SLASH);
        assert(out@ =~= seq![SLASH]);
    } else {
        assert(reduced(done).len() > 0);
    }
    out
}

/// Appending a slash and a name appends a component.
pub proof fn lemma_components_append(a: Seq<u8>, c: Seq<u8>, from: int)
    requires
        is_name(c),
        0 <= from <= a.len(),
    ensures
        components_from(a.push(SLASH) + c, from) == components_from(a, from).push(c),
    decreases a.len() - from,
{
    let s = a.push(SLASH) + c;
    lemma_find_byte(s, SLASH, from);
    let end = find_byte(s, SLASH, from);
    let m = a.len() as int;
    assert(s[a.len() as int] == SLASH);
    let tail = components_from(s, m + 1);
    assert(tail =~= seq![c]) by {
        lemma_find_byte(s, SLASH, m + 1);
        let e = find_byte(s, SLASH, m + 1);
        if e < s.len() {
            assert(c[e - a.len() - 1] == s[e]);
        }
        assert(s.subrange(m + 1, e) =~= c);
        assert(components_from(s, e + 1) =~= Seq::<Seq<u8>>::empty());
    }
    if from == a.len() {
        assert(end == from);
        assert(components_from(a, from) =~= Seq::<Seq<u8>>::empty());
        assert(components_from(s, from) == tail);
        assert(Seq::<Seq<u8>>::empty().push(c) =~= seq![c]);
    } else {
        lemma_find_byte(a, SLASH, from);
        let end_a = find_byte(a, SLASH, from);
        assert(end <= a.len());
        assert(end == end_a) by {
            if end < end_a {
                assert(a[end] == s[end]);
            }
            if end_a < end {
                assert(a[end_a] == s[end_a]);
            }
        }
        if end > from {
            assert(s.subrange(from, end) =~= a.subrange(from, end));
            if end < a.len() {
                lemma_components_append(a, c, end + 1);
                assert(seq![a.subrange(from, end)] + components_from(a, end + 1).push(c) =~= (seq![
                    a.subrange(from, end),
                ] + components_from(a, end + 1)).push(c));
            } else {
                assert(components_from(a, end + 1) =~= Seq::<Seq<u8>>::empty());
                assert(seq![a.subrange(from, end)] + tail =~= (seq![a.subrange(from, end)]
                    + Seq::<Seq<u8>>::empty()).push(c));
            }
        } else {
            lemma_components_append(a, c, from + 1);
        }
    }
}

proof fn lemma_components_of_joined(cs: Seq<Seq<u8>>)
    requires
        all_names(cs),
    ensures
        components(joined(cs)) == cs,
    decreases cs.len(),
{
    if cs.len() > 0 {
        assert(all_names(cs.drop_last()));
        assert(is_name(cs[cs.len() - 1]));
        lemma_components_of_joined(cs.drop_last());
        lemma_components_append(joined(cs.drop_last()), cs.last(), 0);
        assert(cs.drop_last().push(cs.last()) =~= cs);
    } else {
        assert(components(joined(cs)) =~= cs);
    }
}

proof fn lemma_reduced_fixed(cs: Seq<Seq<u8>>)
    requires
        forall|i: int| 0 <= i < cs.len() ==> !is_dot(#[trigger] cs[i]) && !is_dot_dot(cs[i]),
    ensures
        reduced(cs) == cs,
    decreases cs.len(),
{
    if cs.len() > 0 {
        lemma_reduced_fixed(cs.drop_last());
        assert(!is_dot(cs[cs.len() - 1]));
        assert(cs.drop_last().push(cs.last()) =~= cs);
    }
}

/// A normal form starts with a slash, names what the path named, holds neither
/// `.` nor `..`, and is its own normal form.
pub proof fn law_canonical(p: Seq<u8>)
    ensures
        canonical(p).len() > 0,
        canonical(p)[0] == SLASH,
        components(canonical(p)) == reduced(components(p)),
        forall|i: int|
            0 <= i < components(canonical(p)).len() ==> !is_dot(
                #[trigger] components(canonical(p))[i],
            ) && !is_dot_dot(components(canonical(p))[i]),
        canonical(canonical(p)) == canonical(p),
{
    lemma_components_are_names(p, 0);
    let st = reduced(components(p));
    lemma_reduced_names(components(p));
    if st.len() == 0 {
        let root = seq![SLASH];
        assert(find_byte(root, SLASH, 0) == 0);
        assert(components_from(root, 1) =~= Seq::<Seq<u8>>::empty());
        assert(components(root) =~= st);
    } else {
        lemma_components_of_joined(st);
        lemma_joined_starts(st);
    }
    lemma_reduced_fixed(st);
}

proof fn lemma_joined_starts(cs: Seq<Seq<u8>>)
    requires
        cs.len() > 0,
    ensures
        joined(cs).len() > 0,
        joined(cs)[0] == SLASH,
    decreases cs.len(),
{
    if cs.len() > 1 {
        lemma_joined_starts(cs.drop_last());
    } else {
        assert(joined(cs.drop_last()) =~= Seq::<u8>::empty());
    }
}

/// Where the last slash is: nothing after it is one.
pub proof fn lemma_last_slash(s: Seq<u8>)
    ensures
        -1 <= last_slash(s) < s.len(),
        last_slash(s) >= 0 ==> s[last_slash(s)] == SLASH,
        forall|i: int| last_slash(s) < i < s.len() ==> s[i] != SLASH,
    decreases s.len(),
{
    if s.len() > 0 && s.last() != SLASH {
        lemma_last_slash(s.drop_last());
        assert forall|i: int| last_slash(s) < i < s.len() implies s[i] != SLASH by {
            if i < s.len() - 1 {
                assert(s.drop_last()[i] == s[i]);
            }
        }
    }
}

/// A name is its own only component.
pub proof fn lemma_components_of_name(c: Seq<u8>)
    requires
        is_name(c),
    ensures
        components(c) == seq![c],
{
    lemma_find_byte(c, SLASH, 0);
    let end = find_byte(c, SLASH, 0);
    assert(end == c.len());
    assert(c.subrange(0, end) =~= c);
    assert(components_from(c, end + 1) =~= Seq::<Seq<u8>>::empty());
    assert(components(c) =~= seq![c]);
}

/// Skipping the first byte shifts the components.
proof fn lemma_components_shift(s: Seq<u8>, from: int)
    requires
        s.len() > 0,
        1 <= from,
    ensures
        components_from(s, from) == components_from(s.drop_first(), from - 1),
    decreases
            (if from < s.len() {
                s.len() - from
            } else {
                0
            }),
{
    let t = s.drop_first();
    if from < s.len() {
        lemma_find_byte(s, SLASH, from);
        lemma_find_byte(t, SLASH, from - 1);
        let end = find_byte(s, SLASH, from);
        let e = find_byte(t, SLASH, from - 1);
        assert(e == end - 1) by {
            if e < end - 1 {
                assert(t[e] == s[e + 1]);
            }
            if end - 1 < e {
                assert(t[end - 1] == s[end]);
            }
        }
        if end > from {
            lemma_components_shift(s, end + 1);
            assert(s.subrange(from, end) =~= t.subrange(from - 1, e));
        } else {
            lemma_components_shift(s, from + 1);
        }
    }
}

/// Leading slashes are no components.
pub proof fn lemma_components_stripped(s: Seq<u8>)
    ensures
        components(stripped(s)) == components(s),
        stripped(s).len() > 0 ==> stripped(s)[0] != SLASH,
        stripped(s).len() <= s.len(),
        forall|b: u8| !s.contains(b) ==> !#[trigger] stripped(s).contains(b),
    decreases s.len(),
{
    if s.len() > 0 && s[0] == SLASH {
        lemma_components_stripped(s.drop_first());
        lemma_components_shift(s, 1);
        assert(find_byte(s, SLASH, 0) == 0);
        assert forall|b: u8| !s.contains(b) implies !#[trigger] stripped(s).contains(b) by {
            if s.drop_first().contains(b) {
                let i = choose|i: int| 0 <= i < s.drop_first().len() && s.drop_first()[i] == b;
                assert(s[i + 1] == b);
            }
        }
    }
}

} // verus!
