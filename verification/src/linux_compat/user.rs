//! Access to the caller's memory.
//!
//! The kernel runs in the address space of the thread that trapped, so it reads
//! and writes user memory at the caller's addresses. An address that is not
//! mapped faults in the kernel, which nothing recovers from.
use crate::kernel::{Kernel, State};
use crate::objects;
use crate::syscall::{self, user_pa};
use vstd::prelude::*;

verus! {

/// The kernel touched an address of the caller that is not mapped.
#[derive(Clone, Copy, Debug, PartialEq, Eq, Structural)]
pub struct PageFault;

/// The caller has `len` bytes mapped at `va`.
pub open spec fn reachable(s: State, va: u64, len: nat) -> bool {
    va + len <= u64::MAX && forall|i: int|
        0 <= i < len ==> (#[trigger] syscall::caller_pa(s, (va + i) as u64)) is Some
}

/// The `len` bytes at the caller's address `va`.
pub open spec fn peeked(s: State, va: u64, len: nat) -> Result<Seq<u8>, PageFault> {
    if reachable(s, va, len) {
        Ok(
            Seq::new(
                len,
                |i: int| objects::at(s.bytes, syscall::caller_pa(s, (va + i) as u64)->0),
            ),
        )
    } else {
        Err(PageFault)
    }
}

/// Storing `data` at the caller's address `va`, which is mapped.
pub open spec fn user_stored(s: State, va: u64, data: Seq<u8>) -> State
    decreases data.len(),
{
    if data.len() == 0 {
        s
    } else {
        let s1 = user_stored(s, va, data.drop_last());
        let pa = syscall::caller_pa(s, (va + data.len() - 1) as u64)->0;
        State { bytes: s1.bytes.insert(pa, data.last()), ..s1 }
    }
}

/// Writing `data` to the caller's address `va`.
pub open spec fn poked(s: State, va: u64, data: Seq<u8>) -> (State, Result<(), PageFault>) {
    if reachable(s, va, data.len()) {
        (user_stored(s, va, data), Ok(()))
    } else {
        (s, Err(PageFault))
    }
}

/// The zero-terminated string at the caller's address `va`; none if the zero is
/// not among the first `max` bytes.
pub open spec fn string_at(s: State, va: u64, max: nat) -> Result<Option<Seq<u8>>, PageFault>
    decreases max,
{
    if max == 0 {
        Ok(None)
    } else {
        match syscall::caller_pa(s, va) {
            None => Err(PageFault),
            Some(pa) => {
                let b = objects::at(s.bytes, pa);
                if b == 0 {
                    Ok(Some(Seq::empty()))
                } else {
                    match string_at(s, va.wrapping_add(1), (max - 1) as nat) {
                        Ok(Some(rest)) => Ok(Some(seq![b] + rest)),
                        Ok(None) => Ok(None),
                        Err(e) => Err(e),
                    }
                }
            },
        }
    }
}

proof fn lemma_stored_keeps_map(s: State, va: u64, data: Seq<u8>)
    ensures
        ({
            let t = user_stored(s, va, data);
            t == (State { bytes: t.bytes, ..s })
        }),
    decreases data.len(),
{
    if data.len() > 0 {
        lemma_stored_keeps_map(s, va, data.drop_last());
    }
}

fn is_reachable(k: &Kernel, va: u64, len: u64) -> (r: bool)
    requires
        k.wf(),
    ensures
        r == reachable(k@, va, len as nat),
{
    if len > u64::MAX - va {
        return false;
    }
    let mut i: u64 = 0;
    while i < len
        invariant
            k.wf(),
            i <= len,
            va + len <= u64::MAX,
            forall|j: int|
                0 <= j < i ==> (#[trigger] syscall::caller_pa(k@, (va + j) as u64)) is Some,
        decreases len - i,
    {
        if user_pa(k, va + i).is_none() {
            assert(syscall::caller_pa(k@, (va + i) as u64) is None);
            return false;
        }
        i += 1;
    }
    true
}

/// Read `len` bytes at the caller's address `va`.
pub fn copy_in(k: &Kernel, va: u64, len: u64) -> (r: Result<Vec<u8>, PageFault>)
    requires
        k.wf(),
    ensures
        match peeked(k@, va, len as nat) {
            Ok(b) => r matches Ok(v) && v@ == b,
            Err(e) => r == Err::<Vec<u8>, PageFault>(e),
        },
{
    if !is_reachable(k, va, len) {
        return Err(PageFault);
    }
    let mut data: Vec<u8> = Vec::new();
    let mut i: u64 = 0;
    let ghost all = Seq::new(
        len as nat,
        |i: int| objects::at(k@.bytes, syscall::caller_pa(k@, (va + i) as u64)->0),
    );
    while i < len
        invariant
            k.wf(),
            i <= len,
            reachable(k@, va, len as nat),
            all == Seq::new(
                len as nat,
                |i: int| objects::at(k@.bytes, syscall::caller_pa(k@, (va + i) as u64)->0),
            ),
            data@ =~= all.take(i as int),
        decreases len - i,
    {
        assert(syscall::caller_pa(k@, (va + i) as u64) is Some);
        match user_pa(k, va + i) {
            Some(pa) => {
                data.push(k.bytes.read(pa));
            },
            None => {
                return Err(PageFault);
            },
        }
        i += 1;
    }
    Ok(data)
}

/// Write `data` to the caller's address `va`.
pub fn copy_out(k: &mut Kernel, va: u64, data: &[u8]) -> (r: Result<(), PageFault>)
    requires
        old(k).wf(),
    ensures
        final(k).wf(),
        (final(k)@, r) == poked(old(k)@, va, data@),
{
    let len: u64 = data.len() as u64;
    if !is_reachable(k, va, len) {
        return Err(PageFault);
    }
    let ghost s = k@;
    let mut i: usize = 0;
    assert(data@.take(0) =~= Seq::<u8>::empty());
    while i < data.len()
        invariant
            k.wf(),
            i <= data@.len(),
            reachable(s, va, data@.len()),
            k@ == user_stored(s, va, data@.take(i as int)),
        decreases data@.len() - i,
    {
        proof {
            lemma_stored_keeps_map(s, va, data@.take(i as int));
            assert(data@.take(i + 1).drop_last() =~= data@.take(i as int));
            assert(syscall::caller_pa(s, (va + i) as u64) is Some);
            assert(syscall::caller_pa(k@, (va + i) as u64) == syscall::caller_pa(
                s,
                (va + i) as u64,
            ));
        }
        match user_pa(k, va + i as u64) {
            Some(pa) => {
                k.bytes.write(pa, data[i]);
            },
            None => {
                return Err(PageFault);
            },
        }
        i += 1;
    }
    assert(data@.take(i as int) =~= data@);
    Ok(())
}

/// Read a zero-terminated string, whose zero must be among the first `max`
/// bytes.
pub fn read_cstr(k: &Kernel, va: u64, max: u64) -> (r: Result<Option<Vec<u8>>, PageFault>)
    requires
        k.wf(),
    ensures
        match string_at(k@, va, max as nat) {
            Err(e) => r == Err::<Option<Vec<u8>>, PageFault>(e),
            Ok(None) => r matches Ok(None),
            Ok(Some(t)) => r matches Ok(Some(v)) && v@ == t && v@.len() < max,
        },
{
    let mut text: Vec<u8> = Vec::new();
    let mut at: u64 = va;
    let mut i: u64 = 0;
    while i < max
        invariant
            k.wf(),
            i <= max,
            text@.len() == i,
            match string_at(k@, at, (max - i) as nat) {
                Err(e) => string_at(k@, va, max as nat) == Err::<Option<Seq<u8>>, PageFault>(e),
                Ok(None) => string_at(k@, va, max as nat) == Ok::<Option<Seq<u8>>, PageFault>(
                    None,
                ),
                Ok(Some(t)) => string_at(k@, va, max as nat) == Ok::<Option<Seq<u8>>, PageFault>(
                    Some(text@ + t),
                ),
            },
        decreases max - i,
    {
        match user_pa(k, at) {
            None => {
                return Err(PageFault);
            },
            Some(pa) => {
                let b: u8 = k.bytes.read(pa);
                if b == 0 {
                    assert(text@ + Seq::<u8>::empty() =~= text@);
                    return Ok(Some(text));
                }
                let ghost before = text@;
                text.push(b);
                proof {
                    match string_at(k@, at.wrapping_add(1), (max - i - 1) as nat) {
                        Ok(Some(t)) => {
                            assert(before + (seq![b] + t) =~= text@ + t);
                        },
                        _ => {},
                    }
                }
                at = at.wrapping_add(1);
            },
        }
        i += 1;
    }
    Ok(None)
}

} // verus!
