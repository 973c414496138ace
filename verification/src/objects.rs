//! Physical memory, one table per kind of kernel object.
//!
//! An object lives at a physical address. Memory where no object of a kind has
//! been written reads as that kind's all-zero object.
use std::collections::HashMap;
use vstd::prelude::*;

verus! {

/// A value whose all-zero bytes are meaningful.
pub trait Zeroed: Sized + Copy {
    spec fn zeroed() -> Self;

    fn zero() -> (r: Self)
        ensures
            r == Self::zeroed(),
    ;
}

impl Zeroed for u8 {
    open spec fn zeroed() -> u8 {
        0
    }

    fn zero() -> (r: u8) {
        0
    }
}

impl Zeroed for u64 {
    open spec fn zeroed() -> u64 {
        0
    }

    fn zero() -> (r: u64) {
        0
    }
}

/// What the table `m` reads at `pa`.
pub open spec fn at<T: Zeroed>(m: Map<u64, T>, pa: u64) -> T {
    if m.contains_key(pa) {
        m[pa]
    } else {
        T::zeroed()
    }
}

/// `m` with everything in `[lo, hi)` back to zero.
pub open spec fn erased<T>(m: Map<u64, T>, lo: int, hi: int) -> Map<u64, T> {
    m.restrict(Set::new(|a: u64| !(lo <= a < hi)))
}

/// The objects of one kind, by physical address.
pub struct Objects<T> {
    pub map: HashMap<u64, T>,
}

impl<T> View for Objects<T> {
    type V = Map<u64, T>;

    open spec fn view(&self) -> Map<u64, T> {
        self.map@
    }
}

impl<T: Zeroed> Objects<T> {
    pub fn new() -> (r: Self)
        ensures
            r@ == Map::<u64, T>::empty(),
    {
        broadcast use vstd::std_specs::hash::group_hash_axioms;

        Objects { map: HashMap::new() }
    }

    pub fn read(&self, pa: u64) -> (r: T)
        ensures
            r == at(self@, pa),
    {
        broadcast use vstd::std_specs::hash::group_hash_axioms;

        match self.map.get(&pa) {
            Some(t) => *t,
            None => T::zero(),
        }
    }

    pub fn write(&mut self, pa: u64, t: T)
        ensures
            final(self)@ == old(self)@.insert(pa, t),
    {
        broadcast use vstd::std_specs::hash::group_hash_axioms;

        self.map.insert(pa, t);
    }

    pub fn erase(&mut self, pa: u64, len: u64)
        requires
            pa + len <= u64::MAX,
        ensures
            final(self)@ == erased(old(self)@, pa as int, pa + len),
    {
        broadcast use vstd::std_specs::hash::group_hash_axioms;

        let mut i: u64 = 0;
        proof {
            assert(self@ =~= erased(old(self)@, pa as int, pa as int));
        }
        while i < len
            invariant
                i <= len,
                pa + len <= u64::MAX,
                self@ == erased(old(self)@, pa as int, pa + i),
            decreases len - i,
        {
            broadcast use vstd::std_specs::hash::group_hash_axioms;

            self.map.remove(&(pa + i));
            i += 1;
            assert(self@ =~= erased(old(self)@, pa as int, pa + i));
        }
    }
}

} // verus!
