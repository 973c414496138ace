//! The kernel as one value.
use crate::cap::endpoint::Endpoint;
use crate::cap::notification::Notification;
use crate::cap::untyped::UntypedHeader;
use crate::cap::Cap;
use crate::console::RxBuf;
use crate::fs::ramfs::{DirEntry, FdTable, Inode};
use crate::mm::buddy::{self, PA_LIMIT};
use crate::mm::slab;
use crate::mm::{self, alloc_page, Mm, MmState};
use crate::objects::{self, Objects};
use crate::proc::{Images, Programs};
use crate::sched::{self, Sched, MAX_HARTS};
use crate::cap::cnode;
use crate::thread::{Tcb, KSTACK_SIZE, MLFQ_LEVELS};
use vstd::prelude::*;

verus! {

/// Everything the kernel knows, as mathematical values.
#[verifier::ext_equal]
pub struct State {
    pub mm: MmState,
    /// Capability slots, by the address of the slot.
    pub caps: Map<u64, Cap>,
    pub tcbs: Map<u64, Tcb>,
    pub endpoints: Map<u64, Endpoint>,
    pub notifications: Map<u64, Notification>,
    pub untypeds: Map<u64, UntypedHeader>,
    /// Page-table entries, by the address of the entry.
    pub ptes: Map<u64, u64>,
    /// Plain memory: user pages, stacks and file data.
    pub bytes: Map<u64, u8>,
    pub inodes: Map<u64, Inode>,
    /// Directory entries, by the address of the entry.
    pub dirents: Map<u64, DirEntry>,
    pub fd_tables: Map<u64, FdTable>,
    pub sched: Sched,
    /// Hart that the kernel is running on.
    pub hart: usize,
    /// All threads ever created, oldest first.
    pub threads: Seq<u64>,
    pub next_pid: u64,
    /// Root CSpace.
    pub root_pa: u64,
    pub root_sb: u64,
    pub boot_satp: u64,
    /// Entry of the boot page table that maps the user mirror.
    pub boot_user_pte: u64,
    /// Root directory.
    pub fs_root: u64,
    pub images: Images,
    /// Received bytes not read yet.
    pub rx: Seq<u8>,
    /// Threads that wait for a byte, linked like a run queue.
    pub rx_head: u64,
    pub rx_tail: u64,
    /// Bytes to transmit.
    pub tx: Seq<u8>,
    /// Interrupt sources to enable or disable.
    pub irq_enables: Seq<(u64, bool)>,
    /// The TLB must be flushed before the next return to user mode.
    pub flush_tlb: bool,
    pub irq_count: u64,
    pub last_irq: u64,
    pub trap_count: u64,
}

pub struct Kernel {
    pub mm: Mm,
    pub caps: Objects<Cap>,
    pub tcbs: Objects<Tcb>,
    pub endpoints: Objects<Endpoint>,
    pub notifications: Objects<Notification>,
    pub untypeds: Objects<UntypedHeader>,
    pub ptes: Objects<u64>,
    pub bytes: Objects<u8>,
    pub inodes: Objects<Inode>,
    pub dirents: Objects<DirEntry>,
    pub fd_tables: Objects<FdTable>,
    pub sched: Sched,
    pub hart: usize,
    pub threads: Vec<u64>,
    pub next_pid: u64,
    pub root_pa: u64,
    pub root_sb: u64,
    pub boot_satp: u64,
    pub boot_user_pte: u64,
    pub fs_root: u64,
    pub programs: Programs,
    pub rx: RxBuf,
    pub rx_head: u64,
    pub rx_tail: u64,
    pub tx: Vec<u8>,
    pub irq_enables: Vec<(u64, bool)>,
    pub flush_tlb: bool,
    pub irq_count: u64,
    pub last_irq: u64,
    pub trap_count: u64,
}

impl View for Kernel {
    type V = State;

    open spec fn view(&self) -> State {
        State {
            mm: self.mm@,
            caps: self.caps@,
            tcbs: self.tcbs@,
            endpoints: self.endpoints@,
            notifications: self.notifications@,
            untypeds: self.untypeds@,
            ptes: self.ptes@,
            bytes: self.bytes@,
            inodes: self.inodes@,
            dirents: self.dirents@,
            fd_tables: self.fd_tables@,
            sched: self.sched,
            hart: self.hart,
            threads: self.threads@,
            next_pid: self.next_pid,
            root_pa: self.root_pa,
            root_sb: self.root_sb,
            boot_satp: self.boot_satp,
            boot_user_pte: self.boot_user_pte,
            fs_root: self.fs_root,
            images: self.programs@,
            rx: self.rx@,
            rx_head: self.rx_head,
            rx_tail: self.rx_tail,
            tx: self.tx@,
            irq_enables: self.irq_enables@,
            flush_tlb: self.flush_tlb,
            irq_count: self.irq_count,
            last_irq: self.last_irq,
            trap_count: self.trap_count,
        }
    }
}

/// The thread at `pa`.
pub open spec fn tcb(s: State, pa: u64) -> Tcb {
    objects::at(s.tcbs, pa)
}

pub open spec fn with_tcb(s: State, pa: u64, t: Tcb) -> State {
    State { tcbs: s.tcbs.insert(pa, t), ..s }
}

/// A thread has a run-queue level, a stack in physical memory and a CSpace of
/// a size that can be counted.
pub open spec fn tcb_ok(t: Tcb) -> bool {
    &&& t.priority < MLFQ_LEVELS
    &&& t.kstack_pa + KSTACK_SIZE <= PA_LIMIT
    &&& t.cspace_sb < 64
}

pub open spec fn tcbs_ok(tcbs: Map<u64, Tcb>) -> bool {
    forall|pa: u64| tcb_ok(#[trigger] objects::at(tcbs, pa))
}

/// Untyped regions lie in physical memory.
pub open spec fn untypeds_ok(untypeds: Map<u64, UntypedHeader>) -> bool {
    forall|pa: u64|
        (#[trigger] objects::at(untypeds, pa)).watermark <= PA_LIMIT && objects::at(
            untypeds,
            pa,
        ).end <= PA_LIMIT
}

/// Storing `data` byte by byte from `pa` on.
pub open spec fn stored(bytes: Map<u64, u8>, pa: u64, data: Seq<u8>) -> Map<u64, u8>
    decreases data.len(),
{
    if data.len() == 0 {
        bytes
    } else {
        stored(bytes, pa, data.drop_last()).insert(
            pa.wrapping_add((data.len() - 1) as u64),
            data.last(),
        )
    }
}

/// What storing bytes leaves at an address.
pub proof fn lemma_stored(m: Map<u64, u8>, pa: u64, data: Seq<u8>, a: u64)
    requires
        pa + data.len() <= 0x1_0000_0000_0000_0000,
    ensures
        objects::at(stored(m, pa, data), a) == (if pa <= a < pa + data.len() {
            data[a - pa]
        } else {
            objects::at(m, a)
        }),
    decreases data.len(),
{
    if data.len() > 0 {
        lemma_stored(m, pa, data.drop_last(), a);
    }
}

/// The `len` bytes from `pa` on.
pub open spec fn loaded(bytes: Map<u64, u8>, pa: u64, len: nat) -> Seq<u8> {
    Seq::new(len, |i: int| objects::at(bytes, pa.wrapping_add(i as u64)))
}

pub open spec fn with_bytes(s: State, pa: u64, data: Seq<u8>) -> State {
    State { bytes: stored(s.bytes, pa, data), ..s }
}

/// Zeroing the memory `[lo, hi)`, whatever it holds.
pub open spec fn zeroed_range(s: State, lo: int, hi: int) -> State {
    State {
        caps: objects::erased(s.caps, lo, hi),
        tcbs: objects::erased(s.tcbs, lo, hi),
        endpoints: objects::erased(s.endpoints, lo, hi),
        notifications: objects::erased(s.notifications, lo, hi),
        untypeds: objects::erased(s.untypeds, lo, hi),
        ptes: objects::erased(s.ptes, lo, hi),
        bytes: objects::erased(s.bytes, lo, hi),
        inodes: objects::erased(s.inodes, lo, hi),
        dirents: objects::erased(s.dirents, lo, hi),
        fd_tables: objects::erased(s.fd_tables, lo, hi),
        ..s
    }
}

/// A kernel with memory and program images, and nothing else.
pub open spec fn new_state(m: MmState, images: Images) -> State {
    State {
        mm: m,
        caps: Map::empty(),
        tcbs: Map::empty(),
        endpoints: Map::empty(),
        notifications: Map::empty(),
        untypeds: Map::empty(),
        ptes: Map::empty(),
        bytes: Map::empty(),
        inodes: Map::empty(),
        dirents: Map::empty(),
        fd_tables: Map::empty(),
        sched: sched::idle_sched(),
        hart: 0,
        threads: Seq::empty(),
        next_pid: 1,
        root_pa: 0,
        root_sb: 0,
        boot_satp: 0,
        boot_user_pte: 0,
        fs_root: 0,
        images,
        rx: Seq::empty(),
        rx_head: 0,
        rx_tail: 0,
        tx: Seq::empty(),
        irq_enables: Seq::empty(),
        flush_tlb: false,
        irq_count: 0,
        last_irq: 0,
        trap_count: 0,
    }
}

impl Kernel {
    pub fn new(mm: Mm, programs: Programs) -> (r: Kernel)
        requires
            mm.wf(),
        ensures
            r.wf(),
            r@ == new_state(mm@, programs@),
    {
        Kernel {
            mm,
            caps: Objects::new(),
            tcbs: Objects::new(),
            endpoints: Objects::new(),
            notifications: Objects::new(),
            untypeds: Objects::new(),
            ptes: Objects::new(),
            bytes: Objects::new(),
            inodes: Objects::new(),
            dirents: Objects::new(),
            fd_tables: Objects::new(),
            sched: Sched::new(),
            hart: 0,
            threads: Vec::new(),
            next_pid: 1,
            root_pa: 0,
            root_sb: 0,
            boot_satp: 0,
            boot_user_pte: 0,
            fs_root: 0,
            programs,
            rx: RxBuf::new(),
            rx_head: 0,
            rx_tail: 0,
            tx: Vec::new(),
            irq_enables: Vec::new(),
            flush_tlb: false,
            irq_count: 0,
            last_irq: 0,
            trap_count: 0,
        }
    }

    pub open spec fn wf(&self) -> bool {
        &&& self.mm.wf()
        &&& self.rx.wf()
        &&& self.hart < MAX_HARTS
        &&& tcbs_ok(self.tcbs@)
        &&& cnode::caps_ok(self.caps@)
        &&& untypeds_ok(self.untypeds@)
        &&& self.root_sb < 64
    }

    pub fn tcb(&self, pa: u64) -> (r: Tcb)
        requires
            self.wf(),
        ensures
            r == tcb(self@, pa),
            tcb_ok(r),
    {
        self.tcbs.read(pa)
    }

    pub fn set_tcb(&mut self, pa: u64, t: Tcb)
        requires
            old(self).wf(),
            tcb_ok(t),
        ensures
            final(self).wf(),
            final(self)@ == with_tcb(old(self)@, pa, t),
    {
        self.tcbs.write(pa, t);
        proof {
            assert forall|p: u64| tcb_ok(#[trigger] objects::at(self.tcbs@, p)) by {
                assert(tcb_ok(objects::at(old(self).tcbs@, p)));
            }
        }
    }

    pub fn set_untyped(&mut self, pa: u64, h: UntypedHeader)
        requires
            old(self).wf(),
            h.watermark <= PA_LIMIT,
            h.end <= PA_LIMIT,
        ensures
            final(self).wf(),
            final(self)@ == (State {
                untypeds: old(self)@.untypeds.insert(pa, h),
                ..old(self)@
            }),
    {
        self.untypeds.write(pa, h);
        proof {
            assert forall|p: u64|
                (#[trigger] objects::at(self.untypeds@, p)).watermark <= PA_LIMIT && objects::at(
                    self.untypeds@,
                    p,
                ).end <= PA_LIMIT by {
                assert(objects::at(old(self).untypeds@, p).watermark <= PA_LIMIT);
            }
        }
    }

    /// Write `data` to plain memory at `pa`.
    pub fn write_bytes(&mut self, pa: u64, data: &[u8])
        requires
            old(self).wf(),
        ensures
            final(self).wf(),
            final(self)@ == with_bytes(old(self)@, pa, data@),
    {
        let mut i: usize = 0;
        assert(data@.take(0) =~= Seq::<u8>::empty());
        while i < data.len()
            invariant
                i <= data@.len(),
                self.wf(),
                self@ == with_bytes(old(self)@, pa, data@.take(i as int)),
            decreases data@.len() - i,
        {
            assert(data@.take(i + 1).drop_last() =~= data@.take(i as int));
            self.bytes.write(pa.wrapping_add(i as u64), data[i]);
            i += 1;
        }
        assert(data@.take(i as int) =~= data@);
    }

    /// Read `len` bytes of plain memory at `pa`.
    pub fn read_bytes(&self, pa: u64, len: u64) -> (r: Vec<u8>)
        ensures
            r@ == loaded(self@.bytes, pa, len as nat),
    {
        let mut r: Vec<u8> = Vec::new();
        let mut i: u64 = 0;
        while i < len
            invariant
                i <= len,
                r@ =~= loaded(self@.bytes, pa, i as nat),
            decreases len - i,
        {
            r.push(self.bytes.read(pa.wrapping_add(i)));
            i += 1;
        }
        r
    }

    /// Zero `len` bytes of memory at `pa`.
    pub fn zero_range(&mut self, pa: u64, len: u64)
        requires
            old(self).wf(),
            pa + len <= u64::MAX,
        ensures
            final(self).wf(),
            final(self)@ == zeroed_range(old(self)@, pa as int, pa + len),
    {
        self.caps.erase(pa, len);
        self.tcbs.erase(pa, len);
        self.endpoints.erase(pa, len);
        self.notifications.erase(pa, len);
        self.untypeds.erase(pa, len);
        self.ptes.erase(pa, len);
        self.bytes.erase(pa, len);
        self.inodes.erase(pa, len);
        self.dirents.erase(pa, len);
        self.fd_tables.erase(pa, len);
        proof {
            assert forall|p: u64| tcb_ok(#[trigger] objects::at(self.tcbs@, p)) by {
                assert(tcb_ok(objects::at(old(self).tcbs@, p)));
            }
            assert forall|p: u64|
                (#[trigger] objects::at(self.untypeds@, p)).watermark <= PA_LIMIT && objects::at(
                    self.untypeds@,
                    p,
                ).end <= PA_LIMIT by {
                assert(objects::at(old(self).untypeds@, p).watermark <= PA_LIMIT);
            }
            assert forall|p: u64| cnode::cap_ok(#[trigger] objects::at(self.caps@, p)) by {
                assert(cnode::cap_ok(objects::at(old(self).caps@, p)));
            }
        }
    }
}

/// Taking a page and zeroing it.
pub open spec fn page_made(s: State) -> (State, Option<u64>) {
    let (m, page) = mm::pages_taken(s.mm, 0);
    match page {
        None => (s, None),
        Some(pa) => (zeroed_range(State { mm: m, ..s }, pa as int, pa + 4096), Some(pa)),
    }
}

/// The page at `pa` holds no free memory.
pub open spec fn page_in_use(s: State, pa: u64) -> bool {
    forall|addr: int| pa <= addr < pa + 4096 ==> !#[trigger] buddy::is_free(s.mm.lists, addr)
}

/// A page that is taken was free, lies apart from all other free memory, and is
/// a whole page.
pub proof fn lemma_page_made(s: State)
    requires
        buddy::lists_ok(s.mm.lists),
    ensures
        page_made(s) matches (s1, Some(pa)) ==> {
            &&& buddy::lists_ok(s1.mm.lists)
            &&& 0 < pa
            &&& pa % 4096 == 0
            &&& pa + 4096 <= PA_LIMIT
            &&& page_in_use(s1, pa)
            &&& forall|addr: int| #[trigger]
                buddy::is_free(s.mm.lists, addr) <==> buddy::is_free(s1.mm.lists, addr) || pa
                    <= addr < pa + 4096
            &&& forall|addr: int| #[trigger]
                buddy::is_free(s1.mm.lists, addr) ==> buddy::is_free(s.mm.lists, addr)
        },
{
    let l = s.mm.lists;
    let found = buddy::first_fit(l, 0);
    buddy::lemma_first_fit(l, 0);
    if found <= buddy::MAX_ORDER {
        let pa = l[found as int].last() as int;
        buddy::lemma_split(l, 0, found);
        let m = buddy::split_lists(l, 0, found);
        assert(buddy::block_bytes(0) == 4096);
        assert forall|addr: int| pa <= addr < pa + 4096 implies !#[trigger] buddy::is_free(
            m,
            addr,
        ) by {
            if buddy::is_free(m, addr) {
                let (o, i) = choose|o: int, i: int| buddy::covers(m, o, i, addr);
                assert(buddy::listed(m, o, i));
                assert(buddy::disjoint(m[o][i] as int, o as nat, pa, 0));
            }
        }
        assert forall|addr: int| #[trigger] buddy::is_free(l, addr) <==> buddy::is_free(m, addr)
            || pa <= addr < pa + 4096 by {
            assert(buddy::in_block(pa, 0, addr) <==> pa <= addr < pa + 4096);
        }
    }
}

/// Allocate a zeroed page.
pub fn fresh_page(k: &mut Kernel) -> (r: Option<u64>)
    requires
        old(k).wf(),
    ensures
        final(k).wf(),
        (final(k)@, r) == page_made(old(k)@),
        r matches Some(pa) ==> 0 < pa && pa % 4096 == 0 && pa + 4096 <= PA_LIMIT,
{
    match alloc_page(&mut k.mm) {
        None => None,
        Some(pa) => {
            k.zero_range(pa, 4096);
            Some(pa)
        },
    }
}

/// Taking a slab cell for `size` bytes and zeroing it.
pub open spec fn cell_made(s: State, size: int) -> (State, Option<u64>) {
    let (m, cell) = mm::cell_taken(s.mm, size);
    match cell {
        None => (s, None),
        Some(pa) => (
            zeroed_range(
                State { mm: m, ..s },
                pa as int,
                pa + slab::cell_bytes(slab::class_for(size)->0),
            ),
            Some(pa),
        ),
    }
}

/// Returning a slab cell for `size` bytes.
pub open spec fn cell_freed(s: State, pa: u64, size: int) -> State {
    State { mm: mm::cell_returned(s.mm, pa, size), ..s }
}

} // verus!
