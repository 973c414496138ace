//! Starting registered programs.
use crate::arch::riscv64::mmu::{PTE_R, PTE_W};
use crate::arch::riscv64::vspace::{self, create_elf_vspace, map_page, pgd_to_satp};
use crate::bytes::copied;
use crate::cap::cnode;
use crate::cap::{self, Cap, CapType, Rights};
use crate::elf;
use crate::kernel::{Kernel, State};
use crate::linux_compat::exec;
use crate::proc;
use crate::sched;
use crate::syscall::{self, current_cspace, error, user_slice};
use crate::thread::{self, create_elf_thread};
use vstd::prelude::*;

verus! {

/// The UART page, mapped for the kernel only.
pub const UART_PAGE: u64 = 0x1000_0000;

/// The registered image that the caller names.
pub open spec fn named_image(s: State, va: u64, len: u64) -> Result<Seq<u8>, u64> {
    match syscall::caller_bytes(s, va, len) {
        None => Err(error::FAILED_LOOKUP),
        Some(name) => match proc::image_named(s.images, name) {
            None => Err(error::INVALID_ARGUMENT),
            Some(image) => Ok(image),
        },
    }
}

/// Handing the new thread to the caller in `slot` and making it runnable.
pub open spec fn thread_handed(s: State, pa: u64, slot: u64) -> (State, u64) {
    let cs = syscall::caller_cspace(s);
    let c = Cap { cap_type: CapType::Thread, rights: cap::all_rights(), ptr: pa, extra: 0 };
    let (caps, r) = cnode::inserted(s.caps, cs.0, cs.1, slot, c);
    match r {
        Err(_) => (s, error::ILLEGAL_OPERATION),
        Ok(_) => (sched::enqueued(State { caps, ..s }, pa, 0), error::OK),
    }
}

fn hand_thread(k: &mut Kernel, pa: u64, slot: u64) -> (r: u64)
    requires
        old(k).wf(),
    ensures
        final(k).wf(),
        (final(k)@, r) == thread_handed(old(k)@, pa, slot),
{
    let (cs_pa, cs_sb): (u64, u64) = current_cspace(k);
    let c: Cap = Cap::new(CapType::Thread, pa, 0, Rights::all());
    if cnode::insert(&mut k.caps, cs_pa, cs_sb, slot, c).is_err() {
        return error::ILLEGAL_OPERATION;
    }
    sched::enqueue(k, pa, 0);
    error::OK
}

/// The name and the image that the caller asks for.
fn find_image(k: &Kernel, va: u64, len: u64) -> (r: Result<(Vec<u8>, Vec<u8>), u64>)
    requires
        k.wf(),
    ensures
        match named_image(k@, va, len) {
            Err(e) => r is Err && r->Err_0 == e,
            Ok(image) => r matches Ok((name, data)) && data@ == image && Some(name@)
                == syscall::caller_bytes(k@, va, len),
        },
{
    match user_slice(k, va, len) {
        None => Err(error::FAILED_LOOKUP),
        Some(name) => match proc::find_elf(&k.programs, &name) {
            None => Err(error::INVALID_ARGUMENT),
            Some(image) => {
                let data: Vec<u8> = copied(image, 0, image.len());
                assert(data@ =~= image@);
                Ok((name, data))
            },
        },
    }
}

/// A thread for an image in an address space of its own.
pub open spec fn image_started(s: State, image: Seq<u8>) -> (State, Result<u64, u64>) {
    let (s1, pgd) = vspace::elf_vspace_made(s);
    match pgd {
        None => (s1, Err(error::NOT_ENOUGH_MEMORY)),
        Some(pgd) => {
            let (s2, ok) = vspace::mapped(s1, pgd, UART_PAGE, UART_PAGE, PTE_R | PTE_W);
            if !ok {
                (s2, Err(error::NOT_ENOUGH_MEMORY))
            } else {
                let (s3, r) = elf::image_loaded(s2, image, pgd);
                match r {
                    Err(_) => (s3, Err(error::ILLEGAL_OPERATION)),
                    Ok((entry, end)) => {
                        let (s4, t) = thread::elf_thread_made(s3, entry, vspace::satp_of(pgd));
                        match t {
                            None => (s4, Err(error::NOT_ENOUGH_MEMORY)),
                            Some(pa) => (s4, Ok(pa)),
                        }
                    },
                }
            }
        },
    }
}

pub(crate) fn start_image(k: &mut Kernel, image: &[u8]) -> (r: Result<u64, u64>)
    requires
        old(k).wf(),
    ensures
        final(k).wf(),
        (final(k)@, r) == image_started(old(k)@, image@),
{
    let pgd: u64 = match create_elf_vspace(k) {
        Some(p) => p,
        None => {
            return Err(error::NOT_ENOUGH_MEMORY);
        },
    };
    if map_page(k, pgd, UART_PAGE, UART_PAGE, PTE_R | PTE_W).is_err() {
        return Err(error::NOT_ENOUGH_MEMORY);
    }
    let entry: u64 = match elf::load(k, image, pgd) {
        Ok(e) => e,
        Err(_) => {
            return Err(error::ILLEGAL_OPERATION);
        },
    };
    match create_elf_thread(k, entry, pgd_to_satp(pgd)) {
        None => Err(error::NOT_ENOUGH_MEMORY),
        Some(pa) => Ok(pa),
    }
}

/// Spawning a registered program: its thread capability goes to `slot` of the
/// caller's CSpace.
pub open spec fn program_spawned(s: State, va: u64, len: u64, slot: u64) -> (State, u64) {
    match named_image(s, va, len) {
        Err(e) => (s, e),
        Ok(image) => {
            let (s1, r) = image_started(s, image);
            match r {
                Err(e) => (s1, e),
                Ok(pa) => thread_handed(s1, pa, slot),
            }
        },
    }
}

/// Spawn a registered program. Returns an error code.
pub fn dispatch_proc_spawn(k: &mut Kernel, name_va: u64, name_len: u64, dest_slot: u64) -> (r: u64)
    requires
        old(k).wf(),
    ensures
        final(k).wf(),
        (final(k)@, r) == program_spawned(old(k)@, name_va, name_len, dest_slot),
{
    match find_image(k, name_va, name_len) {
        Err(e) => e,
        Ok((_, image)) => match start_image(k, &image) {
            Err(e) => e,
            Ok(pa) => hand_thread(k, pa, dest_slot),
        },
    }
}

/// Spawning a registered program under the Linux ABI, with its name as the only
/// argument.
pub open spec fn linux_program_spawned(s: State, va: u64, len: u64, slot: u64) -> (State, u64) {
    match named_image(s, va, len) {
        Err(e) => (s, e),
        Ok(image) => {
            let args = seq![syscall::caller_bytes(s, va, len)->0];
            let (s1, r) = exec::process_spawned(s, image, args, sched::current(s));
            match r {
                None => (s1, error::NOT_ENOUGH_MEMORY),
                Some(pa) => thread_handed(s1, pa, slot),
            }
        },
    }
}

/// Spawn a registered program under the Linux ABI. Returns an error code.
pub fn dispatch_proc_linux_spawn(k: &mut Kernel, name_va: u64, name_len: u64, dest_slot: u64) -> (r:
    u64)
    requires
        old(k).wf(),
    ensures
        final(k).wf(),
        (final(k)@, r) == linux_program_spawned(old(k)@, name_va, name_len, dest_slot),
{
    match find_image(k, name_va, name_len) {
        Err(e) => e,
        Ok((name, image)) => {
            let mut args: Vec<Vec<u8>> = Vec::new();
            args.push(name);
            assert(exec::texts(args@) =~= seq![syscall::caller_bytes(k@, name_va, name_len)->0]);
            let parent: u64 = sched::current_pa(k);
            match exec::spawn_linux_process(k, &image, &args, parent) {
                None => error::NOT_ENOUGH_MEMORY,
                Some(pa) => hand_thread(k, pa, dest_slot),
            }
        },
    }
}

} // verus!
