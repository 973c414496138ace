//! The device tree blob that firmware hands to the kernel.
//!
//! The memory regions are read by the `fdt` crate, which panics on a blob that
//! it cannot follow. A blob is therefore checked first: the header, the
//! structure of the tree, and that the memory node is there with addresses and
//! sizes of at most two cells.
use crate::path::{self, position};
use vstd::prelude::*;
use vstd::utf8;

verus! {

pub const FDT_MAGIC: u32 = 0xd00d_feed;

/// Bytes of the header.
pub const HEADER_BYTES: usize = 40;

/// Tokens of the structure block.
pub const BEGIN_NODE: u32 = 1;

pub const END_NODE: u32 = 2;

pub const PROP: u32 = 3;

pub const NOP: u32 = 4;

/// Nodes nest at most this deep. Skipping a node recurses, and deeper nesting
/// could exhaust the stack.
pub const MAX_DEPTH: usize = 1024;

pub const AT_SIGN: u8 = 64;

/// The bytes of "memory".
pub open spec fn memory_name() -> Seq<u8> {
    seq![109u8, 101, 109, 111, 114, 121]
}

/// The bytes of "reg".
pub open spec fn reg_name() -> Seq<u8> {
    seq![114u8, 101, 103]
}

/// The bytes of "#address-cells".
pub open spec fn address_cells_name() -> Seq<u8> {
    seq![35u8, 97, 100, 100, 114, 101, 115, 115, 45, 99, 101, 108, 108, 115]
}

/// The bytes of "#size-cells".
pub open spec fn size_cells_name() -> Seq<u8> {
    seq![35u8, 115, 105, 122, 101, 45, 99, 101, 108, 108, 115]
}

/// The big-endian 32-bit number at `at`.
pub open spec fn be32(d: Seq<u8>, at: int) -> u32 {
    (d[at] * 0x100_0000 + d[at + 1] * 0x1_0000 + d[at + 2] * 0x100 + d[at + 3]) as u32
}

/// `n` rounded up to a multiple of 4.
pub open spec fn round4(n: int) -> int {
    (n + 3) / 4 * 4
}

/// The token at `at`, if there is one.
pub open spec fn token(d: Seq<u8>, at: int) -> Option<u32> {
    if 0 <= at && at + 4 <= d.len() {
        Some(be32(d, at))
    } else {
        None
    }
}

/// The zero-terminated UTF-8 string at `at`.
pub open spec fn string_in(d: Seq<u8>, at: int) -> Option<Seq<u8>> {
    if 0 <= at <= d.len() {
        let end = path::find_byte(d, 0, at);
        if end < d.len() && utf8::valid_utf8(d.subrange(at, end)) {
            Some(d.subrange(at, end))
        } else {
            None
        }
    } else {
        None
    }
}

/// The property at `at`: its name, its value and where it ends, padding
/// included as far as the block goes.
pub open spec fn prop_at(st: Seq<u8>, strs: Seq<u8>, at: int) -> Option<(Seq<u8>, Seq<u8>, int)> {
    if token(st, at) == Some(PROP) && at + 12 <= st.len() {
        let len = be32(st, at + 4) as int;
        let padded = at + 12 + round4(len);
        let end = if padded <= st.len() {
            padded
        } else {
            st.len() as int
        };
        match string_in(strs, be32(st, at + 8) as int) {
            None => None,
            Some(name) => if at + 12 + len <= st.len() {
                Some((name, st.subrange(at + 12, at + 12 + len), end))
            } else {
                None
            },
        }
    } else {
        None
    }
}

/// The name of the node at `at`, and where its properties start.
pub open spec fn node_at(st: Seq<u8>, at: int) -> Option<(Seq<u8>, int)> {
    if token(st, at) == Some(BEGIN_NODE) {
        match string_in(st, at + 4) {
            None => None,
            Some(name) => {
                let end = at + 4 + round4(name.len() as int + 1);
                if end <= st.len() {
                    Some((name, end))
                } else {
                    None
                }
            },
        }
    } else {
        None
    }
}

/// Where the properties from `at` on end.
pub open spec fn props_end(st: Seq<u8>, strs: Seq<u8>, at: int) -> Option<int>
    decreases st.len() - at,
{
    match token(st, at) {
        None => None,
        Some(t) => if t == PROP {
            match prop_at(st, strs, at) {
                None => None,
                Some((_, _, end)) => props_end(st, strs, end),
            }
        } else {
            Some(at)
        },
    }
}

/// Where the no-op tokens from `at` on end.
pub open spec fn nops_end(st: Seq<u8>, at: int) -> int
    decreases st.len() - at,
{
    if token(st, at) == Some(NOP) {
        nops_end(st, at + 4)
    } else {
        at
    }
}

/// Where the node at `at` ends.
pub open spec fn node_end(st: Seq<u8>, strs: Seq<u8>, at: int, depth: nat) -> Option<int>
    decreases depth, st.len() - at, 0nat,
{
    if depth == 0 {
        None
    } else {
        match node_at(st, at) {
            None => None,
            Some((_, start)) => match props_end(st, strs, start) {
                None => None,
                Some(kids) => match nodes_end(st, strs, kids, (depth - 1) as nat) {
                    None => None,
                    Some(after) => {
                        let end = nops_end(st, after);
                        if token(st, end) == Some(END_NODE) {
                            Some(end + 4)
                        } else {
                            None
                        }
                    },
                },
            },
        }
    }
}

/// Where the nodes from `at` on end.
pub open spec fn nodes_end(st: Seq<u8>, strs: Seq<u8>, at: int, depth: nat) -> Option<int>
    decreases depth, st.len() - at, 1nat,
{
    match token(st, at) {
        None => None,
        Some(t) => if t == BEGIN_NODE {
            match node_end(st, strs, at, depth) {
                None => None,
                Some(end) => if at < end <= st.len() {
                    nodes_end(st, strs, end, depth)
                } else {
                    None
                },
            }
        } else {
            Some(at)
        },
    }
}

/// A node name without its address part.
pub open spec fn base_name(name: Seq<u8>) -> Seq<u8> {
    name.take(path::find_byte(name, AT_SIGN, 0))
}

/// Where the properties of the first memory node from `at` on start.
pub open spec fn memory_at(st: Seq<u8>, strs: Seq<u8>, at: int) -> Option<int>
    decreases st.len() - at,
{
    match node_at(st, at) {
        None => None,
        Some((name, start)) => if base_name(name) == memory_name() {
            Some(start)
        } else {
            match node_end(st, strs, at, MAX_DEPTH as nat) {
                None => None,
                Some(end) => if at < end <= st.len() {
                    memory_at(st, strs, end)
                } else {
                    None
                },
            }
        },
    }
}

/// The cell count that the properties from `at` on give under `name`: `n`
/// unless a property overrides it.
pub open spec fn cells(st: Seq<u8>, strs: Seq<u8>, at: int, name: Seq<u8>, n: u32) -> Option<u32>
    decreases st.len() - at,
{
    if token(st, at) == Some(PROP) {
        match prop_at(st, strs, at) {
            None => None,
            Some((key, value, end)) => if key == name {
                if value.len() >= 4 {
                    cells(st, strs, end, name, be32(value, 0))
                } else {
                    None
                }
            } else {
                cells(st, strs, end, name, n)
            },
        }
    } else {
        Some(n)
    }
}

/// The value of the first property "reg" from `at` on.
pub open spec fn reg_at(st: Seq<u8>, strs: Seq<u8>, at: int) -> Option<Seq<u8>>
    decreases st.len() - at,
{
    if token(st, at) == Some(NOP) {
        reg_at(st, strs, at + 4)
    } else {
        match prop_at(st, strs, at) {
            None => None,
            Some((key, value, end)) => if key == reg_name() {
                Some(value)
            } else {
                reg_at(st, strs, end)
            },
        }
    }
}

/// The memory node of a tree: the cells of an address, those of a size, and the
/// value of its property "reg".
pub open spec fn tree_memory(st: Seq<u8>, strs: Seq<u8>) -> Option<(u32, u32, Seq<u8>)> {
    match node_at(st, nops_end(st, 0)) {
        None => None,
        Some((name, start)) => {
            let props = nops_end(st, start);
            match (
                cells(st, strs, props, address_cells_name(), 2),
                cells(st, strs, props, size_cells_name(), 1),
                props_end(st, strs, props),
            ) {
                (Some(a), Some(c), Some(kids)) => if base_name(name).len() > 0 || a > 2 || c > 2 {
                    None
                } else {
                    match memory_at(st, strs, kids) {
                        None => None,
                        Some(mem) => match reg_at(st, strs, mem) {
                            None => None,
                            Some(reg) => Some((a, c, reg)),
                        },
                    }
                },
                _ => None,
            }
        },
    }
}

/// The big-endian number of one or two cells at `at`, as a machine word.
pub open spec fn number_at(d: Seq<u8>, at: int, cells: u32) -> u64 {
    if cells == 1 {
        be32(d, at) as u64
    } else {
        ((be32(d, at) * 0x1_0000_0000 + be32(d, at + 4)) as u64) as usize as u64
    }
}

/// The regions that the bytes of a property "reg" list: an address of `a` cells
/// each, and a size of `c` cells where `c` is not 0.
pub open spec fn regions_in(reg: Seq<u8>, a: u32, c: u32) -> Seq<(u64, Option<u64>)>
    decreases reg.len(),
{
    let step = 4 * (a + c);
    if a == 0 || reg.len() < step {
        Seq::empty()
    } else {
        let size = if c == 0 {
            None
        } else {
            Some(number_at(reg, 4 * a, c))
        };
        seq![(number_at(reg, 0, a), size)] + regions_in(reg.skip(step), a, c)
    }
}

/// The block of `d` that the header fields at `off` and `len` delimit.
pub open spec fn block(d: Seq<u8>, off: int, len: int) -> Option<Seq<u8>> {
    let lo = be32(d, off) as int;
    let hi = lo + be32(d, len);
    if hi <= d.len() {
        Some(d.subrange(lo, hi))
    } else {
        None
    }
}

/// The memory node of a device tree blob.
pub open spec fn blob_memory(d: Seq<u8>) -> Option<(u32, u32, Seq<u8>)> {
    if d.len() < HEADER_BYTES || be32(d, 0) != FDT_MAGIC || be32(d, 4) > d.len() {
        None
    } else {
        match (block(d, 8, 36), block(d, 12, 32)) {
            (Some(st), Some(strs)) => tree_memory(st, strs),
            _ => None,
        }
    }
}

/// The blob is a device tree whose memory regions can be read.
pub open spec fn readable(d: Seq<u8>) -> bool {
    blob_memory(d) is Some
}

/// The memory regions of a blob: the start of each, and its size where the tree
/// gives one.
pub open spec fn blob_regions(d: Seq<u8>) -> Seq<(u64, Option<u64>)> {
    match blob_memory(d) {
        None => Seq::empty(),
        Some((a, c, reg)) => regions_in(reg, a, c),
    }
}

fn read_be32(d: &[u8], at: usize) -> (r: u32)
    requires
        at + 4 <= d@.len(),
    ensures
        r == be32(d@, at as int),
{
    assert(d.len() <= usize::MAX);
    d[at] as u32 * 0x100_0000 + d[at + 1] as u32 * 0x1_0000 + d[at + 2] as u32 * 0x100 + d[at
        + 3] as u32
}

fn read_token(d: &[u8], at: usize) -> (r: Option<u32>)
    ensures
        r == token(d@, at as int),
{
    if at <= d.len() && d.len() - at >= 4 {
        Some(read_be32(d, at))
    } else {
        None
    }
}

/// Bytes of the UTF-8 scalar at `at`, 0 where there is none before `end`.
fn scalar_len(d: &[u8], at: usize, end: usize) -> (r: usize)
    requires
        at < end <= d@.len(),
    ensures
        ({
            let rest = d@.subrange(at as int, end as int);
            if utf8::valid_first_scalar(rest) {
                r == utf8::length_of_first_scalar(rest) && 0 < r <= end - at
            } else {
                r == 0
            }
        }),
{
    let ghost rest = d@.subrange(at as int, end as int);
    let n: usize = end - at;
    let b0: u8 = d[at];
    if b0 <= 0x7f {
        assert(b0 & 0x7f <= 0x7f) by (bit_vector);
        return 1;
    }
    if n < 2 || d[at + 1] < 0x80 || d[at + 1] > 0xbf {
        return 0;
    }
    let b1: u8 = d[at + 1];
    if 0xc0 <= b0 && b0 <= 0xdf {
        let p: u32 = (((b0 & 0x1f) as u32) << 6) | ((b1 & 0x3f) as u32);
        assert(p <= 0x7ff) by (bit_vector)
            requires
                p == (((b0 & 0x1f) as u32) << 6) | ((b1 & 0x3f) as u32),
        ;
        return if p >= 0x80 {
            2
        } else {
            0
        };
    }
    if n < 3 || d[at + 2] < 0x80 || d[at + 2] > 0xbf {
        return 0;
    }
    let b2: u8 = d[at + 2];
    if 0xe0 <= b0 && b0 <= 0xef {
        let p: u32 = (((b0 & 0x0f) as u32) << 12) | (((b1 & 0x3f) as u32) << 6) | ((b2
            & 0x3f) as u32);
        return if p >= 0x800 && !(p >= 0xd800 && p <= 0xdfff) {
            3
        } else {
            0
        };
    }
    if n < 4 || d[at + 3] < 0x80 || d[at + 3] > 0xbf || b0 < 0xf0 || b0 > 0xf7 {
        return 0;
    }
    let b3: u8 = d[at + 3];
    let p: u32 = (((b0 & 0x07) as u32) << 18) | (((b1 & 0x3f) as u32) << 12) | (((b2
        & 0x3f) as u32) << 6) | ((b3 & 0x3f) as u32);
    if p >= 0x1_0000 && p <= 0x10_ffff {
        4
    } else {
        0
    }
}

/// Whether the bytes from `at` up to `end` are UTF-8.
fn is_utf8(d: &[u8], at: usize, end: usize) -> (r: bool)
    requires
        at <= end <= d@.len(),
    ensures
        r == utf8::valid_utf8(d@.subrange(at as int, end as int)),
{
    let mut i: usize = at;
    while i < end
        invariant
            at <= i <= end <= d@.len(),
            utf8::valid_utf8(d@.subrange(at as int, end as int)) == utf8::valid_utf8(
                d@.subrange(i as int, end as int),
            ),
        decreases end - i,
    {
        let n: usize = scalar_len(d, i, end);
        if n == 0 {
            return false;
        }
        assert(utf8::pop_first_scalar(d@.subrange(i as int, end as int)) =~= d@.subrange(
            i + n,
            end as int,
        ));
        i += n;
    }
    true
}

/// End of the string at `at`.
fn read_string(d: &[u8], at: usize) -> (r: Option<usize>)
    ensures
        match string_in(d@, at as int) {
            None => r is None,
            Some(s) => r matches Some(end) && at <= end < d@.len() && s == d@.subrange(
                at as int,
                end as int,
            ),
        },
{
    if at > d.len() {
        return None;
    }
    let end: usize = position(d, 0, at);
    if end >= d.len() || !is_utf8(d, at, end) {
        return None;
    }
    Some(end)
}

/// A property in the structure block.
struct Property {
    name: usize,
    name_end: usize,
    value: usize,
    len: usize,
    end: usize,
}

fn read_prop(st: &[u8], strs: &[u8], at: usize) -> (r: Option<Property>)
    ensures
        match prop_at(st@, strs@, at as int) {
            None => r is None,
            Some((name, value, end)) => {
                &&& r is Some
                &&& r->0.name <= r->0.name_end <= strs@.len()
                &&& name == strs@.subrange(r->0.name as int, r->0.name_end as int)
                &&& r->0.value + r->0.len <= st@.len()
                &&& value == st@.subrange(r->0.value as int, r->0.value + r->0.len)
                &&& r->0.end == end
                &&& at < end <= st@.len()
            },
        },
{
    if read_token(st, at) != Some(PROP) || st.len() - at < 12 {
        return None;
    }
    assert(st.len() <= usize::MAX);
    let len: usize = read_be32(st, at + 4) as usize;
    let name: usize = read_be32(st, at + 8) as usize;
    let name_end: usize = match read_string(strs, name) {
        Some(e) => e,
        None => {
            return None;
        },
    };
    let room: usize = st.len() - at - 12;
    if len > room {
        return None;
    }
    let pad: usize = if len % 4 == 0 {
        0
    } else {
        4 - len % 4
    };
    assert(round4(len as int) == len + pad);
    let end: usize = if pad > room - len {
        st.len()
    } else {
        at + 12 + len + pad
    };
    Some(Property { name, name_end, value: at + 12, len, end })
}

/// Name end and start of the properties of the node at `at`.
fn read_node(st: &[u8], at: usize) -> (r: Option<(usize, usize)>)
    ensures
        match node_at(st@, at as int) {
            None => r is None,
            Some((name, start)) => r matches Some((e, p)) && at + 4 <= e <= st@.len() && name
                == st@.subrange(at + 4, e as int) && p == start && at < p <= st@.len(),
        },
{
    if read_token(st, at) != Some(BEGIN_NODE) {
        return None;
    }
    assert(st.len() <= usize::MAX);
    let end: usize = match read_string(st, at + 4) {
        Some(e) => e,
        None => {
            return None;
        },
    };
    let n: usize = end - (at + 4) + 1;
    let pad: usize = if n % 4 == 0 {
        0
    } else {
        4 - n % 4
    };
    assert(round4(n as int) == n + pad);
    if pad > st.len() - (at + 4) - n {
        return None;
    }
    Some((end, at + 4 + n + pad))
}

fn skip_props(st: &[u8], strs: &[u8], at: usize) -> (r: Option<usize>)
    requires
        at <= st@.len(),
    ensures
        match props_end(st@, strs@, at as int) {
            None => r is None,
            Some(e) => r matches Some(x) && x == e && at <= x <= st@.len(),
        },
{
    let mut i: usize = at;
    loop
        invariant
            at <= i <= st@.len(),
            props_end(st@, strs@, at as int) == props_end(st@, strs@, i as int),
        decreases st@.len() - i,
    {
        match read_token(st, i) {
            None => {
                return None;
            },
            Some(t) => {
                if t != PROP {
                    return Some(i);
                }
            },
        }
        match read_prop(st, strs, i) {
            None => {
                return None;
            },
            Some(p) => {
                i = p.end;
            },
        }
    }
}

fn skip_nops(st: &[u8], at: usize) -> (r: usize)
    requires
        at <= st@.len(),
    ensures
        r == nops_end(st@, at as int),
        at <= r <= st@.len(),
{
    let mut i: usize = at;
    while read_token(st, i) == Some(NOP)
        invariant
            at <= i <= st@.len(),
            nops_end(st@, at as int) == nops_end(st@, i as int),
        decreases st@.len() - i,
    {
        assert(st.len() <= usize::MAX);
        i += 4;
    }
    i
}

fn skip_node(st: &[u8], strs: &[u8], at: usize, depth: usize) -> (r: Option<usize>)
    requires
        at <= st@.len(),
    ensures
        match node_end(st@, strs@, at as int, depth as nat) {
            None => r is None,
            Some(e) => r matches Some(x) && x == e && at < x <= st@.len(),
        },
    decreases depth, 0nat,
{
    if depth == 0 {
        return None;
    }
    let start: usize = match read_node(st, at) {
        Some((_, p)) => p,
        None => {
            return None;
        },
    };
    let kids: usize = match skip_props(st, strs, start) {
        Some(p) => p,
        None => {
            return None;
        },
    };
    let after: usize = match skip_nodes(st, strs, kids, depth - 1) {
        Some(p) => p,
        None => {
            return None;
        },
    };
    let end: usize = skip_nops(st, after);
    if read_token(st, end) != Some(END_NODE) {
        return None;
    }
    assert(st.len() <= usize::MAX);
    Some(end + 4)
}

fn skip_nodes(st: &[u8], strs: &[u8], at: usize, depth: usize) -> (r: Option<usize>)
    requires
        at <= st@.len(),
    ensures
        match nodes_end(st@, strs@, at as int, depth as nat) {
            None => r is None,
            Some(e) => r matches Some(x) && x == e && at <= x <= st@.len(),
        },
    decreases depth, 1nat,
{
    let mut i: usize = at;
    loop
        invariant
            at <= i <= st@.len(),
            nodes_end(st@, strs@, at as int, depth as nat) == nodes_end(
                st@,
                strs@,
                i as int,
                depth as nat,
            ),
        decreases st@.len() - i,
    {
        match read_token(st, i) {
            None => {
                return None;
            },
            Some(t) => {
                if t != BEGIN_NODE {
                    return Some(i);
                }
            },
        }
        match skip_node(st, strs, i, depth) {
            None => {
                return None;
            },
            Some(e) => {
                i = e;
            },
        }
    }
}

fn is_memory(name: &[u8]) -> (r: bool)
    ensures
        r == (base_name(name@) == memory_name()),
{
    let memory: [u8; 6] = [109, 101, 109, 111, 114, 121];
    assert(memory@ =~= memory_name());
    let end: usize = position(name, AT_SIGN, 0);
    let base: Vec<u8> = crate::bytes::copied(name, 0, end);
    assert(base@ =~= base_name(name@));
    crate::bytes::same_bytes(&base, &memory)
}

fn find_memory(st: &[u8], strs: &[u8], at: usize) -> (r: Option<usize>)
    requires
        at <= st@.len(),
    ensures
        match memory_at(st@, strs@, at as int) {
            None => r is None,
            Some(e) => r matches Some(x) && x == e && x <= st@.len(),
        },
{
    let mut i: usize = at;
    loop
        invariant
            at <= i <= st@.len(),
            memory_at(st@, strs@, at as int) == memory_at(st@, strs@, i as int),
        decreases st@.len() - i,
    {
        match read_node(st, i) {
            None => {
                return None;
            },
            Some((name_end, start)) => {
                let name: Vec<u8> = crate::bytes::copied(st, i + 4, name_end);
                if is_memory(&name) {
                    return Some(start);
                }
            },
        }
        match skip_node(st, strs, i, MAX_DEPTH) {
            None => {
                return None;
            },
            Some(e) => {
                i = e;
            },
        }
    }
}

fn read_cells(st: &[u8], strs: &[u8], at: usize, name: &[u8], default: u32) -> (r: Option<u32>)
    requires
        at <= st@.len(),
    ensures
        r == cells(st@, strs@, at as int, name@, default),
{
    let mut i: usize = at;
    let mut n: u32 = default;
    while read_token(st, i) == Some(PROP)
        invariant
            at <= i <= st@.len(),
            cells(st@, strs@, at as int, name@, default) == cells(
                st@,
                strs@,
                i as int,
                name@,
                n,
            ),
        decreases st@.len() - i,
    {
        match read_prop(st, strs, i) {
            None => {
                return None;
            },
            Some(p) => {
                let key: Vec<u8> = crate::bytes::copied(strs, p.name, p.name_end);
                if crate::bytes::same_bytes(&key, name) {
                    if p.len < 4 {
                        return None;
                    }
                    n = read_be32(st, p.value);
                    proof {
                        let v = st@.subrange(p.value as int, p.value + p.len);
                        assert(v[0] == st@[p.value as int] && v[1] == st@[p.value + 1] && v[2]
                            == st@[p.value + 2] && v[3] == st@[p.value + 3]);
                    }
                }
                i = p.end;
            },
        }
    }
    Some(n)
}

fn find_reg(st: &[u8], strs: &[u8], at: usize) -> (r: bool)
    requires
        at <= st@.len(),
    ensures
        r == (reg_at(st@, strs@, at as int) is Some),
{
    let reg: [u8; 3] = [114, 101, 103];
    assert(reg@ =~= reg_name());
    let mut i: usize = at;
    loop
        invariant
            at <= i <= st@.len(),
            reg@ == reg_name(),
            reg_at(st@, strs@, at as int) == reg_at(st@, strs@, i as int),
        decreases st@.len() - i,
    {
        if read_token(st, i) == Some(NOP) {
            assert(st.len() <= usize::MAX);
            i += 4;
            continue ;
        }
        match read_prop(st, strs, i) {
            None => {
                return false;
            },
            Some(p) => {
                let key: Vec<u8> = crate::bytes::copied(strs, p.name, p.name_end);
                if crate::bytes::same_bytes(&key, &reg) {
                    return true;
                }
                i = p.end;
            },
        }
    }
}

fn check_tree(st: &[u8], strs: &[u8]) -> (r: bool)
    ensures
        r == (tree_memory(st@, strs@) is Some),
{
    let address_cells: [u8; 14] = [
        35, 97, 100, 100, 114, 101, 115, 115, 45, 99, 101, 108, 108, 115,
    ];
    let size_cells: [u8; 11] = [35, 115, 105, 122, 101, 45, 99, 101, 108, 108, 115];
    assert(address_cells@ =~= address_cells_name());
    assert(size_cells@ =~= size_cells_name());
    let root: usize = skip_nops(st, 0);
    let (name_end, start): (usize, usize) = match read_node(st, root) {
        Some(p) => p,
        None => {
            return false;
        },
    };
    let props: usize = skip_nops(st, start);
    if name_end != root + 4 && st[root + 4] != AT_SIGN {
        proof {
            let name = st@.subrange(root + 4, name_end as int);
            assert(name[0] == st@[root + 4]);
            path::lemma_find_byte(name, AT_SIGN, 0);
        }
        return false;
    }
    proof {
        let name = st@.subrange(root + 4, name_end as int);
        assert(name.len() > 0 ==> name[0] == st@[root + 4]);
        assert(base_name(name).len() == 0);
    }
    match read_cells(st, strs, props, &address_cells, 2) {
        Some(n) => {
            if n > 2 {
                return false;
            }
        },
        None => {
            return false;
        },
    }
    match read_cells(st, strs, props, &size_cells, 1) {
        Some(n) => {
            if n > 2 {
                return false;
            }
        },
        None => {
            return false;
        },
    }
    match skip_props(st, strs, props) {
        None => false,
        Some(kids) => match find_memory(st, strs, kids) {
            None => false,
            Some(mem) => find_reg(st, strs, mem),
        },
    }
}

fn cut_block(d: &[u8], off: usize, len: usize) -> (r: Option<Vec<u8>>)
    requires
        off + 4 <= d@.len(),
        len + 4 <= d@.len(),
    ensures
        match block(d@, off as int, len as int) {
            None => r is None,
            Some(b) => r is Some && r->0@ == b,
        },
{
    let lo: usize = read_be32(d, off) as usize;
    let n: usize = read_be32(d, len) as usize;
    if lo > d.len() || n > d.len() - lo {
        return None;
    }
    Some(crate::bytes::copied(d, lo, lo + n))
}

/// Check that the memory regions of a device tree blob can be read.
pub fn is_readable(d: &[u8]) -> (r: bool)
    ensures
        r == readable(d@),
{
    if d.len() < HEADER_BYTES || read_be32(d, 0) != FDT_MAGIC || read_be32(d, 4) as usize
        > d.len() {
        return false;
    }
    match cut_block(d, 8, 36) {
        None => false,
        Some(st) => match cut_block(d, 12, 32) {
            None => false,
            Some(strs) => check_tree(&st, &strs),
        },
    }
}

/// `fdt::Fdt::new`, `Fdt::memory` and `Memory::regions`: the regions that the
/// `reg` property of the memory node lists, in their order, with the cell sizes
/// of the root node. On a blob that is not readable the crate panics, except on
/// one that reaches its memory node only through an alias of that path.
#[verifier::external_body]
fn list_regions(blob: &[u8]) -> (r: Vec<(u64, Option<u64>)>)
    requires
        readable(blob@),
    ensures
        r@ == blob_regions(blob@),
{
    let tree = fdt::Fdt::new(blob).unwrap();
    let memory = tree.memory();
    let regions = memory.regions();
    regions.map(|m| (m.starting_address as u64, m.size.map(|n| n as u64))).collect()
}

/// Read the memory regions of a device tree blob.
pub fn memory_regions(blob: &[u8]) -> (r: Option<Vec<(u64, Option<u64>)>>)
    ensures
        r is Some == readable(blob@),
        r matches Some(v) ==> v@ == blob_regions(blob@),
{
    if is_readable(blob) {
        Some(list_regions(blob))
    } else {
        None
    }
}

/// The bytes of a 32-bit number, most significant first.
pub open spec fn be_bytes32(v: u32) -> Seq<u8> {
    seq![
        (v / 0x100_0000) as u8,
        (v / 0x1_0000 % 0x100) as u8,
        (v / 0x100 % 0x100) as u8,
        (v % 0x100) as u8,
    ]
}

/// The bytes of a 64-bit number, most significant first.
pub open spec fn be_bytes64(v: u64) -> Seq<u8> {
    be_bytes32((v / 0x1_0000_0000) as u32) + be_bytes32((v % 0x1_0000_0000) as u32)
}

/// The value of a property "reg" that lists these regions, address and size of
/// two cells each.
pub open spec fn reg_of(regions: Seq<(u64, u64)>) -> Seq<u8>
    decreases regions.len(),
{
    if regions.len() == 0 {
        Seq::empty()
    } else {
        be_bytes64(regions[0].0) + be_bytes64(regions[0].1) + reg_of(regions.drop_first())
    }
}

proof fn lemma_be32(d: Seq<u8>, at: int, v: u32)
    requires
        d[at] == (v / 0x100_0000) as u8,
        d[at + 1] == (v / 0x1_0000 % 0x100) as u8,
        d[at + 2] == (v / 0x100 % 0x100) as u8,
        d[at + 3] == (v % 0x100) as u8,
    ensures
        be32(d, at) == v,
{
    assert(v / 0x100_0000 < 0x100);
    assert(d[at] == v / 0x100_0000);
    assert(d[at + 1] == v / 0x1_0000 % 0x100);
    assert(d[at + 2] == v / 0x100 % 0x100);
    assert(d[at + 3] == v % 0x100);
    assert(v / 0x1_0000 == v / 0x100_0000 * 0x100 + v / 0x1_0000 % 0x100);
    assert(v / 0x100 == v / 0x1_0000 * 0x100 + v / 0x100 % 0x100);
    assert(v == v / 0x100 * 0x100 + v % 0x100);
}

proof fn lemma_be64(d: Seq<u8>, at: int, v: u64)
    requires
        0 <= at,
        at + 8 <= d.len(),
        d.subrange(at, at + 8) == be_bytes64(v),
        v <= usize::MAX,
    ensures
        number_at(d, at, 2) == v,
{
    let hi = (v / 0x1_0000_0000) as u32;
    let lo = (v % 0x1_0000_0000) as u32;
    let b = be_bytes32(hi);
    let c = be_bytes32(lo);
    let part = d.subrange(at, at + 8);
    assert(part == b + c);
    assert(d[at] == part[0] && d[at + 1] == part[1] && d[at + 2] == part[2] && d[at + 3]
        == part[3]);
    assert(d[at + 4] == part[4] && d[at + 4 + 1] == part[5] && d[at + 4 + 2] == part[6] && d[at + 4
        + 3] == part[7]);
    lemma_be32(d, at, hi);
    lemma_be32(d, at + 4, lo);
}

/// The regions that a property "reg" of two-cell addresses and sizes lists are
/// read from it, all of them and in their order.
pub proof fn law_regions_read_back(regions: Seq<(u64, u64)>)
    requires
        forall|i: int|
            0 <= i < regions.len() ==> (#[trigger] regions[i]).0 <= usize::MAX && regions[i].1
                <= usize::MAX,
    ensures
        regions_in(reg_of(regions), 2, 2) == regions.map_values(|r: (u64, u64)| (r.0, Some(r.1))),
    decreases regions.len(),
{
    let d = reg_of(regions);
    let want = regions.map_values(|r: (u64, u64)| (r.0, Some(r.1)));
    if regions.len() == 0 {
        assert(regions_in(d, 2, 2) =~= want);
    } else {
        let rest = regions.drop_first();
        assert forall|i: int| 0 <= i < rest.len() implies (#[trigger] rest[i]).0 <= usize::MAX
            && rest[i].1 <= usize::MAX by {
            assert(rest[i] == regions[i + 1]);
        }
        law_regions_read_back(rest);
        let (a, n) = regions[0];
        assert(regions[0].0 <= usize::MAX && regions[0].1 <= usize::MAX);
        assert(d.subrange(0, 8) =~= be_bytes64(a));
        assert(d.subrange(8, 16) =~= be_bytes64(n));
        lemma_be64(d, 0, a);
        lemma_be64(d, 8, n);
        assert(d.skip(16) =~= reg_of(rest));
        assert(regions_in(d, 2, 2) =~= seq![(a, Some(n))] + regions_in(d.skip(16), 2, 2));
        assert(want =~= seq![(a, Some(n))] + rest.map_values(|r: (u64, u64)| (r.0, Some(r.1))));
    }
}

} // verus!
