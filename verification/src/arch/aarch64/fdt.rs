//! Flattened device tree reader: the DRAM window and the CPU count.
//!
//! The blob begins with a big-endian header.  Its structure block is a stream of
//! tokens:
//!
//! - 1 begins a node; its name follows, NUL-terminated and padded to 4 bytes
//! - 2 ends a node
//! - 3 is a property: value length, name offset in the strings block, value
//! - 4 is to be ignored
//! - 9 ends the stream, as does any other token or the end of the blob

use vstd::prelude::*;
use vstd::utf8::encode_utf8;
use crate::bytes::{be32, begins_with, read_be32, same_bytes, starts_with};
use crate::text::{nul_position, until_nul};

verus! {

pub const FDT_MAGIC: u32 = 0xD00D_FEED;

/// Most CPUs that are counted.
pub const MAX_DT_CPUS: usize = 8;

/// A discovered memory window.
#[derive(Debug, Clone, Copy, PartialEq, Eq, Structural)]
pub struct MemoryRegion {
    pub base: u64,
    pub size: u64,
}

/// What a token of the structure block says.
pub enum Event {
    /// A node of the given name begins.
    Begin(Seq<u8>),
    /// The innermost open node ends.
    End,
    /// A property of the innermost open node: name and value.
    Prop(Seq<u8>, Seq<u8>),
    /// Nothing.
    Nop,
}

/// The bytes from `at` up to a NUL or the end of the blob; none outside it.
pub open spec fn name_at(blob: Seq<u8>, at: int) -> Seq<u8> {
    if 0 <= at <= blob.len() {
        until_nul(blob.skip(at))
    } else {
        Seq::empty()
    }
}

/// The token at `p`, and where the next one is; `None` ends the stream.
pub open spec fn token(blob: Seq<u8>, strings: int, p: int) -> Option<(Event, int)> {
    if p + 4 > blob.len() {
        None
    } else if be32(blob, p) == 1 {
        let name = name_at(blob, p + 4);
        let nul = p + 4 + name.len();
        if nul < blob.len() {
            Some((Event::Begin(name), (nul + 4) / 4 * 4))
        } else {
            None
        }
    } else if be32(blob, p) == 2 {
        Some((Event::End, p + 4))
    } else if be32(blob, p) == 3 {
        let len = be32(blob, p + 4);
        if p + 12 <= blob.len() && p + 12 + len <= blob.len() {
            Some(
                (
                    Event::Prop(
                        name_at(blob, strings + be32(blob, p + 8)),
                        blob.subrange(p + 12, p + 12 + len),
                    ),
                    (p + 12 + len + 3) / 4 * 4,
                ),
            )
        } else {
            None
        }
    } else if be32(blob, p) == 4 {
        Some((Event::Nop, p + 4))
    } else {
        None
    }
}

/// The events of the stream from `p` on.
pub open spec fn events_from(blob: Seq<u8>, strings: int, p: int) -> Seq<Event>
    decreases blob.len() + 8 - p,
{
    match token(blob, strings, p) {
        Some((e, q)) => if p < q {
            seq![e] + events_from(blob, strings, q)
        } else {
            Seq::empty()
        },
        None => Seq::empty(),
    }
}

/// The blob begins with a device tree header.
pub open spec fn is_fdt(blob: Seq<u8>) -> bool {
    blob.len() >= 16 && be32(blob, 0) == FDT_MAGIC
}

/// The events of a device tree.
pub open spec fn events(blob: Seq<u8>) -> Seq<Event> {
    events_from(blob, be32(blob, 12), be32(blob, 8))
}

/// Number of nodes that are open in front of event `i`.
pub open spec fn depth(ev: Seq<Event>, i: int) -> nat
    decreases i,
{
    if i <= 0 {
        0
    } else {
        let d = depth(ev, i - 1);
        match ev[i - 1] {
            Event::Begin(_) => d + 1,
            Event::End => if d > 0 {
                (d - 1) as nat
            } else {
                0
            },
            _ => d,
        }
    }
}

/// Name of the child of the root that began last in front of event `i`.  Where
/// more than one node is open, it is the one that holds event `i`.
pub open spec fn root_child(ev: Seq<Event>, i: int) -> Seq<u8>
    decreases i,
{
    if i <= 0 {
        Seq::empty()
    } else {
        match ev[i - 1] {
            Event::Begin(name) => if depth(ev, i - 1) == 1 {
                name
            } else {
                root_child(ev, i - 1)
            },
            _ => root_child(ev, i - 1),
        }
    }
}

/// Value of a cell-count property of the root in front of event `i`; 2 where it
/// has none.
pub open spec fn cells(ev: Seq<Event>, name: Seq<u8>, i: int) -> int
    decreases i,
{
    if i <= 0 {
        2
    } else {
        match ev[i - 1] {
            Event::Prop(n, v) => if depth(ev, i - 1) == 1 && n == name && v.len() >= 4 {
                be32(v, 0)
            } else {
                cells(ev, name, i - 1)
            },
            _ => cells(ev, name, i - 1),
        }
    }
}

/// The low 64 bits of the big-endian number in `n` 32-bit cells at `at`.
pub open spec fn cell_number(v: Seq<u8>, at: int, n: int) -> int
    decreases n,
{
    if n <= 0 {
        0
    } else {
        (cell_number(v, at, n - 1) * 0x1_0000_0000 + be32(v, at + 4 * (n - 1)))
            % 0x1_0000_0000_0000_0000
    }
}

pub open spec fn addr_cells(ev: Seq<Event>, i: int) -> int {
    cells(ev, encode_utf8("#address-cells"@), i)
}

pub open spec fn size_cells(ev: Seq<Event>, i: int) -> int {
    cells(ev, encode_utf8("#size-cells"@), i)
}

/// The name is that of a memory node.
pub open spec fn is_memory(name: Seq<u8>) -> bool {
    name == encode_utf8("memory"@) || begins_with(name, encode_utf8("memory@"@))
}

/// The window that a `reg` value describes: base, then size.
pub open spec fn window(ev: Seq<Event>, i: int, v: Seq<u8>) -> (int, int) {
    (
        cell_number(v, 0, addr_cells(ev, i)),
        cell_number(v, 4 * addr_cells(ev, i), size_cells(ev, i)),
    )
}

/// Event `i` is the `reg` property of a `/memory` node, with a size that is not 0.
pub open spec fn is_window(ev: Seq<Event>, i: int) -> bool {
    match ev[i] {
        Event::Prop(name, v) => {
            &&& depth(ev, i) == 2
            &&& is_memory(root_child(ev, i))
            &&& name == encode_utf8("reg"@)
            &&& v.len() >= 4 * (addr_cells(ev, i) + size_cells(ev, i))
            &&& window(ev, i, v).1 != 0
        },
        _ => false,
    }
}

/// The window of event `i`.
pub open spec fn window_of(ev: Seq<Event>, i: int) -> (int, int) {
    match ev[i] {
        Event::Prop(_, v) => window(ev, i, v),
        _ => (0, 0),
    }
}

/// Event `i` begins a `/cpus/cpu@N` node.
pub open spec fn is_cpu(ev: Seq<Event>, i: int) -> bool {
    match ev[i] {
        Event::Begin(name) => {
            &&& depth(ev, i) == 2
            &&& root_child(ev, i) == encode_utf8("cpus"@)
            &&& begins_with(name, encode_utf8("cpu@"@))
        },
        _ => false,
    }
}

/// Number of `/cpus/cpu@N` nodes among the first `i` events.
pub open spec fn cpu_nodes(ev: Seq<Event>, i: int) -> nat
    decreases i,
{
    if i <= 0 {
        0
    } else {
        cpu_nodes(ev, i - 1) + if is_cpu(ev, i - 1) {
            1nat
        } else {
            0
        }
    }
}

/// A token by its places in the blob.
enum Token<'a> {
    Begin(&'a [u8]),
    End,
    Prop(&'a [u8], &'a [u8]),
    Nop,
}

impl<'a> Token<'a> {
    spec fn event(self) -> Event {
        match self {
            Token::Begin(n) => Event::Begin(n@),
            Token::End => Event::End,
            Token::Prop(n, v) => Event::Prop(n@, v@),
            Token::Nop => Event::Nop,
        }
    }
}

fn name_of<'a>(blob: &'a [u8], at: usize) -> (r: &'a [u8])
    requires
        at <= blob@.len(),
    ensures
        r@ == name_at(blob@, at as int),
        at + r@.len() <= blob@.len(),
{
    let tail = vstd::slice::slice_subrange(blob, at, blob.len());
    assert(tail@ =~= blob@.skip(at as int));
    let n: usize = nul_position(tail);
    let r = vstd::slice::slice_subrange(tail, 0, n);
    assert(r@ =~= tail@.take(n as int));
    r
}

fn next_token<'a>(blob: &'a [u8], strings: usize, p: usize) -> (r: Option<(Token<'a>, usize)>)
    requires
        blob@.len() + 16 <= usize::MAX,
    ensures
        match r {
            Some((t, q)) => token(blob@, strings as int, p as int) == Some((t.event(), q as int))
                && p < q <= blob@.len() + 4,
            None => token(blob@, strings as int, p as int) is None,
        },
{
    if p >= blob.len() || blob.len() - p < 4 {
        return None;
    }
    let tag: u32 = read_be32(blob, p);
    if tag == 1 {
        let name = name_of(blob, p + 4);
        let nul: usize = p + 4 + name.len();
        if nul < blob.len() {
            Some((Token::Begin(name), (nul + 4) / 4 * 4))
        } else {
            None
        }
    } else if tag == 2 {
        Some((Token::End, p + 4))
    } else if tag == 3 {
        if blob.len() - p < 12 {
            return None;
        }
        let len: usize = read_be32(blob, p + 4) as usize;
        let off: usize = read_be32(blob, p + 8) as usize;
        if len > blob.len() - (p + 12) {
            return None;
        }
        let value = vstd::slice::slice_subrange(blob, p + 12, p + 12 + len);
        let name = if strings > blob.len() || off > blob.len() - strings {
            vstd::slice::slice_subrange(blob, 0, 0)
        } else {
            name_of(blob, strings + off)
        };
        assert(name@ =~= name_at(blob@, strings + off));
        Some((Token::Prop(name, value), (p + 12 + len + 3) / 4 * 4))
    } else if tag == 4 {
        Some((Token::Nop, p + 4))
    } else {
        None
    }
}

fn read_cells(v: &[u8], at: usize, n: usize) -> (r: u64)
    requires
        at + 4 * n <= v@.len(),
    ensures
        r == cell_number(v@, at as int, n as int),
{
    let len: usize = v.len();
    let mut r: u64 = 0;
    let mut k: usize = 0;
    while k < n
        invariant
            k <= n,
            len == v@.len(),
            at + 4 * n <= len,
            r == cell_number(v@, at as int, k as int),
        decreases n - k,
    {
        let c: u32 = read_be32(v, at + 4 * k);
        let low: u64 = r % 0x1_0000_0000;
        proof {
            let q = r as int / 0x1_0000_0000;
            assert(r * 0x1_0000_0000 + c == q * 0x1_0000_0000_0000_0000 + (low * 0x1_0000_0000
                + c));
            vstd::arithmetic::div_mod::lemma_fundamental_div_mod_converse(
                r * 0x1_0000_0000 + c,
                0x1_0000_0000_0000_0000,
                q,
                low * 0x1_0000_0000 + c,
            );
        }
        r = low * 0x1_0000_0000 + c as u64;
        k = k + 1;
    }
    r
}

/// The events seen so far are a prefix of the stream and the rest follows.
proof fn lemma_step(blob: Seq<u8>, strings: int, p: int, q: int, e: Event, done: Seq<Event>)
    requires
        token(blob, strings, p) == Some((e, q)),
        p < q,
    ensures
        done + events_from(blob, strings, p) == done.push(e) + events_from(blob, strings, q),
{
    assert(done + (seq![e] + events_from(blob, strings, q)) =~= done.push(e) + events_from(
        blob,
        strings,
        q,
    ));
}

/// The first `/memory` or `/memory@...` node's window, or `None` when the blob is
/// not a device tree or has no memory node.
pub fn dram_region(blob: &[u8]) -> (r: Option<MemoryRegion>)
    requires
        blob@.len() + 16 <= usize::MAX,
    ensures
        match r {
            Some(m) => is_fdt(blob@) && exists|i: int|
                {
                    &&& 0 <= i < events(blob@).len()
                    &&& #[trigger] is_window(events(blob@), i)
                    &&& forall|j: int| 0 <= j < i ==> !is_window(events(blob@), j)
                    &&& window_of(events(blob@), i) == (m.base as int, m.size as int)
                },
            None => is_fdt(blob@) ==> forall|i: int|
                0 <= i < events(blob@).len() ==> !#[trigger] is_window(events(blob@), i),
        },
{
    if blob.len() < 16 || read_be32(blob, 0) != FDT_MAGIC {
        return None;
    }
    let strings: usize = read_be32(blob, 12) as usize;
    let mut p: usize = read_be32(blob, 8) as usize;
    let mut level: usize = 0;
    let mut ac: usize = 2;
    let mut sc: usize = 2;
    let mut in_memory: bool = false;
    let ghost ev = events(blob@);
    let ghost mut done: Seq<Event> = Seq::empty();
    assert(done + events_from(blob@, strings as int, p as int) =~= ev);
    loop
        invariant
            blob@.len() + 16 <= usize::MAX,
            is_fdt(blob@),
            ev == events(blob@),
            done + events_from(blob@, strings as int, p as int) == ev,
            level == depth(ev, done.len() as int),
            level <= done.len() <= p,
            level >= 2 ==> in_memory == is_memory(root_child(ev, done.len() as int)),
            ac == addr_cells(ev, done.len() as int),
            sc == size_cells(ev, done.len() as int),
            forall|j: int| 0 <= j < done.len() ==> !#[trigger] is_window(ev, j),
        decreases blob@.len() + 8 - p,
    {
        let ghost i = done.len() as int;
        let (t, q) = match next_token(blob, strings, p) {
            Some(x) => x,
            None => {
                assert(done + Seq::<Event>::empty() =~= done);
                assert(ev =~= done);
                return None;
            },
        };
        proof {
            lemma_step(blob@, strings as int, p as int, q as int, t.event(), done);
            assert(ev[i] == t.event());
        }
        match t {
            Token::Begin(name) => {
                if level == 1 {
                    in_memory = same_bytes(name, "memory".as_bytes()) || starts_with(
                        name,
                        "memory@".as_bytes(),
                    );
                }
                level = level + 1;
            },
            Token::End => {
                if level > 0 {
                    level = level - 1;
                }
            },
            Token::Prop(name, value) => {
                if level == 2 && in_memory && same_bytes(name, "reg".as_bytes()) {
                    let quarter: usize = value.len() / 4;
                    if ac <= quarter && sc <= quarter - ac {
                        let base: u64 = read_cells(value, 0, ac);
                        let size: u64 = read_cells(value, 4 * ac, sc);
                        if size != 0 {
                            assert(is_window(ev, i));
                            return Some(MemoryRegion { base, size });
                        }
                    }
                } else if level == 1 && value.len() >= 4 {
                    if same_bytes(name, "#address-cells".as_bytes()) {
                        ac = read_be32(value, 0) as usize;
                    }
                    if same_bytes(name, "#size-cells".as_bytes()) {
                        sc = read_be32(value, 0) as usize;
                    }
                }
            },
            Token::Nop => {},
        }
        proof {
            done = done.push(t.event());
        }
        p = q;
    }
}

/// Number of `/cpus/cpu@N` nodes: at least 1, at most [`MAX_DT_CPUS`].  A blob that
/// is not a device tree counts as one CPU.
pub fn cpu_count(blob: &[u8]) -> (n: usize)
    requires
        blob@.len() + 16 <= usize::MAX,
    ensures
        n == if !is_fdt(blob@) {
            1
        } else {
            let k = cpu_nodes(events(blob@), events(blob@).len() as int);
            if k == 0 {
                1
            } else if k > MAX_DT_CPUS {
                MAX_DT_CPUS as nat
            } else {
                k
            }
        },
{
    if blob.len() < 16 || read_be32(blob, 0) != FDT_MAGIC {
        return 1;
    }
    let strings: usize = read_be32(blob, 12) as usize;
    let mut p: usize = read_be32(blob, 8) as usize;
    let mut level: usize = 0;
    let mut in_cpus: bool = false;
    let mut count: usize = 0;
    let ghost ev = events(blob@);
    let ghost mut done: Seq<Event> = Seq::empty();
    assert(done + events_from(blob@, strings as int, p as int) =~= ev);
    loop
        invariant
            blob@.len() + 16 <= usize::MAX,
            is_fdt(blob@),
            ev == events(blob@),
            done + events_from(blob@, strings as int, p as int) == ev,
            level == depth(ev, done.len() as int),
            level <= done.len() <= p,
            level >= 2 ==> in_cpus == (root_child(ev, done.len() as int) == encode_utf8(
                "cpus"@,
            )),
            count == cpu_nodes(ev, done.len() as int),
            count <= done.len(),
        decreases blob@.len() + 8 - p,
    {
        let ghost i = done.len() as int;
        let (t, q) = match next_token(blob, strings, p) {
            Some(x) => x,
            None => {
                assert(done + Seq::<Event>::empty() =~= done);
                assert(ev =~= done);
                return if count == 0 {
                    1
                } else if count > MAX_DT_CPUS {
                    MAX_DT_CPUS
                } else {
                    count
                };
            },
        };
        proof {
            lemma_step(blob@, strings as int, p as int, q as int, t.event(), done);
            assert(ev[i] == t.event());
        }
        match t {
            Token::Begin(name) => {
                if level == 2 && in_cpus && starts_with(name, "cpu@".as_bytes()) {
                    count = count + 1;
                }
                if level == 1 {
                    in_cpus = same_bytes(name, "cpus".as_bytes());
                }
                level = level + 1;
            },
            Token::End => {
                if level > 0 {
                    level = level - 1;
                }
            },
            Token::Prop(_, _) => {},
            Token::Nop => {},
        }
        proof {
            done = done.push(t.event());
        }
        p = q;
    }
}

/// A tree begins with the magic number; its structure begins where the third word says, its
/// names where the fourth does.
pub proof fn law_header_words(blob: Seq<u8>)
    ensures
        is_fdt(blob) <==> blob.len() >= 16 && blob[0] == 0xD0 && blob[1] == 0x0D && blob[2] == 0xFE
            && blob[3] == 0xED,
        events(blob) == events_from(
            blob,
            16777216 * blob[12] + 65536 * blob[13] + 256 * blob[14] + blob[15],
            16777216 * blob[8] + 65536 * blob[9] + 256 * blob[10] + blob[11],
        ),
{
}

/// What stands at a place of the structure: word 1 begins a node, whose name follows up to a
/// zero; 2 ends one; 3 is a property with its length, the place of its name, and its value; 4
/// is nothing.  The next token is at the next multiple of four.
pub proof fn law_tokens(blob: Seq<u8>, strings: int, p: int)
    requires
        0 <= p,
    ensures
        ({
            let w = be32(blob, p);
            let len = be32(blob, p + 4);
            let t = token(blob, strings, p);
            &&& p + 4 > blob.len() || w == 0 || w > 4 ==> t is None
            &&& p + 4 <= blob.len() && w == 2 ==> t == Some((Event::End, p + 4))
            &&& p + 4 <= blob.len() && w == 4 ==> t == Some((Event::Nop, p + 4))
            &&& p + 4 <= blob.len() && w == 3 && p + 12 + len <= blob.len() ==> {
                &&& t is Some
                &&& t matches Some((e, q)) && q % 4 == 0 && p + 12 + len <= q < p + 16 + len && (
                e matches Event::Prop(name, v) && v.len() == len && name == name_at(
                    blob,
                    strings + be32(blob, p + 8),
                ) && forall|k: int| 0 <= k < len ==> #[trigger] v[k] == blob[p + 12 + k])
            }
            &&& p + 4 <= blob.len() && w == 3 && p + 12 + len > blob.len() ==> t is None
            &&& p + 4 <= blob.len() && w == 1 ==> {
                let n = name_at(blob, p + 4).len();
                &&& p + 4 + n >= blob.len() ==> t is None
                &&& p + 4 + n < blob.len() ==> (t matches Some((e, q)) && e == Event::Begin(
                    name_at(blob, p + 4),
                ) && q % 4 == 0 && p + 4 + n < q <= p + 8 + n)
            }
        }),
{
}

/// The events are the tokens in turn, up to the first place where none stands.
pub proof fn law_events_in_turn(blob: Seq<u8>, strings: int, p: int)
    requires
        0 <= p,
    ensures
        token(blob, strings, p) is None ==> events_from(blob, strings, p).len() == 0,
        token(blob, strings, p) matches Some((e, q)) ==> p < q ==> {
            let ev = events_from(blob, strings, p);
            &&& ev.len() == events_from(blob, strings, q).len() + 1
            &&& ev[0] == e
            &&& ev.skip(1) == events_from(blob, strings, q)
        },
{
    if let Some((e, q)) = token(blob, strings, p) {
        if p < q {
            assert(events_from(blob, strings, p).skip(1) =~= events_from(blob, strings, q));
        }
    }
}

/// The depth counts the nodes that are open.
pub proof fn law_depth_counts_open_nodes(ev: Seq<Event>, i: int)
    requires
        0 <= i < ev.len(),
    ensures
        depth(ev, 0) == 0,
        ev[i] is Begin ==> depth(ev, i + 1) == depth(ev, i) + 1,
        ev[i] is End && depth(ev, i) > 0 ==> depth(ev, i + 1) == depth(ev, i) - 1,
        ev[i] is End && depth(ev, i) == 0 ==> depth(ev, i + 1) == 0,
        ev[i] is Prop || ev[i] is Nop ==> depth(ev, i + 1) == depth(ev, i),
{
}

/// The child of the root that an event is in is the last node that began right below the root.
pub proof fn law_child_of_root(ev: Seq<Event>, j: int, i: int)
    requires
        0 <= j < i <= ev.len(),
        ev[j] is Begin,
        depth(ev, j) == 1,
        forall|k: int| j < k < i ==> !(#[trigger] ev[k] is Begin && depth(ev, k) == 1),
    ensures
        root_child(ev, i) == ev[j]->Begin_0,
    decreases i - j,
{
    if i > j + 1 {
        law_child_of_root(ev, j, i - 1);
        assert(!(ev[i - 1] is Begin && depth(ev, i - 1) == 1));
    }
}

/// Sizes of addresses and of sizes, in words of four bytes: what the last property of the name
/// in the root says; two where there is none.
pub proof fn law_last_cells_count(ev: Seq<Event>, name: Seq<u8>, j: int, i: int)
    requires
        -1 <= j < i <= ev.len(),
        j >= 0 ==> is_cells(ev, name, j),
        forall|k: int| j < k < i ==> !#[trigger] is_cells(ev, name, k),
    ensures
        j < 0 ==> cells(ev, name, i) == 2,
        j >= 0 ==> cells(ev, name, i) == {
            let v = ev[j]->Prop_1;
            16777216 * v[0] + 65536 * v[1] + 256 * v[2] + v[3]
        },
    decreases i,
{
    if i - 1 > j {
        assert(!is_cells(ev, name, i - 1));
        if i - 1 > 0 {
            law_last_cells_count(ev, name, j, i - 1);
        }
    }
}

/// Event `k` is a property of the root with the name, of a word at least.
pub open spec fn is_cells(ev: Seq<Event>, name: Seq<u8>, k: int) -> bool {
    &&& ev[k] matches Event::Prop(n, v) && n == name && v.len() >= 4
    &&& depth(ev, k) == 1
}

/// A number of one word is that word, one of two words the first times 2 to the 32 and the
/// second; a longer one keeps its last two words.
pub proof fn law_numbers_of_cells(v: Seq<u8>, at: int, n: int)
    requires
        n >= 0,
    ensures
        cell_number(v, at, 0) == 0,
        cell_number(v, at, 1) == be32(v, at),
        n >= 2 ==> cell_number(v, at, n) == 0x1_0000_0000 * be32(v, at + 4 * (n - 2)) + be32(
            v,
            at + 4 * (n - 1),
        ),
{
    assert(cell_number(v, at, 1) == be32(v, at)) by {
        reveal_with_fuel(cell_number, 2);
    }
    if n >= 2 {
        let a = cell_number(v, at, n - 2);
        let b = be32(v, at + 4 * (n - 2));
        let c = be32(v, at + 4 * (n - 1));
        let m = cell_number(v, at, n - 1);
        assert(m == (a * 0x1_0000_0000 + b) % 0x1_0000_0000_0000_0000);
        assert(cell_number(v, at, n) == (m * 0x1_0000_0000 + c) % 0x1_0000_0000_0000_0000);
        lemma_two_words(a, b, c, m);
    }
}

proof fn lemma_two_words(a: int, b: int, c: int, m: int)
    requires
        0 <= b < 0x1_0000_0000,
        0 <= c < 0x1_0000_0000,
        m == (a * 0x1_0000_0000 + b) % 0x1_0000_0000_0000_0000,
    ensures
        (m * 0x1_0000_0000 + c) % 0x1_0000_0000_0000_0000 == b * 0x1_0000_0000 + c,
{
    let k = (a * 0x1_0000_0000 + b) / 0x1_0000_0000_0000_0000;
    let q = a - k * 0x1_0000_0000;
    assert(m == q * 0x1_0000_0000 + b);
    assert(m * 0x1_0000_0000 + c == q * 0x1_0000_0000_0000_0000 + (b * 0x1_0000_0000 + c));
}

/// The window of memory is the first non-empty one of a `reg` property right in a memory node
/// below the root; with two words each, it is the first two words and the next two.
pub proof fn law_window_of_memory(ev: Seq<Event>, i: int)
    requires
        0 <= i < ev.len(),
        ev[i] is Prop,
        addr_cells(ev, i) == 2,
        size_cells(ev, i) == 2,
    ensures
        ({
            let name = ev[i]->Prop_0;
            let v = ev[i]->Prop_1;
            let base = 0x1_0000_0000 * be32(v, 0) + be32(v, 4);
            let size = 0x1_0000_0000 * be32(v, 8) + be32(v, 12);
            let node = root_child(ev, i);
            &&& is_window(ev, i) <==> depth(ev, i) == 2 && (node == encode_utf8("memory"@)
                || begins_with(node, encode_utf8("memory@"@))) && name == encode_utf8("reg"@)
                && v.len() >= 16 && size != 0
            &&& is_window(ev, i) ==> window_of(ev, i) == (base, size)
        }),
{
    let v = ev[i]->Prop_1;
    law_numbers_of_cells(v, 0, 2);
    law_numbers_of_cells(v, 8, 2);
}

/// With one word each, the window is the first word and the next.
pub proof fn law_window_of_small_memory(ev: Seq<Event>, i: int)
    requires
        0 <= i < ev.len(),
        ev[i] is Prop,
        addr_cells(ev, i) == 1,
        size_cells(ev, i) == 1,
        is_window(ev, i),
    ensures
        window_of(ev, i) == (be32(ev[i]->Prop_1, 0), be32(ev[i]->Prop_1, 4)),
        ev[i]->Prop_1.len() >= 8,
{
    let v = ev[i]->Prop_1;
    law_numbers_of_cells(v, 0, 1);
    law_numbers_of_cells(v, 4, 1);
}

/// The CPUs are the nodes below `cpus` whose name begins with `cpu@`; each counts once.
pub proof fn law_cpus_are_counted(ev: Seq<Event>, i: int)
    requires
        0 <= i < ev.len(),
    ensures
        MAX_DT_CPUS == 8,
        cpu_nodes(ev, 0) == 0,
        ({
            let counted = (ev[i] matches Event::Begin(name) && begins_with(
                name,
                encode_utf8("cpu@"@),
            )) && depth(ev, i) == 2 && root_child(ev, i) == encode_utf8("cpus"@);
            &&& counted ==> cpu_nodes(ev, i + 1) == cpu_nodes(ev, i) + 1
            &&& !counted ==> cpu_nodes(ev, i + 1) == cpu_nodes(ev, i)
        }),
{
}

} // verus!
