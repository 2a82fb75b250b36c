//! The layout of a country database file, as far as it takes to tell the files
//! on which every lookup comes to an end.
//!
//! Such a file is a search tree, sixteen bytes, a data section, and metadata
//! behind a marker. The tree's nodes hold two records each; a record is another
//! node, or nothing, or a place in the data section. Data and metadata are
//! values: a control byte with kind and size, then the body.

use vstd::prelude::*;
use vstd::slice::slice_subrange;

verus! {

/// How deep values may nest.
pub const DEPTH: usize = 512;

pub const POINTER: u16 = 1;

pub const TEXT: u16 = 2;

pub const DOUBLE: u16 = 3;

pub const BYTES: u16 = 4;

pub const UINT16: u16 = 5;

pub const UINT32: u16 = 6;

pub const MAP: u16 = 7;

pub const INT32: u16 = 8;

pub const UINT64: u16 = 9;

pub const UINT128: u16 = 10;

pub const ARRAY: u16 = 11;

pub const BOOL: u16 = 14;

pub const FLOAT: u16 = 15;

// --------------------------------------------------------------- the numbers

/// The number that some bytes write, the highest first.
pub open spec fn big_endian(s: Seq<u8>) -> int
    decreases s.len(),
{
    if s.len() == 0 {
        0
    } else {
        big_endian(s.drop_last()) * 256 + s.last()
    }
}

spec fn room(n: nat) -> int
    decreases n,
{
    if n == 0 {
        1
    } else {
        256 * room((n - 1) as nat)
    }
}

proof fn lemma_room(n: nat)
    requires
        n <= 8,
    ensures
        1 <= room(n) <= 0x1_0000_0000_0000_0000,
        n <= 4 ==> room(n) <= 0x1_0000_0000,
        n <= 3 ==> room(n) <= 0x100_0000,
        n <= 2 ==> room(n) <= 0x1_0000,
        n <= 1 ==> room(n) <= 0x100,
{
    reveal_with_fuel(room, 9);
}

proof fn lemma_big_endian(s: Seq<u8>)
    ensures
        0 <= big_endian(s) < room(s.len()),
    decreases s.len(),
{
    if s.len() > 0 {
        lemma_big_endian(s.drop_last());
    }
}

/// The number in `n` bytes.
fn number(d: &[u8], at: usize, n: usize) -> (r: u64)
    requires
        at + n <= d@.len(),
        n <= 8,
    ensures
        r == big_endian(d@.subrange(at as int, at + n)),
        r < room(n as nat),
{
    let end: usize = d.len();
    let mut r: u64 = 0;
    let mut i: usize = 0;
    proof {
        assert(d@.subrange(at as int, at as int) =~= Seq::<u8>::empty());
    }
    while i < n
        invariant
            i <= n <= 8,
            at + n <= end,
            end == d@.len(),
            r == big_endian(d@.subrange(at as int, at + i)),
        decreases n - i,
    {
        proof {
            let s = d@.subrange(at as int, at + i + 1);
            assert(s.drop_last() =~= d@.subrange(at as int, at + i));
            lemma_big_endian(s);
            lemma_room(s.len());
        }
        r = r * 256 + d[at + i] as u64;
        i = i + 1;
    }
    proof {
        lemma_big_endian(d@.subrange(at as int, at + n));
    }
    r
}

// ---------------------------------------------------------------- the values

/// What stands before a value's body: its kind, its size and where the body
/// starts.
pub struct Head {
    pub kind: u16,
    pub size: usize,
    pub body: usize,
}

pub struct HeadView {
    pub kind: int,
    pub size: int,
    pub body: int,
}

impl View for Head {
    type V = HeadView;

    open spec fn view(&self) -> HeadView {
        HeadView { kind: self.kind as int, size: self.size as int, body: self.body as int }
    }
}

/// The head whose control byte ends in `low`; up to three more bytes widen the
/// size.
pub open spec fn sized(d: Seq<u8>, kind: int, low: int, at: int) -> Option<HeadView> {
    let more = if low < 29 {
        0
    } else {
        low - 28
    };
    let least: int = if low < 29 {
        low
    } else if low == 29 {
        29
    } else if low == 30 {
        285
    } else {
        65821
    };
    if at + more > d.len() {
        None
    } else {
        Some(
            HeadView {
                kind,
                size: least + big_endian(d.subrange(at, at + more)),
                body: at + more,
            },
        )
    }
}

/// The head of the value at a place, where the bytes hold one. A kind beyond
/// seven stands in a byte of its own; one that is no byte has no size.
pub open spec fn head(d: Seq<u8>, at: int) -> Option<HeadView> {
    if at < 0 || at >= d.len() {
        None
    } else if d[at] / 32 != 0 {
        sized(d, d[at] as int / 32, d[at] as int % 32, at + 1)
    } else if at + 1 >= d.len() {
        None
    } else if d[at + 1] + 7 > 255 {
        Some(HeadView { kind: d[at + 1] + 7, size: 0, body: at + 2 })
    } else {
        sized(d, d[at + 1] + 7, d[at] as int % 32, at + 2)
    }
}

pub open spec fn opt_head(h: Option<Head>) -> Option<HeadView> {
    match h {
        Some(h) => Some(h@),
        None => None,
    }
}

fn read_sized(d: &[u8], kind: u16, low: u8, at: usize) -> (r: Option<Head>)
    requires
        at <= d@.len(),
        low < 32,
    ensures
        opt_head(r) == sized(d@, kind as int, low as int, at as int),
        r matches Some(h) ==> h.body <= d@.len() && h.size <= 16843036,
{
    let more: usize = if low < 29 {
        0
    } else {
        (low - 28) as usize
    };
    let least: usize = if low < 29 {
        low as usize
    } else if low == 29 {
        29
    } else if low == 30 {
        285
    } else {
        65821
    };
    if more > d.len() - at {
        return None;
    }
    let n: u64 = number(d, at, more);
    proof {
        lemma_room(more as nat);
    }
    Some(Head { kind, size: least + n as usize, body: at + more })
}

fn read_head(d: &[u8], at: usize) -> (r: Option<Head>)
    ensures
        opt_head(r) == head(d@, at as int),
        r matches Some(h) ==> h.body <= d@.len() && h.size <= 16843036,
{
    if at >= d.len() {
        return None;
    }
    let control: u8 = d[at];
    if control / 32 != 0 {
        return read_sized(d, (control / 32) as u16, control % 32, at + 1);
    }
    if at + 1 >= d.len() {
        return None;
    }
    let kind: u16 = d[at + 1] as u16 + 7;
    if kind > 255 {
        return Some(Head { kind, size: 0, body: at + 2 });
    }
    read_sized(d, kind, control % 32, at + 2)
}

/// How many bytes a pointer takes.
pub open spec fn pointer_width(h: HeadView) -> int {
    h.size / 8 % 4 + 1
}

/// Where the pointer with this head points to.
pub open spec fn pointed(d: Seq<u8>, h: HeadView) -> int {
    let w = pointer_width(h);
    let n = big_endian(d.subrange(h.body, h.body + w));
    let top = h.size % 8;
    if w == 1 {
        top * 0x100 + n
    } else if w == 2 {
        top * 0x1_0000 + n + 2048
    } else if w == 3 {
        top * 0x100_0000 + n + 526336
    } else {
        n
    }
}

fn read_pointer(d: &[u8], h: &Head) -> (r: u64)
    requires
        h.body + pointer_width(h@) <= d@.len(),
    ensures
        r == pointed(d@, h@),
{
    let w: usize = h.size / 8 % 4 + 1;
    let n: u64 = number(d, h.body, w);
    let top: u64 = (h.size % 8) as u64;
    proof {
        lemma_room(w as nat);
    }
    if w == 1 {
        top * 0x100 + n
    } else if w == 2 {
        top * 0x1_0000 + n + 2048
    } else if w == 3 {
        top * 0x100_0000 + n + 526336
    } else {
        n
    }
}

/// Where the bytes go on behind the value at a place, read with what it points
/// to and what it holds: the end of the bytes, where they break off or hold no
/// such value. None where values nest deeper than `depth`, and where a kind is
/// no byte.
pub open spec fn behind(d: Seq<u8>, at: int, depth: nat) -> Option<int>
    decreases depth, 1nat, 0nat,
{
    let end = d.len() as int;
    match head(d, at) {
        None => Some(end),
        Some(h) => if h.kind > 255 {
            None
        } else if h.kind == POINTER {
            if h.body + pointer_width(h) > end {
                Some(end)
            } else if depth == 0 {
                None
            } else {
                match behind(d, pointed(d, h), (depth - 1) as nat) {
                    None => None,
                    Some(_) => Some(h.body + pointer_width(h)),
                }
            }
        } else if h.kind == MAP {
            behind_all(d, h.body, (2 * h.size) as nat, depth)
        } else if h.kind == ARRAY {
            behind_all(d, h.body, h.size as nat, depth)
        } else if h.kind == BOOL {
            Some(h.body)
        } else if !sound_size(h) || h.body + h.size > end {
            Some(end)
        } else {
            Some(h.body + h.size)
        },
    }
}

/// The same for so many values in a row.
pub open spec fn behind_all(d: Seq<u8>, at: int, count: nat, depth: nat) -> Option<int>
    decreases depth, 0nat, count,
{
    if count == 0 {
        Some(at)
    } else if depth == 0 {
        None
    } else {
        match behind(d, at, (depth - 1) as nat) {
            None => None,
            Some(next) => behind_all(d, next, (count - 1) as nat, depth),
        }
    }
}

/// Whether a value that holds bytes alone is of a kind that there is, and of a
/// size that its kind can have.
pub open spec fn sound_size(h: HeadView) -> bool {
    if h.kind == DOUBLE {
        h.size == 8
    } else if h.kind == FLOAT {
        h.size == 4
    } else {
        h.kind == TEXT || h.kind == BYTES || h.kind == UINT16 || h.kind == UINT32 || h.kind == INT32
            || h.kind == UINT64 || h.kind == UINT128
    }
}

pub open spec fn opt_int(n: Option<usize>) -> Option<int> {
    match n {
        Some(n) => Some(n as int),
        None => None,
    }
}

fn is_sound_size(h: &Head) -> (r: bool)
    ensures
        r == sound_size(h@),
{
    if h.kind == DOUBLE {
        h.size == 8
    } else if h.kind == FLOAT {
        h.size == 4
    } else {
        h.kind == TEXT || h.kind == BYTES || h.kind == UINT16 || h.kind == UINT32 || h.kind == INT32
            || h.kind == UINT64 || h.kind == UINT128
    }
}

fn go_behind(d: &[u8], at: usize, depth: usize) -> (r: Option<usize>)
    ensures
        opt_int(r) == behind(d@, at as int, depth as nat),
        r matches Some(e) ==> e <= d@.len(),
    decreases depth, 1nat, 0nat,
{
    let end: usize = d.len();
    let h = match read_head(d, at) {
        None => {
            return Some(end);
        },
        Some(h) => h,
    };
    if h.kind > 255 {
        return None;
    }
    if h.kind == POINTER {
        let w: usize = h.size / 8 % 4 + 1;
        if w > end - h.body {
            return Some(end);
        }
        if depth == 0 {
            return None;
        }
        let target: u64 = read_pointer(d, &h);
        if target < end as u64 {
            if go_behind(d, target as usize, depth - 1).is_none() {
                return None;
            }
        } else {
            assert(behind(d@, target as int, (depth - 1) as nat) == Some(end as int));
        }
        return Some(h.body + w);
    }
    if h.kind == MAP {
        return go_behind_all(d, h.body, 2 * h.size, depth);
    }
    if h.kind == ARRAY {
        return go_behind_all(d, h.body, h.size, depth);
    }
    if h.kind == BOOL {
        return Some(h.body);
    }
    if !is_sound_size(&h) || h.size > end - h.body {
        return Some(end);
    }
    Some(h.body + h.size)
}

fn go_behind_all(d: &[u8], at: usize, count: usize, depth: usize) -> (r: Option<usize>)
    requires
        at <= d@.len(),
    ensures
        opt_int(r) == behind_all(d@, at as int, count as nat, depth as nat),
        r matches Some(e) ==> e <= d@.len(),
    decreases depth, 0nat, count,
{
    let mut next: usize = at;
    let mut left: usize = count;
    while left > 0
        invariant
            next <= d@.len(),
            left <= count,
            behind_all(d@, next as int, left as nat, depth as nat) == behind_all(
                d@,
                at as int,
                count as nat,
                depth as nat,
            ),
        decreases left,
    {
        if depth == 0 {
            return None;
        }
        match go_behind(d, next, depth - 1) {
            None => {
                return None;
            },
            Some(e) => {
                next = e;
            },
        }
        left = left - 1;
    }
    Some(next)
}

// -------------------------------------------------------------- the metadata

/// What stands before the metadata: three bytes and `MaxMind.com`.
pub open spec fn mark() -> Seq<u8> {
    seq![0xAB, 0xCD, 0xEF, 0x4D, 0x61, 0x78, 0x4D, 0x69, 0x6E, 0x64, 0x2E, 0x63, 0x6F, 0x6D]
}

/// The bytes of `node_count`.
pub open spec fn node_count() -> Seq<u8> {
    seq![0x6E, 0x6F, 0x64, 0x65, 0x5F, 0x63, 0x6F, 0x75, 0x6E, 0x74]
}

/// The bytes of `record_size`.
pub open spec fn record_size() -> Seq<u8> {
    seq![0x72, 0x65, 0x63, 0x6F, 0x72, 0x64, 0x5F, 0x73, 0x69, 0x7A, 0x65]
}

/// Whether some bytes stand at a place.
pub open spec fn stands(b: Seq<u8>, at: int, word: Seq<u8>) -> bool {
    at + word.len() <= b.len() && b.subrange(at, at + word.len()) == word
}

/// The last place before `n` at which the marker stands.
pub open spec fn last_mark(b: Seq<u8>, n: nat) -> Option<int>
    decreases n,
{
    if n == 0 {
        None
    } else if stands(b, n - 1, mark()) {
        Some(n - 1)
    } else {
        last_mark(b, (n - 1) as nat)
    }
}

/// What stands behind the last marker.
pub open spec fn metadata(b: Seq<u8>) -> Option<Seq<u8>> {
    match last_mark(b, b.len()) {
        Some(at) => Some(b.skip(at + mark().len())),
        None => None,
    }
}

/// Where the value stands that is meant at a place, once through a pointer.
pub open spec fn meant(d: Seq<u8>, at: int) -> int {
    match head(d, at) {
        Some(h) => if h.kind == POINTER && h.body + pointer_width(h) <= d.len() {
            pointed(d, h)
        } else {
            at
        },
        None => at,
    }
}

/// The head of what is meant at a place, where its body is there whole.
pub open spec fn whole(d: Seq<u8>, at: int) -> Option<HeadView> {
    match head(d, meant(d, at)) {
        Some(h) => if h.body + h.size <= d.len() {
            Some(h)
        } else {
            None
        },
        None => None,
    }
}

/// The text at a place.
pub open spec fn text_at(d: Seq<u8>, at: int) -> Option<Seq<u8>> {
    match whole(d, at) {
        Some(h) => if h.kind == TEXT {
            Some(d.subrange(h.body, h.body + h.size))
        } else {
            None
        },
        None => None,
    }
}

/// The number without a sign at a place.
pub open spec fn number_at(d: Seq<u8>, at: int) -> Option<int> {
    match whole(d, at) {
        Some(h) => if (h.kind == UINT16 || h.kind == UINT32 || h.kind == UINT64) && h.size <= 8 {
            Some(big_endian(d.subrange(h.body, h.body + h.size)))
        } else {
            None
        },
        None => None,
    }
}

/// The number under a key, among so many keys with their values. None where a
/// key before it is no text.
pub open spec fn entry(d: Seq<u8>, at: int, count: nat, key: Seq<u8>) -> Option<int>
    decreases count,
{
    if count == 0 {
        None
    } else {
        match (text_at(d, at), behind(d, at, DEPTH as nat)) {
            (Some(k), Some(value)) => if k == key {
                number_at(d, value)
            } else {
                match behind(d, value, DEPTH as nat) {
                    Some(next) => entry(d, next, (count - 1) as nat, key),
                    None => None,
                }
            },
            _ => None,
        }
    }
}

/// The number under a key of the map that some metadata is.
pub open spec fn field(d: Seq<u8>, key: Seq<u8>) -> Option<int> {
    match head(d, 0) {
        Some(h) => if h.kind == MAP {
            entry(d, h.body, h.size as nat, key)
        } else {
            None
        },
        None => None,
    }
}

/// How many nodes the tree of a file has, and how many bits a record: what its
/// metadata says.
pub open spec fn tree_of(b: Seq<u8>) -> Option<(int, int)> {
    match metadata(b) {
        Some(d) => match (field(d, node_count()), field(d, record_size())) {
            (Some(n), Some(bits)) => Some((n, bits)),
            _ => None,
        },
        None => None,
    }
}

fn word_stands(b: &[u8], at: usize, word: &[u8]) -> (r: bool)
    requires
        at <= b@.len(),
    ensures
        r == stands(b@, at as int, word@),
{
    let n: usize = word.len();
    if n > b.len() - at {
        return false;
    }
    let end: usize = b.len();
    let mut i: usize = 0;
    while i < n
        invariant
            i <= n,
            n == word@.len(),
            at + n <= end,
            end == b@.len(),
            forall|j: int| 0 <= j < i ==> b@[at + j] == #[trigger] word@[j],
        decreases n - i,
    {
        if b[at + i] != word[i] {
            proof {
                assert(b@.subrange(at as int, at + n)[i as int] != word@[i as int]);
            }
            return false;
        }
        i = i + 1;
    }
    proof {
        assert(b@.subrange(at as int, at + n) =~= word@);
    }
    true
}

fn find_metadata<'a>(b: &'a [u8]) -> (r: Option<&'a [u8]>)
    ensures
        match r {
            Some(d) => metadata(b@) == Some(d@),
            None => metadata(b@) is None,
        },
{
    let word: [u8; 14] = [
        0xAB,
        0xCD,
        0xEF,
        0x4D,
        0x61,
        0x78,
        0x4D,
        0x69,
        0x6E,
        0x64,
        0x2E,
        0x63,
        0x6F,
        0x6D,
    ];
    let word = vstd::array::array_as_slice(&word);
    assert(word@ =~= mark());
    let end: usize = b.len();
    let mut n: usize = end;
    while n > 0
        invariant
            n <= end,
            end == b@.len(),
            word@ == mark(),
            last_mark(b@, n as nat) == last_mark(b@, b@.len()),
        decreases n,
    {
        if word_stands(b, n - 1, word) {
            return Some(slice_subrange(b, n - 1 + 14, end));
        }
        n = n - 1;
    }
    None
}

fn read_whole(d: &[u8], at: usize) -> (r: Option<Head>)
    ensures
        opt_head(r) == whole(d@, at as int),
        r matches Some(h) ==> h.body + h.size <= d@.len(),
{
    let end: usize = d.len();
    let mut place: usize = at;
    if let Some(h) = read_head(d, at) {
        if h.kind == POINTER && h.size / 8 % 4 + 1 <= end - h.body {
            let target: u64 = read_pointer(d, &h);
            if target >= end as u64 {
                return None;
            }
            place = target as usize;
        }
    }
    match read_head(d, place) {
        Some(h) => if h.size <= end - h.body {
            Some(h)
        } else {
            None
        },
        None => None,
    }
}

fn read_number(d: &[u8], at: usize) -> (r: Option<u64>)
    ensures
        match r {
            Some(n) => number_at(d@, at as int) == Some(n as int),
            None => number_at(d@, at as int) is None,
        },
{
    match read_whole(d, at) {
        Some(h) => if (h.kind == UINT16 || h.kind == UINT32 || h.kind == UINT64) && h.size <= 8 {
            Some(number(d, h.body, h.size))
        } else {
            None
        },
        None => None,
    }
}

fn read_field(d: &[u8], key: &[u8]) -> (r: Option<u64>)
    ensures
        match r {
            Some(n) => field(d@, key@) == Some(n as int),
            None => field(d@, key@) is None,
        },
{
    let h = match read_head(d, 0) {
        Some(h) => h,
        None => {
            return None;
        },
    };
    if h.kind != MAP {
        return None;
    }
    let mut at: usize = h.body;
    let mut left: usize = h.size;
    while left > 0
        invariant
            at <= d@.len(),
            entry(d@, at as int, left as nat, key@) == field(d@, key@),
        decreases left,
    {
        let k = match read_whole(d, at) {
            Some(k) => k,
            None => {
                return None;
            },
        };
        if k.kind != TEXT {
            return None;
        }
        let value: usize = match go_behind(d, at, DEPTH) {
            Some(v) => v,
            None => {
                return None;
            },
        };
        if k.size == key.len() && word_stands(d, k.body, key) {
            return read_number(d, value);
        }
        match go_behind(d, value, DEPTH) {
            Some(next) => {
                at = next;
            },
            None => {
                return None;
            },
        }
        left = left - 1;
    }
    None
}

fn read_tree(b: &[u8]) -> (r: Option<(u64, u64)>)
    ensures
        match r {
            Some(t) => tree_of(b@) == Some((t.0 as int, t.1 as int)),
            None => tree_of(b@) is None,
        },
{
    let nodes: [u8; 10] = [0x6E, 0x6F, 0x64, 0x65, 0x5F, 0x63, 0x6F, 0x75, 0x6E, 0x74];
    let nodes = vstd::array::array_as_slice(&nodes);
    let bits: [u8; 11] = [0x72, 0x65, 0x63, 0x6F, 0x72, 0x64, 0x5F, 0x73, 0x69, 0x7A, 0x65];
    let bits = vstd::array::array_as_slice(&bits);
    assert(nodes@ =~= node_count());
    assert(bits@ =~= record_size());
    match find_metadata(b) {
        Some(d) => match (read_field(d, nodes), read_field(d, bits)) {
            (Some(n), Some(r)) => Some((n, r)),
            _ => None,
        },
        None => None,
    }
}

// ------------------------------------------------------------------ the tree

/// The record on one side of a node, in a tree with so many bits a record.
pub open spec fn record(b: Seq<u8>, bits: int, node: int, side: int) -> int {
    let at = node * bits / 4;
    if bits == 24 {
        big_endian(b.subrange(at + 3 * side, at + 3 * side + 3))
    } else if bits == 28 {
        let top = if side == 0 {
            b[at + 3] as int / 16
        } else {
            b[at + 3] as int % 16
        };
        top * 0x100_0000 + big_endian(b.subrange(at + 4 * side, at + 4 * side + 3))
    } else {
        big_endian(b.subrange(at + 4 * side, at + 4 * side + 4))
    }
}

/// Whether the file holds a tree of such a shape whole, and the sixteen bytes
/// behind it.
pub open spec fn holds_tree(b: Seq<u8>, n: int, bits: int) -> bool {
    &&& bits == 24 || bits == 28 || bits == 32
    &&& n <= u32::MAX
    &&& n * bits <= usize::MAX
    &&& n * bits / 4 + 16 <= b.len()
}

/// Whether the tree is there whole, and every record in it is a node, or nothing,
/// or a place in the data section.
pub open spec fn sound_tree(b: Seq<u8>) -> bool {
    match tree_of(b) {
        Some((n, bits)) => holds_tree(b, n, bits) && forall|node: int, side: int|
            0 <= node < n && 0 <= side <= 1 ==> {
                let v = #[trigger] record(b, bits, node, side);
                v <= n || v >= n + 16
            },
        None => false,
    }
}

/// Whether the metadata, and what each record of the tree tells of, can be read
/// to an end.
pub open spec fn sound_data(b: Seq<u8>) -> bool {
    match (tree_of(b), metadata(b)) {
        (Some((n, bits)), Some(d)) => behind(d, 0, DEPTH as nat) is Some && forall|
            node: int,
            side: int,
        |
            0 <= node < n && 0 <= side <= 1 ==> {
                let v = #[trigger] record(b, bits, node, side);
                v >= n + 16 ==> behind(b.skip(n * bits / 4 + 16), v - n - 16, DEPTH as nat) is Some
            },
        _ => false,
    }
}

/// Whether a file can be opened and asked for any address.
pub open spec fn sound_file(b: Seq<u8>) -> bool {
    sound_tree(b) && sound_data(b)
}

proof fn lemma_bytes(bits: int, n: int)
    requires
        0 <= n,
    ensures
        bits == 24 ==> n * bits / 4 == 6 * n && n * bits == 24 * n,
        bits == 28 ==> n * bits / 4 == 7 * n && n * bits == 28 * n,
        bits == 32 ==> n * bits / 4 == 8 * n && n * bits == 32 * n,
{
    if bits == 24 {
        assert(n * bits == 24 * n) by (nonlinear_arith)
            requires
                bits == 24,
        ;
    }
    if bits == 28 {
        assert(n * bits == 28 * n) by (nonlinear_arith)
            requires
                bits == 28,
        ;
    }
    if bits == 32 {
        assert(n * bits == 32 * n) by (nonlinear_arith)
            requires
                bits == 32,
        ;
    }
}

fn read_record(b: &[u8], n: usize, bits: u64, node: usize, side: usize) -> (r: u64)
    requires
        holds_tree(b@, n as int, bits as int),
        node < n,
        side <= 1,
    ensures
        r == record(b@, bits as int, node as int, side as int),
{
    let end: usize = b.len();
    proof {
        lemma_bytes(bits as int, n as int);
        lemma_bytes(bits as int, node as int);
        lemma_room(3);
    }
    if bits == 24 {
        number(b, 6 * node + 3 * side, 3)
    } else if bits == 28 {
        let at: usize = 7 * node;
        let top: u64 = if side == 0 {
            (b[at + 3] / 16) as u64
        } else {
            (b[at + 3] % 16) as u64
        };
        top * 0x100_0000 + number(b, at + 4 * side, 3)
    } else {
        number(b, 8 * node + 4 * side, 4)
    }
}

/// The shape of the tree, where the file holds it whole.
fn read_shape(b: &[u8]) -> (r: Option<(usize, u64)>)
    ensures
        match r {
            Some(t) => tree_of(b@) == Some((t.0 as int, t.1 as int)) && holds_tree(
                b@,
                t.0 as int,
                t.1 as int,
            ),
            None => match tree_of(b@) {
                Some((n, bits)) => !holds_tree(b@, n, bits),
                None => true,
            },
        },
{
    let (n, bits) = match read_tree(b) {
        Some(t) => t,
        None => {
            return None;
        },
    };
    proof {
        lemma_bytes(bits as int, n as int);
    }
    if !(bits == 24 || bits == 28 || bits == 32) || n > u32::MAX as u64 {
        return None;
    }
    let all: u64 = if bits == 24 {
        24 * n
    } else if bits == 28 {
        28 * n
    } else {
        32 * n
    };
    if all > usize::MAX as u64 || all / 4 + 16 > b.len() as u64 {
        return None;
    }
    Some((n as usize, bits))
}

fn tree_is_sound(b: &[u8]) -> (r: bool)
    ensures
        r == sound_tree(b@),
{
    let (n, bits) = match read_shape(b) {
        Some(t) => t,
        None => {
            return false;
        },
    };
    let mut node: usize = 0;
    while node < n
        invariant
            node <= n,
            n <= u32::MAX,
            tree_of(b@) == Some((n as int, bits as int)),
            holds_tree(b@, n as int, bits as int),
            forall|k: int, side: int|
                0 <= k < node && 0 <= side <= 1 ==> {
                    let v = #[trigger] record(b@, bits as int, k, side);
                    v <= n || v >= n + 16
                },
        decreases n - node,
    {
        let left: u64 = read_record(b, n, bits, node, 0);
        let right: u64 = read_record(b, n, bits, node, 1);
        let top: u64 = n as u64;
        if (left > top && left < top + 16) || (right > top && right < top + 16) {
            return false;
        }
        node = node + 1;
    }
    true
}

fn none_seen(n: usize) -> (r: Vec<bool>)
    ensures
        r@.len() == n,
        forall|i: int| 0 <= i < n ==> !#[trigger] r@[i],
{
    let mut r: Vec<bool> = Vec::new();
    while r.len() < n
        invariant
            r@.len() <= n,
            forall|i: int| 0 <= i < r@.len() ==> !#[trigger] r@[i],
        decreases n - r@.len(),
    {
        r.push(false);
    }
    r
}

/// Whether the value at a place of the data section can be read to an end. The
/// places that can are kept in `seen`.
fn place_is_sound(d: &[u8], place: u64, seen: &mut Vec<bool>) -> (r: bool)
    requires
        old(seen)@.len() == d@.len(),
        forall|i: int|
            0 <= i < d@.len() && #[trigger] old(seen)@[i] ==> behind(d@, i, DEPTH as nat) is Some,
    ensures
        r == (behind(d@, place as int, DEPTH as nat) is Some),
        final(seen)@.len() == d@.len(),
        forall|i: int|
            0 <= i < d@.len() && #[trigger] final(seen)@[i] ==> behind(d@, i, DEPTH as nat) is Some,
{
    if place >= d.len() as u64 {
        return true;
    }
    let at: usize = place as usize;
    if seen[at] {
        return true;
    }
    if go_behind(d, at, DEPTH).is_none() {
        return false;
    }
    seen.set(at, true);
    true
}

fn data_is_sound(b: &[u8]) -> (r: bool)
    requires
        sound_tree(b@),
    ensures
        r == sound_data(b@),
{
    let (n, bits) = match read_shape(b) {
        Some(t) => t,
        None => {
            return false;
        },
    };
    match find_metadata(b) {
        Some(m) => if go_behind(m, 0, DEPTH).is_none() {
            return false;
        },
        None => {
            return false;
        },
    }
    proof {
        lemma_bytes(bits as int, n as int);
    }
    let tree: usize = if bits == 24 {
        6 * n
    } else if bits == 28 {
        7 * n
    } else {
        8 * n
    };
    let d = slice_subrange(b, tree + 16, b.len());
    let mut seen = none_seen(d.len());
    let mut node: usize = 0;
    while node < n
        invariant
            node <= n,
            n <= u32::MAX,
            tree_of(b@) == Some((n as int, bits as int)),
            holds_tree(b@, n as int, bits as int),
            d@ == b@.skip(n * bits / 4 + 16),
            seen@.len() == d@.len(),
            forall|i: int|
                0 <= i < d@.len() && #[trigger] seen@[i] ==> behind(d@, i, DEPTH as nat) is Some,
            forall|k: int, side: int|
                0 <= k < node && 0 <= side <= 1 ==> {
                    let v = #[trigger] record(b@, bits as int, k, side);
                    v >= n + 16 ==> behind(d@, v - n - 16, DEPTH as nat) is Some
                },
        decreases n - node,
    {
        let left: u64 = read_record(b, n, bits, node, 0);
        let right: u64 = read_record(b, n, bits, node, 1);
        let top: u64 = n as u64 + 16;
        if left >= top && !place_is_sound(d, left - top, &mut seen) {
            return false;
        }
        if right >= top && !place_is_sound(d, right - top, &mut seen) {
            return false;
        }
        node = node + 1;
    }
    true
}

pub fn file_is_sound(b: &Vec<u8>) -> (r: bool)
    ensures
        r == sound_file(b@),
{
    let b = b.as_slice();
    tree_is_sound(b) && data_is_sound(b)
}

} // verus!
