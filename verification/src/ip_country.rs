//! The country that an address was allocated to, by a table of the registries'
//! delegation records.
//!
//! A table is a header (magic, two counts of ranges, a count of country
//! codes), the codes, the IPv4 ranges and the IPv6 ranges, both sorted by
//! where they start. An address that no range holds has no answer.

use crate::input_relay::{le16, le32, read_u16_le, read_u32_le};
use crate::text::{opt_view, string_of, to_upper, upper_char};
use vstd::prelude::*;

verus! {

pub const HDR: usize = 18;

pub const V4_ENTRY: usize = 10;

pub const V6_ENTRY: usize = 18;

/// An address as a number.
#[derive(Debug, Clone, Copy, PartialEq, Eq, Structural)]
pub enum Ip {
    V4(u32),
    V6(u128),
}

/// A table, as the bytes that it was read from.
pub struct Table {
    pub blob: Vec<u8>,
    pub codes: usize,
    pub v4_count: usize,
    pub v6_count: usize,
}

// --------------------------------------------------------------- the model

pub open spec fn le64(b: Seq<u8>, off: int) -> int {
    le32(b, off) + 4294967296 * le32(b, off + 4)
}

pub open spec fn table_magic() -> Seq<u8> {
    seq![0x52u8, 0x43, 0x47, 0x45, 0x4F, 0x31, 0x00, 0x00]
}

/// How long the table must be by its header.
pub open spec fn table_len(b: Seq<u8>) -> int {
    HDR + le16(b, 16) * 2 + le32(b, 8) * V4_ENTRY + le32(b, 12) * V6_ENTRY
}

/// Whether some bytes are a table.
pub open spec fn is_table(b: Seq<u8>) -> bool {
    b.len() >= HDR && b.take(8) == table_magic() && b.len() >= table_len(b)
}

/// One range: where it starts, where it ends, and which code it has.
pub ghost struct Range {
    pub start: int,
    pub end: int,
    pub code: int,
}

/// The IPv4 range at `i`. Its end is the first address behind it.
pub open spec fn v4_range(b: Seq<u8>, i: int) -> Range {
    let o = HDR + le16(b, 16) * 2 + i * V4_ENTRY;
    Range { start: le32(b, o), end: le32(b, o + 4), code: le16(b, o + 8) }
}

pub open spec fn v4_ranges(b: Seq<u8>) -> Seq<Range> {
    Seq::new(le32(b, 8) as nat, |i: int| v4_range(b, i))
}

/// The IPv6 range at `i`, by the upper halves of the addresses. The table
/// writes the last one that it holds; here its end is the one behind that.
pub open spec fn v6_range(b: Seq<u8>, i: int) -> Range {
    let o = HDR + le16(b, 16) * 2 + le32(b, 8) * V4_ENTRY + i * V6_ENTRY;
    Range { start: le64(b, o), end: le64(b, o + 8) + 1, code: le16(b, o + 16) }
}

pub open spec fn v6_ranges(b: Seq<u8>) -> Seq<Range> {
    Seq::new(le32(b, 12) as nat, |i: int| v6_range(b, i))
}

/// How many of the ranges from `lo` to below `hi`, with all before `lo`, start
/// at `key` or before it, by halving. It is the number of such ranges where
/// the ranges are sorted.
pub open spec fn halved(r: Seq<Range>, key: int, lo: int, hi: int) -> int
    decreases hi - lo,
{
    if lo >= hi {
        lo
    } else {
        let mid = (lo + hi) / 2;
        if r[mid].start <= key {
            halved(r, key, mid + 1, hi)
        } else {
            halved(r, key, lo, mid)
        }
    }
}

/// The code of the range that holds `key`: the last one that starts at it or
/// before, if it reaches so far.
pub open spec fn code_at(r: Seq<Range>, key: int) -> Option<int> {
    let n = halved(r, key, 0, r.len() as int);
    if n <= 0 {
        None
    } else if r[n - 1].start <= key < r[n - 1].end {
        Some(r[n - 1].code)
    } else {
        None
    }
}

/// The text that two bytes of UTF-8 write, in ASCII upper case.
pub open spec fn code_text(a: u8, b: u8) -> Option<Seq<char>> {
    if a < 0x80 && b < 0x80 {
        Some(seq![upper_char(a as char), upper_char(b as char)])
    } else if 0xC2 <= a <= 0xDF && 0x80 <= b <= 0xBF {
        Some(seq![((a - 0xC0) * 64 + (b - 0x80)) as char])
    } else {
        None
    }
}

/// The country code at `i` of the table.
pub open spec fn country_code(b: Seq<u8>, i: int) -> Option<Seq<char>> {
    if i >= le16(b, 16) {
        None
    } else {
        code_text(b[HDR + 2 * i], b[HDR + 2 * i + 1])
    }
}

pub open spec fn country_of(b: Seq<u8>, code: Option<int>) -> Option<Seq<char>> {
    match code {
        Some(i) => country_code(b, i),
        None => None,
    }
}

/// The IPv4 address that an IPv6 address maps, where it does.
pub open spec fn mapped_v4(ip: u128) -> Option<int> {
    if ip as int / 4294967296 == 0xFFFF {
        Some(ip as int % 4294967296)
    } else {
        None
    }
}

/// The country of an address.
pub open spec fn country(b: Seq<u8>, ip: Ip) -> Option<Seq<char>> {
    match ip {
        Ip::V4(a) => country_of(b, code_at(v4_ranges(b), a as int)),
        Ip::V6(a) => match mapped_v4(a) {
            Some(m) => country_of(b, code_at(v4_ranges(b), m)),
            None => country_of(b, code_at(v6_ranges(b), a as int / 18446744073709551616)),
        },
    }
}

// --------------------------------------------------------------- the table

impl Table {
    /// The counts are those of the header, and the bytes are a table.
    pub open spec fn wf(&self) -> bool {
        &&& is_table(self.blob@)
        &&& self.codes == le16(self.blob@, 16)
        &&& self.v4_count == le32(self.blob@, 8)
        &&& self.v6_count == le32(self.blob@, 12)
    }

    /// Reads a table. Bytes that are none give nothing, so a server without a
    /// good table shows no flags and runs all the same.
    pub fn parse(blob: Vec<u8>) -> (r: Option<Table>)
        ensures
            match r {
                Some(t) => t.wf() && t.blob@ == blob@,
                None => !is_table(blob@),
            },
    {
        if blob.len() < HDR {
            return None;
        }
        proof {
            assert(blob@.take(8).len() == 8);
        }
        if blob[0] != 0x52 || blob[1] != 0x43 || blob[2] != 0x47 || blob[3] != 0x45 || blob[4]
            != 0x4F || blob[5] != 0x31 || blob[6] != 0x00 || blob[7] != 0x00 {
            proof {
                let m = blob@.take(8);
                assert(m[0] == blob@[0] && m[1] == blob@[1] && m[2] == blob@[2] && m[3] == blob@[3]
                    && m[4] == blob@[4] && m[5] == blob@[5] && m[6] == blob@[6] && m[7]
                    == blob@[7]);
            }
            return None;
        }
        proof {
            assert(blob@.take(8) =~= table_magic());
        }
        let (v4, v6, cc) = match (
            read_u32_le(blob.as_slice(), 8),
            read_u32_le(blob.as_slice(), 12),
            read_u16_le(blob.as_slice(), 16),
        ) {
            (Some(v4), Some(v6), Some(cc)) => (v4, v6, cc),
            _ => {
                return None;
            },
        };
        let need: u64 = 18 + (cc as u64) * 2 + (v4 as u64) * 10 + (v6 as u64) * 18;
        if (blob.len() as u64) < need {
            return None;
        }
        Some(
            Table { blob, codes: cc as usize, v4_count: v4 as usize, v6_count: v6 as usize },
        )
    }

    /// The IPv4 range at `i`: its first address, the one behind its last, and
    /// its code.
    pub fn v4_at(&self, i: usize) -> (r: (u32, u32, u16))
        requires
            self.wf(),
            i < self.v4_count,
        ensures
            r.0 == v4_ranges(self.blob@)[i as int].start,
            r.1 == v4_ranges(self.blob@)[i as int].end,
            r.2 == v4_ranges(self.blob@)[i as int].code,
    {
        let n: usize = self.blob.len();
        proof {
            assert(i * V4_ENTRY + V4_ENTRY <= self.v4_count * V4_ENTRY) by (nonlinear_arith)
                requires
                    i < self.v4_count,
            ;
            assert(HDR + self.codes * 2 + i * V4_ENTRY + V4_ENTRY <= n);
        }
        let o: usize = HDR + self.codes * 2 + i * V4_ENTRY;
        let b = self.blob.as_slice();
        match (read_u32_le(b, o), read_u32_le(b, o + 4), read_u16_le(b, o + 8)) {
            (Some(s), Some(e), Some(c)) => (s, e, c),
            _ => (0, 0, 0),
        }
    }

    /// The IPv6 range at `i`: the upper half of its first address, that of its
    /// last one, and its code.
    pub fn v6_at(&self, i: usize) -> (r: (u64, u64, u16))
        requires
            self.wf(),
            i < self.v6_count,
        ensures
            r.0 == v6_ranges(self.blob@)[i as int].start,
            r.1 + 1 == v6_ranges(self.blob@)[i as int].end,
            r.2 == v6_ranges(self.blob@)[i as int].code,
    {
        let n: usize = self.blob.len();
        proof {
            assert(i * V6_ENTRY + V6_ENTRY <= self.v6_count * V6_ENTRY) by (nonlinear_arith)
                requires
                    i < self.v6_count,
            ;
            assert(HDR + self.codes * 2 + self.v4_count * V4_ENTRY + i * V6_ENTRY + V6_ENTRY <= n);
        }
        let o: usize = HDR + self.codes * 2 + self.v4_count * V4_ENTRY + i * V6_ENTRY;
        let b = self.blob.as_slice();
        match (
            read_u32_le(b, o),
            read_u32_le(b, o + 4),
            read_u32_le(b, o + 8),
            read_u32_le(b, o + 12),
            read_u16_le(b, o + 16),
        ) {
            (Some(s0), Some(s1), Some(e0), Some(e1), Some(c)) => (
                s0 as u64 + 4294967296 * (s1 as u64),
                e0 as u64 + 4294967296 * (e1 as u64),
                c,
            ),
            _ => (0, 0, 0),
        }
    }

    /// The country code at `idx`.
    pub fn code(&self, idx: u16) -> (r: Option<String>)
        requires
            self.wf(),
        ensures
            opt_view(r) == country_code(self.blob@, idx as int),
    {
        if idx as usize >= self.codes {
            return None;
        }
        let o: usize = HDR + 2 * (idx as usize);
        let a = self.blob[o];
        let b = self.blob[o + 1];
        let mut out: Vec<char> = Vec::new();
        if a < 0x80 && b < 0x80 {
            out.push(to_upper(a as char));
            out.push(to_upper(b as char));
        } else if a >= 0xC2 && a <= 0xDF && b >= 0x80 && b <= 0xBF {
            match char::from_u32(((a - 0xC0) as u32) * 64 + ((b - 0x80) as u32)) {
                Some(c) => {
                    out.push(c);
                },
                None => {
                    return None;
                },
            }
        } else {
            return None;
        }
        proof {
            assert(out@.subrange(0, out@.len() as int) =~= out@);
            assert(out@ =~= code_text(a, b)->0);
        }
        Some(string_of(&out, 0, out.len()))
    }

    /// The country of an IPv4 address.
    pub fn lookup_v4(&self, key: u32) -> (r: Option<String>)
        requires
            self.wf(),
        ensures
            opt_view(r) == country_of(self.blob@, code_at(v4_ranges(self.blob@), key as int)),
    {
        let ghost all = v4_ranges(self.blob@);
        let mut lo: usize = 0;
        let mut hi: usize = self.v4_count;
        while lo < hi
            invariant
                self.wf(),
                all == v4_ranges(self.blob@),
                lo <= hi <= self.v4_count,
                self.v4_count == all.len(),
                halved(all, key as int, 0, all.len() as int) == halved(
                    all,
                    key as int,
                    lo as int,
                    hi as int,
                ),
            decreases hi - lo,
        {
            let mid: usize = lo + (hi - lo) / 2;
            if self.v4_at(mid).0 <= key {
                lo = mid + 1;
            } else {
                hi = mid;
            }
        }
        if lo == 0 {
            return None;
        }
        let (start, end, code) = self.v4_at(lo - 1);
        if start <= key && key < end {
            self.code(code)
        } else {
            None
        }
    }

    /// The country of an IPv6 address, by its upper half: no delegation tells
    /// two lower halves apart.
    pub fn lookup_v6(&self, key_hi: u64) -> (r: Option<String>)
        requires
            self.wf(),
        ensures
            opt_view(r) == country_of(self.blob@, code_at(v6_ranges(self.blob@), key_hi as int)),
    {
        let ghost all = v6_ranges(self.blob@);
        let mut lo: usize = 0;
        let mut hi: usize = self.v6_count;
        while lo < hi
            invariant
                self.wf(),
                all == v6_ranges(self.blob@),
                lo <= hi <= self.v6_count,
                self.v6_count == all.len(),
                halved(all, key_hi as int, 0, all.len() as int) == halved(
                    all,
                    key_hi as int,
                    lo as int,
                    hi as int,
                ),
            decreases hi - lo,
        {
            let mid: usize = lo + (hi - lo) / 2;
            if self.v6_at(mid).0 <= key_hi {
                lo = mid + 1;
            } else {
                hi = mid;
            }
        }
        if lo == 0 {
            return None;
        }
        let (start, last, code) = self.v6_at(lo - 1);
        if start <= key_hi && key_hi <= last {
            self.code(code)
        } else {
            None
        }
    }
}

/// The country of an address as two letters, where the table has an answer.
pub fn lookup(table: &Option<Table>, addr: Ip) -> (r: Option<String>)
    requires
        table is Some ==> table->0.wf(),
    ensures
        opt_view(r) == (match *table {
            Some(t) => country(t.blob@, addr),
            None => None,
        }),
{
    match table {
        Some(t) => match addr {
            Ip::V4(a) => t.lookup_v4(a),
            Ip::V6(a) => {
                let high: u128 = a / 4294967296;
                if high == 0xFFFF {
                    let low: u128 = a % 4294967296;
                    t.lookup_v4(low as u32)
                } else {
                    let half: u128 = a / 18446744073709551616;
                    t.lookup_v6(half as u64)
                }
            },
        },
        None => None,
    }
}

/// How many ranges the table has, of either kind.
pub fn range_counts(table: &Option<Table>) -> (r: (usize, usize))
    requires
        table is Some ==> table->0.wf(),
    ensures
        r == (match *table {
            Some(t) => (
                v4_ranges(t.blob@).len() as usize,
                v6_ranges(t.blob@).len() as usize,
            ),
            None => (0usize, 0usize),
        }),
{
    match table {
        Some(t) => (t.v4_count, t.v6_count),
        None => (0, 0),
    }
}

// -------------------------------------------------------------------- laws

/// Ranges in order, none reaching into the next one.
pub open spec fn in_order(r: Seq<Range>) -> bool {
    &&& forall|i: int| 0 <= i < r.len() ==> (#[trigger] r[i]).start < r[i].end
    &&& forall|i: int, j: int|
        0 <= i < j < r.len() ==> (#[trigger] r[i]).end <= (#[trigger] r[j]).start
}

proof fn lemma_halved(r: Seq<Range>, key: int, lo: int, hi: int)
    requires
        in_order(r),
        0 <= lo <= hi <= r.len(),
        forall|i: int| 0 <= i < lo ==> (#[trigger] r[i]).start <= key,
        forall|i: int| hi <= i < r.len() ==> (#[trigger] r[i]).start > key,
    ensures
        lo <= halved(r, key, lo, hi) <= hi,
        forall|i: int| 0 <= i < halved(r, key, lo, hi) ==> (#[trigger] r[i]).start <= key,
        forall|i: int| halved(r, key, lo, hi) <= i < r.len() ==> (#[trigger] r[i]).start > key,
    decreases hi - lo,
{
    if lo < hi {
        let mid = (lo + hi) / 2;
        if r[mid].start <= key {
            assert forall|i: int| 0 <= i < mid + 1 implies (#[trigger] r[i]).start <= key by {
                if i < mid {
                    assert(r[i].end <= r[mid].start);
                }
            }
            lemma_halved(r, key, mid + 1, hi);
        } else {
            assert forall|i: int| mid <= i < r.len() implies (#[trigger] r[i]).start > key by {
                if mid < i {
                    assert(r[mid].end <= r[i].start);
                }
            }
            lemma_halved(r, key, lo, mid);
        }
    }
}

/// In a table whose ranges are in order the search finds the range that holds
/// an address, and finds nothing where none does.
pub proof fn law_search_is_exact(r: Seq<Range>, key: int)
    requires
        in_order(r),
    ensures
        match code_at(r, key) {
            Some(c) => exists|i: int|
                0 <= i < r.len() && (#[trigger] r[i]).start <= key < r[i].end && r[i].code == c,
            None => forall|i: int|
                0 <= i < r.len() ==> !((#[trigger] r[i]).start <= key < r[i].end),
        },
        forall|i: int|
            0 <= i < r.len() && (#[trigger] r[i]).start <= key < r[i].end ==> code_at(r, key)
                == Some(r[i].code),
{
    let n = halved(r, key, 0, r.len() as int);
    lemma_halved(r, key, 0, r.len() as int);
    assert forall|i: int| 0 <= i < r.len() && (#[trigger] r[i]).start <= key < r[i].end implies i
        == n - 1 by {
        if i < n - 1 {
            assert(r[i].end <= r[n - 1].start);
        }
    }
}

/// A mapped address answers from the IPv4 table.
pub proof fn law_mapped_is_v4(b: Seq<u8>, a: u32)
    ensures
        country(b, Ip::V6((0xFFFF * 4294967296 + a) as u128)) == country(b, Ip::V4(a)),
{
}

} // verus!
