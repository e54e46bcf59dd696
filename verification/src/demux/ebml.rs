//! EBML primitives and Matroska clusters.

use vstd::prelude::*;
use vstd::slice::slice_subrange;

use crate::demux::detect::four_at;
use crate::demux::types::{sorted_by, SeekEntry, SeekIndex, SeekKey};

verus! {

// ---------------------------------------------------------------------------
// Numbers
// ---------------------------------------------------------------------------

/// The number whose digits to base 256 are `s`, the most significant one first.
pub open spec fn big_endian(s: Seq<u8>) -> nat
    decreases s.len(),
{
    if s.len() == 0 {
        0
    } else {
        256 * big_endian(s.drop_last()) + s.last() as nat
    }
}

/// The low 64 bits of the number whose digits to base 256 are `s`.
pub open spec fn big_endian_u64(s: Seq<u8>) -> u64
    decreases s.len(),
{
    if s.len() == 0 {
        0
    } else {
        ((big_endian_u64(s.drop_last()) % 0x100_0000_0000_0000) * 256 + s.last()) as u64
    }
}

/// The value of `u` in two's complement.
pub open spec fn as_signed(u: u64) -> i64 {
    if u <= i64::MAX {
        u as i64
    } else {
        (u - 0x1_0000_0000_0000_0000) as i64
    }
}

/// The value of `u` in two's complement.
pub fn to_signed(u: u64) -> (r: i64)
    ensures
        r == as_signed(u),
{
    if u <= 0x7fff_ffff_ffff_ffff {
        u as i64
    } else {
        -1 - (u64::MAX - u) as i64
    }
}

/// The quotient of `a` and `d`, rounded towards zero.
pub open spec fn quotient(a: int, d: int) -> int {
    if a >= 0 {
        a / d
    } else {
        -((-a) / d)
    }
}

/// The quotient of `a` and `d`, rounded towards zero.
pub fn divide(a: i64, d: i64) -> (r: i64)
    requires
        d > 0,
    ensures
        r == quotient(a as int, d as int),
{
    if a >= 0 {
        a / d
    } else {
        let n: i128 = -(a as i128);
        let q: i128 = n / (d as i128);
        proof {
            vstd::arithmetic::div_mod::lemma_div_is_ordered_by_denominator(n as int, 1, d as int);
            vstd::arithmetic::div_mod::lemma_div_pos_is_pos(n as int, d as int);
        }
        (-q) as i64
    }
}

/// The product of `a` and `b`, limited to 64 bits.
pub open spec fn limited_product(a: int, b: int) -> int {
    if a * b > i64::MAX {
        i64::MAX as int
    } else if a * b < i64::MIN {
        i64::MIN as int
    } else {
        a * b
    }
}

/// The product of `a` and `b`, limited to 64 bits.
pub fn multiply_limited(a: i64, b: i64) -> (r: i64)
    ensures
        r == limited_product(a as int, b as int),
{
    assert(-0x4000_0000_0000_0000_0000_0000_0000_0000 <= a * b <= 0x4000_0000_0000_0000_0000_0000_0000_0000) by (nonlinear_arith)
        requires
            -0x8000_0000_0000_0000 <= a <= 0x7fff_ffff_ffff_ffff,
            -0x8000_0000_0000_0000 <= b <= 0x7fff_ffff_ffff_ffff,
    ;
    let p: i128 = a as i128 * b as i128;
    if p > 0x7fff_ffff_ffff_ffff {
        i64::MAX
    } else if p < -0x8000_0000_0000_0000 {
        i64::MIN
    } else {
        p as i64
    }
}

// ---------------------------------------------------------------------------
// Variable-length integers
// ---------------------------------------------------------------------------

/// The length of a variable-length integer by its first byte; zero where no bit
/// is set.
pub open spec fn vint_width(first: u8) -> int {
    if first >= 128 {
        1
    } else if first >= 64 {
        2
    } else if first >= 32 {
        3
    } else if first >= 16 {
        4
    } else if first >= 8 {
        5
    } else if first >= 4 {
        6
    } else if first >= 2 {
        7
    } else if first >= 1 {
        8
    } else {
        0
    }
}

/// The marker bit of a variable-length integer of `width` bytes.
pub open spec fn vint_marker(width: int) -> int {
    if width == 1 {
        128
    } else if width == 2 {
        64
    } else if width == 3 {
        32
    } else if width == 4 {
        16
    } else if width == 5 {
        8
    } else if width == 6 {
        4
    } else if width == 7 {
        2
    } else {
        1
    }
}

/// The variable-length integer at the start of `data` and its length: the bytes
/// without the marker bit of the first one.
pub open spec fn vint(data: Seq<u8>) -> Option<(int, int)> {
    if data.len() == 0 {
        None
    } else {
        let w = vint_width(data[0]);
        if w == 0 || data.len() < w {
            None
        } else {
            Some((big_endian(data.take(w).update(0, (data[0] - vint_marker(w)) as u8)) as int, w))
        }
    }
}

/// A bound on a number of `n + 1` digits that begins below 128.
spec fn digit_bound(n: nat) -> int
    decreases n,
{
    if n == 0 {
        128
    } else {
        256 * digit_bound((n - 1) as nat)
    }
}

/// Parse an EBML variable-length integer (VINT) from the start of `data`.
/// Returns `(value, bytes_consumed)` or None if data is too short.
///
/// VINT encoding: the number of leading zero bits determines the byte width.
/// - 1xxxxxxx = 1 byte (7 data bits)
/// - 01xxxxxx xxxxxxxx = 2 bytes (14 data bits)
/// - 001xxxxx xxxxxxxx xxxxxxxx = 3 bytes (21 data bits)
/// - etc.
pub fn parse_ebml_vint(data: &[u8]) -> (r: Option<(u64, usize)>)
    ensures
        match r {
            Some((value, len)) => vint(data@) == Some((value as int, len as int)) && 1 <= len <= 8 && len <= data.len(),
            None => vint(data@) is None,
        },
{
    if data.len() == 0 {
        return None;
    }
    let first: u8 = data[0];
    let (width, marker): (usize, u8) = if first >= 128 {
        (1, 128)
    } else if first >= 64 {
        (2, 64)
    } else if first >= 32 {
        (3, 32)
    } else if first >= 16 {
        (4, 16)
    } else if first >= 8 {
        (5, 8)
    } else if first >= 4 {
        (6, 4)
    } else if first >= 2 {
        (7, 2)
    } else if first >= 1 {
        (8, 1)
    } else {
        (0, 0)
    };
    if width == 0 || data.len() < width {
        return None;
    }
    let ghost digits = data@.take(width as int).update(0, (first - marker) as u8);
    let mut value: u64 = (first - marker) as u64;
    let mut i: usize = 1;
    proof {
        assert(digits.take(1).drop_last() =~= Seq::empty());
        assert(digits.take(1).last() == (first - marker) as u8);
        reveal_with_fuel(big_endian, 2);
        reveal_with_fuel(digit_bound, 8);
    }
    while i < width
        invariant
            1 <= i <= width <= 8,
            width <= data.len(),
            digits == data@.take(width as int).update(0, (first - marker) as u8),
            value == big_endian(digits.take(i as int)),
            value < digit_bound((i - 1) as nat),
        decreases width - i,
    {
        proof {
            assert(digits.take(i + 1).drop_last() =~= digits.take(i as int));
            assert(digits.take(i + 1).last() == data@[i as int]);
            reveal_with_fuel(digit_bound, 8);
        }
        value = value * 256 + data[i] as u64;
        i = i + 1;
    }
    assert(digits.take(width as int) =~= digits);
    Some((value, width))
}

/// Decode an EBML variable-length unsigned integer (VINT).
/// Returns (byte_length, value). (0, 0) on error.
pub fn decode_ebml_vint(data: &[u8]) -> (r: (usize, u64))
    ensures
        match vint(data@) {
            Some((value, len)) => r.0 == len && r.1 == value && 1 <= len <= 8,
            None => r == (0usize, 0u64),
        },
{
    match parse_ebml_vint(data) {
        Some((value, len)) => (len, value),
        None => (0, 0),
    }
}

// ---------------------------------------------------------------------------
// Clusters
// ---------------------------------------------------------------------------

/// Whether a Cluster ID stands at `i`.
pub open spec fn cluster_id_at(data: Seq<u8>, i: int) -> bool {
    four_at(data, i, 0x1F, 0x43, 0xB6, 0x75)
}

/// Whether a Cluster ID stands at `i` that a plausible size follows, or the end
/// of the data.
pub open spec fn cluster_at(data: Seq<u8>, i: int) -> bool {
    cluster_id_at(data, i) && (i + 4 < data.len() ==> data[i + 4] != 0)
}

/// Whether a Cluster ID stands at `i`.
fn is_cluster_id(data: &[u8], i: usize) -> (r: bool)
    requires
        i <= data.len(),
    ensures
        r == cluster_id_at(data@, i as int),
{
    data.len() - i >= 4 && data[i] == 0x1F && data[i + 1] == 0x43 && data[i + 2] == 0xB6 && data[i + 3] == 0x75
}

/// Find the byte offset of the first valid MKV Cluster element (ID: 0x1F43B675).
/// Validates that the Cluster ID is followed by a plausible VINT size to reduce
/// false positives (the 4-byte sequence can appear in compressed frame data).
pub fn find_cluster_offset(data: &[u8]) -> (r: Option<usize>)
    ensures
        match r {
            Some(i) => data.len() > 4 && cluster_at(data@, i as int) && forall|j: int| 0 <= j < i ==> !cluster_at(data@, j),
            None => data.len() <= 4 || forall|j: int| !cluster_at(data@, j),
        },
{
    if data.len() <= 4 {
        return None;
    }
    let mut i: usize = 0;
    while i <= data.len() - 4
        invariant
            4 < data.len(),
            i <= data.len() - 3,
            forall|j: int| 0 <= j < i ==> !cluster_at(data@, j),
        decreases data.len() - i,
    {
        if is_cluster_id(data, i) && (i == data.len() - 4 || data[i + 4] != 0) {
            return Some(i);
        }
        i = i + 1;
    }
    None
}

/// The value of the Timestamp element among the elements from `pos` on.
pub open spec fn timestamp_from(data: Seq<u8>, pos: int) -> Option<u64>
    decreases
        (if pos < data.len() {
            data.len() - pos
        } else {
            0
        }),
{
    if pos < 0 || pos >= data.len() {
        None
    } else if data[pos] == 0xE7 {
        match vint(data.skip(pos + 1)) {
            None => None,
            Some((size, len)) => {
                let start = pos + 1 + len;
                if start + size > data.len() {
                    None
                } else {
                    Some(big_endian_u64(data.subrange(start, start + size)))
                }
            },
        }
    } else {
        match vint(data.skip(pos)) {
            None => None,
            Some((_, id_len)) => match vint(data.skip(pos + id_len)) {
                None => None,
                Some((size, len)) => if size < 0 || id_len <= 0 || len < 0 {
                    None
                } else {
                    timestamp_from(data, pos + id_len + len + size)
                },
            },
        }
    }
}

/// The bytes of `data` from `i` on.
pub fn tail(data: &[u8], i: usize) -> (r: &[u8])
    requires
        i <= data.len(),
    ensures
        r@ == data@.skip(i as int),
{
    let r: &[u8] = slice_subrange(data, i, data.len());
    assert(r@ =~= data@.skip(i as int));
    r
}

/// Find the Timestamp element (ID 0xE7) within a Cluster's content and return its value.
/// The Timestamp is typically the first child element of a Cluster.
pub fn find_cluster_timestamp(data: &[u8]) -> (r: Option<u64>)
    ensures
        r == timestamp_from(data@, 0),
{
    let mut pos: usize = 0;
    while pos < data.len()
        invariant
            timestamp_from(data@, 0) == timestamp_from(data@, pos as int),
        decreases data.len() - pos,
    {
        if data[pos] == 0xE7 {
            let (size, len) = match parse_ebml_vint(tail(data, pos + 1)) {
                Some(v) => v,
                None => {
                    return None;
                },
            };
            let start: usize = pos + 1 + len;
            if size > (data.len() - start) as u64 {
                return None;
            }
            let end: usize = start + size as usize;
            let mut value: u64 = 0;
            let mut i: usize = start;
            let ghost all = data@.subrange(start as int, end as int);
            assert(all.take(0) =~= Seq::empty());
            while i < end
                invariant
                    start <= i <= end <= data.len(),
                    all == data@.subrange(start as int, end as int),
                    value == big_endian_u64(all.take(i - start)),
                decreases end - i,
            {
                proof {
                    assert(all.take(i - start + 1).drop_last() =~= all.take(i - start));
                    assert(all.take(i - start + 1).last() == data@[i as int]);
                }
                value = (value % 0x100_0000_0000_0000) * 256 + data[i] as u64;
                i = i + 1;
            }
            assert(all.take(end - start) =~= all);
            return Some(value);
        }
        let (_, id_len) = match parse_ebml_vint(tail(data, pos)) {
            Some(v) => v,
            None => {
                return None;
            },
        };
        let size_pos: usize = pos + id_len;
        let (elem_size, size_len) = match parse_ebml_vint(tail(data, size_pos)) {
            Some(v) => v,
            None => {
                return None;
            },
        };
        let content: usize = size_pos + size_len;
        if elem_size > (data.len() - content) as u64 {
            assert(timestamp_from(data@, content + elem_size) is None);
            return None;
        }
        pos = content + elem_size as usize;
    }
    None
}

/// The first Cluster ID at or behind `pos`.
pub open spec fn next_cluster_id(data: Seq<u8>, pos: int) -> Option<int>
    decreases data.len() - pos,
{
    if pos < 0 || pos >= data.len() {
        None
    } else if cluster_id_at(data, pos) {
        Some(pos)
    } else {
        next_cluster_id(data, pos + 1)
    }
}

/// A timestamp in ticks of `scale_ns` nanoseconds, as microseconds.
pub open spec fn cluster_time_us(timestamp: u64, scale_ns: u64) -> i64 {
    quotient(as_signed(timestamp).wrapping_mul(as_signed(scale_ns)) as int, 1000) as i64
}

/// The entry of the Cluster at `c` whose content begins at `content`, where its
/// first 32 bytes hold a timestamp.
pub open spec fn cluster_entry(data: Seq<u8>, scale_ns: u64, c: int, content: int) -> Seq<SeekEntry> {
    let end = if content + 32 < data.len() { content + 32 } else { data.len() as int };
    if content < end {
        match timestamp_from(data.subrange(content, end), 0) {
            Some(t) => seq![SeekEntry { timestamp_us: cluster_time_us(t, scale_ns), byte_offset: c as u64 }],
            None => Seq::empty(),
        }
    } else {
        Seq::empty()
    }
}

/// The entries of the Clusters from `pos` on, in the order of the data.
pub open spec fn cluster_entries(data: Seq<u8>, scale_ns: u64, pos: int) -> Seq<SeekEntry>
    decreases
        (if pos < data.len() {
            data.len() - pos
        } else {
            0
        }),
{
    if pos < 0 || pos + 4 >= data.len() {
        Seq::empty()
    } else {
        match next_cluster_id(data, pos) {
            None => Seq::empty(),
            Some(c) => if c < pos || c + 4 >= data.len() {
                Seq::empty()
            } else {
                match vint(data.skip(c + 4)) {
                    None => cluster_entries(data, scale_ns, c + 1),
                    Some((size, len)) => if size <= 0 {
                        cluster_entries(data, scale_ns, c + 1)
                    } else {
                        cluster_entry(data, scale_ns, c, c + 4 + len) + (if len < 0 {
                            Seq::empty()
                        } else {
                            cluster_entries(data, scale_ns, c + 4 + len + size)
                        })
                    },
                }
            },
        }
    }
}

fn find_cluster_id(data: &[u8], pos: usize) -> (r: Option<usize>)
    ensures
        match r {
            Some(i) => next_cluster_id(data@, pos as int) == Some(i as int) && pos <= i && i + 4 <= data.len(),
            None => next_cluster_id(data@, pos as int) is None,
        },
{
    let mut i: usize = pos;
    while i < data.len()
        invariant
            pos <= i,
            next_cluster_id(data@, pos as int) == next_cluster_id(data@, i as int),
        decreases data.len() - i,
    {
        if is_cluster_id(data, i) {
            return Some(i);
        }
        i = i + 1;
    }
    None
}

/// Scan raw data for MKV Cluster elements and extract their timestamps + offsets.
/// `start_offset` allows incremental scanning: only scan data[start_offset..].
/// The returned SeekIndex contains entries with ABSOLUTE byte offsets in `data`.
///
/// Each Cluster starts with ID 0x1F43B675, followed by a VINT size,
/// then contains a Timestamp element (ID 0xE7) with the cluster's
/// timestamp in TimestampScale units.
pub fn scan_clusters_for_seek_index(data: &[u8], timestamp_scale_ns: u64, start_offset: usize) -> (r: SeekIndex)
    ensures
        r@ == sorted_by(cluster_entries(data@, timestamp_scale_ns, start_offset as int), SeekKey::Timestamp),
{
    let ghost all = cluster_entries(data@, timestamp_scale_ns, start_offset as int);
    let mut entries: Vec<SeekEntry> = Vec::new();
    let mut pos: usize = start_offset;
    let mut more: bool = true;
    assert(all =~= entries@ + all);
    while more && pos < data.len() && data.len() - pos > 4
        invariant
            more ==> all == entries@ + cluster_entries(data@, timestamp_scale_ns, pos as int),
            !more ==> all == entries@,
        decreases (if more { data.len() - pos + 1 } else { 0 }),
    {
        let ghost before = entries@;
        match find_cluster_id(data, pos) {
            None => {
                more = false;
                assert(all =~= entries@);
            },
            Some(c) => {
                let after_id: usize = c + 4;
                if after_id >= data.len() {
                    more = false;
                    assert(all =~= entries@);
                } else {
                    match parse_ebml_vint(tail(data, after_id)) {
                        None => {
                            pos = c + 1;
                        },
                        Some((size, len)) => {
                            if size == 0 {
                                pos = c + 1;
                            } else {
                                let content: usize = after_id + len;
                                let end: usize = if data.len() - content > 32 { content + 32 } else { data.len() };
                                let ghost rest = cluster_entries(data@, timestamp_scale_ns, content + size);
                                if content < end {
                                    if let Some(timestamp) = find_cluster_timestamp(slice_subrange(data, content, end)) {
                                        let ticks: i64 = to_signed(timestamp);
                                        let product: i64 = ticks.wrapping_mul(to_signed(timestamp_scale_ns));
                                        entries.push(
                                            SeekEntry { timestamp_us: divide(product, 1000), byte_offset: c as u64 },
                                        );
                                    }
                                }
                                assert(entries@ =~= before + cluster_entry(data@, timestamp_scale_ns, c as int, content as int));
                                assert(all =~= entries@ + rest);
                                if size > (data.len() - content) as u64 {
                                    more = false;
                                    assert(all =~= entries@);
                                } else {
                                    pos = content + size as usize;
                                }
                            }
                        },
                    }
                }
            },
        }
    }
    assert(all =~= entries@);
    SeekIndex::from_entries(entries)
}

// ---------------------------------------------------------------------------
// SeekHead
// ---------------------------------------------------------------------------

/// Whether a SeekHead ID stands at `i` within the first 256 bytes.
pub open spec fn seekhead_at(data: Seq<u8>, i: int) -> bool {
    i + 4 <= 256 && four_at(data, i, 0x11, 0x4D, 0x9B, 0x74)
}

/// The end of the SeekHead element at `i`; without a size, the end of its ID.
pub open spec fn seekhead_end(data: Seq<u8>, i: int) -> int {
    match vint(data.skip(i + 4)) {
        None => i + 4,
        Some((size, len)) => if i + 4 + len + size < data.len() {
            i + 4 + len + size
        } else {
            data.len() as int
        },
    }
}

/// The first SeekHead at or behind `i`.
pub open spec fn seekhead_from(data: Seq<u8>, i: int) -> Option<int>
    decreases data.len() - i,
{
    if i < 0 || i >= data.len() || i >= 256 {
        None
    } else if seekhead_at(data, i) {
        Some(i)
    } else {
        seekhead_from(data, i + 1)
    }
}

/// `data` with the first SeekHead element, where there is one, overwritten with
/// zeros.
pub open spec fn without_seekhead(data: Seq<u8>) -> Seq<u8> {
    match seekhead_from(data, 0) {
        None => data,
        Some(i) => Seq::new(data.len(), |j: int| if i <= j < seekhead_end(data, i) { 0u8 } else { data[j] }),
    }
}

/// Neutralising the SeekHead keeps the length of the data.
pub proof fn law_seekhead_length(data: Seq<u8>)
    ensures
        without_seekhead(data).len() == data.len(),
{
}

/// Zero out the entire SeekHead element in raw EBML data.
///
/// The SeekHead (ID: 0x114D9B74) contains offsets to elements like Cues, Tags,
/// Chapters — which may be at the END of a multi-GB file. When parsing a truncated
/// buffer, seeking to those offsets causes an IoError that aborts the parse.
///
/// By zeroing the entire element (ID + VINT + data), the EBML parser skips the
/// zero bytes and falls back to a sequential scan that only finds elements within
/// the buffer and gracefully handles EOF.
pub fn neutralize_seekhead(data: &mut Vec<u8>)
    ensures
        final(data)@ == without_seekhead(old(data)@),
{
    let ghost before = data@;
    let mut i: usize = 0;
    while i < data.len() && i < 256
        invariant
            data@ == before,
            before == old(data)@,
            seekhead_from(before, 0) == seekhead_from(before, i as int),
        decreases data.len() - i,
    {
        if i <= 252 && data.len() - i >= 4 && data[i] == 0x11 && data[i + 1] == 0x4D && data[i + 2] == 0x9B && data[i + 3] == 0x74 {
            let (len, size): (usize, u64) = decode_ebml_vint(tail(data.as_slice(), i + 4));
            let end: usize = if len == 0 {
                i + 4
            } else if size < (data.len() - i - 4 - len) as u64 {
                i + 4 + len + size as usize
            } else {
                data.len()
            };
            assert(end == seekhead_end(before, i as int));
            let mut j: usize = i;
            while j < end
                invariant
                    i <= j <= end <= data.len(),
                    data.len() == before.len(),
                    forall|k: int| 0 <= k < data.len() ==> #[trigger] data@[k] == if i <= k < j { 0u8 } else { before[k] },
                decreases end - j,
            {
                data.set(j, 0);
                j = j + 1;
            }
            assert(data@ =~= without_seekhead(before));
            return ;
        }
        i = i + 1;
    }
}

/// The `w` lowest bytes of a number, the most significant first.
pub open spec fn bytes_of(n: nat, w: nat) -> Seq<u8>
    decreases w,
{
    if w == 0 {
        Seq::empty()
    } else {
        bytes_of(n / 256, (w - 1) as nat).push((n % 256) as u8)
    }
}

/// Two hundred and fifty-six to the `w`.
pub open spec fn byte_power(w: nat) -> nat
    decreases w,
{
    if w == 0 {
        1
    } else {
        256 * byte_power((w - 1) as nat)
    }
}

/// A number that was written in `w` bytes is read back.
pub proof fn law_numbers_are_read_back(n: nat, w: nat)
    requires
        n < byte_power(w),
    ensures
        bytes_of(n, w).len() == w,
        big_endian(bytes_of(n, w)) == n,
        w <= 8 ==> big_endian_u64(bytes_of(n, w)) == n,
    decreases w,
{
    if w > 0 {
        law_numbers_are_read_back(n / 256, (w - 1) as nat);
        assert(bytes_of(n, w).drop_last() =~= bytes_of(n / 256, (w - 1) as nat));
        if w <= 8 {
            lemma_byte_powers();
            lemma_byte_power_grows((w - 1) as nat, 7);
        }
    }
}

proof fn lemma_byte_powers()
    ensures
        byte_power(7) == 0x100_0000_0000_0000,
{
    reveal_with_fuel(byte_power, 8);
}

proof fn lemma_byte_power_grows(a: nat, b: nat)
    requires
        a <= b,
    ensures
        1 <= byte_power(a) <= byte_power(b),
    decreases b,
{
    if a < b {
        lemma_byte_power_grows(a, (b - 1) as nat);
    } else if a > 0 {
        lemma_byte_power_grows((a - 1) as nat, (b - 1) as nat);
    }
}

/// A variable-length number of one byte is its lower seven bits, one of two bytes the
/// lower fourteen, and so on: the first byte has as many zeros before its highest one
/// as bytes follow, and what is behind that one is the number.
pub proof fn law_short_numbers(data: Seq<u8>)
    requires
        data.len() >= 4,
    ensures
        data[0] >= 128 ==> vint(data) == Some((data[0] - 128, 1int)),
        64 <= data[0] < 128 ==> vint(data) == Some((256 * (data[0] - 64) + data[1], 2int)),
        32 <= data[0] < 64 ==> vint(data) == Some((0x1_0000 * (data[0] - 32) + 256 * data[1] + data[2], 3int)),
        16 <= data[0] < 32 ==> vint(data) == Some((0x100_0000 * (data[0] - 16) + 0x1_0000 * data[1] + 256 * data[2] + data[3], 4int)),
        data[0] == 0 ==> vint(data) is None,
        vint(data) matches Some((n, w)) ==> 1 <= w <= 8,
{
    let w = vint_width(data[0]);
    if 1 <= w <= 4 {
        let s = data.take(w).update(0, (data[0] - vint_marker(w)) as u8);
        reveal_with_fuel(big_endian, 5);
        assert(s.drop_last() =~= s.take(w - 1));
        if w >= 2 {
            assert(s.take(w - 1).drop_last() =~= s.take(w - 2));
        }
        if w >= 3 {
            assert(s.take(w - 2).drop_last() =~= s.take(w - 3));
        }
        if w >= 4 {
            assert(s.take(w - 3).drop_last() =~= s.take(w - 4));
        }
    }
}

/// The time of a Cluster is its timestamp in ticks of the file, cut to a whole
/// microsecond.
pub proof fn law_cluster_time(timestamp: u64, scale_ns: u64)
    requires
        timestamp <= i64::MAX,
        scale_ns <= i64::MAX,
        timestamp * scale_ns <= i64::MAX,
    ensures
        1000 * cluster_time_us(timestamp, scale_ns) <= timestamp * scale_ns < 1000 * (cluster_time_us(timestamp, scale_ns) + 1),
{
    assert(0 <= timestamp * scale_ns) by (nonlinear_arith)
        requires
            0 <= timestamp,
            0 <= scale_ns,
    ;
}

/// Every entry of the Cluster index tells of a Cluster: its ID stands at the offset,
/// not before the place where the search began, and offsets ascend.
pub proof fn law_entries_are_clusters(data: Seq<u8>, scale_ns: u64, pos: int, i: int)
    requires
        0 <= pos,
        data.len() <= u64::MAX,
        0 <= i < cluster_entries(data, scale_ns, pos).len(),
    ensures
        ({
            let s = cluster_entries(data, scale_ns, pos);
            let at = s[i].byte_offset as int;
            &&& pos <= at
            &&& at + 4 < data.len()
            &&& data[at] == 0x1F && data[at + 1] == 0x43 && data[at + 2] == 0xB6 && data[at + 3] == 0x75
            &&& i > 0 ==> s[i - 1].byte_offset < s[i].byte_offset
        }),
    decreases data.len() - pos,
{
    lemma_next_cluster(data, pos);
    let c = next_cluster_id(data, pos)->Some_0;
    let s = cluster_entries(data, scale_ns, pos);
    match vint(data.skip(c + 4)) {
        None => {
            law_entries_are_clusters(data, scale_ns, c + 1, i);
        },
        Some((size, len)) => {
            if size <= 0 {
                law_entries_are_clusters(data, scale_ns, c + 1, i);
            } else {
                lemma_vint_len(data.skip(c + 4));
                let first = cluster_entry(data, scale_ns, c, c + 4 + len);
                let rest = cluster_entries(data, scale_ns, c + 4 + len + size);
                assert(s == first + rest);
                let k = i - first.len();
                if k >= 0 {
                    law_entries_are_clusters(data, scale_ns, c + 4 + len + size, k);
                    assert(s[i] == rest[k]);
                    if k > 0 {
                        assert(s[i - 1] == rest[k - 1]);
                    } else if i > 0 {
                        assert(s[i - 1] == first[i - 1]);
                    }
                } else {
                    assert(s[i] == first[i]);
                }
            }
        },
    }
}

proof fn lemma_vint_len(data: Seq<u8>)
    ensures
        vint(data) matches Some((_, w)) ==> 1 <= w <= 8,
{
}

proof fn lemma_next_cluster(data: Seq<u8>, pos: int)
    requires
        0 <= pos,
    ensures
        next_cluster_id(data, pos) matches Some(c) ==> pos <= c && cluster_id_at(data, c),
    decreases data.len() - pos,
{
    if pos < data.len() && !cluster_id_at(data, pos) {
        lemma_next_cluster(data, pos + 1);
    }
}

/// Only a SeekHead that begins in the first 256 bytes is overwritten, with zeros, from
/// its ID to its end; all other bytes stay.
pub proof fn law_only_seekhead_is_zeroed(data: Seq<u8>, j: int)
    requires
        0 <= j < data.len(),
    ensures
        without_seekhead(data)[j] == data[j] || without_seekhead(data)[j] == 0,
        without_seekhead(data)[j] != data[j] ==> exists|i: int| 0 <= i <= j && i + 4 <= 256 && #[trigger] four_at(data, i, 0x11, 0x4D, 0x9B, 0x74) && j
            < seekhead_end(data, i),
        forall|i: int|
            0 <= i && i + 4 <= 256 && #[trigger] four_at(data, i, 0x11, 0x4D, 0x9B, 0x74) && (forall|h: int|
                0 <= h < i ==> !#[trigger] four_at(data, h, 0x11, 0x4D, 0x9B, 0x74)) && i <= j < seekhead_end(data, i) ==> without_seekhead(data)[j] == 0,
{
    lemma_seekhead_place(data, 0);
    assert forall|i: int|
        0 <= i && i + 4 <= 256 && #[trigger] four_at(data, i, 0x11, 0x4D, 0x9B, 0x74) && (forall|h: int|
            0 <= h < i ==> !#[trigger] four_at(data, h, 0x11, 0x4D, 0x9B, 0x74)) && i <= j < seekhead_end(data, i) implies without_seekhead(data)[j] == 0 by {
        lemma_seekhead_first(data, 0, i);
    }
}

proof fn lemma_seekhead_place(data: Seq<u8>, i: int)
    requires
        0 <= i,
    ensures
        seekhead_from(data, i) matches Some(k) ==> i <= k && seekhead_at(data, k),
    decreases data.len() - i,
{
    if i < data.len() && i < 256 && !seekhead_at(data, i) {
        lemma_seekhead_place(data, i + 1);
    }
}

proof fn lemma_seekhead_first(data: Seq<u8>, i: int, k: int)
    requires
        0 <= i <= k,
        seekhead_at(data, k),
        forall|h: int| 0 <= h < k ==> !#[trigger] four_at(data, h, 0x11, 0x4D, 0x9B, 0x74),
    ensures
        seekhead_from(data, i) == Some(k),
    decreases k - i,
{
    if i < k {
        lemma_seekhead_first(data, i + 1, k);
    }
}

} // verus!
