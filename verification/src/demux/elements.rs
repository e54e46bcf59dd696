//! Which Matroska files can be read to an end. The `matroska-demuxer` crate reads
//! the first element of a segment again and again where that is a checksum,
//! follows seek heads that lead to each other without end, and panics where one
//! leads to two others. Built with overflow checks it also panics where positions
//! in seek heads and cues are too large to be added. Such files are refused here
//! before they are handed to it. It can panic likewise on the time of a block or the
//! size of a block group: for those it is told here which call for a frame would
//! reach one, and that call is not made.

use vstd::prelude::*;
use vstd::string::*;

use crate::demux::matroska::mkv_open_fault;

verus! {

pub const EBML_HEADER: u32 = 0x1A45DFA3;

pub const SEGMENT: u32 = 0x18538067;

pub const SEEK_HEAD: u32 = 0x114D9B74;

pub const SEEK: u32 = 0x4DBB;

pub const SEEK_ID: u32 = 0x53AB;

pub const SEEK_POSITION: u32 = 0x53AC;

pub const CRC32: u32 = 0xBF;

pub const CUES: u32 = 0x1C53BB6B;

pub const CUE_POINT: u32 = 0xBB;

pub const CUE_TRACK_POSITIONS: u32 = 0xB7;

pub const CUE_CLUSTER_POSITION: u32 = 0xF1;

pub const CLUSTER: u32 = 0x1F43B675;

pub const TIMESTAMP: u32 = 0xE7;

pub const BLOCK_GROUP: u32 = 0xA0;

pub const BLOCK: u32 = 0xA1;

pub const SIMPLE_BLOCK: u32 = 0xA3;

/// An element: its number, the size of its data, and where that begins. The
/// largest size stands for an unknown one.
#[derive(Debug, Clone, Copy, PartialEq, Eq, Structural)]
pub struct Element {
    pub id: u32,
    pub size: u64,
    pub data: u64,
}

/// The next byte at or behind `i` that can begin an element.
pub open spec fn id_start(b: Seq<u8>, i: int) -> int
    decreases b.len() - i,
{
    if i < 0 || i >= b.len() || b[i] >= 0x10 {
        i
    } else {
        id_start(b, i + 1)
    }
}

/// How many bytes a number has that begins with a byte; none where it can begin
/// none.
pub open spec fn number_len(first: u8) -> nat {
    if first >= 0x80 {
        1
    } else if first >= 0x40 {
        2
    } else if first >= 0x20 {
        3
    } else if first >= 0x10 {
        4
    } else if first >= 8 {
        5
    } else if first >= 4 {
        6
    } else if first >= 2 {
        7
    } else if first == 1 {
        8
    } else {
        0
    }
}

/// The bit that tells the length of a number of `n` bytes.
pub open spec fn length_mark(n: nat) -> int {
    if n == 1 {
        0x80
    } else if n == 2 {
        0x40
    } else if n == 3 {
        0x20
    } else if n == 4 {
        0x10
    } else if n == 5 {
        8
    } else if n == 6 {
        4
    } else if n == 7 {
        2
    } else {
        1
    }
}

/// The number that `acc` and the next `n` bytes make, the most significant first.
pub open spec fn with_bytes(b: Seq<u8>, i: int, n: nat, acc: int) -> int
    decreases n,
{
    if n == 0 {
        acc
    } else {
        with_bytes(b, i + 1, (n - 1) as nat, 256 * acc + b[i])
    }
}

/// The element at or behind a position.
pub open spec fn element_at(b: Seq<u8>, pos: u64) -> Option<Element> {
    let i = id_start(b, pos as int);
    let n = number_len(b[i]);
    let j = i + n;
    let m = number_len(b[j]);
    if i >= b.len() || j >= b.len() || m == 0 || j + m > b.len() {
        None
    } else {
        Some(
            Element {
                id: with_bytes(b, i + 1, (n - 1) as nat, b[i] as int) as u32,
                size: if b[j] == 0xFF {
                    u64::MAX
                } else {
                    with_bytes(b, j + 1, (m - 1) as nat, b[j] - length_mark(m)) as u64
                },
                data: (j + m) as u64,
            },
        )
    }
}

/// The position behind an element.
pub open spec fn past(e: Element) -> u64 {
    if e.data + e.size > u64::MAX { u64::MAX } else { (e.data + e.size) as u64 }
}

/// The end of an element's data; none where there is less.
pub open spec fn data_end(b: Seq<u8>, e: Element) -> Option<u64> {
    if e.size == u64::MAX {
        Some(b.len() as u64)
    } else if e.data + e.size > b.len() {
        None
    } else {
        Some((e.data + e.size) as u64)
    }
}

/// The position behind the elements from `pos` on.
pub open spec fn elements_end(b: Seq<u8>, end: u64, pos: u64) -> Option<u64>
    decreases u64::MAX - pos,
{
    if pos >= end {
        Some(pos)
    } else {
        match element_at(b, pos) {
            None => None,
            Some(e) => if e.size == u64::MAX {
                Some(e.data)
            } else if past(e) <= pos {
                None
            } else {
                elements_end(b, end, past(e))
            },
        }
    }
}

/// What an entry of a seek head tells: an element's number and its position.
#[derive(Debug, Clone, Copy, PartialEq, Eq, Structural)]
pub struct Entry {
    pub id: Option<u64>,
    pub position: Option<u64>,
}

/// An entry with one more of its fields.
pub open spec fn entry_with(a: Entry, id: u32, value: u64) -> Entry {
    if id == SEEK_ID {
        Entry { id: if a.id is None { Some(value) } else { a.id }, ..a }
    } else {
        Entry { position: if a.position is None { Some(value) } else { a.position }, ..a }
    }
}

/// The entry whose fields stand from `pos` on; none where they cannot be read.
pub open spec fn entry_from(b: Seq<u8>, end: u64, pos: u64, a: Entry) -> Option<Entry>
    decreases u64::MAX - pos,
{
    if pos >= end {
        Some(a)
    } else {
        match element_at(b, pos) {
            None => None,
            Some(e) => if e.size == u64::MAX {
                Some(a)
            } else if past(e) <= pos {
                None
            } else if e.id != SEEK_ID && e.id != SEEK_POSITION {
                entry_from(b, end, past(e), a)
            } else if e.size > 8 || e.data + e.size > b.len() {
                None
            } else {
                entry_from(b, end, past(e), entry_with(a, e.id, with_bytes(b, e.data as int, e.size as nat, 0) as u64))
            },
        }
    }
}

/// What seek heads tell: the next one, where the first Cluster is, and whether they
/// tell of any element.
#[derive(Debug, Clone, Copy, PartialEq, Eq, Structural)]
pub struct Heads {
    pub next: Option<u64>,
    pub cluster: Option<u64>,
    pub any: bool,
}

/// What comes of reading seek heads.
#[derive(Debug, Clone, Copy, PartialEq, Eq, Structural)]
pub enum Found {
    /// They cannot be read.
    Fault,
    /// They lead in a circle, to two others, or outside all positions.
    Stuck,
    Read(Heads),
}

/// Whether the positions in cues from `pos` on can be added to that of the segment.
/// At level 0 stand points, at level 1 positions of tracks, at level 2 their fields.
pub open spec fn cues_sound(b: Seq<u8>, segment: u64, level: nat, end: u64, pos: u64) -> bool
    decreases 3 - level, u64::MAX - pos,
{
    if pos >= end {
        true
    } else {
        match element_at(b, pos) {
            None => true,
            Some(e) => if e.size == u64::MAX || past(e) <= pos {
                true
            } else {
                &&& level < 2 && e.id == cue_level(level) ==> (data_end(b, e) matches Some(n) ==> cues_sound(b, segment, level + 1, n, e.data))
                &&& level >= 2 && e.id == CUE_CLUSTER_POSITION && e.size <= 8 && e.data + e.size <= b.len() ==> segment + with_bytes(
                    b,
                    e.data as int,
                    e.size as nat,
                    0,
                ) <= u64::MAX
                &&& cues_sound(b, segment, level, end, past(e))
            },
        }
    }
}

/// The elements that lead to the next level of cues.
pub open spec fn cue_level(level: nat) -> u32 {
    if level == 0 { CUE_POINT } else { CUE_TRACK_POSITIONS }
}

/// Whether cues at a position are sound.
pub open spec fn cues_sound_at(b: Seq<u8>, segment: u64, pos: u64) -> bool {
    element_at(b, pos) matches Some(e) && e.id == CUES ==> (data_end(b, element_at(b, pos)->Some_0) matches Some(end) ==> cues_sound(
        b,
        segment,
        0,
        end,
        element_at(b, pos)->Some_0.data,
    ))
}

/// What an entry of a seek head adds to what is known.
pub open spec fn with_entry(b: Seq<u8>, segment: u64, known: Heads, id: u64, position: u64) -> Found {
    let at = (segment + position) as u64;
    if segment + position > u64::MAX {
        Found::Stuck
    } else if id == SEEK_HEAD {
        if known.next is Some { Found::Stuck } else { Found::Read(Heads { next: Some(at), ..known }) }
    } else if id == CLUSTER {
        Found::Read(Heads { cluster: Some(at), any: true, ..known })
    } else if id == CUES && !cues_sound_at(b, segment, at) {
        Found::Stuck
    } else {
        Found::Read(Heads { any: true, ..known })
    }
}

/// What the entries of a seek head from `pos` on tell, behind others.
pub open spec fn head_from(b: Seq<u8>, segment: u64, end: u64, pos: u64, known: Heads) -> Found
    decreases u64::MAX - pos,
{
    if pos >= end {
        Found::Read(known)
    } else {
        match element_at(b, pos) {
            None => Found::Fault,
            Some(e) => if e.size == u64::MAX {
                Found::Read(known)
            } else if past(e) <= pos {
                Found::Fault
            } else if e.id != SEEK {
                head_from(b, segment, end, past(e), known)
            } else {
                match data_end(b, e) {
                    None => Found::Fault,
                    Some(fields_end) => match entry_from(b, fields_end, e.data, Entry { id: None, position: None }) {
                        None => Found::Fault,
                        Some(Entry { id: Some(id), position: Some(p) }) if id <= u32::MAX => match with_entry(b, segment, known, id, p) {
                            Found::Read(more) => head_from(b, segment, end, past(e), more),
                            f => f,
                        },
                        _ => head_from(b, segment, end, past(e), known),
                    },
                }
            },
        }
    }
}

/// What seek heads tell, beginning with `e`. Positions count from `segment`.
pub open spec fn heads_from(b: Seq<u8>, segment: u64, e: Element, known: Heads, fuel: nat) -> Found
    decreases fuel,
{
    if fuel == 0 {
        Found::Stuck
    } else {
        match data_end(b, e) {
            None => Found::Fault,
            Some(end) => match head_from(b, segment, end, e.data, known) {
                Found::Read(h) => match h.next {
                    None => Found::Read(h),
                    Some(at) => match element_at(b, at) {
                        Some(next) if next.id == SEEK_HEAD => heads_from(b, segment, next, Heads { next: None, ..h }, (fuel - 1) as nat),
                        _ => Found::Fault,
                    },
                },
                f => f,
            },
        }
    }
}

/// The position behind an element, or in one of unknown size.
pub open spec fn onward(e: Element) -> u64 {
    if e.size == u64::MAX { e.data } else { past(e) }
}

/// Whether all cues among the elements from `pos` on are sound.
pub open spec fn tops_sound(b: Seq<u8>, segment: u64, pos: u64) -> bool
    decreases u64::MAX - pos,
{
    match element_at(b, pos) {
        None => true,
        Some(e) => cues_sound_at(b, segment, pos) && (onward(e) <= pos || tops_sound(b, segment, onward(e))),
    }
}

/// The position of the first Cluster among the elements from `pos` on.
pub open spec fn cluster_from(b: Seq<u8>, pos: u64) -> Option<u64>
    decreases u64::MAX - pos,
{
    match element_at(b, pos) {
        None => None,
        Some(e) => if e.id == CLUSTER {
            Some(pos)
        } else if onward(e) <= pos {
            None
        } else {
            cluster_from(b, onward(e))
        },
    }
}

/// The time of a block, relative to its Cluster; none where it cannot be read.
pub open spec fn block_time(b: Seq<u8>, e: Element) -> Option<int> {
    let t = e.data + number_len(b[e.data as int]);
    if e.data >= b.len() || number_len(b[e.data as int]) == 0 || t + 2 > b.len() {
        None
    } else {
        let n = 256 * b[t] + b[t + 1];
        Some(if n >= 0x8000 { n - 0x1_0000 } else { n })
    }
}

/// The position behind the frames of a block; none where they cannot be read. With
/// frames of one size, bytes may be left behind them.
pub open spec fn block_end(b: Seq<u8>, e: Element) -> Option<u64> {
    let h = e.data + number_len(b[e.data as int]) + 3;
    let lacing = (b[h - 1] / 2) % 4;
    let count = b[h] + 1;
    let left = e.size - (h + 1 - e.data);
    if e.size == u64::MAX || h > b.len() {
        None
    } else if lacing == 0 {
        Some(past(e))
    } else if h >= b.len() {
        None
    } else if lacing != 2 {
        Some(past(e))
    } else if left < 0 || past(e) == u64::MAX {
        None
    } else {
        Some((h + 1 + count * (left / count)) as u64)
    }
}

/// The number of frames in a block whose end is known. Where the sizes of the frames
/// are told as differences, there are at least two.
pub open spec fn block_frames(b: Seq<u8>, e: Element) -> nat {
    let h = e.data + number_len(b[e.data as int]) + 3;
    let lacing = (b[h - 1] / 2) % 4;
    if lacing == 0 {
        1
    } else if lacing == 3 && b[h] == 0 {
        2
    } else {
        (b[h] + 1) as nat
    }
}

/// Whether the time of a block can be added to that of its Cluster.
pub open spec fn time_sound(time: int, cluster: u64) -> bool {
    time > -0x8000 && cluster + time <= u64::MAX
}

/// The calls that are answered at a position: a call is where it is the end of the
/// block group that the call is in.
pub open spec fn calls_at(group: Option<u64>, pos: u64, calls: nat) -> nat {
    if group == Some(pos) { calls + 1 } else { calls }
}

/// The end of the block group that a call is in at a position; none where the call
/// has been answered.
pub open spec fn group_at(group: Option<u64>, pos: u64) -> Option<u64> {
    if group == Some(pos) { None } else { group }
}

/// How many calls for a frame are answered before one reaches a block or a block
/// group that is not sound; none where no call does. A call reads on from `pos`, in
/// a Cluster of time `cluster` and in a block group with the end `group`, and `calls`
/// others are answered. A block outside a group is one of its own. Where a block has
/// several frames, the call is answered at once, and so are the calls for the other
/// frames.
pub open spec fn hazard_from(b: Seq<u8>, pos: u64, cluster: u64, group: Option<u64>, calls: nat) -> Option<nat>
    decreases u64::MAX - pos,
{
    match element_at(b, pos) {
        None => None,
        Some(e) => if e.data <= pos {
            None
        } else if e.id == CLUSTER {
            hazard_from(b, e.data, cluster, group_at(group, e.data), calls_at(group, e.data, calls))
        } else if e.id == BLOCK_GROUP {
            if e.data + e.size > u64::MAX {
                Some(calls)
            } else {
                let end = Some(past(e));
                hazard_from(b, e.data, cluster, group_at(end, e.data), calls_at(end, e.data, calls))
            }
        } else if e.id == TIMESTAMP {
            if e.size > 8 || e.data + e.size > b.len() {
                None
            } else {
                hazard_from(
                    b,
                    past(e),
                    with_bytes(b, e.data as int, e.size as nat, 0) as u64,
                    group_at(group, past(e)),
                    calls_at(group, past(e), calls),
                )
            }
        } else if e.id == BLOCK || e.id == SIMPLE_BLOCK {
            match block_time(b, e) {
                None => None,
                Some(time) => if !time_sound(time, cluster) {
                    Some(calls)
                } else {
                    match block_end(b, e) {
                        Some(n) if n > pos => if block_frames(b, e) > 1 {
                            hazard_from(b, n, cluster, None, calls + block_frames(b, e))
                        } else {
                            let end = if group is None { Some(n) } else { group };
                            hazard_from(b, n, cluster, group_at(end, n), calls_at(end, n, calls))
                        },
                        _ => None,
                    }
                },
            }
        } else if onward(e) <= pos {
            None
        } else {
            hazard_from(b, onward(e), cluster, group_at(group, onward(e)), calls_at(group, onward(e), calls))
        },
    }
}

/// Where the data of the segment begins, behind the EBML header.
pub open spec fn segment_start(b: Seq<u8>) -> Option<u64> {
    match element_at(b, 0) {
        Some(h) if h.id == EBML_HEADER => match data_end(b, h) {
            Some(end) => match elements_end(b, end, h.data) {
                Some(p) => match element_at(b, p) {
                    Some(s) if s.id == SEGMENT => Some(s.data),
                    _ => None,
                },
                None => None,
            },
            None => None,
        },
        _ => None,
    }
}

/// What is known before any seek head.
pub open spec fn no_heads() -> Heads {
    Heads { next: None, cluster: None, any: false }
}

/// What the seek heads of a segment tell that begins with the element `e`.
pub open spec fn heads_of(b: Seq<u8>, segment: u64, e: Element) -> Found {
    if e.id == SEEK_HEAD {
        heads_from(b, segment, e, no_heads(), (b.len() + 1) as nat)
    } else {
        Found::Read(no_heads())
    }
}

/// Whether a Matroska file can be opened without going in a circle and without a sum
/// that is too large for a machine word.
#[verifier::opaque]
pub open spec fn segment_sound(b: Seq<u8>) -> bool {
    match segment_start(b) {
        None => true,
        Some(segment) => match element_at(b, segment) {
            None => true,
            Some(e) => e.id != CRC32 && match heads_of(b, segment, e) {
                Found::Fault => true,
                Found::Stuck => false,
                Found::Read(h) => h.any || tops_sound(b, segment, segment),
            },
        },
    }
}

/// How many calls for a frame a Matroska file answers before one reaches a sum that
/// is too large for a machine word; none where no call does.
#[verifier::opaque]
pub open spec fn first_hazard(b: Seq<u8>) -> Option<nat> {
    match segment_start(b) {
        None => None,
        Some(segment) => match element_at(b, segment) {
            None => None,
            Some(e) => match heads_of(b, segment, e) {
                Found::Read(h) => match if h.cluster is Some { h.cluster } else { cluster_from(b, segment) } {
                    Some(p) => hazard_from(b, p, 0, None, 0),
                    None => None,
                },
                _ => None,
            },
        },
    }
}

/// Why bytes are no Matroska file that can be read; none where they are one.
pub open spec fn mkv_fault(b: Seq<u8>) -> Option<Seq<char>> {
    if segment_sound(b) { mkv_open_fault(b) } else { Some("segment is not sound"@) }
}

/// Twice the largest number that a byte below 128 and `k` more bytes make.
spec fn cap(k: int) -> int {
    if k <= 0 {
        0x100
    } else if k == 1 {
        0x1_0000
    } else if k == 2 {
        0x100_0000
    } else if k == 3 {
        0x1_0000_0000
    } else if k == 4 {
        0x100_0000_0000
    } else if k == 5 {
        0x1_0000_0000_0000
    } else if k == 6 {
        0x100_0000_0000_0000
    } else {
        0x1_0000_0000_0000_0000
    }
}

fn take_bytes(b: &Vec<u8>, from: usize, n: usize, first: u64) -> (r: u64)
    requires
        from + n <= b.len(),
        n <= 7,
        first < 0x100,
    ensures
        r == with_bytes(b@, from as int, n as nat, first as int),
        r < cap(n as int),
{
    let mut acc: u64 = first;
    let mut k: usize = 0;
    while k < n
        invariant
            k <= n <= 7,
            from + n <= b.len(),
            acc < cap(k as int),
            with_bytes(b@, from as int, n as nat, first as int) == with_bytes(b@, from + k, (n - k) as nat, acc as int),
        decreases n - k,
    {
        acc = 256 * acc + b[from + k] as u64;
        k = k + 1;
    }
    acc
}

fn count_bytes(first: u8) -> (n: usize)
    ensures
        n == number_len(first),
        n <= 8,
        first >= 0x10 ==> 1 <= n <= 4,
{
    if first >= 0x80 {
        1
    } else if first >= 0x40 {
        2
    } else if first >= 0x20 {
        3
    } else if first >= 0x10 {
        4
    } else if first >= 8 {
        5
    } else if first >= 4 {
        6
    } else if first >= 2 {
        7
    } else if first == 1 {
        8
    } else {
        0
    }
}

fn mark_of(n: usize) -> (r: u8)
    ensures
        r == length_mark(n as nat),
{
    if n == 1 {
        0x80
    } else if n == 2 {
        0x40
    } else if n == 3 {
        0x20
    } else if n == 4 {
        0x10
    } else if n == 5 {
        8
    } else if n == 6 {
        4
    } else if n == 7 {
        2
    } else {
        1
    }
}

fn read_element(b: &Vec<u8>, pos: u64) -> (r: Option<Element>)
    ensures
        r == element_at(b@, pos),
        r matches Some(e) ==> pos < e.data <= b.len(),
{
    if pos >= b.len() as u64 {
        return None;
    }
    let mut i: usize = pos as usize;
    while i < b.len() && b[i] < 0x10
        invariant
            pos <= i <= b.len(),
            id_start(b@, pos as int) == id_start(b@, i as int),
        decreases b.len() - i,
    {
        i = i + 1;
    }
    if i >= b.len() {
        return None;
    }
    let n: usize = count_bytes(b[i]);
    if b.len() - i <= n {
        return None;
    }
    let j: usize = i + n;
    let m: usize = count_bytes(b[j]);
    if m == 0 || b.len() - j < m {
        return None;
    }
    let id: u64 = take_bytes(b, i + 1, n - 1, b[i] as u64);
    let size: u64 = if b[j] == 0xFF { u64::MAX } else { take_bytes(b, j + 1, m - 1, (b[j] - mark_of(m)) as u64) };
    Some(Element { id: id as u32, size, data: (j + m) as u64 })
}

fn end_past(e: &Element) -> (r: u64)
    ensures
        r == past(*e),
{
    if e.size > u64::MAX - e.data { u64::MAX } else { e.data + e.size }
}

fn find_data_end(b: &Vec<u8>, e: &Element) -> (r: Option<u64>)
    requires
        e.data <= b.len(),
    ensures
        r == data_end(b@, *e),
{
    let len: u64 = b.len() as u64;
    if e.size == u64::MAX {
        Some(len)
    } else if e.size > len - e.data {
        None
    } else {
        Some(e.data + e.size)
    }
}

fn find_elements_end(b: &Vec<u8>, end: u64, from: u64) -> (r: Option<u64>)
    ensures
        r == elements_end(b@, end, from),
{
    let ghost goal = elements_end(b@, end, from);
    let mut pos: u64 = from;
    while pos < end
        invariant
            goal == elements_end(b@, end, from),
            goal == elements_end(b@, end, pos),
        decreases u64::MAX - pos,
    {
        match read_element(b, pos) {
            None => {
                return None;
            },
            Some(e) => {
                if e.size == u64::MAX {
                    return Some(e.data);
                }
                let next: u64 = end_past(&e);
                if next <= pos {
                    return None;
                }
                pos = next;
            },
        }
    }
    Some(pos)
}

fn add_field(a: Entry, id: u32, value: u64) -> (r: Entry)
    ensures
        r == entry_with(a, id, value),
{
    if id == SEEK_ID {
        Entry { id: if a.id.is_none() { Some(value) } else { a.id }, position: a.position }
    } else {
        Entry { id: a.id, position: if a.position.is_none() { Some(value) } else { a.position } }
    }
}

fn read_number(b: &Vec<u8>, e: &Element) -> (r: u64)
    requires
        e.size <= 8,
        e.data + e.size <= b.len(),
    ensures
        r == with_bytes(b@, e.data as int, e.size as nat, 0),
{
    let from: usize = e.data as usize;
    if e.size == 0 {
        0
    } else {
        take_bytes(b, from + 1, e.size as usize - 1, b[from] as u64)
    }
}

fn read_entry(b: &Vec<u8>, end: u64, from: u64) -> (r: Option<Entry>)
    ensures
        r == entry_from(b@, end, from, Entry { id: None, position: None }),
{
    let ghost goal = entry_from(b@, end, from, Entry { id: None, position: None });
    let mut pos: u64 = from;
    let mut a: Entry = Entry { id: None, position: None };
    while pos < end
        invariant
            goal == entry_from(b@, end, from, Entry { id: None, position: None }),
            goal == entry_from(b@, end, pos, a),
        decreases u64::MAX - pos,
    {
        match read_element(b, pos) {
            None => {
                return None;
            },
            Some(e) => {
                if e.size == u64::MAX {
                    return Some(a);
                }
                let next: u64 = end_past(&e);
                if next <= pos {
                    return None;
                }
                if e.id == SEEK_ID || e.id == SEEK_POSITION {
                    if e.size > 8 || e.size > b.len() as u64 - e.data {
                        return None;
                    }
                    a = add_field(a, e.id, read_number(b, &e));
                }
                pos = next;
            },
        }
    }
    Some(a)
}

fn check_cues(b: &Vec<u8>, segment: u64, level: usize, end: u64, from: u64) -> (r: bool)
    requires
        level <= 2,
    ensures
        r == cues_sound(b@, segment, level as nat, end, from),
    decreases 3 - level,
{
    let ghost goal = cues_sound(b@, segment, level as nat, end, from);
    let mut pos: u64 = from;
    while pos < end
        invariant
            level <= 2,
            goal == cues_sound(b@, segment, level as nat, end, from),
            goal == cues_sound(b@, segment, level as nat, end, pos),
        decreases u64::MAX - pos,
    {
        let e: Element = match read_element(b, pos) {
            Some(e) => e,
            None => {
                return true;
            },
        };
        let next: u64 = end_past(&e);
        if e.size == u64::MAX || next <= pos {
            return true;
        }
        if level < 2 {
            let wanted: u32 = if level == 0 { CUE_POINT } else { CUE_TRACK_POSITIONS };
            if e.id == wanted {
                if let Some(n) = find_data_end(b, &e) {
                    if !check_cues(b, segment, level + 1, n, e.data) {
                        return false;
                    }
                }
            }
        } else if e.id == CUE_CLUSTER_POSITION && e.size <= 8 && e.size <= b.len() as u64 - e.data {
            if read_number(b, &e) > u64::MAX - segment {
                return false;
            }
        }
        pos = next;
    }
    true
}

fn check_cues_at(b: &Vec<u8>, segment: u64, pos: u64) -> (r: bool)
    ensures
        r == cues_sound_at(b@, segment, pos),
{
    match read_element(b, pos) {
        Some(e) => if e.id == CUES {
            match find_data_end(b, &e) {
                Some(end) => check_cues(b, segment, 0, end, e.data),
                None => true,
            }
        } else {
            true
        },
        None => true,
    }
}

fn add_entry(b: &Vec<u8>, segment: u64, known: Heads, id: u64, position: u64) -> (r: Found)
    ensures
        r == with_entry(b@, segment, known, id, position),
{
    if position > u64::MAX - segment {
        return Found::Stuck;
    }
    let at: u64 = segment + position;
    if id == SEEK_HEAD as u64 {
        if known.next.is_some() {
            Found::Stuck
        } else {
            Found::Read(Heads { next: Some(at), cluster: known.cluster, any: known.any })
        }
    } else if id == CLUSTER as u64 {
        Found::Read(Heads { next: known.next, cluster: Some(at), any: true })
    } else if id == CUES as u64 && !check_cues_at(b, segment, at) {
        Found::Stuck
    } else {
        Found::Read(Heads { next: known.next, cluster: known.cluster, any: true })
    }
}

fn read_head(b: &Vec<u8>, segment: u64, end: u64, from: u64, first: Heads) -> (r: Found)
    ensures
        r == head_from(b@, segment, end, from, first),
{
    let ghost goal = head_from(b@, segment, end, from, first);
    let mut pos: u64 = from;
    let mut known: Heads = first;
    while pos < end
        invariant
            goal == head_from(b@, segment, end, from, first),
            goal == head_from(b@, segment, end, pos, known),
        decreases u64::MAX - pos,
    {
        let e: Element = match read_element(b, pos) {
            Some(e) => e,
            None => {
                return Found::Fault;
            },
        };
        if e.size == u64::MAX {
            return Found::Read(known);
        }
        let next: u64 = end_past(&e);
        if next <= pos {
            return Found::Fault;
        }
        if e.id == SEEK {
            let fields_end: u64 = match find_data_end(b, &e) {
                Some(n) => n,
                None => {
                    return Found::Fault;
                },
            };
            match read_entry(b, fields_end, e.data) {
                None => {
                    return Found::Fault;
                },
                Some(Entry { id: Some(id), position: Some(p) }) => {
                    if id <= u32::MAX as u64 {
                        match add_entry(b, segment, known, id, p) {
                            Found::Read(more) => {
                                known = more;
                            },
                            f => {
                                return f;
                            },
                        }
                    }
                },
                _ => {},
            }
        }
        pos = next;
    }
    Found::Read(known)
}

fn read_heads(b: &Vec<u8>, segment: u64, first: Element) -> (r: Found)
    requires
        first.data <= b.len(),
    ensures
        r == heads_from(b@, segment, first, no_heads(), (b.len() + 1) as nat),
{
    let ghost goal = heads_from(b@, segment, first, no_heads(), (b.len() + 1) as nat);
    let mut e: Element = first;
    let mut known: Heads = Heads { next: None, cluster: None, any: false };
    let mut fuel: u128 = b.len() as u128 + 1;
    while fuel > 0
        invariant
            e.data <= b.len(),
            goal == heads_from(b@, segment, first, no_heads(), (b.len() + 1) as nat),
            goal == heads_from(b@, segment, e, known, fuel as nat),
        decreases fuel,
    {
        let end: u64 = match find_data_end(b, &e) {
            Some(n) => n,
            None => {
                return Found::Fault;
            },
        };
        let h: Heads = match read_head(b, segment, end, e.data, known) {
            Found::Read(h) => h,
            f => {
                return f;
            },
        };
        let at: u64 = match h.next {
            Some(at) => at,
            None => {
                return Found::Read(h);
            },
        };
        match read_element(b, at) {
            Some(next) => {
                if next.id != SEEK_HEAD {
                    return Found::Fault;
                }
                e = next;
                known = Heads { next: None, cluster: h.cluster, any: h.any };
            },
            None => {
                return Found::Fault;
            },
        }
        fuel = fuel - 1;
    }
    Found::Stuck
}

fn go_on(e: &Element) -> (r: u64)
    ensures
        r == onward(*e),
{
    if e.size == u64::MAX { e.data } else { end_past(e) }
}

fn check_tops(b: &Vec<u8>, segment: u64, from: u64) -> (r: bool)
    ensures
        r == tops_sound(b@, segment, from),
{
    let ghost goal = tops_sound(b@, segment, from);
    let mut pos: u64 = from;
    let mut more: bool = true;
    while more
        invariant
            goal == tops_sound(b@, segment, from),
            more ==> goal == tops_sound(b@, segment, pos),
            !more ==> goal,
        decreases (if more { 1int } else { 0 }), u64::MAX - pos,
    {
        match read_element(b, pos) {
            None => {
                more = false;
            },
            Some(e) => {
                if !check_cues_at(b, segment, pos) {
                    return false;
                }
                let next: u64 = go_on(&e);
                if next <= pos {
                    more = false;
                } else {
                    pos = next;
                }
            },
        }
    }
    true
}

fn find_cluster(b: &Vec<u8>, from: u64) -> (r: Option<u64>)
    ensures
        r == cluster_from(b@, from),
{
    let ghost goal = cluster_from(b@, from);
    let mut pos: u64 = from;
    loop
        invariant
            goal == cluster_from(b@, from),
            goal == cluster_from(b@, pos),
        decreases u64::MAX - pos,
    {
        match read_element(b, pos) {
            None => {
                return None;
            },
            Some(e) => {
                if e.id == CLUSTER {
                    return Some(pos);
                }
                let next: u64 = go_on(&e);
                if next <= pos {
                    return None;
                }
                pos = next;
            },
        }
    }
}

fn read_block_time(b: &Vec<u8>, e: &Element) -> (r: Option<i32>)
    requires
        e.data <= b.len(),
    ensures
        match r {
            Some(n) => block_time(b@, *e) == Some(n as int) && e.data + number_len(b@[e.data as int]) + 2 <= b.len(),
            None => block_time(b@, *e) is None,
        },
{
    let data: usize = e.data as usize;
    if data >= b.len() {
        return None;
    }
    let n: usize = count_bytes(b[data]);
    if n == 0 || b.len() - data < n + 2 {
        return None;
    }
    let t: usize = data + n;
    let time: i32 = 256 * b[t] as i32 + b[t + 1] as i32;
    Some(if time >= 0x8000 { time - 0x1_0000 } else { time })
}

fn find_block_end(b: &Vec<u8>, e: &Element) -> (r: Option<u64>)
    requires
        e.data + number_len(b@[e.data as int]) + 2 <= b.len(),
    ensures
        r == block_end(b@, *e),
{
    let data: usize = e.data as usize;
    let n: usize = count_bytes(b[data]);
    if e.size == u64::MAX || b.len() - data < n + 3 {
        return None;
    }
    let h: usize = data + n + 3;
    let lacing: u8 = (b[h - 1] / 2) % 4;
    if lacing == 0 {
        return Some(end_past(e));
    }
    if h >= b.len() {
        return None;
    }
    if lacing != 2 {
        return Some(end_past(e));
    }
    if e.size < n as u64 + 4 || end_past(e) == u64::MAX {
        return None;
    }
    let count: u64 = b[h] as u64 + 1;
    let left: u64 = e.size - (n as u64 + 4);
    assert(count * (left / count) <= left) by (nonlinear_arith)
        requires
            count > 0,
    ;
    Some(h as u64 + 1 + count * (left / count))
}

fn count_frames(b: &Vec<u8>, e: &Element) -> (r: u64)
    requires
        e.data + number_len(b@[e.data as int]) + 2 <= b.len(),
        block_end(b@, *e) is Some,
    ensures
        r == block_frames(b@, *e),
        r <= 256,
{
    let data: usize = e.data as usize;
    let h: usize = data + count_bytes(b[data]) + 3;
    let lacing: u8 = (b[h - 1] / 2) % 4;
    if lacing == 0 {
        1
    } else if lacing == 3 && b[h] == 0 {
        2
    } else {
        b[h] as u64 + 1
    }
}

/// Whether a count is the number `n`, or there is none of both.
pub open spec fn same_count(count: Option<u128>, n: Option<nat>) -> bool {
    match (count, n) {
        (Some(a), Some(b)) => a == b,
        (None, None) => true,
        _ => false,
    }
}

fn find_hazard(b: &Vec<u8>, from: u64) -> (r: Option<u128>)
    ensures
        same_count(r, hazard_from(b@, from, 0, None, 0)),
{
    let ghost goal = hazard_from(b@, from, 0, None, 0);
    let mut pos: u64 = from;
    let mut cluster: u64 = 0;
    let mut group: Option<u64> = None;
    let mut calls: u128 = 0;
    loop
        invariant
            goal == hazard_from(b@, from, 0, None, 0),
            goal == hazard_from(b@, pos, cluster, group, calls as nat),
            calls <= 256 * pos,
        decreases u64::MAX - pos,
    {
        let e: Element = match read_element(b, pos) {
            Some(e) => e,
            None => {
                return None;
            },
        };
        let next: u64;
        let mut frames: u64 = 1;
        if e.id == CLUSTER {
            next = e.data;
        } else if e.id == BLOCK_GROUP {
            if e.size > u64::MAX - e.data {
                return Some(calls);
            }
            group = Some(end_past(&e));
            next = e.data;
        } else if e.id == TIMESTAMP {
            if e.size > 8 || e.size > b.len() as u64 - e.data {
                return None;
            }
            cluster = read_number(b, &e);
            next = end_past(&e);
        } else if e.id == BLOCK || e.id == SIMPLE_BLOCK {
            let time: i32 = match read_block_time(b, &e) {
                Some(n) => n,
                None => {
                    return None;
                },
            };
            if time == -0x8000 || (time > 0 && time as u64 > u64::MAX - cluster) {
                return Some(calls);
            }
            match find_block_end(b, &e) {
                Some(n) => {
                    next = n;
                },
                None => {
                    return None;
                },
            }
            frames = count_frames(b, &e);
            if group.is_none() || frames > 1 {
                group = Some(next);
            }
        } else {
            next = go_on(&e);
        }
        if next <= pos {
            return None;
        }
        if group == Some(next) {
            calls = calls + frames as u128;
            group = None;
        }
        pos = next;
    }
}

fn find_segment_start(b: &Vec<u8>) -> (r: Option<u64>)
    ensures
        r == segment_start(b@),
{
    let h: Element = match read_element(b, 0) {
        Some(h) => h,
        None => {
            return None;
        },
    };
    if h.id != EBML_HEADER {
        return None;
    }
    match find_data_end(b, &h) {
        Some(end) => match find_elements_end(b, end, h.data) {
            Some(p) => match read_element(b, p) {
                Some(s) => if s.id == SEGMENT { Some(s.data) } else { None },
                None => None,
            },
            None => None,
        },
        None => None,
    }
}

fn read_heads_of(b: &Vec<u8>, segment: u64, e: Element) -> (r: Found)
    requires
        e.data <= b.len(),
    ensures
        r == heads_of(b@, segment, e),
{
    if e.id == SEEK_HEAD {
        read_heads(b, segment, e)
    } else {
        Found::Read(Heads { next: None, cluster: None, any: false })
    }
}

/// Check whether a Matroska file can be opened without going in a circle and without
/// a sum that is too large.
pub fn check_segment(b: &Vec<u8>) -> (r: bool)
    ensures
        r == segment_sound(b@),
{
    proof {
        reveal(segment_sound);
    }
    let segment: u64 = match find_segment_start(b) {
        Some(n) => n,
        None => {
            return true;
        },
    };
    let e: Element = match read_element(b, segment) {
        Some(e) => e,
        None => {
            return true;
        },
    };
    if e.id == CRC32 {
        return false;
    }
    match read_heads_of(b, segment, e) {
        Found::Fault => true,
        Found::Stuck => false,
        Found::Read(h) => h.any || check_tops(b, segment, segment),
    }
}

/// Find how many calls for a frame are answered before one reaches a sum that is too
/// large.
pub fn find_first_hazard(b: &Vec<u8>) -> (r: Option<u128>)
    ensures
        same_count(r, first_hazard(b@)),
{
    proof {
        reveal(first_hazard);
    }
    let segment: u64 = match find_segment_start(b) {
        Some(n) => n,
        None => {
            return None;
        },
    };
    let e: Element = match read_element(b, segment) {
        Some(e) => e,
        None => {
            return None;
        },
    };
    match read_heads_of(b, segment, e) {
        Found::Read(h) => {
            let cluster: Option<u64> = if h.cluster.is_some() { h.cluster } else { find_cluster(b, segment) };
            match cluster {
                Some(p) => find_hazard(b, p),
                None => None,
            }
        },
        _ => None,
    }
}

} // verus!
