//! Which MP4 headers can be walked to an end. The `mp4` crate follows the sizes
//! that boxes give; where they lead in a circle it never returns, and where a box
//! is too small for its own fields, or claims more metadata than there is data, it
//! panics. Such headers are refused here before they are handed to it.

use vstd::prelude::*;
use vstd::string::*;

use crate::demux::boxes::{read_u32, u32_at, u64_at};
use crate::demux::isomp4::{input_of, mapped, mp4_open_fault, LimitedCursor, Mp4Input};

verus! {

pub const MOOV: u32 = 0x6d6f6f76;

pub const MOOF: u32 = 0x6d6f6f66;

pub const EMSG: u32 = 0x656d7367;

pub const TRAK: u32 = 0x7472616b;

pub const UDTA: u32 = 0x75647461;

pub const MVEX: u32 = 0x6d766578;

pub const META: u32 = 0x6d657461;

pub const MDIA: u32 = 0x6d646961;

pub const MINF: u32 = 0x6d696e66;

pub const DINF: u32 = 0x64696e66;

pub const STBL: u32 = 0x7374626c;

pub const TRAF: u32 = 0x74726166;

pub const HDLR: u32 = 0x68646c72;

pub const ILST: u32 = 0x696c7374;

pub const DATA: u32 = 0x64617461;

/// The items of a list that are read: title, day, cover and description.
pub const NAME: u32 = 0xa96e616d;

pub const DAY: u32 = 0xa9646179;

pub const COVR: u32 = 0x636f7672;

pub const DESC: u32 = 0x64657363;

/// The handler of metadata in the form of a list.
pub const MDIR: u32 = 0x6d646972;

/// Where a walk through boxes comes to.
#[derive(Debug, Clone, Copy, PartialEq, Eq, Structural)]
pub enum Walk {
    /// This position.
    At(u64),
    /// It ends with an error.
    Ended,
    /// It comes to no end.
    Stuck,
}

/// A box that holds boxes.
#[derive(Debug, Clone, Copy, PartialEq, Eq, Structural)]
pub enum Group {
    /// The file itself.
    Top,
    Moov,
    Moof,
    Trak,
    Udta,
    Mdia,
    Minf,
    Ilst,
    /// An item of a list.
    Item,
    /// Nothing in it holds boxes.
    Flat,
}

impl Group {
    /// A group holds only groups of a lower level.
    pub open spec fn level(self) -> nat {
        match self {
            Group::Top => 9,
            Group::Moov => 8,
            Group::Trak => 7,
            Group::Udta => 7,
            Group::Mdia => 6,
            Group::Minf => 5,
            Group::Ilst => 3,
            Group::Moof => 2,
            Group::Item => 2,
            Group::Flat => 1,
        }
    }
}

/// The header of a box: its type, its size without the eight bytes of a long size,
/// and the position that the size counts from.
#[derive(Debug, Clone, Copy, PartialEq, Eq, Structural)]
pub struct Head {
    pub kind: u32,
    pub size: u64,
    pub start: u64,
}

/// The header at a position, where there is one.
pub open spec fn head_at(b: Seq<u8>, pos: u64) -> Option<Head> {
    let n = u32_at(b, pos as int);
    let kind = u32_at(b, pos + 4) as u32;
    let long = u64_at(b, pos + 8);
    if pos + 8 > b.len() {
        None
    } else if n != 1 {
        Some(Head { kind, size: n as u64, start: pos })
    } else if pos + 16 > b.len() || 0 < long < 16 {
        None
    } else {
        Some(Head { kind, size: if long == 0 { 0 } else { (long - 8) as u64 }, start: (pos + 8) as u64 })
    }
}

/// The position behind a box.
pub open spec fn behind(h: Head) -> int {
    h.start + h.size
}

/// Where the reader comes to when it is sent to a position.
pub open spec fn sent(input: Mp4Input, target: int) -> Walk {
    if target > u64::MAX {
        Walk::Stuck
    } else {
        match mapped(input.virtual_base, input.header_end, target as u64) {
            Some(p) => Walk::At(p),
            None => Walk::Ended,
        }
    }
}

/// Where the reader comes to when it reads on to a position.
pub open spec fn read_to(b: Seq<u8>, target: int) -> Walk {
    if target <= b.len() { Walk::At(target as u64) } else { Walk::Ended }
}

/// The group that a box in another group is.
pub open spec fn group_in(g: Group, kind: u32) -> Option<Group> {
    match g {
        Group::Top => if kind == MOOV {
            Some(Group::Moov)
        } else if kind == MOOF {
            Some(Group::Moof)
        } else {
            None
        },
        Group::Moov => if kind == TRAK {
            Some(Group::Trak)
        } else if kind == UDTA {
            Some(Group::Udta)
        } else if kind == MVEX {
            Some(Group::Flat)
        } else {
            None
        },
        Group::Moof => if kind == TRAF { Some(Group::Flat) } else { None },
        Group::Trak => if kind == MDIA { Some(Group::Mdia) } else { None },
        Group::Mdia => if kind == MINF { Some(Group::Minf) } else { None },
        Group::Minf => if kind == DINF || kind == STBL { Some(Group::Flat) } else { None },
        Group::Ilst => if kind == NAME || kind == DAY || kind == COVR || kind == DESC { Some(Group::Item) } else { None },
        _ => None,
    }
}

/// Whether metadata is read in a group.
pub open spec fn has_meta(g: Group) -> bool {
    g == Group::Moov || g == Group::Trak || g == Group::Udta
}

/// The end of the text at `i`: the next zero.
pub open spec fn text_end(b: Seq<u8>, i: int) -> Option<int>
    decreases b.len() - i,
{
    if i < 0 || i >= b.len() {
        None
    } else if b[i] == 0 {
        Some(i)
    } else {
        text_end(b, i + 1)
    }
}

/// Whether an event message is smaller than its own fields.
pub open spec fn message_short(b: Seq<u8>, h: Head) -> bool {
    let c = h.start + 8;
    let first = if b[c] == 0 { c + 4 } else { c + 24 };
    let fields = if b[c] == 0 { 28int } else { 32 };
    c < b.len() && b[c] <= 1 && (text_end(b, first) matches Some(e) && (text_end(b, e + 1) matches Some(f) && h.size < fields + (f
        + 1 - first)))
}

/// The handler that metadata names last, and where the search for it comes to.
pub open spec fn handler_in(input: Mp4Input, end: u64, pos: u64, last: Option<u32>, fuel: nat) -> (Walk, Option<u32>)
    decreases fuel,
{
    if pos >= end {
        (Walk::At(pos), last)
    } else if fuel == 0 {
        (Walk::Stuck, last)
    } else {
        match head_at(input.bytes, pos) {
            None => (Walk::Ended, last),
            Some(h) => {
                let len = input.bytes.len();
                let next = if h.kind != HDLR {
                    sent(input, behind(h))
                } else if h.size < 33 || h.start + 20 > len {
                    Walk::Ended
                } else if h.size > len {
                    Walk::Stuck
                } else {
                    sent(input, behind(h))
                };
                let named = if h.kind == HDLR { Some(u32_at(input.bytes, h.start + 16) as u32) } else { last };
                match next {
                    Walk::At(p) => if p == pos {
                        (Walk::Stuck, last)
                    } else {
                        handler_in(input, end, p, named, (fuel - 1) as nat)
                    },
                    w => (w, last),
                }
            },
        }
    }
}

/// Where the walk through a box of a group comes to.
pub open spec fn box_walked(input: Mp4Input, g: Group, h: Head) -> Walk
    decreases g.level(), 0int, 0nat,
{
    let len = input.bytes.len();
    if g == Group::Top && h.kind == EMSG && message_short(input.bytes, h) {
        Walk::Stuck
    } else if has_meta(g) && h.kind == META {
        meta_walked(input, h)
    } else if g == Group::Item && h.kind == DATA {
        if h.size < 16 || h.size > len { Walk::Stuck } else { read_to(input.bytes, behind(h)) }
    } else {
        match group_in(g, h.kind) {
            Some(sub) if sub.level() < g.level() => if behind(h) > u64::MAX {
                Walk::Stuck
            } else {
                match walked(input, sub, h.size, behind(h) as u64, (h.start + 8) as u64, (len + 1) as nat) {
                    Walk::At(_) => sent(input, behind(h)),
                    w => w,
                }
            },
            _ => sent(input, behind(h)),
        }
    }
}

/// Where the walk through the boxes of a group from `pos` on comes to. A box that
/// is larger than the group ends it; at the top, so does one without a size.
pub open spec fn walked(input: Mp4Input, g: Group, size: u64, end: u64, pos: u64, fuel: nat) -> Walk
    decreases g.level(), 1int, fuel,
{
    if pos >= end {
        Walk::At(pos)
    } else if fuel == 0 {
        Walk::Stuck
    } else {
        match head_at(input.bytes, pos) {
            None => Walk::Ended,
            Some(h) => if h.size > size {
                Walk::Ended
            } else if g == Group::Top && h.size == 0 {
                Walk::At(pos)
            } else {
                match box_walked(input, g, h) {
                    Walk::At(p) => if p == pos { Walk::Stuck } else { walked(input, g, size, end, p, (fuel - 1) as nat) },
                    w => w,
                }
            },
        }
    }
}

/// Where the walk through a box of metadata comes to.
pub open spec fn item_walked(input: Mp4Input, list: bool, h: Head) -> Walk
    decreases 4nat, 0int, 0nat,
{
    let len = input.bytes.len();
    if list && h.kind == ILST {
        if behind(h) > u64::MAX {
            Walk::Stuck
        } else {
            match walked(input, Group::Ilst, h.size, behind(h) as u64, (h.start + 8) as u64, (len + 1) as nat) {
                Walk::At(_) => sent(input, behind(h)),
                w => w,
            }
        }
    } else if list || h.kind == HDLR {
        sent(input, behind(h))
    } else if h.size < 8 || h.size > len {
        Walk::Stuck
    } else {
        read_to(input.bytes, behind(h))
    }
}

/// Where the walk through metadata from `pos` on comes to.
pub open spec fn items_walked(input: Mp4Input, list: bool, end: u64, pos: u64, fuel: nat) -> Walk
    decreases 4nat, 1int, fuel,
{
    if pos >= end {
        Walk::At(pos)
    } else if fuel == 0 {
        Walk::Stuck
    } else {
        match head_at(input.bytes, pos) {
            None => Walk::Ended,
            Some(h) => match item_walked(input, list, h) {
                Walk::At(p) => if p == pos { Walk::Stuck } else { items_walked(input, list, end, p, (fuel - 1) as nat) },
                w => w,
            },
        }
    }
}

/// Where metadata begins in its box: behind a version, or, where that was left
/// out, with its handler.
pub open spec fn meta_start(b: Seq<u8>, h: Head) -> Option<u64> {
    let c = h.start + 8;
    if c + 4 > b.len() {
        None
    } else if u32_at(b, c) == 0 {
        Some((c + 4) as u64)
    } else if c + 8 <= b.len() && u32_at(b, c + 4) == HDLR {
        Some(c as u64)
    } else {
        None
    }
}

/// Where the walk through a box with metadata comes to: the handler decides how
/// the rest is read.
pub open spec fn meta_walked(input: Mp4Input, h: Head) -> Walk
    decreases 4nat, 2int, 0nat,
{
    let fuel = (input.bytes.len() + 1) as nat;
    if behind(h) > u64::MAX {
        Walk::Stuck
    } else {
        match meta_start(input.bytes, h) {
            None => Walk::Ended,
            Some(from) => match handler_in(input, behind(h) as u64, from, None, fuel) {
                (Walk::At(_), None) => Walk::Ended,
                (Walk::At(_), Some(t)) => match sent(input, from as int) {
                    Walk::At(p) => items_walked(input, t == MDIR, behind(h) as u64, p, fuel),
                    w => w,
                },
                (w, _) => w,
            },
        }
    }
}

/// Whether a header can be walked to an end: it lies within the data, which bounds
/// every box that is read whole, and no box leads the walk astray.
#[verifier::opaque]
pub open spec fn header_sound(input: Mp4Input) -> bool {
    input.size <= input.bytes.len() && !(walked(input, Group::Top, input.size, input.size, 0, (input.bytes.len() + 1) as nat) is Stuck)
}

/// Why a buffer holds no MP4 header that can be read; none where it holds one.
pub open spec fn mp4_fault(input: Mp4Input) -> Option<Seq<char>> {
    if header_sound(input) { mp4_open_fault(input) } else { Some("box sizes lead nowhere"@) }
}

fn read_head(b: &Vec<u8>, pos: u64) -> (r: Option<Head>)
    ensures
        r == head_at(b@, pos),
        r matches Some(h) ==> pos + 8 <= b.len() && h.start <= pos + 8 && h.start + 8 <= b.len(),
{
    let len: u64 = b.len() as u64;
    if len < 8 || pos > len - 8 {
        return None;
    }
    let p: usize = pos as usize;
    let n: u32 = read_u32(b.as_slice(), p);
    let kind: u32 = read_u32(b.as_slice(), p + 4);
    if n != 1 {
        return Some(Head { kind, size: n as u64, start: pos });
    }
    if len < 16 || pos > len - 16 {
        return None;
    }
    let long: u64 = 0x1_0000_0000 * read_u32(b.as_slice(), p + 8) as u64 + read_u32(b.as_slice(), p + 12) as u64;
    if 0 < long && long < 16 {
        return None;
    }
    Some(Head { kind, size: if long == 0 { 0 } else { long - 8 }, start: pos + 8 })
}

fn send(c: &LimitedCursor, start: u64, size: u64, Ghost(input): Ghost<Mp4Input>) -> (r: Walk)
    requires
        input == input_of(*c, input.size),
    ensures
        r == sent(input, start + size),
{
    if size > u64::MAX - start {
        return Walk::Stuck;
    }
    let target: u64 = start + size;
    if c.virtual_base > 0 && target >= c.virtual_base {
        let far: u64 = target - c.virtual_base;
        if far <= u64::MAX - c.header_end { Walk::At(c.header_end + far) } else { Walk::Ended }
    } else {
        Walk::At(target)
    }
}

fn read_on(b: &Vec<u8>, start: u64, size: u64) -> (r: Walk)
    ensures
        r == read_to(b@, start + size),
{
    let len: u64 = b.len() as u64;
    if size <= len && start <= len - size { Walk::At(start + size) } else { Walk::Ended }
}

fn find_group(g: Group, kind: u32) -> (r: Option<Group>)
    ensures
        r == group_in(g, kind),
        r matches Some(sub) ==> sub.level() < g.level(),
{
    match g {
        Group::Top => if kind == MOOV {
            Some(Group::Moov)
        } else if kind == MOOF {
            Some(Group::Moof)
        } else {
            None
        },
        Group::Moov => if kind == TRAK {
            Some(Group::Trak)
        } else if kind == UDTA {
            Some(Group::Udta)
        } else if kind == MVEX {
            Some(Group::Flat)
        } else {
            None
        },
        Group::Moof => if kind == TRAF { Some(Group::Flat) } else { None },
        Group::Trak => if kind == MDIA { Some(Group::Mdia) } else { None },
        Group::Mdia => if kind == MINF { Some(Group::Minf) } else { None },
        Group::Minf => if kind == DINF || kind == STBL { Some(Group::Flat) } else { None },
        Group::Ilst => if kind == NAME || kind == DAY || kind == COVR || kind == DESC { Some(Group::Item) } else { None },
        _ => None,
    }
}

fn find_text_end(b: &Vec<u8>, from: usize) -> (r: Option<usize>)
    ensures
        match r {
            Some(e) => text_end(b@, from as int) == Some(e as int) && from <= e < b.len(),
            None => text_end(b@, from as int) is None,
        },
{
    let mut i: usize = from;
    while i < b.len()
        invariant
            from <= i,
            text_end(b@, from as int) == text_end(b@, i as int),
        decreases b.len() - i,
    {
        if b[i] == 0 {
            return Some(i);
        }
        i = i + 1;
    }
    None
}

fn is_message_short(b: &Vec<u8>, h: &Head) -> (r: bool)
    requires
        h.start + 8 <= b.len(),
    ensures
        r == message_short(b@, *h),
{
    let c: usize = h.start as usize + 8;
    if c >= b.len() || b[c] > 1 {
        return false;
    }
    let skipped: usize = if b[c] == 0 { 4 } else { 24 };
    if b.len() - c <= skipped {
        return false;
    }
    let first: usize = c + skipped;
    match find_text_end(b, first) {
        None => false,
        Some(e) => match find_text_end(b, e + 1) {
            None => false,
            Some(f) => {
                let fields: u128 = if b[c] == 0 { 28 } else { 32 };
                (h.size as u128) < fields + (f as u128 + 1 - first as u128)
            },
        },
    }
}

fn find_handler(c: &LimitedCursor, end: u64, from: u64, Ghost(input): Ghost<Mp4Input>) -> (r: (Walk, Option<u32>))
    requires
        input == input_of(*c, input.size),
    ensures
        r.0 == handler_in(input, end, from, None, (c.data.len() + 1) as nat).0,
        r.0 is At ==> r == handler_in(input, end, from, None, (c.data.len() + 1) as nat),
{
    let ghost goal = handler_in(input, end, from, None, (c.data.len() + 1) as nat);
    let mut pos: u64 = from;
    let mut last: Option<u32> = None;
    let mut fuel: u128 = c.data.len() as u128 + 1;
    while pos < end
        invariant
            input == input_of(*c, input.size),
            goal == handler_in(input, end, from, None, (c.data.len() + 1) as nat),
            goal == handler_in(input, end, pos, last, fuel as nat),
        decreases fuel,
    {
        if fuel == 0 {
            return (Walk::Stuck, last);
        }
        let h: Head = match read_head(&c.data, pos) {
            Some(h) => h,
            None => {
                return (Walk::Ended, last);
            },
        };
        if h.kind == HDLR {
            if h.size < 33 || c.data.len() - (h.start as usize) < 20 {
                return (Walk::Ended, last);
            }
            if h.size > c.data.len() as u64 {
                return (Walk::Stuck, last);
            }
        }
        match send(c, h.start, h.size, Ghost(input)) {
            Walk::At(p) => {
                if p == pos {
                    return (Walk::Stuck, last);
                }
                if h.kind == HDLR {
                    last = Some(read_u32(c.data.as_slice(), h.start as usize + 16));
                }
                pos = p;
            },
            w => {
                return (w, last);
            },
        }
        fuel = fuel - 1;
    }
    (Walk::At(pos), last)
}

fn walk_box(c: &LimitedCursor, g: Group, h: &Head, Ghost(input): Ghost<Mp4Input>) -> (r: Walk)
    requires
        input == input_of(*c, input.size),
        h.start + 8 <= c.data.len(),
    ensures
        r == box_walked(input, g, *h),
    decreases g.level(), 0int, 0nat,
{
    if g == Group::Top && h.kind == EMSG && is_message_short(&c.data, h) {
        return Walk::Stuck;
    }
    if (g == Group::Moov || g == Group::Trak || g == Group::Udta) && h.kind == META {
        return walk_meta(c, h, Ghost(input));
    }
    if g == Group::Item && h.kind == DATA {
        if h.size < 16 || h.size > c.data.len() as u64 {
            return Walk::Stuck;
        }
        return read_on(&c.data, h.start, h.size);
    }
    match find_group(g, h.kind) {
        Some(sub) => {
            if h.size > u64::MAX - h.start {
                return Walk::Stuck;
            }
            match walk(c, sub, h.size, h.start + h.size, h.start + 8, Ghost(input)) {
                Walk::At(_) => send(c, h.start, h.size, Ghost(input)),
                w => w,
            }
        },
        None => send(c, h.start, h.size, Ghost(input)),
    }
}

fn walk(c: &LimitedCursor, g: Group, size: u64, end: u64, from: u64, Ghost(input): Ghost<Mp4Input>) -> (r: Walk)
    requires
        input == input_of(*c, input.size),
    ensures
        r == walked(input, g, size, end, from, (c.data.len() + 1) as nat),
    decreases g.level(), 1int, 0nat,
{
    let ghost goal = walked(input, g, size, end, from, (c.data.len() + 1) as nat);
    let mut pos: u64 = from;
    let mut fuel: u128 = c.data.len() as u128 + 1;
    while pos < end
        invariant
            input == input_of(*c, input.size),
            goal == walked(input, g, size, end, from, (c.data.len() + 1) as nat),
            goal == walked(input, g, size, end, pos, fuel as nat),
        decreases fuel,
    {
        if fuel == 0 {
            return Walk::Stuck;
        }
        let h: Head = match read_head(&c.data, pos) {
            Some(h) => h,
            None => {
                return Walk::Ended;
            },
        };
        if h.size > size {
            return Walk::Ended;
        }
        if g == Group::Top && h.size == 0 {
            return Walk::At(pos);
        }
        match walk_box(c, g, &h, Ghost(input)) {
            Walk::At(p) => {
                if p == pos {
                    return Walk::Stuck;
                }
                pos = p;
            },
            w => {
                return w;
            },
        }
        fuel = fuel - 1;
    }
    Walk::At(pos)
}

fn walk_item(c: &LimitedCursor, list: bool, h: &Head, Ghost(input): Ghost<Mp4Input>) -> (r: Walk)
    requires
        input == input_of(*c, input.size),
        h.start + 8 <= c.data.len(),
    ensures
        r == item_walked(input, list, *h),
    decreases 4nat, 0int, 0nat,
{
    if list && h.kind == ILST {
        if h.size > u64::MAX - h.start {
            return Walk::Stuck;
        }
        return match walk(c, Group::Ilst, h.size, h.start + h.size, h.start + 8, Ghost(input)) {
            Walk::At(_) => send(c, h.start, h.size, Ghost(input)),
            w => w,
        };
    }
    if list || h.kind == HDLR {
        return send(c, h.start, h.size, Ghost(input));
    }
    if h.size < 8 || h.size > c.data.len() as u64 {
        return Walk::Stuck;
    }
    read_on(&c.data, h.start, h.size)
}

fn walk_items(c: &LimitedCursor, list: bool, end: u64, from: u64, Ghost(input): Ghost<Mp4Input>) -> (r: Walk)
    requires
        input == input_of(*c, input.size),
    ensures
        r == items_walked(input, list, end, from, (c.data.len() + 1) as nat),
    decreases 4nat, 1int, 0nat,
{
    let ghost goal = items_walked(input, list, end, from, (c.data.len() + 1) as nat);
    let mut pos: u64 = from;
    let mut fuel: u128 = c.data.len() as u128 + 1;
    while pos < end
        invariant
            input == input_of(*c, input.size),
            goal == items_walked(input, list, end, from, (c.data.len() + 1) as nat),
            goal == items_walked(input, list, end, pos, fuel as nat),
        decreases fuel,
    {
        if fuel == 0 {
            return Walk::Stuck;
        }
        let h: Head = match read_head(&c.data, pos) {
            Some(h) => h,
            None => {
                return Walk::Ended;
            },
        };
        match walk_item(c, list, &h, Ghost(input)) {
            Walk::At(p) => {
                if p == pos {
                    return Walk::Stuck;
                }
                pos = p;
            },
            w => {
                return w;
            },
        }
        fuel = fuel - 1;
    }
    Walk::At(pos)
}

fn find_meta_start(b: &Vec<u8>, h: &Head) -> (r: Option<u64>)
    requires
        h.start + 8 <= b.len(),
    ensures
        r == meta_start(b@, *h),
{
    let c: usize = h.start as usize + 8;
    let left: usize = b.len() - c;
    if left < 4 {
        None
    } else if read_u32(b.as_slice(), c) == 0 {
        Some(c as u64 + 4)
    } else if left >= 8 && read_u32(b.as_slice(), c + 4) == HDLR {
        Some(c as u64)
    } else {
        None
    }
}

fn walk_meta(c: &LimitedCursor, h: &Head, Ghost(input): Ghost<Mp4Input>) -> (r: Walk)
    requires
        input == input_of(*c, input.size),
        h.start + 8 <= c.data.len(),
    ensures
        r == meta_walked(input, *h),
    decreases 4nat, 2int, 0nat,
{
    if h.size > u64::MAX - h.start {
        return Walk::Stuck;
    }
    let end: u64 = h.start + h.size;
    let from: u64 = match find_meta_start(&c.data, h) {
        Some(p) => p,
        None => {
            return Walk::Ended;
        },
    };
    match find_handler(c, end, from, Ghost(input)) {
        (Walk::At(_), None) => Walk::Ended,
        (Walk::At(_), Some(t)) => match send(c, from, 0, Ghost(input)) {
            Walk::At(p) => walk_items(c, t == MDIR, end, p, Ghost(input)),
            w => w,
        },
        (w, _) => w,
    }
}

/// Check whether the header that a cursor stands before can be walked to an end.
pub fn check_header(c: &LimitedCursor, size: u64) -> (r: bool)
    ensures
        r == header_sound(input_of(*c, size)),
{
    proof {
        reveal(header_sound);
    }
    let ghost input = input_of(*c, size);
    if size > c.data.len() as u64 {
        return false;
    }
    match walk(c, Group::Top, size, size, 0, Ghost(input)) {
        Walk::Stuck => false,
        _ => true,
    }
}

} // verus!
