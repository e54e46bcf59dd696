//! Top-level MP4 boxes: scanning, locating moov, and the buffers that stand in
//! for a whole file while only a part of it is there.

use vstd::prelude::*;
use vstd::string::*;
use vstd::utf8::valid_utf8;

use crate::demux::types::copy_bytes;

verus! {

/// A top-level MP4 box found during scanning.
#[derive(Debug, Clone, Copy)]
pub struct Mp4Box {
    /// 4-char box type (e.g. "ftyp", "moov", "mdat").
    pub box_type: [u8; 4],
    /// Byte offset of the box start in the file.
    pub offset: u64,
    /// Total box size (header + content). 0 if extends to EOF.
    pub size: u64,
}

/// A top-level box with its type as a sequence.
#[verifier::ext_equal]
pub struct BoxView {
    pub kind: Seq<u8>,
    pub offset: int,
    pub size: int,
}

impl View for Mp4Box {
    type V = BoxView;

    open spec fn view(&self) -> BoxView {
        BoxView { kind: self.box_type@, offset: self.offset as int, size: self.size as int }
    }
}

/// The views of several boxes.
pub open spec fn box_views(v: Seq<Mp4Box>) -> Seq<BoxView> {
    Seq::new(v.len(), |i: int| v[i]@)
}

/// The type "moov".
pub open spec fn moov_kind() -> Seq<u8> {
    seq![0x6Du8, 0x6F, 0x6F, 0x76]
}

/// The type "mdat".
pub open spec fn mdat_kind() -> Seq<u8> {
    seq![0x6Du8, 0x64, 0x61, 0x74]
}

/// The type "ftyp".
pub open spec fn ftyp_kind() -> Seq<u8> {
    seq![0x66u8, 0x74, 0x79, 0x70]
}

/// `std::str::from_utf8`: the text that the bytes encode, where they are valid
/// UTF-8.
#[verifier::external_body]
fn utf8_text(b: &[u8; 4]) -> (r: Option<&str>)
    ensures
        r is Some == valid_utf8(b@),
        r matches Some(s) ==> s.spec_bytes() == b@,
{
    std::str::from_utf8(b).ok()
}

impl Mp4Box {
    /// The box type as text; "????" where it is none.
    pub fn type_str(&self) -> (s: &str)
        ensures
            if valid_utf8(self@.kind) {
                s.spec_bytes() == self@.kind
            } else {
                s@ == "????"@
            },
    {
        match utf8_text(&self.box_type) {
            Some(s) => s,
            None => "????",
        }
    }

    /// Whether the box has the given type.
    pub fn is_type(&self, t: &[u8; 4]) -> (r: bool)
        ensures
            r == (self@.kind == t@),
    {
        let r: bool = self.box_type[0] == t[0] && self.box_type[1] == t[1] && self.box_type[2] == t[2]
            && self.box_type[3] == t[3];
        proof {
            if r {
                assert(self.box_type@ =~= t@);
            }
        }
        r
    }
}

/// The 32-bit number at `i`, most significant byte first.
pub open spec fn u32_at(d: Seq<u8>, i: int) -> int {
    0x100_0000 * d[i] + 0x1_0000 * d[i + 1] + 0x100 * d[i + 2] + d[i + 3]
}

/// The 64-bit number at `i`, most significant byte first.
pub open spec fn u64_at(d: Seq<u8>, i: int) -> int {
    0x1_0000_0000 * u32_at(d, i) + u32_at(d, i + 4)
}

/// The size that the header of the box at `pos` gives: a 64-bit one behind the
/// type where the first one is 1. None where the header is cut off.
pub open spec fn box_size_at(d: Seq<u8>, pos: int) -> Option<int> {
    if pos + 8 > d.len() {
        None
    } else if u32_at(d, pos) != 1 {
        Some(u32_at(d, pos))
    } else if pos + 16 > d.len() {
        None
    } else {
        Some(u64_at(d, pos + 8))
    }
}

/// The boxes from `pos` on, each behind the end of the one before; a size of zero
/// extends to the end.
pub open spec fn boxes_from(d: Seq<u8>, pos: int) -> Seq<BoxView>
    decreases
        (if pos < d.len() {
            d.len() - pos
        } else {
            0
        }),
{
    match box_size_at(d, pos) {
        None => Seq::empty(),
        Some(size) => seq![BoxView { kind: d.subrange(pos + 4, pos + 8), offset: pos, size }] + (if size <= 0 {
            Seq::empty()
        } else {
            boxes_from(d, pos + size)
        }),
    }
}

/// The 32-bit number at `i`.
pub(crate) fn read_u32(d: &[u8], i: usize) -> (r: u32)
    requires
        i + 4 <= d.len(),
    ensures
        r == u32_at(d@, i as int),
{
    0x100_0000 * d[i] as u32 + 0x1_0000 * d[i + 1] as u32 + 0x100 * d[i + 2] as u32 + d[i + 3] as u32
}

/// Scan top-level MP4 boxes from raw data without parsing their content.
/// Each box has an 8-byte header: [4 bytes size][4 bytes type].
/// If size == 1, an extended 64-bit size follows (8 more bytes).
/// If size == 0, the box extends to EOF.
pub fn scan_top_level_boxes(data: &[u8]) -> (r: Vec<Mp4Box>)
    ensures
        box_views(r@) == boxes_from(data@, 0),
{
    let ghost all = boxes_from(data@, 0);
    let mut boxes: Vec<Mp4Box> = Vec::new();
    let mut pos: usize = 0;
    let mut more: bool = true;
    assert(box_views(boxes@) + all =~= all);
    while more && pos < data.len() && data.len() - pos >= 8
        invariant
            pos <= data.len(),
            more ==> all == box_views(boxes@) + boxes_from(data@, pos as int),
            !more ==> all == box_views(boxes@),
        decreases (if more { data.len() - pos + 1 } else { 0 }),
    {
        let ghost before = box_views(boxes@);
        let short: u32 = read_u32(data, pos);
        if short == 1 && data.len() - pos < 16 {
            more = false;
            assert(all =~= before);
        } else {
            let size: u64 = if short == 1 {
                0x1_0000_0000 * read_u32(data, pos + 8) as u64 + read_u32(data, pos + 12) as u64
            } else {
                short as u64
            };
            let box_type: [u8; 4] = [data[pos + 4], data[pos + 5], data[pos + 6], data[pos + 7]];
            let b: Mp4Box = Mp4Box { box_type, offset: pos as u64, size };
            let ghost view = BoxView { kind: data@.subrange(pos + 4, pos + 8), offset: pos as int, size: size as int };
            assert(b@.kind =~= view.kind);
            boxes.push(b);
            assert(box_views(boxes@) =~= before.push(view));
            assert(before + (seq![view] + (if size == 0 {
                Seq::empty()
            } else {
                boxes_from(data@, pos + size)
            })) =~= before.push(view) + (if size == 0 { Seq::empty() } else { boxes_from(data@, pos + size) }));
            if size == 0 || size > (data.len() - pos) as u64 {
                more = false;
                assert(all =~= box_views(boxes@));
            } else {
                pos = pos + size as usize;
            }
        }
    }
    assert(all =~= box_views(boxes@));
    boxes
}

/// Result of scanning for moov box position.
#[derive(Debug, Clone, Copy, PartialEq, Eq, Structural)]
pub enum MoovLocation {
    /// moov was found in the scanned data — normal streaming works.
    Found { offset: u64, size: u64 },
    /// mdat found before moov — moov is likely at end of file.
    AtEnd { moov_offset: u64 },
    /// Not enough data to determine (no mdat or moov found yet).
    Unknown,
}

/// Where moov is, by the boxes from `i` on: in them, or behind the last mdat
/// (which ends at `end`) if that ends before the file does. An mdat that extends
/// to the end of the file leaves no place for it.
pub open spec fn moov_from(boxes: Seq<BoxView>, i: int, end: Option<int>, file_size: u64) -> MoovLocation
    decreases boxes.len() - i,
{
    if i < 0 || i >= boxes.len() {
        match end {
            Some(e) if e < file_size => MoovLocation::AtEnd { moov_offset: e as u64 },
            _ => MoovLocation::Unknown,
        }
    } else {
        let b = boxes[i];
        if b.kind == moov_kind() {
            MoovLocation::Found { offset: b.offset as u64, size: b.size as u64 }
        } else if b.kind != mdat_kind() {
            moov_from(boxes, i + 1, end, file_size)
        } else if b.size == 0 {
            MoovLocation::Unknown
        } else {
            moov_from(boxes, i + 1, Some(b.offset + b.size), file_size)
        }
    }
}

/// Determine where the moov box is located.
/// Call this with the first few KB of data to decide if Range request is needed.
pub fn locate_moov(data: &[u8], file_size: u64) -> (r: MoovLocation)
    ensures
        r == moov_from(boxes_from(data@, 0), 0, None, file_size),
{
    let boxes: Vec<Mp4Box> = scan_top_level_boxes(data);
    let ghost views = box_views(boxes@);
    let moov: [u8; 4] = [0x6D, 0x6F, 0x6F, 0x76];
    let mdat: [u8; 4] = [0x6D, 0x64, 0x61, 0x74];
    assert(moov@ =~= moov_kind());
    assert(mdat@ =~= mdat_kind());
    let mut end: Option<(u64, u64)> = None;
    let mut i: usize = 0;
    while i < boxes.len()
        invariant
            i <= boxes.len(),
            views == box_views(boxes@),
            views == boxes_from(data@, 0),
            moov@ == moov_kind(),
            mdat@ == mdat_kind(),
            moov_from(views, 0, None, file_size) == moov_from(
                views,
                i as int,
                match end {
                    Some((o, s)) => Some(o + s),
                    None => None,
                },
                file_size,
            ),
        decreases boxes.len() - i,
    {
        let b: Mp4Box = boxes[i];
        assert(views[i as int] == b@);
        if b.is_type(&moov) {
            return MoovLocation::Found { offset: b.offset, size: b.size };
        }
        if b.is_type(&mdat) {
            if b.size == 0 {
                return MoovLocation::Unknown;
            }
            end = Some((b.offset, b.size));
        }
        i = i + 1;
    }
    match end {
        Some((offset, size)) => {
            if offset < file_size && size < file_size - offset {
                MoovLocation::AtEnd { moov_offset: offset + size }
            } else {
                MoovLocation::Unknown
            }
        },
        None => MoovLocation::Unknown,
    }
}

/// The first box of a type at or behind `i`.
pub open spec fn first_box(boxes: Seq<BoxView>, kind: Seq<u8>, i: int) -> Option<BoxView>
    decreases boxes.len() - i,
{
    if i < 0 || i >= boxes.len() {
        None
    } else if boxes[i].kind == kind {
        Some(boxes[i])
    } else {
        first_box(boxes, kind, i + 1)
    }
}

/// The first box of a type in `data`.
pub open spec fn find_in(data: Seq<u8>, kind: Seq<u8>) -> Option<BoxView> {
    first_box(boxes_from(data, 0), kind, 0)
}

/// A found box begins inside the data, with a whole header.
proof fn lemma_boxes_inside(d: Seq<u8>, pos: int)
    requires
        0 <= pos,
    ensures
        forall|i: int| 0 <= i < boxes_from(d, pos).len() ==> {
            &&& pos <= (#[trigger] boxes_from(d, pos)[i]).offset
            &&& boxes_from(d, pos)[i].offset + 8 <= d.len()
            &&& 0 <= boxes_from(d, pos)[i].size
            &&& boxes_from(d, pos)[i].kind == d.subrange(boxes_from(d, pos)[i].offset + 4, boxes_from(d, pos)[i].offset + 8)
        },
    decreases
        (if pos < d.len() {
            d.len() - pos
        } else {
            0
        }),
{
    if let Some(size) = box_size_at(d, pos) {
        if size > 0 {
            lemma_boxes_inside(d, pos + size);
            let rest = boxes_from(d, pos + size);
            let all = boxes_from(d, pos);
            assert forall|i: int| 0 <= i < all.len() implies {
                &&& pos <= (#[trigger] all[i]).offset
                &&& all[i].offset + 8 <= d.len()
                &&& 0 <= all[i].size
                &&& all[i].kind == d.subrange(all[i].offset + 4, all[i].offset + 8)
            } by {
                if i > 0 {
                    assert(all[i] == rest[i - 1]);
                }
            }
        }
    }
}

proof fn lemma_first_box(boxes: Seq<BoxView>, kind: Seq<u8>, i: int)
    requires
        0 <= i,
    ensures
        first_box(boxes, kind, i) matches Some(b) ==> exists|k: int| i <= k < boxes.len() && b == #[trigger] boxes[k] && b.kind == kind,
    decreases boxes.len() - i,
{
    if i < boxes.len() && boxes[i].kind != kind {
        lemma_first_box(boxes, kind, i + 1);
    }
}

/// A box that is found in `data` begins inside it, with a whole header of that
/// type.
pub proof fn law_found_box_inside(data: Seq<u8>, kind: Seq<u8>)
    ensures
        find_in(data, kind) matches Some(b) ==> {
            &&& 0 <= b.offset
            &&& b.offset + 8 <= data.len()
            &&& 0 <= b.size
            &&& b.kind == kind
            &&& data.subrange(b.offset + 4, b.offset + 8) == kind
        },
{
    lemma_boxes_inside(data, 0);
    lemma_first_box(boxes_from(data, 0), kind, 0);
}

/// Find the first box of a type.
pub fn find_box(data: &[u8], kind: &[u8; 4]) -> (r: Option<Mp4Box>)
    ensures
        match r {
            Some(b) => find_in(data@, kind@) == Some(b@) && b.offset + 8 <= data.len(),
            None => find_in(data@, kind@) is None,
        },
{
    let boxes: Vec<Mp4Box> = scan_top_level_boxes(data);
    let ghost views = box_views(boxes@);
    proof {
        law_found_box_inside(data@, kind@);
    }
    let mut i: usize = 0;
    while i < boxes.len()
        invariant
            i <= boxes.len(),
            views == box_views(boxes@),
            find_in(data@, kind@) == first_box(views, kind@, i as int),
            find_in(data@, kind@) matches Some(b) ==> b.offset + 8 <= data.len(),
        decreases boxes.len() - i,
    {
        assert(views[i as int] == boxes[i as int]@);
        if boxes[i].is_type(kind) {
            return Some(boxes[i]);
        }
        i = i + 1;
    }
    None
}

/// Find the first moov box.
pub fn find_moov(data: &[u8]) -> (r: Option<Mp4Box>)
    ensures
        match r {
            Some(b) => find_in(data@, moov_kind()) == Some(b@) && b.offset + 8 <= data.len(),
            None => find_in(data@, moov_kind()) is None,
        },
{
    let kind: [u8; 4] = [0x6D, 0x6F, 0x6F, 0x76];
    assert(kind@ =~= moov_kind());
    find_box(data, &kind)
}

/// Find the first mdat box.
pub fn find_mdat(data: &[u8]) -> (r: Option<Mp4Box>)
    ensures
        match r {
            Some(b) => find_in(data@, mdat_kind()) == Some(b@) && b.offset + 8 <= data.len(),
            None => find_in(data@, mdat_kind()) is None,
        },
{
    let kind: [u8; 4] = [0x6D, 0x64, 0x61, 0x74];
    assert(kind@ =~= mdat_kind());
    find_box(data, &kind)
}

/// Find the first ftyp box.
pub fn find_ftyp(data: &[u8]) -> (r: Option<Mp4Box>)
    ensures
        match r {
            Some(b) => find_in(data@, ftyp_kind()) == Some(b@) && b.offset + 8 <= data.len(),
            None => find_in(data@, ftyp_kind()) is None,
        },
{
    let kind: [u8; 4] = [0x66, 0x74, 0x79, 0x70];
    assert(kind@ =~= ftyp_kind());
    find_box(data, &kind)
}

/// The bytes of a box, where all of them are there; a box that extends to the end
/// of the file has none of its own.
pub open spec fn box_bytes(data: Seq<u8>, b: BoxView) -> Option<Seq<u8>> {
    if b.offset + b.size <= data.len() {
        Some(data.subrange(b.offset, b.offset + b.size))
    } else {
        None
    }
}

/// The bytes of a box, where all of them are there.
pub fn take_box(data: &[u8], b: &Mp4Box) -> (r: Option<Vec<u8>>)
    requires
        b.offset <= data.len(),
    ensures
        match r {
            Some(v) => box_bytes(data@, b@) == Some(v@),
            None => box_bytes(data@, b@) is None,
        },
{
    let start: usize = b.offset as usize;
    if b.size <= (data.len() - start) as u64 {
        let part: &[u8] = vstd::slice::slice_subrange(data, start, start + b.size as usize);
        Some(vstd::slice::slice_to_vec(part))
    } else {
        None
    }
}

// ---------------------------------------------------------------------------
// mdat headers
// ---------------------------------------------------------------------------

/// The header size of the box at `i`: 16 with a 64-bit size, and else 8.
pub open spec fn header_size_at(data: Seq<u8>, i: int) -> int {
    if i + 4 <= data.len() && u32_at(data, i) == 1 {
        16
    } else {
        8
    }
}

/// The header size of the box at `i`.
pub fn box_header_size(data: &[u8], i: usize) -> (n: usize)
    ensures
        n == header_size_at(data@, i as int),
{
    if i <= data.len() && data.len() - i >= 4 && read_u32(data, i) == 1 { 16 } else { 8 }
}

/// Digit `k` of `n` to base 256, counted from the least significant one.
pub open spec fn byte_of(n: int, k: int) -> u8 {
    (if k == 0 {
        n % 256
    } else if k == 1 {
        (n / 0x100) % 256
    } else if k == 2 {
        (n / 0x1_0000) % 256
    } else if k == 3 {
        (n / 0x100_0000) % 256
    } else if k == 4 {
        (n / 0x1_0000_0000) % 256
    } else if k == 5 {
        (n / 0x100_0000_0000) % 256
    } else if k == 6 {
        (n / 0x1_0000_0000_0000) % 256
    } else {
        (n / 0x100_0000_0000_0000) % 256
    }) as u8
}

/// Where the size field of an mdat header begins, and its length.
pub open spec fn size_field(offset: int, header: int) -> (int, int) {
    if header == 16 {
        (offset + 8, 8)
    } else {
        (offset, 4)
    }
}

/// `data` with the header of the mdat box at `offset` changed to end where the
/// data ends; unchanged where the header is not all there.
pub open spec fn with_mdat_size(data: Seq<u8>, offset: int, header: int) -> Seq<u8> {
    let (at, width) = size_field(offset, header);
    if offset + header > data.len() || at + width > data.len() {
        data
    } else {
        Seq::new(
            data.len(),
            |j: int| if at <= j < at + width { byte_of(data.len() - offset, at + width - 1 - j) } else { data[j] },
        )
    }
}

/// Change the header of the mdat box at `offset` to end where the data ends.
pub fn patch_mdat(data: &mut Vec<u8>, offset: usize, header: usize)
    ensures
        final(data)@ == with_mdat_size(old(data)@, offset as int, header as int),
{
    let ghost before = data@;
    let len: usize = data.len();
    if offset > len || header > len - offset {
        return ;
    }
    let total: u64 = (len - offset) as u64;
    if header == 16 {
        data.set(offset + 8, ((total / 0x100_0000_0000_0000) % 256) as u8);
        data.set(offset + 9, ((total / 0x1_0000_0000_0000) % 256) as u8);
        data.set(offset + 10, ((total / 0x100_0000_0000) % 256) as u8);
        data.set(offset + 11, ((total / 0x1_0000_0000) % 256) as u8);
        data.set(offset + 12, ((total / 0x100_0000) % 256) as u8);
        data.set(offset + 13, ((total / 0x1_0000) % 256) as u8);
        data.set(offset + 14, ((total / 0x100) % 256) as u8);
        data.set(offset + 15, (total % 256) as u8);
    } else if len - offset >= 4 {
        data.set(offset, ((total / 0x100_0000) % 256) as u8);
        data.set(offset + 1, ((total / 0x1_0000) % 256) as u8);
        data.set(offset + 2, ((total / 0x100) % 256) as u8);
        data.set(offset + 3, (total % 256) as u8);
    }
    assert(data@ =~= with_mdat_size(before, offset as int, header as int));
}

/// Changing the mdat header keeps the length of the data and every byte outside
/// the size field, so that sample offsets stay valid.
pub proof fn law_patch_keeps_samples(data: Seq<u8>, offset: int, header: int)
    ensures
        with_mdat_size(data, offset, header).len() == data.len(),
        forall|j: int|
            0 <= j < data.len() && !(size_field(offset, header).0 <= j < size_field(offset, header).0 + size_field(offset, header).1)
                ==> #[trigger] with_mdat_size(data, offset, header)[j] == data[j],
{
}

proof fn lemma_digits32(n: int)
    requires
        0 <= n < 0x1_0000_0000,
    ensures
        0x100_0000 * byte_of(n, 3) + 0x1_0000 * byte_of(n, 2) + 0x100 * byte_of(n, 1) + byte_of(n, 0) == n,
{
}

proof fn lemma_digits64(n: int)
    requires
        0 <= n < 0x1_0000_0000_0000_0000,
    ensures
        0x1_0000_0000 * (0x100_0000 * byte_of(n, 7) + 0x1_0000 * byte_of(n, 6) + 0x100 * byte_of(n, 5) + byte_of(n, 4)) + 0x100_0000
            * byte_of(n, 3) + 0x1_0000 * byte_of(n, 2) + 0x100 * byte_of(n, 1) + byte_of(n, 0) == n,
{
    let hi = n / 0x1_0000_0000;
    let lo = n % 0x1_0000_0000;
    lemma_digits32(hi);
    lemma_digits32(lo);
    lemma_low_digits(hi, lo);
    lemma_high_digits(n);
}

proof fn lemma_low_digits(hi: int, lo: int)
    requires
        0 <= hi,
        0 <= lo < 0x1_0000_0000,
    ensures
        byte_of(0x1_0000_0000 * hi + lo, 0) == byte_of(lo, 0),
        byte_of(0x1_0000_0000 * hi + lo, 1) == byte_of(lo, 1),
        byte_of(0x1_0000_0000 * hi + lo, 2) == byte_of(lo, 2),
        byte_of(0x1_0000_0000 * hi + lo, 3) == byte_of(lo, 3),
{
    let n = 0x1_0000_0000 * hi + lo;
    assert(n / 0x100 == 0x100_0000 * hi + lo / 0x100);
    assert(n / 0x1_0000 == 0x1_0000 * hi + lo / 0x1_0000);
    assert(n / 0x100_0000 == 0x100 * hi + lo / 0x100_0000);
}

proof fn lemma_high_digits(n: int)
    requires
        0 <= n,
    ensures
        byte_of(n, 4) == byte_of(n / 0x1_0000_0000, 0),
        byte_of(n, 5) == byte_of(n / 0x1_0000_0000, 1),
        byte_of(n, 6) == byte_of(n / 0x1_0000_0000, 2),
        byte_of(n, 7) == byte_of(n / 0x1_0000_0000, 3),
{
    vstd::arithmetic::div_mod::lemma_div_denominator(n, 0x1_0000_0000, 0x100);
    vstd::arithmetic::div_mod::lemma_div_denominator(n, 0x1_0000_0000, 0x1_0000);
    vstd::arithmetic::div_mod::lemma_div_denominator(n, 0x1_0000_0000, 0x100_0000);
}

/// The buffer for the demuxer: where moov was fetched on its own, the downloaded
/// bytes, with the mdat header changed to end where they end, and moov behind
/// them; else the downloaded bytes as they are.
pub open spec fn demux_buffer(download: Seq<u8>, moov: Option<Seq<u8>>, mdat_offset: int, header: int) -> Seq<u8> {
    match moov {
        Some(m) => with_mdat_size(download, mdat_offset, header) + m,
        None => download,
    }
}

/// A part of a file with its mdat box ended where the part ends. Where the place of
/// mdat is not known, it is looked for.
pub open spec fn mdat_closed(data: Seq<u8>, mdat_offset: int, header: int) -> Seq<u8> {
    if mdat_offset > 0 && header > 0 {
        with_mdat_size(data, mdat_offset, header)
    } else {
        match find_in(data, mdat_kind()) {
            Some(b) if data.len() >= 12 => with_mdat_size(data, b.offset, header_size_at(data, b.offset)),
            _ => data,
        }
    }
}

/// The buffer that a header is parsed from: one without a moov box of its own is a
/// part of a file.
pub open spec fn header_buffer(download: Seq<u8>, moov: Option<Seq<u8>>, mdat_offset: int, header: int) -> Seq<u8> {
    let buffer = demux_buffer(download, moov, mdat_offset, header);
    if moov is Some { buffer } else { mdat_closed(buffer, mdat_offset, header) }
}

/// The scan of the demuxer's buffer goes on behind the downloaded bytes, that is,
/// at moov: the mdat box at `offset` ends there.
pub proof fn law_scan_passes_mdat(download: Seq<u8>, moov: Seq<u8>, offset: int)
    requires
        0 < offset,
        offset + header_size_at(download, offset) <= download.len(),
        header_size_at(download, offset) == 8 ==> download.len() - offset < 0x1_0000_0000,
        download.len() <= usize::MAX,
    ensures
        ({
            let buf = demux_buffer(download, Some(moov), offset, header_size_at(download, offset));
            boxes_from(buf, offset) == seq![
                BoxView {
                    kind: download.subrange(offset + 4, offset + 8),
                    offset,
                    size: download.len() - offset,
                },
            ] + boxes_from(buf, download.len() as int)
        }),
{
    let header = header_size_at(download, offset);
    let n = download.len() - offset;
    let w = with_mdat_size(download, offset, header);
    let buf = w + moov;
    if header == 16 {
        lemma_digits64(n);
        assert(buf[offset + 8] == byte_of(n, 7));
        assert(buf[offset + 9] == byte_of(n, 6));
        assert(buf[offset + 10] == byte_of(n, 5));
        assert(buf[offset + 11] == byte_of(n, 4));
        assert(buf[offset + 12] == byte_of(n, 3));
        assert(buf[offset + 13] == byte_of(n, 2));
        assert(buf[offset + 14] == byte_of(n, 1));
        assert(buf[offset + 15] == byte_of(n, 0));
        assert(u32_at(buf, offset) == 1);
    } else {
        lemma_digits32(n);
        assert(buf[offset] == byte_of(n, 3));
        assert(buf[offset + 1] == byte_of(n, 2));
        assert(buf[offset + 2] == byte_of(n, 1));
        assert(buf[offset + 3] == byte_of(n, 0));
    }
    assert(box_size_at(buf, offset) == Some(n));
    assert(buf.subrange(offset + 4, offset + 8) =~= download.subrange(offset + 4, offset + 8));
}

/// Build the buffer to pass to the MP4 demuxer.
pub fn build_demux_buffer(download: &Vec<u8>, moov: &Option<Vec<u8>>, mdat_offset: usize, header: usize) -> (r: Vec<u8>)
    ensures
        r@ == demux_buffer(
            download@,
            match moov {
                Some(m) => Some(m@),
                None => None,
            },
            mdat_offset as int,
            header as int,
        ),
{
    let mut buf: Vec<u8> = copy_bytes(download);
    match moov {
        Some(m) => {
            patch_mdat(&mut buf, mdat_offset, header);
            let mut rest: Vec<u8> = copy_bytes(m);
            buf.append(&mut rest);
        },
        None => {},
    }
    buf
}

/// End the mdat box of a part of a file where the part ends, so that the parser
/// takes it for a whole file.
pub fn close_mdat(data: &mut Vec<u8>, mdat_offset: usize, header: usize)
    ensures
        final(data)@ == mdat_closed(old(data)@, mdat_offset as int, header as int),
{
    if mdat_offset > 0 && header > 0 {
        patch_mdat(data, mdat_offset, header);
    } else if data.len() >= 12 {
        if let Some(b) = find_mdat(data.as_slice()) {
            let i: usize = b.offset as usize;
            let h: usize = box_header_size(data.as_slice(), i);
            patch_mdat(data, i, h);
        }
    }
}

/// Build the buffer to parse a header from.
pub fn build_header_buffer(download: &Vec<u8>, layout: &Mp4Layout) -> (r: Vec<u8>)
    ensures
        r@ == header_buffer(download@, layout@.moov, layout@.mdat_offset, layout@.mdat_header_size),
{
    let mut buf: Vec<u8> = build_demux_buffer(download, &layout.moov, layout.mdat_offset, layout.mdat_header_size);
    if layout.moov.is_none() {
        close_mdat(&mut buf, layout.mdat_offset, layout.mdat_header_size);
    }
    buf
}

// ---------------------------------------------------------------------------
// The layout of a file
// ---------------------------------------------------------------------------

/// What is kept of the layout of an MP4 file.
pub struct Mp4Layout {
    /// Byte offset of the mdat box in the file.
    pub mdat_offset: usize,
    /// Size of the mdat box header (8 or 16 bytes).
    pub mdat_header_size: usize,
    /// The ftyp box.
    pub ftyp: Option<Vec<u8>>,
    /// The moov box, where it was saved.
    pub moov: Option<Vec<u8>>,
}

/// The layout of an MP4 file as sequences.
#[verifier::ext_equal]
pub struct LayoutView {
    pub mdat_offset: int,
    pub mdat_header_size: int,
    pub ftyp: Option<Seq<u8>>,
    pub moov: Option<Seq<u8>>,
}

/// The bytes of an optional vector.
pub open spec fn bytes_view(v: Option<Vec<u8>>) -> Option<Seq<u8>> {
    match v {
        Some(b) => Some(b@),
        None => None,
    }
}

impl View for Mp4Layout {
    type V = LayoutView;

    open spec fn view(&self) -> LayoutView {
        LayoutView {
            mdat_offset: self.mdat_offset as int,
            mdat_header_size: self.mdat_header_size as int,
            ftyp: bytes_view(self.ftyp),
            moov: bytes_view(self.moov),
        }
    }
}

/// The place of mdat: in the header bytes, else in the probed bytes, else right
/// behind moov.
pub open spec fn mdat_place(header: Seq<u8>, probe: Seq<u8>, moov_end: int) -> (int, int) {
    match find_in(header, mdat_kind()) {
        Some(b) => (b.offset, header_size_at(header, b.offset)),
        None => match find_in(probe, mdat_kind()) {
            Some(b) => (b.offset, header_size_at(probe, b.offset)),
            None => (moov_end, 8),
        },
    }
}

/// `found`, or `prev` where nothing was found.
pub open spec fn or_kept(found: Option<Seq<u8>>, prev: Option<Seq<u8>>) -> Option<Seq<u8>> {
    match found {
        Some(b) => Some(b),
        None => prev,
    }
}

/// The ftyp box of the header bytes, or of the probed bytes where those have none.
pub open spec fn ftyp_place(header: Seq<u8>, probe: Seq<u8>, prev: Option<Seq<u8>>) -> Option<Seq<u8>> {
    match find_in(header, ftyp_kind()) {
        Some(b) => or_kept(box_bytes(header, b), prev),
        None => match find_in(probe, ftyp_kind()) {
            Some(b) => or_kept(box_bytes(probe, b), prev),
            None => prev,
        },
    }
}

/// The layout of a file whose moov box lies in the header bytes.
pub open spec fn layout_with_moov(prev: LayoutView, header: Seq<u8>, probe: Seq<u8>, moov_end: int) -> LayoutView {
    let (mdat_offset, mdat_header_size) = mdat_place(header, probe, moov_end);
    LayoutView {
        mdat_offset,
        mdat_header_size,
        ftyp: ftyp_place(header, probe, prev.ftyp),
        moov: match prev.moov {
            Some(m) => Some(m),
            None => match find_in(header, moov_kind()) {
                Some(b) => box_bytes(header, b),
                None => None,
            },
        },
    }
}

/// The layout of a file whose moov box was fetched from its end; none where the
/// initial bytes hold no mdat box.
pub open spec fn layout_moov_at_end(prev: LayoutView, initial: Seq<u8>, moov: Seq<u8>) -> Option<LayoutView> {
    match find_in(initial, mdat_kind()) {
        None => None,
        Some(b) => Some(
            LayoutView {
                mdat_offset: b.offset,
                mdat_header_size: header_size_at(initial, b.offset),
                ftyp: match find_in(initial, ftyp_kind()) {
                    Some(f) => or_kept(box_bytes(initial, f), prev.ftyp),
                    None => Some(initial.take(b.offset)),
                },
                moov: Some(moov),
            },
        ),
    }
}

impl Mp4Layout {
    /// Nothing is known.
    pub fn new() -> (r: Self)
        ensures
            r@ == (LayoutView { mdat_offset: 0, mdat_header_size: 0, ftyp: None, moov: None }),
    {
        Mp4Layout { mdat_offset: 0, mdat_header_size: 0, ftyp: None, moov: None }
    }

    /// Forget the place of mdat and the moov box; the ftyp box stays.
    pub fn clear(&mut self)
        ensures
            final(self)@ == (LayoutView { mdat_offset: 0, mdat_header_size: 0, ftyp: old(self)@.ftyp, moov: None }),
    {
        self.mdat_offset = 0;
        self.mdat_header_size = 0;
        self.moov = None;
    }

    /// Learn the layout of a file whose moov box lies in the header bytes and ends
    /// at `moov_end`.
    pub fn learn(&mut self, header: &[u8], probe: &[u8], moov_end: usize)
        ensures
            final(self)@ == layout_with_moov(old(self)@, header@, probe@, moov_end as int),
    {
        let ghost prev = self@;
        match find_mdat(header) {
            Some(b) => {
                self.mdat_offset = b.offset as usize;
                self.mdat_header_size = box_header_size(header, b.offset as usize);
            },
            None => match find_mdat(probe) {
                Some(b) => {
                    self.mdat_offset = b.offset as usize;
                    self.mdat_header_size = box_header_size(probe, b.offset as usize);
                },
                None => {
                    self.mdat_offset = moov_end;
                    self.mdat_header_size = 8;
                },
            },
        }
        match find_ftyp(header) {
            Some(b) => {
                if let Some(v) = take_box(header, &b) {
                    self.ftyp = Some(v);
                }
            },
            None => {
                if let Some(b) = find_ftyp(probe) {
                    if let Some(v) = take_box(probe, &b) {
                        self.ftyp = Some(v);
                    }
                }
            },
        }
        if self.moov.is_none() {
            if let Some(b) = find_moov(header) {
                if let Some(v) = take_box(header, &b) {
                    self.moov = Some(v);
                }
            }
        }
        assert(self@ =~= layout_with_moov(prev, header@, probe@, moov_end as int));
    }

    /// Learn the layout of a file whose moov box was fetched from its end. Says
    /// whether the initial bytes hold an mdat box; nothing changes where not.
    pub fn learn_at_end(&mut self, initial: &[u8], moov: Vec<u8>) -> (r: bool)
        ensures
            match layout_moov_at_end(old(self)@, initial@, moov@) {
                Some(l) => r && final(self)@ == l,
                None => !r && final(self)@ == old(self)@,
            },
    {
        let ghost prev = self@;
        match find_mdat(initial) {
            None => false,
            Some(b) => {
                self.mdat_offset = b.offset as usize;
                self.mdat_header_size = box_header_size(initial, b.offset as usize);
                match find_ftyp(initial) {
                    Some(f) => {
                        if let Some(v) = take_box(initial, &f) {
                            self.ftyp = Some(v);
                        }
                    },
                    None => {
                        let part: &[u8] = vstd::slice::slice_subrange(initial, 0, b.offset as usize);
                        assert(part@ =~= initial@.take(b.offset as int));
                        self.ftyp = Some(vstd::slice::slice_to_vec(part));
                    },
                }
                self.moov = Some(moov);
                assert(self@ =~= layout_moov_at_end(prev, initial@, moov@)->Some_0);
                true
            },
        }
    }
}

/// The header of the buffer for a seek into fetched bytes: ftyp (or whatever
/// stands before mdat in the downloaded bytes), an empty mdat box and moov (or
/// the one in the downloaded bytes).
pub open spec fn range_header(l: LayoutView, download: Seq<u8>) -> Seq<u8> {
    let ftyp = match l.ftyp {
        Some(f) => f,
        None => download.take(if l.mdat_offset < download.len() { l.mdat_offset } else { download.len() as int }),
    };
    let moov = match l.moov {
        Some(m) => m,
        None => match find_in(download, moov_kind()) {
            Some(b) => match box_bytes(download, b) {
                Some(m) => m,
                None => Seq::empty(),
            },
            None => Seq::empty(),
        },
    };
    ftyp + seq![0u8, 0, 0, 8] + mdat_kind() + moov
}

/// Build the header of the buffer for a seek into fetched bytes.
pub fn build_range_header(l: &Mp4Layout, download: &Vec<u8>) -> (r: Vec<u8>)
    ensures
        r@ == range_header(l@, download@),
{
    let mut buf: Vec<u8> = match &l.ftyp {
        Some(f) => copy_bytes(f),
        None => {
            let end: usize = if l.mdat_offset < download.len() { l.mdat_offset } else { download.len() };
            let part: &[u8] = vstd::slice::slice_subrange(download.as_slice(), 0, end);
            assert(part@ =~= download@.take(end as int));
            vstd::slice::slice_to_vec(part)
        },
    };
    let ghost ftyp = buf@;
    buf.push(0);
    buf.push(0);
    buf.push(0);
    buf.push(8);
    buf.push(0x6D);
    buf.push(0x64);
    buf.push(0x61);
    buf.push(0x74);
    assert(buf@ =~= ftyp + seq![0u8, 0, 0, 8] + mdat_kind());
    match &l.moov {
        Some(m) => {
            let mut rest: Vec<u8> = copy_bytes(m);
            buf.append(&mut rest);
        },
        None => {
            if let Some(b) = find_moov(download.as_slice()) {
                if let Some(v) = take_box(download.as_slice(), &b) {
                    let mut rest: Vec<u8> = v;
                    buf.append(&mut rest);
                }
            }
        },
    }
    assert(buf@ =~= range_header(l@, download@));
    buf
}

/// Boxes follow each other: the first one stands at the start of the search, and each
/// other one where the one before it ends. The size of a box is the number in its first
/// four bytes, or, where that is one, in the eight bytes behind its kind, which is in
/// the second four.
pub proof fn law_boxes_follow(d: Seq<u8>, pos: int, i: int)
    requires
        0 <= pos,
        0 <= i < boxes_from(d, pos).len(),
    ensures
        ({
            let boxes = boxes_from(d, pos);
            let b = boxes[i];
            let o = b.offset;
            let short = 0x100_0000 * d[o] + 0x1_0000 * d[o + 1] + 0x100 * d[o + 2] + d[o + 3];
            &&& boxes[0].offset == pos
            &&& i > 0 ==> o == boxes[i - 1].offset + boxes[i - 1].size
            &&& 0 <= o && o + 8 <= d.len()
            &&& b.kind.len() == 4 && b.kind[0] == d[o + 4] && b.kind[1] == d[o + 5] && b.kind[2] == d[o + 6] && b.kind[3] == d[o + 7]
            &&& short != 1 ==> b.size == short
            &&& short == 1 ==> o + 16 <= d.len() && b.size == 0x1_0000_0000 * (0x100_0000 * d[o + 8] + 0x1_0000 * d[o + 9] + 0x100 * d[o + 10] + d[o + 11])
                + (0x100_0000 * d[o + 12] + 0x1_0000 * d[o + 13] + 0x100 * d[o + 14] + d[o + 15])
        }),
    decreases i,
{
    let size = box_size_at(d, pos)->Some_0;
    let boxes = boxes_from(d, pos);
    let first = seq![BoxView { kind: d.subrange(pos + 4, pos + 8), offset: pos, size }];
    assert(boxes[0] == first[0]);
    if i > 0 {
        let rest = boxes_from(d, pos + size);
        assert(boxes == first + rest);
        law_boxes_follow(d, pos + size, i - 1);
        assert(boxes[i] == rest[i - 1]);
        if i > 1 {
            assert(boxes[i - 1] == rest[i - 2]);
        }
    }
}

/// The moov box that is found is the first one; where there is none, it is looked for
/// behind the last mdat box, within the file.
pub proof fn law_moov_is_first(boxes: Seq<BoxView>, file_size: u64, k: int)
    requires
        0 <= k < boxes.len(),
        forall|i: int| 0 <= i < boxes.len() ==> 0 <= (#[trigger] boxes[i]).offset && 0 < boxes[i].size && boxes[i].offset + boxes[i].size <= u64::MAX,
        forall|i: int| 0 <= i < k ==> (#[trigger] boxes[i]).kind != moov_kind(),
    ensures
        boxes[k].kind == moov_kind() ==> moov_from(boxes, 0, None, file_size) == (MoovLocation::Found { offset: boxes[k].offset as u64, size: boxes[k].size as u64 }),
        k == boxes.len() - 1 && boxes[k].kind == mdat_kind() && boxes[k].offset + boxes[k].size < file_size ==> moov_from(boxes, 0, None, file_size) == (
        MoovLocation::AtEnd { moov_offset: (boxes[k].offset + boxes[k].size) as u64 }),
{
    assert(moov_kind()[1] != mdat_kind()[1]);
    lemma_moov_walk(boxes, file_size, k, 0, None);
}

proof fn lemma_moov_walk(boxes: Seq<BoxView>, file_size: u64, k: int, i: int, end: Option<int>)
    requires
        0 <= i <= k < boxes.len(),
        moov_kind() != mdat_kind(),
        forall|j: int| 0 <= j < boxes.len() ==> 0 <= (#[trigger] boxes[j]).offset && 0 < boxes[j].size && boxes[j].offset + boxes[j].size <= u64::MAX,
        forall|j: int| 0 <= j < k ==> (#[trigger] boxes[j]).kind != moov_kind(),
    ensures
        boxes[k].kind == moov_kind() ==> moov_from(boxes, i, end, file_size) == (MoovLocation::Found { offset: boxes[k].offset as u64, size: boxes[k].size as u64 }),
        k == boxes.len() - 1 && boxes[k].kind == mdat_kind() && boxes[k].offset + boxes[k].size < file_size ==> moov_from(boxes, i, end, file_size) == (
        MoovLocation::AtEnd { moov_offset: (boxes[k].offset + boxes[k].size) as u64 }),
    decreases k - i,
{
    if i < k {
        let b = boxes[i];
        lemma_moov_walk(boxes, file_size, k, i + 1, if b.kind == mdat_kind() { Some(b.offset + b.size) } else { end });
    } else {
        reveal_with_fuel(moov_from, 2);
    }
}

/// The header of a window is the ftyp box, an empty mdat box and the moov box.
pub proof fn law_range_header_parts(l: LayoutView, download: Seq<u8>)
    requires
        l.ftyp is Some,
        l.moov is Some,
    ensures
        ({
            let h = range_header(l, download);
            let f = l.ftyp->Some_0;
            let n = f.len() as int;
            &&& h.take(n) == f
            &&& h.skip(n + 8) == l.moov->Some_0
            &&& h[n] == 0 && h[n + 1] == 0 && h[n + 2] == 0 && h[n + 3] == 8
            &&& h.subrange(n + 4, n + 8) == mdat_kind()
        }),
{
    let h = range_header(l, download);
    let f = l.ftyp->Some_0;
    let n = f.len() as int;
    assert(h.take(n) =~= f);
    assert(h.skip(n + 8) =~= l.moov->Some_0);
    assert(h.subrange(n + 4, n + 8) =~= mdat_kind());
}

} // verus!
