//! Container format detection.

use vstd::prelude::*;

use crate::demux::types::ContainerFormat;

verus! {

/// Whether the four bytes at `i` are `a`, `b`, `c`, `d`.
pub open spec fn four_at(data: Seq<u8>, i: int, a: u8, b: u8, c: u8, d: u8) -> bool {
    0 <= i && i + 4 <= data.len() && data[i] == a && data[i + 1] == b && data[i + 2] == c && data[i + 3] == d
}

/// Whether "ftyp" stands behind the first size field.
pub open spec fn is_mp4(data: Seq<u8>) -> bool {
    data.len() >= 8 && four_at(data, 4, 0x66, 0x74, 0x79, 0x70)
}

/// Whether the data begins with the EBML magic.
pub open spec fn is_ebml(data: Seq<u8>) -> bool {
    four_at(data, 0, 0x1A, 0x45, 0xDF, 0xA3)
}

/// The format that the first bytes tell.
pub open spec fn format_of(data: Seq<u8>) -> ContainerFormat {
    if data.len() < 8 {
        ContainerFormat::Unknown
    } else if is_mp4(data) {
        ContainerFormat::Mp4
    } else if is_ebml(data) {
        ContainerFormat::Mkv
    } else {
        ContainerFormat::Unknown
    }
}

/// Detect the container format from the first bytes of data (magic bytes).
pub fn detect_format(data: &[u8]) -> (f: ContainerFormat)
    ensures
        f == format_of(data@),
{
    if data.len() < 8 {
        return ContainerFormat::Unknown;
    }
    if data[4] == 0x66 && data[5] == 0x74 && data[6] == 0x79 && data[7] == 0x70 {
        return ContainerFormat::Mp4;
    }
    if data[0] == 0x1A && data[1] == 0x45 && data[2] == 0xDF && data[3] == 0xA3 {
        return ContainerFormat::Mkv;
    }
    ContainerFormat::Unknown
}

/// A file is MP4 where "ftyp" stands behind its first four bytes, and Matroska where it
/// begins with the EBML magic; nothing is told of less than eight bytes.
pub proof fn law_formats(data: Seq<u8>)
    ensures
        data.len() < 8 ==> format_of(data) == ContainerFormat::Unknown,
        data.len() >= 8 && data.subrange(4, 8) == seq![0x66u8, 0x74, 0x79, 0x70] ==> format_of(data) == ContainerFormat::Mp4,
        data.len() >= 8 && data.subrange(4, 8) != seq![0x66u8, 0x74, 0x79, 0x70] ==> (format_of(data) == ContainerFormat::Mkv <==> data.take(4) == seq![
            0x1Au8,
            0x45,
            0xDF,
            0xA3,
        ]),
        format_of(data) == ContainerFormat::Mp4 || format_of(data) == ContainerFormat::Mkv || format_of(data) == ContainerFormat::Unknown,
{
    if data.len() >= 8 {
        let k = data.subrange(4, 8);
        assert(k[0] == data[4] && k[1] == data[5] && k[2] == data[6] && k[3] == data[7]);
        let f = seq![0x66u8, 0x74, 0x79, 0x70];
        if is_mp4(data) {
            assert(k =~= f);
        }
        let e = data.take(4);
        assert(e[0] == data[0] && e[1] == data[1] && e[2] == data[2] && e[3] == data[3]);
        if is_ebml(data) {
            assert(e =~= seq![0x1Au8, 0x45, 0xDF, 0xA3]);
        }
    }
}

} // verus!
