//! WebCodecs codec strings of Matroska codec IDs.

use vstd::prelude::*;
use vstd::string::*;

use crate::text::{hex_byte, hex_value, law_bytes_are_read_back, push_hex_byte, same_text};

verus! {

/// "avc1." with profile, compatibility and level in hexadecimal.
pub open spec fn avc_text(profile: u8, compatibility: u8, level: u8) -> Seq<char> {
    "avc1."@ + hex_byte(profile) + hex_byte(compatibility) + hex_byte(level)
}

/// "avc1." with profile, compatibility and level in hexadecimal.
pub fn avc_string(profile: u8, compatibility: u8, level: u8) -> (s: String)
    ensures
        s@ == avc_text(profile, compatibility, level),
{
    let mut s: String = String::from_str("avc1.");
    push_hex_byte(&mut s, profile);
    push_hex_byte(&mut s, compatibility);
    push_hex_byte(&mut s, level);
    s
}

/// The codec string of a Matroska video codec ID; that of AVC holds the profile
/// of its configuration record, where there is one.
pub open spec fn video_codec_text(codec_id: Seq<char>, config: Option<Seq<u8>>) -> Seq<char> {
    if codec_id == "V_MPEG4/ISO/AVC"@ {
        match config {
            Some(c) if c.len() >= 4 => avc_text(c[1], c[2], c[3]),
            _ => "avc1.640029"@,
        }
    } else if codec_id == "V_MPEGH/ISO/HEVC"@ {
        "hvc1.1.6.L93.B0"@
    } else if codec_id == "V_VP8"@ {
        "vp8"@
    } else if codec_id == "V_VP9"@ {
        "vp09.00.10.08"@
    } else if codec_id == "V_AV1"@ {
        "av01.0.01M.08"@
    } else {
        "unknown:"@ + codec_id
    }
}

/// The codec string of a Matroska audio codec ID.
pub open spec fn audio_codec_text(codec_id: Seq<char>) -> Seq<char> {
    if codec_id == "A_AAC"@ || codec_id == "A_AAC/MPEG2/LC"@ || codec_id == "A_AAC/MPEG4/LC"@ {
        "mp4a.40.2"@
    } else if codec_id == "A_AAC/MPEG4/SBR"@ {
        "mp4a.40.5"@
    } else if codec_id == "A_OPUS"@ {
        "opus"@
    } else if codec_id == "A_VORBIS"@ {
        "vorbis"@
    } else if codec_id == "A_FLAC"@ {
        "flac"@
    } else if codec_id == "A_AC3"@ {
        "ac-3"@
    } else if codec_id == "A_EAC3"@ {
        "ec-3"@
    } else {
        "unknown:"@ + codec_id
    }
}

/// The bytes of an optional configuration record.
pub open spec fn config_view(c: Option<Vec<u8>>) -> Option<Seq<u8>> {
    match c {
        Some(v) => Some(v@),
        None => None,
    }
}

/// Map Matroska codec ID to WebCodecs-compatible codec string.
pub fn map_video_codec(codec_id: &str, codec_private: &Option<Vec<u8>>) -> (s: String)
    ensures
        s@ == video_codec_text(codec_id@, config_view(*codec_private)),
{
    if same_text(codec_id, "V_MPEG4/ISO/AVC") {
        if let Some(data) = codec_private {
            if data.len() >= 4 {
                return avc_string(data[1], data[2], data[3]);
            }
        }
        String::from_str("avc1.640029")
    } else if same_text(codec_id, "V_MPEGH/ISO/HEVC") {
        String::from_str("hvc1.1.6.L93.B0")
    } else if same_text(codec_id, "V_VP8") {
        String::from_str("vp8")
    } else if same_text(codec_id, "V_VP9") {
        String::from_str("vp09.00.10.08")
    } else if same_text(codec_id, "V_AV1") {
        String::from_str("av01.0.01M.08")
    } else {
        let mut s: String = String::from_str("unknown:");
        s.append(codec_id);
        s
    }
}

/// Map Matroska codec ID to WebCodecs-compatible codec string.
pub fn map_audio_codec(codec_id: &str) -> (s: String)
    ensures
        s@ == audio_codec_text(codec_id@),
{
    if same_text(codec_id, "A_AAC") || same_text(codec_id, "A_AAC/MPEG2/LC") || same_text(codec_id, "A_AAC/MPEG4/LC") {
        String::from_str("mp4a.40.2")
    } else if same_text(codec_id, "A_AAC/MPEG4/SBR") {
        String::from_str("mp4a.40.5")
    } else if same_text(codec_id, "A_OPUS") {
        String::from_str("opus")
    } else if same_text(codec_id, "A_VORBIS") {
        String::from_str("vorbis")
    } else if same_text(codec_id, "A_FLAC") {
        String::from_str("flac")
    } else if same_text(codec_id, "A_AC3") {
        String::from_str("ac-3")
    } else if same_text(codec_id, "A_EAC3") {
        String::from_str("ec-3")
    } else {
        let mut s: String = String::from_str("unknown:");
        s.append(codec_id);
        s
    }
}

/// The codec string of AVC can be read back: behind "avc1." stand the profile, the
/// compatibility and the level in two hexadecimal digits each.
pub proof fn law_avc_text_is_read_back(profile: u8, compatibility: u8, level: u8)
    ensures
        ({
            let t = avc_text(profile, compatibility, level);
            &&& t.len() == 11
            &&& t.take(5) == "avc1."@
            &&& 16 * hex_value(t[5]) + hex_value(t[6]) == profile
            &&& 16 * hex_value(t[7]) + hex_value(t[8]) == compatibility
            &&& 16 * hex_value(t[9]) + hex_value(t[10]) == level
        }),
{
    reveal_strlit("avc1.");
    law_bytes_are_read_back(profile);
    law_bytes_are_read_back(compatibility);
    law_bytes_are_read_back(level);
    assert(avc_text(profile, compatibility, level).take(5) =~= "avc1."@);
}

/// The codec string of an AVC track tells the profile, the compatibility and the level
/// of its configuration record, which stand behind the version.
pub proof fn law_avc_profile_is_told(config: Seq<u8>)
    requires
        config.len() >= 4,
    ensures
        ({
            let t = video_codec_text("V_MPEG4/ISO/AVC"@, Some(config));
            &&& t.len() == 11
            &&& 16 * hex_value(t[5]) + hex_value(t[6]) == config[1]
            &&& 16 * hex_value(t[7]) + hex_value(t[8]) == config[2]
            &&& 16 * hex_value(t[9]) + hex_value(t[10]) == config[3]
        }),
{
    law_avc_text_is_read_back(config[1], config[2], config[3]);
}

} // verus!
