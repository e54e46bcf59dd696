//! Decoding errors.

use vstd::prelude::*;
use vstd::string::*;

use crate::text::{decimal, push_decimal};

verus! {

/// Why a frame could not be decoded.
#[derive(Debug)]
pub enum DecodeError {
    NotEnoughData,
    InvalidSync,
    UnsupportedVersion(u8),
    InvalidHeader(String),
    FrameTooShort,
    BlockError(String),
}

/// A decoding error with its text as characters.
#[verifier::ext_equal]
pub enum DecodeFault {
    NotEnoughData,
    InvalidSync,
    UnsupportedVersion(u8),
    InvalidHeader(Seq<char>),
    FrameTooShort,
    BlockError(Seq<char>),
}

impl View for DecodeError {
    type V = DecodeFault;

    open spec fn view(&self) -> DecodeFault {
        match self {
            DecodeError::NotEnoughData => DecodeFault::NotEnoughData,
            DecodeError::InvalidSync => DecodeFault::InvalidSync,
            DecodeError::UnsupportedVersion(v) => DecodeFault::UnsupportedVersion(*v),
            DecodeError::InvalidHeader(s) => DecodeFault::InvalidHeader(s@),
            DecodeError::FrameTooShort => DecodeFault::FrameTooShort,
            DecodeError::BlockError(s) => DecodeFault::BlockError(s@),
        }
    }
}

/// The text that is shown for an error.
pub open spec fn fault_text(f: DecodeFault) -> Seq<char> {
    match f {
        DecodeFault::NotEnoughData => "Not enough data"@,
        DecodeFault::InvalidSync => "Invalid AC-3 sync word"@,
        DecodeFault::UnsupportedVersion(v) => "Unsupported bsid: "@ + decimal(v as nat),
        DecodeFault::InvalidHeader(s) => "Invalid header: "@ + s,
        DecodeFault::FrameTooShort => "Frame too short"@,
        DecodeFault::BlockError(s) => "Block decode error: "@ + s,
    }
}

impl DecodeError {
    /// The text that is shown for this error.
    pub fn message(&self) -> (s: String)
        ensures
            s@ == fault_text(self@),
    {
        match self {
            DecodeError::NotEnoughData => String::from_str("Not enough data"),
            DecodeError::InvalidSync => String::from_str("Invalid AC-3 sync word"),
            DecodeError::UnsupportedVersion(v) => {
                let mut s: String = String::from_str("Unsupported bsid: ");
                push_decimal(&mut s, *v as u64);
                s
            },
            DecodeError::InvalidHeader(t) => {
                let mut s: String = String::from_str("Invalid header: ");
                s.append(t.as_str());
                s
            },
            DecodeError::FrameTooShort => String::from_str("Frame too short"),
            DecodeError::BlockError(t) => {
                let mut s: String = String::from_str("Block decode error: ");
                s.append(t.as_str());
                s
            },
        }
    }
}

} // verus!
