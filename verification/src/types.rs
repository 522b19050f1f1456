//! The file types the carver looks for, with their signatures.

use vstd::prelude::*;

verus! {

/// A file type the carver knows.
#[derive(Debug, Clone, Copy, PartialEq, Eq, Hash, Structural)]
pub enum FileType {
    Jpeg,
    Png,
    Unknown,
}

/// The bytes a JPEG starts with: SOI and the first byte of the next marker.
pub const JPEG_HEADER: [u8; 3] = [0xFF, 0xD8, 0xFF];

/// The bytes a JPEG ends with: EOI.
pub const JPEG_FOOTER: [u8; 2] = [0xFF, 0xD9];

/// The PNG signature.
pub const PNG_HEADER: [u8; 8] = [0x89, 0x50, 0x4E, 0x47, 0x0D, 0x0A, 0x1A, 0x0A];

/// The bytes a PNG ends with: the IEND type and its CRC.
pub const PNG_FOOTER: [u8; 8] = [0x49, 0x45, 0x4E, 0x44, 0xAE, 0x42, 0x60, 0x82];

/// The header signature of a file type.
pub open spec fn header_of(t: FileType) -> Seq<u8> {
    match t {
        FileType::Jpeg => seq![0xFFu8, 0xD8u8, 0xFFu8],
        FileType::Png => seq![0x89u8, 0x50u8, 0x4Eu8, 0x47u8, 0x0Du8, 0x0Au8, 0x1Au8, 0x0Au8],
        FileType::Unknown => Seq::empty(),
    }
}

/// The footer signature of a file type.
pub open spec fn footer_of(t: FileType) -> Seq<u8> {
    match t {
        FileType::Jpeg => seq![0xFFu8, 0xD9u8],
        FileType::Png => seq![0x49u8, 0x45u8, 0x4Eu8, 0x44u8, 0xAEu8, 0x42u8, 0x60u8, 0x82u8],
        FileType::Unknown => Seq::empty(),
    }
}

impl FileType {
    /// The extension a carved file gets.
    pub fn extension(&self) -> (r: &'static str)
        ensures
            r@ == (match *self {
                FileType::Jpeg => "jpg"@,
                FileType::Png => "png"@,
                FileType::Unknown => "bin"@,
            }),
    {
        match self {
            FileType::Jpeg => "jpg",
            FileType::Png => "png",
            FileType::Unknown => "bin",
        }
    }

    /// How many bytes the footer signature has.
    pub fn footer_size(&self) -> (r: u64)
        ensures
            r == footer_of(*self).len(),
    {
        match self {
            FileType::Jpeg => 2,
            FileType::Png => 8,
            FileType::Unknown => 0,
        }
    }

    /// The header signature.
    pub fn header_bytes(&self) -> (r: &'static [u8])
        ensures
            r@ == header_of(*self),
    {
        match self {
            FileType::Jpeg => {
                let r: &'static [u8] = &JPEG_HEADER;
                assert(r@ =~= header_of(*self));
                r
            },
            FileType::Png => {
                let r: &'static [u8] = &PNG_HEADER;
                assert(r@ =~= header_of(*self));
                r
            },
            FileType::Unknown => {
                let r: &'static [u8] = &[];
                assert(r@ =~= header_of(*self));
                r
            },
        }
    }

    /// The footer signature.
    pub fn footer_bytes(&self) -> (r: &'static [u8])
        ensures
            r@ == footer_of(*self),
    {
        match self {
            FileType::Jpeg => {
                let r: &'static [u8] = &JPEG_FOOTER;
                assert(r@ =~= footer_of(*self));
                r
            },
            FileType::Png => {
                let r: &'static [u8] = &PNG_FOOTER;
                assert(r@ =~= footer_of(*self));
                r
            },
            FileType::Unknown => {
                let r: &'static [u8] = &[];
                assert(r@ =~= footer_of(*self));
                r
            },
        }
    }

    /// The type's name.
    pub fn name(&self) -> (r: &'static str)
        ensures
            r@ == (match *self {
                FileType::Jpeg => "JPEG"@,
                FileType::Png => "PNG"@,
                FileType::Unknown => "Unknown"@,
            }),
    {
        match self {
            FileType::Jpeg => "JPEG",
            FileType::Png => "PNG",
            FileType::Unknown => "Unknown",
        }
    }
}

} // verus!
