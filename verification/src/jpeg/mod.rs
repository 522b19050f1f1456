//! JPEG (ITU-T T.81) marker vocabulary, and the modules that read JPEG
//! structure: the strict marker-segment parser and the validator built on
//! it, the resynchronising parser that steps over damaged segments and its
//! own validator, where a stream ends inside a longer buffer, the Huffman
//! table and DC-coefficient reader, and the restart-marker scanner.

use vstd::prelude::*;

pub mod bits;
pub mod boundary;
pub mod huffman;
pub mod parser;
pub mod restart;
pub mod resync;
pub mod scan;
pub mod validator;

verus! {

/// Start of image.
pub const SOI: [u8; 2] = [0xFF, 0xD8];
/// End of image.
pub const EOI: [u8; 2] = [0xFF, 0xD9];
/// Start of scan.
pub const SOS: u8 = 0xDA;
/// Define quantization table.
pub const DQT: u8 = 0xDB;
/// Define Huffman table.
pub const DHT: u8 = 0xC4;
/// Baseline frame.
pub const SOF0: u8 = 0xC0;
/// Extended sequential frame.
pub const SOF1: u8 = 0xC1;
/// Progressive frame.
pub const SOF2: u8 = 0xC2;
/// Lossless frame.
pub const SOF3: u8 = 0xC3;
/// Define restart interval.
pub const DRI: u8 = 0xDD;
pub const RST0: u8 = 0xD0;
pub const RST1: u8 = 0xD1;
pub const RST2: u8 = 0xD2;
pub const RST3: u8 = 0xD3;
pub const RST4: u8 = 0xD4;
pub const RST5: u8 = 0xD5;
pub const RST6: u8 = 0xD6;
pub const RST7: u8 = 0xD7;
pub const APP0: u8 = 0xE0;
pub const APP1: u8 = 0xE1;
pub const APP2: u8 = 0xE2;
/// Comment.
pub const COM: u8 = 0xFE;

/// `RST0` to `RST7`.
pub open spec fn restart_spec(m: u8) -> bool {
    0xD0 <= m <= 0xD7
}

/// A start-of-frame marker: `C0`..`C3` and `C5`..`CF` (`C4` is DHT).
pub open spec fn sof_spec(m: u8) -> bool {
    (0xC0 <= m <= 0xC3) || (0xC5 <= m <= 0xCF)
}

/// `APP0` to `APP15`.
pub open spec fn app_spec(m: u8) -> bool {
    0xE0 <= m <= 0xEF
}

/// A marker with no length field after it: SOI, EOI, the restart markers and
/// `TEM` (`01`).
pub open spec fn standalone_spec(m: u8) -> bool {
    m == 0xD8 || m == 0xD9 || restart_spec(m) || m == 0x01
}

/// Whether `marker` is a restart marker.
#[inline]
pub fn is_restart_marker(marker: u8) -> (r: bool)
    ensures
        r == restart_spec(marker),
{
    marker >= RST0 && marker <= RST7
}

/// Whether `marker` starts a frame.
#[inline]
pub fn is_sof_marker(marker: u8) -> (r: bool)
    ensures
        r == sof_spec(marker),
{
    (marker >= SOF0 && marker <= SOF3) || (marker >= 0xC5 && marker <= 0xCF)
}

/// Whether `marker` is an application segment.
#[inline]
pub fn is_app_marker(marker: u8) -> (r: bool)
    ensures
        r == app_spec(marker),
{
    marker >= 0xE0 && marker <= 0xEF
}

/// Whether `marker` stands alone, with no length field.
#[inline]
pub fn is_standalone_marker(marker: u8) -> (r: bool)
    ensures
        r == standalone_spec(marker),
{
    marker == 0xD8 || marker == 0xD9 || is_restart_marker(marker) || marker == 0x01
}

/// The restart index `0..=7` of a restart marker; `None` for any other byte.
#[inline]
pub fn restart_marker_index(marker: u8) -> (r: Option<u8>)
    ensures
        restart_spec(marker) ==> r == Some((marker - 0xD0) as u8),
        !restart_spec(marker) ==> r is None,
{
    if is_restart_marker(marker) {
        Some(marker - RST0)
    } else {
        None
    }
}

/// The markers a JPEG file may open with right after SOI: an application
/// segment, DQT, DHT, a frame, DRI or a comment.
pub open spec fn opening_marker_spec(m: u8) -> bool {
    app_spec(m) || m == 0xDB || m == 0xC4 || sof_spec(m) || m == 0xDD || m == 0xFE
}

/// Whether `data` starts like a JPEG file: SOI, then a marker that may follow
/// it.
pub fn quick_validate_header(data: &[u8]) -> (r: bool)
    ensures
        r == (data@.len() >= 4 && data@[0] == 0xFF && data@[1] == 0xD8 && data@[2] == 0xFF
            && opening_marker_spec(data@[3])),
{
    if data.len() < 4 {
        return false;
    }
    if data[0] != 0xFF || data[1] != 0xD8 {
        return false;
    }
    if data[2] != 0xFF {
        return false;
    }
    let marker = data[3];
    is_app_marker(marker) || marker == DQT || marker == DHT || is_sof_marker(marker)
        || marker == DRI || marker == COM
}

} // verus!
