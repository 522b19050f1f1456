//! Marker-segment parser for JPEG streams.
//!
//! The parser walks a byte buffer from SOI, recording every marker it meets,
//! the frame size, the restart interval, an EXIF thumbnail if one is embedded,
//! and where the stream stops making sense. Its behaviour is stated exactly by
//! [`jpeg_parse_spec`], a scan over positions with three modes: looking for a
//! marker, skipping fill bytes before one, and stepping through entropy-coded
//! data after SOS.

use vstd::prelude::*;

use super::{is_restart_marker, is_sof_marker, is_standalone_marker, restart_spec, sof_spec, standalone_spec};
use crate::error::CoreError;

verus! {

/// What a marker byte announces.
#[derive(Debug, Clone, Copy, PartialEq, Eq, Structural)]
pub enum MarkerType {
    Soi,
    Eoi,
    Sos,
    Dqt,
    Dht,
    Sof(u8),
    Dri,
    App(u8),
    Com,
    Rst(u8),
    Other(u8),
}

/// The marker type a byte following `FF` names.
pub open spec fn marker_type_of(b: u8) -> MarkerType {
    if b == 0xD8 {
        MarkerType::Soi
    } else if b == 0xD9 {
        MarkerType::Eoi
    } else if b == 0xDA {
        MarkerType::Sos
    } else if b == 0xDB {
        MarkerType::Dqt
    } else if b == 0xC4 {
        MarkerType::Dht
    } else if b == 0xDD {
        MarkerType::Dri
    } else if b == 0xFE {
        MarkerType::Com
    } else if 0xD0 <= b <= 0xD7 {
        MarkerType::Rst((b - 0xD0) as u8)
    } else if 0xE0 <= b <= 0xEF {
        MarkerType::App((b - 0xE0) as u8)
    } else if sof_spec(b) {
        MarkerType::Sof(b)
    } else {
        MarkerType::Other(b)
    }
}

/// The byte value of a marker type, as an integer (it may exceed a byte for a
/// restart or application index out of range).
pub open spec fn marker_byte_of(m: MarkerType) -> int {
    match m {
        MarkerType::Soi => 0xD8,
        MarkerType::Eoi => 0xD9,
        MarkerType::Sos => 0xDA,
        MarkerType::Dqt => 0xDB,
        MarkerType::Dht => 0xC4,
        MarkerType::Dri => 0xDD,
        MarkerType::Com => 0xFE,
        MarkerType::Rst(n) => 0xD0 + n,
        MarkerType::App(n) => 0xE0 + n,
        MarkerType::Sof(b) => b as int,
        MarkerType::Other(b) => b as int,
    }
}

impl MarkerType {
    /// Whether the marker's byte fits a byte: a restart index of at most
    /// `0x2F` and an application index of at most `0x1F`.
    pub open spec fn has_byte(self) -> bool {
        marker_byte_of(self) <= 0xFF
    }

    /// The marker type named by `byte`.
    #[inline]
    pub fn from_byte(byte: u8) -> (r: Self)
        ensures
            r == marker_type_of(byte),
    {
        match byte {
            0xD8 => MarkerType::Soi,
            0xD9 => MarkerType::Eoi,
            0xDA => MarkerType::Sos,
            0xDB => MarkerType::Dqt,
            0xC4 => MarkerType::Dht,
            0xDD => MarkerType::Dri,
            0xFE => MarkerType::Com,
            b => {
                if b >= 0xD0 && b <= 0xD7 {
                    MarkerType::Rst(b - 0xD0)
                } else if b >= 0xE0 && b <= 0xEF {
                    MarkerType::App(b - 0xE0)
                } else if is_sof_marker(b) {
                    MarkerType::Sof(b)
                } else {
                    MarkerType::Other(b)
                }
            },
        }
    }

    /// The byte this marker type is written as.
    #[inline]
    pub fn to_byte(&self) -> (r: u8)
        requires
            self.has_byte(),
        ensures
            r as int == marker_byte_of(*self),
    {
        match self {
            MarkerType::Soi => 0xD8,
            MarkerType::Eoi => 0xD9,
            MarkerType::Sos => 0xDA,
            MarkerType::Dqt => 0xDB,
            MarkerType::Dht => 0xC4,
            MarkerType::Dri => 0xDD,
            MarkerType::Com => 0xFE,
            MarkerType::Rst(n) => 0xD0 + *n,
            MarkerType::App(n) => 0xE0 + *n,
            MarkerType::Sof(b) => *b,
            MarkerType::Other(b) => *b,
        }
    }
}

/// Every byte names a marker type that writes back as that same byte.
pub proof fn lemma_marker_byte_roundtrip(b: u8)
    ensures
        marker_type_of(b).has_byte(),
        marker_byte_of(marker_type_of(b)) == b as int,
{
}

/// One marker found in a stream.
#[derive(Debug, Clone, Copy, PartialEq, Eq, Structural)]
pub struct JpegMarker {
    pub marker_type: MarkerType,
    /// Offset of the `FF` byte.
    pub offset: u64,
    /// Segment length field; zero for a standalone marker.
    pub length: u16,
}

impl JpegMarker {
    /// Bytes the marker occupies: two for a standalone marker, otherwise the
    /// two marker bytes plus the segment length.
    #[inline]
    pub fn total_size(&self) -> (r: u64)
        ensures
            r == (if self.length == 0 { 2 } else { 2 + self.length as int }),
    {
        if self.length == 0 {
            2
        } else {
            2 + self.length as u64
        }
    }
}

/// An embedded thumbnail found inside an EXIF segment.
#[derive(Debug, Clone, Copy, PartialEq, Eq, Structural)]
pub struct ThumbnailInfo {
    pub soi_offset: u64,
    pub eoi_offset: Option<u64>,
    pub width: Option<u16>,
    pub height: Option<u16>,
}

/// What the parser learned about a stream.
#[derive(Debug, Clone)]
pub struct JpegStructure {
    pub markers: Vec<JpegMarker>,
    pub sos_offset: Option<u64>,
    pub image_width: u16,
    pub image_height: u16,
    pub is_progressive: bool,
    pub restart_interval: u16,
    pub thumbnail: Option<ThumbnailInfo>,
    pub corruption_point: Option<u64>,
    pub valid_end_offset: u64,
}

/// The value of a [`JpegStructure`], with its marker list as a sequence.
#[verifier::ext_equal]
pub struct JpegModel {
    pub markers: Seq<JpegMarker>,
    pub sos_offset: Option<u64>,
    pub image_width: u16,
    pub image_height: u16,
    pub is_progressive: bool,
    pub restart_interval: u16,
    pub thumbnail: Option<ThumbnailInfo>,
    pub corruption_point: Option<u64>,
    pub valid_end_offset: u64,
}

impl View for JpegStructure {
    type V = JpegModel;

    open spec fn view(&self) -> JpegModel {
        JpegModel {
            markers: self.markers@,
            sos_offset: self.sos_offset,
            image_width: self.image_width,
            image_height: self.image_height,
            is_progressive: self.is_progressive,
            restart_interval: self.restart_interval,
            thumbnail: self.thumbnail,
            corruption_point: self.corruption_point,
            valid_end_offset: self.valid_end_offset,
        }
    }
}

/// A structure holding nothing: no markers, no frame, no end.
pub open spec fn empty_jpeg_model() -> JpegModel {
    JpegModel {
        markers: Seq::empty(),
        sos_offset: None,
        image_width: 0,
        image_height: 0,
        is_progressive: false,
        restart_interval: 0,
        thumbnail: None,
        corruption_point: None,
        valid_end_offset: 0,
    }
}

impl Default for JpegStructure {
    fn default() -> (r: Self)
        ensures
            r@ == empty_jpeg_model(),
    {
        JpegStructure {
            markers: Vec::new(),
            sos_offset: None,
            image_width: 0,
            image_height: 0,
            is_progressive: false,
            restart_interval: 0,
            thumbnail: None,
            corruption_point: None,
            valid_end_offset: 0,
        }
    }
}

/// Big-endian 16-bit value at `i`.
pub open spec fn be16(d: Seq<u8>, i: int) -> u16 {
    (d[i] as int * 256 + d[i + 1] as int) as u16
}

/// The model with one more marker.
pub open spec fn with_marker(m: JpegModel, t: MarkerType, offset: int, length: int) -> JpegModel {
    JpegModel {
        markers: m.markers.push(JpegMarker { marker_type: t, offset: offset as u64, length: length as u16 }),
        ..m
    }
}

/// The model once the scan stops at `pos`: a stream that never reached EOI
/// ends where the scan stopped.
pub open spec fn finish(m: JpegModel, pos: int) -> JpegModel {
    if m.valid_end_offset == 0 {
        JpegModel { valid_end_offset: pos as u64, ..m }
    } else {
        m
    }
}

/// Frame height and width read from a frame header whose body starts at `off`.
pub open spec fn sof_update(d: Seq<u8>, off: int, m: JpegModel) -> JpegModel {
    if off + 5 > d.len() {
        m
    } else {
        JpegModel { image_height: be16(d, off + 1), image_width: be16(d, off + 3), ..m }
    }
}

/// The first `i` in `from..to` where `d[i] == a` and `d[i + 1] == b`.
pub open spec fn find_pair(d: Seq<u8>, a: u8, b: u8, from: int, to: int) -> Option<int>
    decreases to - from,
{
    if from >= to {
        None
    } else if d[from] == a && d[from + 1] == b {
        Some(from)
    } else {
        find_pair(d, a, b, from + 1, to)
    }
}

/// `Exif\0\0`.
pub open spec fn exif_tag() -> Seq<u8> {
    seq![0x45u8, 0x78u8, 0x69u8, 0x66u8, 0x00u8, 0x00u8]
}

/// An EXIF APP1 segment whose payload starts at `off` and is `len` bytes
/// long: the first embedded SOI becomes the thumbnail, with the first EOI
/// after it.
pub open spec fn exif_update(d: Seq<u8>, off: int, len: int, m: JpegModel) -> JpegModel {
    if len < 14 || off + 14 > d.len() {
        m
    } else if d.subrange(off, off + 6) != exif_tag() {
        m
    } else {
        let seg_end = off + len;
        let soi_to = if seg_end >= 2 { seg_end - 2 } else { 0 };
        match find_pair(d, 0xFF, 0xD8, off + 6, soi_to) {
            None => m,
            Some(i) => {
                let eoi_to = if seg_end >= 1 { seg_end - 1 } else { 0 };
                let eoi = match find_pair(d, 0xFF, 0xD9, i + 2, eoi_to) {
                    Some(j) => Some(j as u64),
                    None => None,
                };
                JpegModel {
                    thumbnail: Some(ThumbnailInfo { soi_offset: i as u64, eoi_offset: eoi, width: None, height: None }),
                    ..m
                }
            },
        }
    }
}

/// Mode of the scan: skipping `FF` fill bytes at a marker.
pub open spec fn mode_fill() -> int { 0 }

/// Mode of the scan: looking for the next marker.
pub open spec fn mode_marker() -> int { 1 }

/// Mode of the scan: inside entropy-coded data after SOS.
pub open spec fn mode_entropy() -> int { 2 }

/// The model the scan of `d` ends with, from position `pos` in mode `mode`
/// with `m` learned so far.
pub open spec fn jpeg_scan(d: Seq<u8>, pos: int, mode: int, m: JpegModel) -> JpegModel
    decreases d.len() - pos, mode,
{
    let n = d.len();
    if pos < 0 || pos > n || mode < 0 || mode > 2 {
        m
    } else if mode == 1 {
        if !(pos < n - 1) {
            finish(m, pos)
        } else if d[pos] != 0xFF {
            jpeg_scan(d, pos + 1, 1, m)
        } else {
            jpeg_scan(d, pos, 0, m)
        }
    } else if mode == 0 {
        if pos < n - 1 && d[pos + 1] == 0xFF {
            jpeg_scan(d, pos + 1, 0, m)
        } else if pos >= n - 1 {
            finish(m, pos)
        } else {
            let mb = d[pos + 1];
            if mb == 0x00 {
                jpeg_scan(d, pos + 2, 1, m)
            } else if standalone_spec(mb) {
                let m1 = with_marker(m, marker_type_of(mb), pos, 0);
                if mb == 0xD9 {
                    JpegModel { valid_end_offset: (pos + 2) as u64, ..m1 }
                } else {
                    jpeg_scan(d, pos + 2, 1, m1)
                }
            } else if pos + 3 >= n {
                finish(JpegModel { corruption_point: Some(pos as u64), ..m }, pos)
            } else if be16(d, pos + 2) < 2 || pos + 2 + be16(d, pos + 2) > n {
                finish(JpegModel { corruption_point: Some(pos as u64), ..m }, pos)
            } else {
                let length = be16(d, pos + 2) as int;
                let t = marker_type_of(mb);
                let m1 = with_marker(m, t, pos, length);
                let next = pos + 2 + length;
                match t {
                    MarkerType::Sof(_) => {
                        let m2 = sof_update(d, pos + 4, m1);
                        let m3 = if mb == 0xC2 { JpegModel { is_progressive: true, ..m2 } } else { m2 };
                        jpeg_scan(d, next, 1, m3)
                    },
                    MarkerType::Sos => {
                        jpeg_scan(d, next, 2, JpegModel { sos_offset: Some(pos as u64), ..m1 })
                    },
                    MarkerType::Dri => {
                        let m2 = if length >= 4 && n - pos > 5 {
                            JpegModel { restart_interval: be16(d, pos + 4), ..m1 }
                        } else {
                            m1
                        };
                        jpeg_scan(d, next, 1, m2)
                    },
                    MarkerType::App(k) => {
                        if k == 1 {
                            jpeg_scan(d, next, 1, exif_update(d, pos + 4, length - 2, m1))
                        } else {
                            jpeg_scan(d, next, 1, m1)
                        }
                    },
                    _ => jpeg_scan(d, next, 1, m1),
                }
            }
        }
    } else {
        if !(pos < n - 1) {
            jpeg_scan(d, pos, 1, m)
        } else if d[pos] == 0xFF && d[pos + 1] != 0x00 {
            let nm = d[pos + 1];
            if nm == 0xD9 {
                JpegModel { valid_end_offset: (pos + 2) as u64, ..with_marker(m, MarkerType::Eoi, pos, 0) }
            } else if restart_spec(nm) {
                jpeg_scan(d, pos + 2, 2, with_marker(m, MarkerType::Rst((nm - 0xD0) as u8), pos, 0))
            } else if nm == 0xFF {
                jpeg_scan(d, pos + 1, 2, m)
            } else {
                jpeg_scan(d, pos, 1, m)
            }
        } else {
            jpeg_scan(d, pos + 1, 2, m)
        }
    }
}

/// Whether `d` opens with SOI and is long enough to parse.
pub open spec fn jpeg_header_ok(d: Seq<u8>) -> bool {
    d.len() >= 4 && d[0] == 0xFF && d[1] == 0xD8
}

/// The structure the parser reports for `d` when [`jpeg_header_ok`] holds:
/// SOI at offset 0, then the scan from byte 2.
pub open spec fn jpeg_parse_spec(d: Seq<u8>) -> JpegModel {
    jpeg_scan(d, 2, 1, with_marker(empty_jpeg_model(), MarkerType::Soi, 0, 0))
}

/// The marker `mk` stands in `d`: an `FF` byte at its offset, followed by
/// the marker's own code.
pub open spec fn marker_stands_in(d: Seq<u8>, mk: JpegMarker) -> bool {
    &&& mk.offset + 1 < d.len()
    &&& d[mk.offset as int] == 0xFF
    &&& d[mk.offset + 1] as int == marker_byte_of(mk.marker_type)
}

/// Every marker of `s` stands in `d`, and their offsets strictly increase.
pub open spec fn markers_stand_in_order(d: Seq<u8>, s: Seq<JpegMarker>) -> bool {
    &&& forall|k: int| 0 <= k < s.len() ==> marker_stands_in(d, #[trigger] s[k])
    &&& forall|i: int, j: int| 0 <= i < j < s.len() ==> s[i].offset < s[j].offset
}

/// Every marker of `s` ends, with its two marker bytes, at or before `pos`.
pub open spec fn markers_before(s: Seq<JpegMarker>, pos: int) -> bool {
    forall|k: int| 0 <= k < s.len() ==> #[trigger] s[k].offset + 2 <= pos
}

/// Appending a marker that stands at `pos`, after markers that all end by
/// `pos`, keeps the list standing and ordered, and it then ends by `pos + 2`.
pub proof fn lemma_push_standing(d: Seq<u8>, s: Seq<JpegMarker>, mk: JpegMarker, pos: int)
    requires
        markers_stand_in_order(d, s),
        markers_before(s, pos),
        mk.offset == pos,
        marker_stands_in(d, mk),
    ensures
        markers_stand_in_order(d, s.push(mk)),
        markers_before(s.push(mk), pos + 2),
{
    let t = s.push(mk);
    assert forall|k: int| 0 <= k < t.len() implies marker_stands_in(d, #[trigger] t[k]) by {
        if k < s.len() {
            assert(t[k] == s[k]);
        }
    }
    assert forall|i: int, j: int| 0 <= i < j < t.len() implies t[i].offset < t[j].offset by {
        assert(t[i] == s[i]);
        if j < s.len() {
            assert(t[j] == s[j]);
        }
    }
    assert forall|k: int| 0 <= k < t.len() implies #[trigger] t[k].offset + 2 <= pos + 2 by {
        if k < s.len() {
            assert(t[k] == s[k]);
        }
    }
}

/// From any point of the scan at which the markers so far stand in order
/// and end by `pos`, and (in fill mode) `pos` holds an `FF`, every marker
/// the scan ends with stands in `d`, in order of offset.
proof fn lemma_scan_markers_stand(d: Seq<u8>, pos: int, mode: int, m: JpegModel)
    requires
        0 <= pos,
        d.len() <= u64::MAX,
        markers_stand_in_order(d, m.markers),
        markers_before(m.markers, pos),
        mode == 0 ==> pos < d.len() && d[pos] == 0xFF,
    ensures
        markers_stand_in_order(d, jpeg_scan(d, pos, mode, m).markers),
    decreases d.len() - pos, mode,
{
    let n = d.len();
    if pos < 0 || pos > n || mode < 0 || mode > 2 {
    } else if mode == 1 {
        if !(pos < n - 1) {
        } else if d[pos] != 0xFF {
            lemma_scan_markers_stand(d, pos + 1, 1, m);
        } else {
            lemma_scan_markers_stand(d, pos, 0, m);
        }
    } else if mode == 0 {
        if pos < n - 1 && d[pos + 1] == 0xFF {
            lemma_scan_markers_stand(d, pos + 1, 0, m);
        } else if pos >= n - 1 {
        } else {
            let mb = d[pos + 1];
            let t = marker_type_of(mb);
            lemma_marker_byte_roundtrip(mb);
            if mb == 0x00 {
                lemma_scan_markers_stand(d, pos + 2, 1, m);
            } else if standalone_spec(mb) {
                let mk = JpegMarker { marker_type: t, offset: pos as u64, length: 0 };
                lemma_push_standing(d, m.markers, mk, pos);
                assert(with_marker(m, t, pos, 0).markers == m.markers.push(mk));
                if mb != 0xD9 {
                    lemma_scan_markers_stand(d, pos + 2, 1, with_marker(m, t, pos, 0));
                }
            } else if pos + 3 >= n {
            } else if be16(d, pos + 2) < 2 || pos + 2 + be16(d, pos + 2) > n {
            } else {
                let length = be16(d, pos + 2) as int;
                let mk = JpegMarker { marker_type: t, offset: pos as u64, length: length as u16 };
                let m1 = with_marker(m, t, pos, length);
                let next = pos + 2 + length;
                lemma_push_standing(d, m.markers, mk, pos);
                assert(m1.markers == m.markers.push(mk));
                assert(markers_before(m1.markers, next));
                match t {
                    MarkerType::Sof(_) => {
                        let m2 = sof_update(d, pos + 4, m1);
                        let m3 = if mb == 0xC2 { JpegModel { is_progressive: true, ..m2 } } else { m2 };
                        lemma_scan_markers_stand(d, next, 1, m3);
                    },
                    MarkerType::Sos => {
                        lemma_scan_markers_stand(d, next, 2, JpegModel { sos_offset: Some(pos as u64), ..m1 });
                    },
                    MarkerType::Dri => {
                        let m2 = if length >= 4 && n - pos > 5 {
                            JpegModel { restart_interval: be16(d, pos + 4), ..m1 }
                        } else {
                            m1
                        };
                        lemma_scan_markers_stand(d, next, 1, m2);
                    },
                    MarkerType::App(k) => {
                        if k == 1 {
                            lemma_scan_markers_stand(d, next, 1, exif_update(d, pos + 4, length - 2, m1));
                        } else {
                            lemma_scan_markers_stand(d, next, 1, m1);
                        }
                    },
                    _ => lemma_scan_markers_stand(d, next, 1, m1),
                }
            }
        }
    } else {
        if !(pos < n - 1) {
            lemma_scan_markers_stand(d, pos, 1, m);
        } else if d[pos] == 0xFF && d[pos + 1] != 0x00 {
            let nm = d[pos + 1];
            if nm == 0xD9 {
                let mk = JpegMarker { marker_type: MarkerType::Eoi, offset: pos as u64, length: 0 };
                lemma_push_standing(d, m.markers, mk, pos);
                assert(with_marker(m, MarkerType::Eoi, pos, 0).markers == m.markers.push(mk));
            } else if restart_spec(nm) {
                let t = MarkerType::Rst((nm - 0xD0) as u8);
                let mk = JpegMarker { marker_type: t, offset: pos as u64, length: 0 };
                lemma_push_standing(d, m.markers, mk, pos);
                assert(with_marker(m, t, pos, 0).markers == m.markers.push(mk));
                lemma_scan_markers_stand(d, pos + 2, 2, with_marker(m, t, pos, 0));
            } else if nm == 0xFF {
                lemma_scan_markers_stand(d, pos + 1, 2, m);
            } else {
                lemma_scan_markers_stand(d, pos, 1, m);
            }
        } else {
            lemma_scan_markers_stand(d, pos + 1, 2, m);
        }
    }
}

/// Every marker the parser reports for a stream that opens with SOI stands
/// in the stream where it says: an `FF` byte at its offset, followed by the
/// marker's own code; and the markers come in order, each at a larger offset
/// than the one before.
pub proof fn lemma_parsed_markers_stand_in_order(d: Seq<u8>)
    requires
        jpeg_header_ok(d),
        d.len() <= usize::MAX,
    ensures
        markers_stand_in_order(d, jpeg_parse_spec(d).markers),
{
    let soi = JpegMarker { marker_type: MarkerType::Soi, offset: 0, length: 0 };
    let m0 = with_marker(empty_jpeg_model(), MarkerType::Soi, 0, 0);
    assert(m0.markers =~= seq![soi]);
    lemma_scan_markers_stand(d, 2, 1, m0);
}

/// The marker at `k` of `s` is a frame (SOF) marker and no frame marker
/// comes after it.
pub open spec fn last_frame_at(s: Seq<JpegMarker>, k: int) -> bool {
    &&& 0 <= k < s.len()
    &&& s[k].marker_type is Sof
    &&& forall|j: int| k < j < s.len() ==> !(#[trigger] s[j].marker_type is Sof)
}

/// `height` and `width` are the ones the last frame header among `s` writes,
/// whenever that header is whole in `d`. A frame header (ITU-T T.81, B.2.2)
/// is the marker `FF Cn`, a two-byte length, one byte of sample precision,
/// then the number of lines (the height) and the number of samples per line
/// (the width), each two bytes, most significant first: bytes 5 and 6, and
/// 7 and 8, after the marker's `FF`.
pub open spec fn frame_size_read(d: Seq<u8>, s: Seq<JpegMarker>, height: u16, width: u16) -> bool {
    forall|k: int|
        #![trigger last_frame_at(s, k)]
        last_frame_at(s, k) && s[k].offset + 9 <= d.len() ==> {
            let o = s[k].offset as int;
            &&& height as int == d[o + 5] as int * 256 + d[o + 6] as int
            &&& width as int == d[o + 7] as int * 256 + d[o + 8] as int
        }
}

/// Appending a marker that is not a frame marker leaves the last frame
/// header, and so the frame size it gives, as it was.
pub proof fn lemma_frame_size_past_other(d: Seq<u8>, s: Seq<JpegMarker>, mk: JpegMarker, height: u16, width: u16)
    requires
        frame_size_read(d, s, height, width),
        !(mk.marker_type is Sof),
    ensures
        frame_size_read(d, s.push(mk), height, width),
{
    let t = s.push(mk);
    assert forall|k: int| last_frame_at(t, k) && t[k].offset + 9 <= d.len() implies {
        let o = t[k].offset as int;
        &&& height as int == d[o + 5] as int * 256 + d[o + 6] as int
        &&& width as int == d[o + 7] as int * 256 + d[o + 8] as int
    } by {
        assert(k < s.len());
        assert(t[k] == s[k]);
        assert forall|j: int| k < j < s.len() implies !(#[trigger] s[j].marker_type is Sof) by {
            assert(t[j] == s[j]);
        }
        assert(last_frame_at(s, k));
    }
}

/// Appending a frame marker whose header, when whole in `d`, writes
/// `height` and `width`, makes that the frame size.
pub proof fn lemma_frame_size_at_new_frame(d: Seq<u8>, s: Seq<JpegMarker>, mk: JpegMarker, height: u16, width: u16)
    requires
        mk.marker_type is Sof,
        mk.offset + 9 <= d.len() ==> height as int == d[mk.offset + 5] as int * 256 + d[mk.offset + 6] as int
            && width as int == d[mk.offset + 7] as int * 256 + d[mk.offset + 8] as int,
    ensures
        frame_size_read(d, s.push(mk), height, width),
{
    let t = s.push(mk);
    assert forall|k: int| last_frame_at(t, k) && t[k].offset + 9 <= d.len() implies {
        let o = t[k].offset as int;
        &&& height as int == d[o + 5] as int * 256 + d[o + 6] as int
        &&& width as int == d[o + 7] as int * 256 + d[o + 8] as int
    } by {
        if k < s.len() {
            assert(t[s.len() as int] == mk);
            assert(!(t[s.len() as int].marker_type is Sof));
        }
        assert(k == s.len());
        assert(t[k] == mk);
    }
}

proof fn lemma_scan_frame_size(d: Seq<u8>, pos: int, mode: int, m: JpegModel)
    requires
        0 <= pos,
        d.len() <= u64::MAX,
        frame_size_read(d, m.markers, m.image_height, m.image_width),
    ensures
        frame_size_read(d, jpeg_scan(d, pos, mode, m).markers, jpeg_scan(d, pos, mode, m).image_height, jpeg_scan(
            d,
            pos,
            mode,
            m,
        ).image_width),
    decreases d.len() - pos, mode,
{
    let n = d.len();
    if pos < 0 || pos > n || mode < 0 || mode > 2 {
    } else if mode == 1 {
        if !(pos < n - 1) {
        } else if d[pos] != 0xFF {
            lemma_scan_frame_size(d, pos + 1, 1, m);
        } else {
            lemma_scan_frame_size(d, pos, 0, m);
        }
    } else if mode == 0 {
        if pos < n - 1 && d[pos + 1] == 0xFF {
            lemma_scan_frame_size(d, pos + 1, 0, m);
        } else if pos >= n - 1 {
        } else {
            let mb = d[pos + 1];
            let t = marker_type_of(mb);
            if mb == 0x00 {
                lemma_scan_frame_size(d, pos + 2, 1, m);
            } else if standalone_spec(mb) {
                let mk = JpegMarker { marker_type: t, offset: pos as u64, length: 0 };
                lemma_frame_size_past_other(d, m.markers, mk, m.image_height, m.image_width);
                assert(with_marker(m, t, pos, 0).markers == m.markers.push(mk));
                if mb != 0xD9 {
                    lemma_scan_frame_size(d, pos + 2, 1, with_marker(m, t, pos, 0));
                }
            } else if pos + 3 >= n {
            } else if be16(d, pos + 2) < 2 || pos + 2 + be16(d, pos + 2) > n {
            } else {
                let length = be16(d, pos + 2) as int;
                let mk = JpegMarker { marker_type: t, offset: pos as u64, length: length as u16 };
                let m1 = with_marker(m, t, pos, length);
                let next = pos + 2 + length;
                assert(m1.markers == m.markers.push(mk));
                match t {
                    MarkerType::Sof(_) => {
                        let m2 = sof_update(d, pos + 4, m1);
                        let m3 = if mb == 0xC2 { JpegModel { is_progressive: true, ..m2 } } else { m2 };
                        lemma_frame_size_at_new_frame(d, m.markers, mk, m2.image_height, m2.image_width);
                        lemma_scan_frame_size(d, next, 1, m3);
                    },
                    MarkerType::Sos => {
                        lemma_frame_size_past_other(d, m.markers, mk, m.image_height, m.image_width);
                        lemma_scan_frame_size(d, next, 2, JpegModel { sos_offset: Some(pos as u64), ..m1 });
                    },
                    MarkerType::Dri => {
                        lemma_frame_size_past_other(d, m.markers, mk, m.image_height, m.image_width);
                        let m2 = if length >= 4 && n - pos > 5 {
                            JpegModel { restart_interval: be16(d, pos + 4), ..m1 }
                        } else {
                            m1
                        };
                        lemma_scan_frame_size(d, next, 1, m2);
                    },
                    MarkerType::App(k) => {
                        lemma_frame_size_past_other(d, m.markers, mk, m.image_height, m.image_width);
                        if k == 1 {
                            lemma_scan_frame_size(d, next, 1, exif_update(d, pos + 4, length - 2, m1));
                        } else {
                            lemma_scan_frame_size(d, next, 1, m1);
                        }
                    },
                    _ => {
                        lemma_frame_size_past_other(d, m.markers, mk, m.image_height, m.image_width);
                        lemma_scan_frame_size(d, next, 1, m1);
                    },
                }
            }
        }
    } else {
        if !(pos < n - 1) {
            lemma_scan_frame_size(d, pos, 1, m);
        } else if d[pos] == 0xFF && d[pos + 1] != 0x00 {
            let nm = d[pos + 1];
            if nm == 0xD9 {
                let mk = JpegMarker { marker_type: MarkerType::Eoi, offset: pos as u64, length: 0 };
                lemma_frame_size_past_other(d, m.markers, mk, m.image_height, m.image_width);
                assert(with_marker(m, MarkerType::Eoi, pos, 0).markers == m.markers.push(mk));
            } else if restart_spec(nm) {
                let t = MarkerType::Rst((nm - 0xD0) as u8);
                let mk = JpegMarker { marker_type: t, offset: pos as u64, length: 0 };
                lemma_frame_size_past_other(d, m.markers, mk, m.image_height, m.image_width);
                assert(with_marker(m, t, pos, 0).markers == m.markers.push(mk));
                lemma_scan_frame_size(d, pos + 2, 2, with_marker(m, t, pos, 0));
            } else if nm == 0xFF {
                lemma_scan_frame_size(d, pos + 1, 2, m);
            } else {
                lemma_scan_frame_size(d, pos, 1, m);
            }
        } else {
            lemma_scan_frame_size(d, pos + 1, 2, m);
        }
    }
}

/// The frame size the parser reports is the one the last frame header of
/// the stream writes (height from its lines field, width from its
/// samples-per-line field), whenever that header is whole in the data.
pub proof fn lemma_parsed_frame_size(d: Seq<u8>)
    requires
        jpeg_header_ok(d),
        d.len() <= usize::MAX,
    ensures
        frame_size_read(d, jpeg_parse_spec(d).markers, jpeg_parse_spec(d).image_height, jpeg_parse_spec(d).image_width),
{
    let soi = JpegMarker { marker_type: MarkerType::Soi, offset: 0, length: 0 };
    let m0 = with_marker(empty_jpeg_model(), MarkerType::Soi, 0, 0);
    assert(m0.markers =~= seq![soi]);
    assert forall|k: int| !last_frame_at(m0.markers, k) by {
        if 0 <= k < 1 {
            assert(m0.markers[k] == soi);
        }
    }
    lemma_scan_frame_size(d, 2, 1, m0);
}

/// The JPEG marker-segment parser. Stateless.
pub struct JpegParser;

impl JpegParser {
    #[inline]
    pub fn new() -> (r: Self) {
        JpegParser
    }

    /// Parses the marker structure of `data`.
    ///
    /// Fails exactly when `data` is shorter than four bytes or does not open
    /// with SOI; otherwise the structure is [`jpeg_parse_spec`] of `data`.
    pub fn parse(&self, data: &[u8]) -> (r: Result<JpegStructure, CoreError>)
        ensures
            r is Err <==> !jpeg_header_ok(data@),
            r matches Ok(s) ==> s@ == jpeg_parse_spec(data@),
    {
        if data.len() < 4 {
            return Err(CoreError::InvalidFormat("Data too short for JPEG".to_string()));
        }
        if data[0] != 0xFF || data[1] != 0xD8 {
            return Err(CoreError::InvalidFormat("Missing JPEG SOI marker".to_string()));
        }
        let ghost d = data@;
        let ghost target = jpeg_parse_spec(d);
        let mut structure = JpegStructure::default();
        structure.markers.push(JpegMarker { marker_type: MarkerType::Soi, offset: 0, length: 0 });
        assert(structure@ =~= with_marker(empty_jpeg_model(), MarkerType::Soi, 0, 0));
        let n = data.len();
        let mut pos: usize = 2;

        while pos < n - 1
            invariant_except_break
                n == d.len(),
                d == data@,
                n >= 4,
                d[0] == 0xFF && d[1] == 0xD8,
                target == jpeg_parse_spec(d),
                2 <= pos <= n,
                jpeg_scan(d, pos as int, 1, structure@) == target,
            ensures
                n == d.len(),
                pos <= n,
                finish(structure@, pos as int) == target,
            decreases n - pos,
        {
            if data[pos] != 0xFF {
                pos += 1;
                continue;
            }
            let ghost pos0 = pos;
            while pos < n - 1 && data[pos + 1] == 0xFF
                invariant
                    n == d.len(),
                    d == data@,
                    n >= 4,
                    d[0] == 0xFF && d[1] == 0xD8,
                    target == jpeg_parse_spec(d),
                    pos0 <= pos < n,
                    2 <= pos < n,
                    jpeg_scan(d, pos as int, 0, structure@) == target,
                decreases n - pos,
            {
                pos += 1;
            }
            if pos >= n - 1 {
                break;
            }
            let marker_byte = data[pos + 1];
            if marker_byte == 0x00 {
                pos += 2;
                continue;
            }
            let marker_type = MarkerType::from_byte(marker_byte);
            let marker_offset = pos as u64;

            if is_standalone_marker(marker_byte) {
                structure.markers.push(JpegMarker { marker_type, offset: marker_offset, length: 0 });
                if marker_byte == 0xD9 {
                    structure.valid_end_offset = pos as u64 + 2;
                    break;
                }
                pos += 2;
                continue;
            }
            if pos >= n - 3 {
                structure.corruption_point = Some(pos as u64);
                break;
            }
            let length = (data[pos + 2] as u16) * 256 + (data[pos + 3] as u16);
            assert(length == be16(d, pos + 2));
            if length < 2 || length as usize > n - pos - 2 {
                structure.corruption_point = Some(pos as u64);
                break;
            }
            structure.markers.push(JpegMarker { marker_type, offset: marker_offset, length });
            let next = pos + 2 + length as usize;
            match marker_type {
                MarkerType::Sof(_) => {
                    self.parse_sof(data, pos + 4, &mut structure);
                    if marker_byte == 0xC2 {
                        structure.is_progressive = true;
                    }
                },
                MarkerType::Sos => {
                    structure.sos_offset = Some(marker_offset);
                    pos = next;
                    while pos < n - 1
                        invariant
                            n == d.len(),
                            d == data@,
                            n >= 4,
                            d[0] == 0xFF && d[1] == 0xD8,
                            target == jpeg_parse_spec(d),
                            pos0 < pos <= n,
                            2 <= pos <= n,
                            jpeg_scan(d, pos as int, 2, structure@) == target,
                        ensures
                            pos0 < pos <= n,
                            2 <= pos <= n,
                            jpeg_scan(d, pos as int, 1, structure@) == target,
                        decreases n - pos,
                    {
                        if data[pos] == 0xFF && data[pos + 1] != 0x00 {
                            let next_marker = data[pos + 1];
                            if next_marker == 0xD9 {
                                let ghost m0 = structure@;
                                assert(jpeg_scan(d, pos as int, 2, m0) == JpegModel {
                                    valid_end_offset: (pos + 2) as u64,
                                    ..with_marker(m0, MarkerType::Eoi, pos as int, 0)
                                });
                                structure.markers.push(
                                    JpegMarker { marker_type: MarkerType::Eoi, offset: pos as u64, length: 0 },
                                );
                                structure.valid_end_offset = pos as u64 + 2;
                                assert(structure@ =~= target);
                                return Ok(structure);
                            } else if is_restart_marker(next_marker) {
                                structure.markers.push(
                                    JpegMarker {
                                        marker_type: MarkerType::Rst(next_marker - 0xD0),
                                        offset: pos as u64,
                                        length: 0,
                                    },
                                );
                                pos += 2;
                            } else if next_marker == 0xFF {
                                pos += 1;
                            } else {
                                break;
                            }
                        } else {
                            pos += 1;
                        }
                    }
                    continue;
                },
                MarkerType::Dri => {
                    if length >= 4 && n - pos > 5 {
                        structure.restart_interval = (data[pos + 4] as u16) * 256 + (data[pos + 5] as u16);
                    }
                },
                MarkerType::App(k) => {
                    if k == 1 {
                        self.parse_app1_exif(data, pos + 4, length - 2, &mut structure);
                    }
                },
                _ => {},
            }
            pos = next;
        }
        if structure.valid_end_offset == 0 {
            structure.valid_end_offset = pos as u64;
        }
        Ok(structure)
    }

    /// Reads height and width from a frame header body starting at `offset`.
    fn parse_sof(&self, data: &[u8], offset: usize, structure: &mut JpegStructure)
        requires
            offset <= data@.len(),
        ensures
            final(structure)@ == sof_update(data@, offset as int, old(structure)@),
    {
        if data.len() - offset < 5 {
            return;
        }
        structure.image_height = (data[offset + 1] as u16) * 256 + (data[offset + 2] as u16);
        structure.image_width = (data[offset + 3] as u16) * 256 + (data[offset + 4] as u16);
    }

    /// Looks for a thumbnail inside an APP1 payload of `length` bytes at
    /// `offset`.
    fn parse_app1_exif(&self, data: &[u8], offset: usize, length: u16, structure: &mut JpegStructure)
        requires
            offset + length <= data@.len(),
        ensures
            final(structure)@ == exif_update(data@, offset as int, length as int, old(structure)@),
    {
        if length < 14 || data.len() - offset < 14 {
            return;
        }
        if data[offset] != 0x45 || data[offset + 1] != 0x78 || data[offset + 2] != 0x69
            || data[offset + 3] != 0x66 || data[offset + 4] != 0x00 || data[offset + 5] != 0x00 {
            proof {
                assert(data@.subrange(offset as int, offset + 6) != exif_tag()) by {
                    if data@.subrange(offset as int, offset + 6) == exif_tag() {
                        assert(data@.subrange(offset as int, offset + 6)[0] == data@[offset as int]);
                        assert(data@.subrange(offset as int, offset + 6)[1] == data@[offset + 1]);
                        assert(data@.subrange(offset as int, offset + 6)[2] == data@[offset + 2]);
                        assert(data@.subrange(offset as int, offset + 6)[3] == data@[offset + 3]);
                        assert(data@.subrange(offset as int, offset + 6)[4] == data@[offset + 4]);
                        assert(data@.subrange(offset as int, offset + 6)[5] == data@[offset + 5]);
                    }
                }
            }
            return;
        }
        assert(data@.subrange(offset as int, offset + 6) =~= exif_tag());
        let segment_end = offset + length as usize;
        let soi_to = if segment_end >= 2 { segment_end - 2 } else { 0 };
        match find_marker_pair(data, 0xFF, 0xD8, offset + 6, soi_to) {
            None => {},
            Some(i) => {
                let eoi_to = if segment_end >= 1 { segment_end - 1 } else { 0 };
                let eoi = match find_marker_pair(data, 0xFF, 0xD9, i + 2, eoi_to) {
                    Some(j) => Some(j as u64),
                    None => None,
                };
                structure.thumbnail = Some(
                    ThumbnailInfo { soi_offset: i as u64, eoi_offset: eoi, width: None, height: None },
                );
            },
        }
    }
}

/// The first `i` in `from..to` with `data[i] == a` and `data[i + 1] == b`.
pub(crate) fn find_marker_pair(data: &[u8], a: u8, b: u8, from: usize, to: usize) -> (r: Option<usize>)
    requires
        to < data@.len(),
    ensures
        match r {
            Some(i) => find_pair(data@, a, b, from as int, to as int) == Some(i as int),
            None => find_pair(data@, a, b, from as int, to as int) is None,
        },
        r matches Some(i) ==> from <= i < to,
{
    let mut i = from;
    while i < to
        invariant
            to < data@.len(),
            from <= i,
            find_pair(data@, a, b, i as int, to as int) == find_pair(data@, a, b, from as int, to as int),
        decreases to - i,
    {
        if data[i] == a && data[i + 1] == b {
            return Some(i);
        }
        i += 1;
    }
    None
}

impl Default for JpegParser {
    fn default() -> (r: Self) {
        JpegParser
    }
}

} // verus!
