//! The resynchronising marker parser and the validator built on it.
//!
//! Where [`super::parser::JpegParser`] stops at the first segment whose
//! length field is wrong, this parser counts the damaged segment, remembers
//! where the first one was, and searches forward for the next byte pair that
//! can start a segment, so that a stream damaged in the middle still yields
//! the markers after the damage. It also says whether the stream was cut
//! short and whether any marker carrying image content was seen. Its
//! behaviour is stated exactly by [`resync_parse_spec`].

use vstd::prelude::*;

use super::parser::{
    be16, exif_tag, find_marker_pair, find_pair, jpeg_header_ok, frame_size_read, last_frame_at, lemma_frame_size_at_new_frame, lemma_frame_size_past_other,
    lemma_marker_byte_roundtrip, lemma_push_standing,
    marker_type_of, markers_before, markers_stand_in_order, JpegMarker, MarkerType,
};
use super::validator::{
    first_order_fault, first_restart_fault, markers_have_eoi, order_fault, reason_is, restart_fault, verdict_from,
    CorruptionReason, Verdict,
};
use super::{is_restart_marker, is_standalone_marker, restart_spec, standalone_spec};
use crate::error::CoreError;

verus! {

/// An embedded thumbnail found inside an EXIF segment.
#[derive(Debug, Clone, Copy, PartialEq, Eq, Structural)]
pub struct ThumbnailInfo {
    pub soi_offset: u64,
    pub eoi_offset: Option<u64>,
}

/// What the resynchronising parser learned about a stream.
#[derive(Debug, Clone)]
pub struct JpegStructure {
    pub markers: Vec<JpegMarker>,
    pub sos_offset: Option<u64>,
    pub image_width: u16,
    pub image_height: u16,
    pub is_progressive: bool,
    pub restart_interval: u16,
    pub thumbnail: Option<ThumbnailInfo>,
    /// Where the first damaged segment starts.
    pub corruption_point: Option<u64>,
    pub valid_end_offset: u64,
    /// How many damaged segments were stepped over.
    pub skipped_segments: u32,
    /// Whether the stream ends before its EOI, or its entropy-coded data
    /// ran into something other than a restart marker or EOI.
    pub is_truncated: bool,
    /// Whether an application, table, frame, scan, restart-interval or
    /// comment marker was seen.
    pub has_valid_content: bool,
}

/// The value of a [`JpegStructure`], with its marker list as a sequence and
/// its damaged-segment count as a natural number.
#[verifier::ext_equal]
pub struct StreamModel {
    pub markers: Seq<JpegMarker>,
    pub sos_offset: Option<u64>,
    pub image_width: u16,
    pub image_height: u16,
    pub is_progressive: bool,
    pub restart_interval: u16,
    pub thumbnail: Option<ThumbnailInfo>,
    pub corruption_point: Option<u64>,
    pub valid_end_offset: u64,
    pub skipped_segments: nat,
    pub is_truncated: bool,
    pub has_valid_content: bool,
}

impl View for JpegStructure {
    type V = StreamModel;

    open spec fn view(&self) -> StreamModel {
        StreamModel {
            markers: self.markers@,
            sos_offset: self.sos_offset,
            image_width: self.image_width,
            image_height: self.image_height,
            is_progressive: self.is_progressive,
            restart_interval: self.restart_interval,
            thumbnail: self.thumbnail,
            corruption_point: self.corruption_point,
            valid_end_offset: self.valid_end_offset,
            skipped_segments: self.skipped_segments as nat,
            is_truncated: self.is_truncated,
            has_valid_content: self.has_valid_content,
        }
    }
}

/// A structure holding nothing.
pub open spec fn empty_stream_model() -> StreamModel {
    StreamModel {
        markers: Seq::empty(),
        sos_offset: None,
        image_width: 0,
        image_height: 0,
        is_progressive: false,
        restart_interval: 0,
        thumbnail: None,
        corruption_point: None,
        valid_end_offset: 0,
        skipped_segments: 0,
        is_truncated: false,
        has_valid_content: false,
    }
}

impl Default for JpegStructure {
    fn default() -> (r: Self)
        ensures
            r@ == empty_stream_model(),
    {
        JpegStructure {
            markers: Vec::new(),
            sos_offset: None,
            image_width: 0,
            image_height: 0,
            is_progressive: false,
            restart_interval: 0,
            thumbnail: None,
            corruption_point: None,
            valid_end_offset: 0,
            skipped_segments: 0,
            is_truncated: false,
            has_valid_content: false,
        }
    }
}

/// The model with one more marker.
pub open spec fn push_marker(m: StreamModel, t: MarkerType, offset: int, length: int) -> StreamModel {
    StreamModel {
        markers: m.markers.push(JpegMarker { marker_type: t, offset: offset as u64, length: length as u16 }),
        ..m
    }
}

/// A marker that carries image content or its description: an application
/// segment, a table, a frame, a scan, a restart interval or a comment.
pub open spec fn content_marker(t: MarkerType) -> bool {
    match t {
        MarkerType::App(_) | MarkerType::Dqt | MarkerType::Dht | MarkerType::Sof(_) | MarkerType::Sos
        | MarkerType::Dri | MarkerType::Com => true,
        _ => false,
    }
}

/// A marker byte the search after a damaged segment stops at: a frame,
/// table, restart, SOI, EOI, scan or application marker (`C0`..`EF`), or a
/// comment.
pub open spec fn resync_target(b: u8) -> bool {
    (0xC0 <= b <= 0xEF) || b == 0xFE
}

/// The model once the scan stops at `pos`: a stream with no end yet ends
/// there and is cut short; whether content was seen is recorded.
pub open spec fn close(m: StreamModel, pos: int, found: bool) -> StreamModel {
    let m1 = if m.valid_end_offset == 0 {
        StreamModel { valid_end_offset: pos as u64, is_truncated: true, ..m }
    } else {
        m
    };
    StreamModel { has_valid_content: found, ..m1 }
}

/// The model cut short at `pos`.
pub open spec fn cut_at(m: StreamModel, pos: int) -> StreamModel {
    StreamModel { is_truncated: true, valid_end_offset: pos as u64, ..m }
}

/// The model once the stream ends properly with EOI at `pos`.
pub open spec fn end_at(m: StreamModel, pos: int, found: bool) -> StreamModel {
    StreamModel { valid_end_offset: (pos + 2) as u64, has_valid_content: found, ..push_marker(m, MarkerType::Eoi, pos, 0) }
}

/// The model after a damaged segment at `pos`: one more skipped, and the
/// first damage remembered.
pub open spec fn skip_at(m: StreamModel, pos: int) -> StreamModel {
    StreamModel {
        skipped_segments: m.skipped_segments + 1,
        corruption_point: if m.corruption_point is None { Some(pos as u64) } else { m.corruption_point },
        ..m
    }
}

/// Frame height and width read from a frame header body starting at `off`.
pub open spec fn frame_update(d: Seq<u8>, off: int, m: StreamModel) -> StreamModel {
    if off + 5 > d.len() {
        m
    } else {
        StreamModel { image_height: be16(d, off + 1), image_width: be16(d, off + 3), ..m }
    }
}

/// An EXIF APP1 payload of `len` bytes at `off`: the first embedded SOI
/// becomes the thumbnail, with the first EOI after it.
pub open spec fn thumbnail_update(d: Seq<u8>, off: int, len: int, m: StreamModel) -> StreamModel {
    if len < 14 || off + 14 > d.len() {
        m
    } else if d.subrange(off, off + 6) != exif_tag() {
        m
    } else {
        let seg_end = off + len;
        let soi_to = if seg_end >= 2 { seg_end - 2 } else { 0 };
        match find_pair(d, 0xFF, 0xD8, off + 6, soi_to) {
            None => m,
            Some(i) => {
                let eoi_to = if seg_end >= 1 { seg_end - 1 } else { 0 };
                let eoi = match find_pair(d, 0xFF, 0xD9, i + 2, eoi_to) {
                    Some(j) => Some(j as u64),
                    None => None,
                };
                StreamModel { thumbnail: Some(ThumbnailInfo { soi_offset: i as u64, eoi_offset: eoi }), ..m }
            },
        }
    }
}

/// Mode of the scan: skipping `FF` fill bytes at a marker.
pub open spec fn at_fill() -> int { 0 }

/// Mode of the scan: looking for the next marker.
pub open spec fn at_seek() -> int { 1 }

/// Mode of the scan: inside entropy-coded data after SOS.
pub open spec fn at_entropy() -> int { 2 }

/// Mode of the scan: searching for a segment start after a damaged one.
pub open spec fn at_resync() -> int { 3 }

/// The model the scan of `d` ends with, from position `pos` in mode `mode`,
/// with `found` telling whether a content marker was seen and `m` learned
/// so far.
pub open spec fn resync_scan(d: Seq<u8>, pos: int, mode: int, found: bool, m: StreamModel) -> StreamModel
    decreases d.len() - pos, mode,
{
    let n = d.len();
    if pos < 0 || pos > n || mode < 0 || mode > 3 {
        m
    } else if mode == 1 {
        if !(pos < n - 1) {
            close(m, pos, found)
        } else if d[pos] != 0xFF {
            resync_scan(d, pos + 1, 1, found, m)
        } else {
            resync_scan(d, pos, 0, found, m)
        }
    } else if mode == 0 {
        if pos < n - 1 && d[pos + 1] == 0xFF {
            resync_scan(d, pos + 1, 0, found, m)
        } else if pos >= n - 1 {
            close(m, pos, found)
        } else {
            let mb = d[pos + 1];
            let t = marker_type_of(mb);
            let found1 = found || content_marker(t);
            if mb == 0x00 {
                resync_scan(d, pos + 2, 1, found, m)
            } else if standalone_spec(mb) {
                if mb == 0xD9 {
                    end_at(m, pos, found1)
                } else {
                    resync_scan(d, pos + 2, 1, found1, push_marker(m, t, pos, 0))
                }
            } else if pos + 3 >= n {
                close(cut_at(m, pos), pos, found1)
            } else if be16(d, pos + 2) < 2 || pos + 2 + be16(d, pos + 2) > n {
                resync_scan(d, pos + 2, 3, found1, skip_at(m, pos))
            } else {
                let length = be16(d, pos + 2) as int;
                let m1 = push_marker(m, t, pos, length);
                let next = pos + 2 + length;
                match t {
                    MarkerType::Sof(_) => {
                        let m2 = frame_update(d, pos + 4, m1);
                        let m3 = if mb == 0xC2 { StreamModel { is_progressive: true, ..m2 } } else { m2 };
                        resync_scan(d, next, 1, found1, m3)
                    },
                    MarkerType::Sos => {
                        resync_scan(d, next, 2, found1, StreamModel { sos_offset: Some(pos as u64), ..m1 })
                    },
                    MarkerType::Dri => {
                        let m2 = if length >= 4 && n - pos > 5 {
                            StreamModel { restart_interval: be16(d, pos + 4), ..m1 }
                        } else {
                            m1
                        };
                        resync_scan(d, next, 1, found1, m2)
                    },
                    MarkerType::App(k) => {
                        if k == 1 {
                            resync_scan(d, next, 1, found1, thumbnail_update(d, pos + 4, length - 2, m1))
                        } else {
                            resync_scan(d, next, 1, found1, m1)
                        }
                    },
                    _ => resync_scan(d, next, 1, found1, m1),
                }
            }
        }
    } else if mode == 2 {
        if !(pos < n - 1) {
            resync_scan(d, pos, 1, found, cut_at(m, pos))
        } else if d[pos] == 0xFF && d[pos + 1] != 0x00 {
            let nm = d[pos + 1];
            if nm == 0xD9 {
                end_at(m, pos, found)
            } else if restart_spec(nm) {
                resync_scan(d, pos + 2, 2, found, push_marker(m, MarkerType::Rst((nm - 0xD0) as u8), pos, 0))
            } else if nm == 0xFF {
                resync_scan(d, pos + 1, 2, found, m)
            } else {
                resync_scan(d, pos, 1, found, cut_at(m, pos))
            }
        } else {
            resync_scan(d, pos + 1, 2, found, m)
        }
    } else {
        if !(pos < n - 1) {
            resync_scan(d, pos, 1, found, m)
        } else if d[pos] == 0xFF && resync_target(d[pos + 1]) {
            resync_scan(d, pos, 1, found, m)
        } else {
            resync_scan(d, pos + 1, 3, found, m)
        }
    }
}

/// The structure the resynchronising parser reports for `d` when
/// [`jpeg_header_ok`] holds: SOI at offset 0, then the scan from byte 2.
pub open spec fn resync_parse_spec(d: Seq<u8>) -> StreamModel {
    resync_scan(d, 2, 1, false, push_marker(empty_stream_model(), MarkerType::Soi, 0, 0))
}

/// From any point of the scan at which the markers so far stand in order
/// and end by `pos`, and (in fill mode) `pos` holds an `FF`, every marker
/// the scan ends with stands in `d`, in order of offset.
proof fn lemma_resync_markers_stand(d: Seq<u8>, pos: int, mode: int, found: bool, m: StreamModel)
    requires
        0 <= pos,
        d.len() <= u64::MAX,
        markers_stand_in_order(d, m.markers),
        markers_before(m.markers, pos),
        mode == 0 ==> pos < d.len() && d[pos] == 0xFF,
    ensures
        markers_stand_in_order(d, resync_scan(d, pos, mode, found, m).markers),
    decreases d.len() - pos, mode,
{
    let n = d.len();
    if pos < 0 || pos > n || mode < 0 || mode > 3 {
    } else if mode == 1 {
        if !(pos < n - 1) {
        } else if d[pos] != 0xFF {
            lemma_resync_markers_stand(d, pos + 1, 1, found, m);
        } else {
            lemma_resync_markers_stand(d, pos, 0, found, m);
        }
    } else if mode == 0 {
        if pos < n - 1 && d[pos + 1] == 0xFF {
            lemma_resync_markers_stand(d, pos + 1, 0, found, m);
        } else if pos >= n - 1 {
        } else {
            let mb = d[pos + 1];
            let t = marker_type_of(mb);
            let found1 = found || content_marker(t);
            lemma_marker_byte_roundtrip(mb);
            if mb == 0x00 {
                lemma_resync_markers_stand(d, pos + 2, 1, found, m);
            } else if standalone_spec(mb) {
                let mk = JpegMarker { marker_type: t, offset: pos as u64, length: 0 };
                lemma_push_standing(d, m.markers, mk, pos);
                assert(push_marker(m, t, pos, 0).markers == m.markers.push(mk));
                if mb == 0xD9 {
                    assert(end_at(m, pos, found1).markers == m.markers.push(mk));
                } else {
                    lemma_resync_markers_stand(d, pos + 2, 1, found1, push_marker(m, t, pos, 0));
                }
            } else if pos + 3 >= n {
            } else if be16(d, pos + 2) < 2 || pos + 2 + be16(d, pos + 2) > n {
                lemma_resync_markers_stand(d, pos + 2, 3, found1, skip_at(m, pos));
            } else {
                let length = be16(d, pos + 2) as int;
                let mk = JpegMarker { marker_type: t, offset: pos as u64, length: length as u16 };
                let m1 = push_marker(m, t, pos, length);
                let next = pos + 2 + length;
                lemma_push_standing(d, m.markers, mk, pos);
                assert(m1.markers == m.markers.push(mk));
                assert(markers_before(m1.markers, next));
                match t {
                    MarkerType::Sof(_) => {
                        let m2 = frame_update(d, pos + 4, m1);
                        let m3 = if mb == 0xC2 { StreamModel { is_progressive: true, ..m2 } } else { m2 };
                        lemma_resync_markers_stand(d, next, 1, found1, m3);
                    },
                    MarkerType::Sos => {
                        lemma_resync_markers_stand(d, next, 2, found1, StreamModel { sos_offset: Some(pos as u64), ..m1 });
                    },
                    MarkerType::Dri => {
                        let m2 = if length >= 4 && n - pos > 5 {
                            StreamModel { restart_interval: be16(d, pos + 4), ..m1 }
                        } else {
                            m1
                        };
                        lemma_resync_markers_stand(d, next, 1, found1, m2);
                    },
                    MarkerType::App(k) => {
                        if k == 1 {
                            lemma_resync_markers_stand(d, next, 1, found1, thumbnail_update(d, pos + 4, length - 2, m1));
                        } else {
                            lemma_resync_markers_stand(d, next, 1, found1, m1);
                        }
                    },
                    _ => lemma_resync_markers_stand(d, next, 1, found1, m1),
                }
            }
        }
    } else if mode == 2 {
        if !(pos < n - 1) {
            lemma_resync_markers_stand(d, pos, 1, found, cut_at(m, pos));
        } else if d[pos] == 0xFF && d[pos + 1] != 0x00 {
            let nm = d[pos + 1];
            if nm == 0xD9 {
                let mk = JpegMarker { marker_type: MarkerType::Eoi, offset: pos as u64, length: 0 };
                lemma_push_standing(d, m.markers, mk, pos);
                assert(end_at(m, pos, found).markers == m.markers.push(mk));
            } else if restart_spec(nm) {
                let t = MarkerType::Rst((nm - 0xD0) as u8);
                let mk = JpegMarker { marker_type: t, offset: pos as u64, length: 0 };
                lemma_push_standing(d, m.markers, mk, pos);
                assert(push_marker(m, t, pos, 0).markers == m.markers.push(mk));
                lemma_resync_markers_stand(d, pos + 2, 2, found, push_marker(m, t, pos, 0));
            } else if nm == 0xFF {
                lemma_resync_markers_stand(d, pos + 1, 2, found, m);
            } else {
                lemma_resync_markers_stand(d, pos, 1, found, cut_at(m, pos));
            }
        } else {
            lemma_resync_markers_stand(d, pos + 1, 2, found, m);
        }
    } else {
        if !(pos < n - 1) {
            lemma_resync_markers_stand(d, pos, 1, found, m);
        } else if d[pos] == 0xFF && resync_target(d[pos + 1]) {
            lemma_resync_markers_stand(d, pos, 1, found, m);
        } else {
            lemma_resync_markers_stand(d, pos + 1, 3, found, m);
        }
    }
}

/// Every marker the resynchronising parser reports for a stream that opens
/// with SOI stands in the stream where it says: an `FF` byte at its offset,
/// followed by the marker's own code; and the markers come in order, each at
/// a larger offset than the one before, damaged segments or not.
pub proof fn lemma_resynced_markers_stand_in_order(d: Seq<u8>)
    requires
        jpeg_header_ok(d),
        d.len() <= usize::MAX,
    ensures
        markers_stand_in_order(d, resync_parse_spec(d).markers),
{
    let soi = JpegMarker { marker_type: MarkerType::Soi, offset: 0, length: 0 };
    let m0 = push_marker(empty_stream_model(), MarkerType::Soi, 0, 0);
    assert(m0.markers =~= seq![soi]);
    lemma_resync_markers_stand(d, 2, 1, false, m0);
}

proof fn lemma_resync_frame_size(d: Seq<u8>, pos: int, mode: int, found: bool, m: StreamModel)
    requires
        0 <= pos,
        d.len() <= u64::MAX,
        frame_size_read(d, m.markers, m.image_height, m.image_width),
    ensures
        frame_size_read(
            d,
            resync_scan(d, pos, mode, found, m).markers,
            resync_scan(d, pos, mode, found, m).image_height,
            resync_scan(d, pos, mode, found, m).image_width,
        ),
    decreases d.len() - pos, mode,
{
    let n = d.len();
    if pos < 0 || pos > n || mode < 0 || mode > 3 {
    } else if mode == 1 {
        if !(pos < n - 1) {
        } else if d[pos] != 0xFF {
            lemma_resync_frame_size(d, pos + 1, 1, found, m);
        } else {
            lemma_resync_frame_size(d, pos, 0, found, m);
        }
    } else if mode == 0 {
        if pos < n - 1 && d[pos + 1] == 0xFF {
            lemma_resync_frame_size(d, pos + 1, 0, found, m);
        } else if pos >= n - 1 {
        } else {
            let mb = d[pos + 1];
            let t = marker_type_of(mb);
            let found1 = found || content_marker(t);
            if mb == 0x00 {
                lemma_resync_frame_size(d, pos + 2, 1, found, m);
            } else if standalone_spec(mb) {
                let mk = JpegMarker { marker_type: t, offset: pos as u64, length: 0 };
                lemma_frame_size_past_other(d, m.markers, mk, m.image_height, m.image_width);
                assert(push_marker(m, t, pos, 0).markers == m.markers.push(mk));
                if mb == 0xD9 {
                    assert(end_at(m, pos, found1).markers == m.markers.push(mk));
                } else {
                    lemma_resync_frame_size(d, pos + 2, 1, found1, push_marker(m, t, pos, 0));
                }
            } else if pos + 3 >= n {
            } else if be16(d, pos + 2) < 2 || pos + 2 + be16(d, pos + 2) > n {
                lemma_resync_frame_size(d, pos + 2, 3, found1, skip_at(m, pos));
            } else {
                let length = be16(d, pos + 2) as int;
                let mk = JpegMarker { marker_type: t, offset: pos as u64, length: length as u16 };
                let m1 = push_marker(m, t, pos, length);
                let next = pos + 2 + length;
                assert(m1.markers == m.markers.push(mk));
                match t {
                    MarkerType::Sof(_) => {
                        let m2 = frame_update(d, pos + 4, m1);
                        let m3 = if mb == 0xC2 { StreamModel { is_progressive: true, ..m2 } } else { m2 };
                        lemma_frame_size_at_new_frame(d, m.markers, mk, m2.image_height, m2.image_width);
                        lemma_resync_frame_size(d, next, 1, found1, m3);
                    },
                    MarkerType::Sos => {
                        lemma_frame_size_past_other(d, m.markers, mk, m.image_height, m.image_width);
                        lemma_resync_frame_size(d, next, 2, found1, StreamModel { sos_offset: Some(pos as u64), ..m1 });
                    },
                    MarkerType::Dri => {
                        lemma_frame_size_past_other(d, m.markers, mk, m.image_height, m.image_width);
                        let m2 = if length >= 4 && n - pos > 5 {
                            StreamModel { restart_interval: be16(d, pos + 4), ..m1 }
                        } else {
                            m1
                        };
                        lemma_resync_frame_size(d, next, 1, found1, m2);
                    },
                    MarkerType::App(k) => {
                        lemma_frame_size_past_other(d, m.markers, mk, m.image_height, m.image_width);
                        if k == 1 {
                            lemma_resync_frame_size(d, next, 1, found1, thumbnail_update(d, pos + 4, length - 2, m1));
                        } else {
                            lemma_resync_frame_size(d, next, 1, found1, m1);
                        }
                    },
                    _ => {
                        lemma_frame_size_past_other(d, m.markers, mk, m.image_height, m.image_width);
                        lemma_resync_frame_size(d, next, 1, found1, m1);
                    },
                }
            }
        }
    } else if mode == 2 {
        if !(pos < n - 1) {
            lemma_resync_frame_size(d, pos, 1, found, cut_at(m, pos));
        } else if d[pos] == 0xFF && d[pos + 1] != 0x00 {
            let nm = d[pos + 1];
            if nm == 0xD9 {
                let mk = JpegMarker { marker_type: MarkerType::Eoi, offset: pos as u64, length: 0 };
                lemma_frame_size_past_other(d, m.markers, mk, m.image_height, m.image_width);
                assert(end_at(m, pos, found).markers == m.markers.push(mk));
            } else if restart_spec(nm) {
                let t = MarkerType::Rst((nm - 0xD0) as u8);
                let mk = JpegMarker { marker_type: t, offset: pos as u64, length: 0 };
                lemma_frame_size_past_other(d, m.markers, mk, m.image_height, m.image_width);
                assert(push_marker(m, t, pos, 0).markers == m.markers.push(mk));
                lemma_resync_frame_size(d, pos + 2, 2, found, push_marker(m, t, pos, 0));
            } else if nm == 0xFF {
                lemma_resync_frame_size(d, pos + 1, 2, found, m);
            } else {
                lemma_resync_frame_size(d, pos, 1, found, cut_at(m, pos));
            }
        } else {
            lemma_resync_frame_size(d, pos + 1, 2, found, m);
        }
    } else {
        if !(pos < n - 1) {
            lemma_resync_frame_size(d, pos, 1, found, m);
        } else if d[pos] == 0xFF && resync_target(d[pos + 1]) {
            lemma_resync_frame_size(d, pos, 1, found, m);
        } else {
            lemma_resync_frame_size(d, pos + 1, 3, found, m);
        }
    }
}

/// The frame size the resynchronising parser reports is the one the last
/// frame header of the stream writes (height from its lines field, width
/// from its samples-per-line field), whenever that header is whole in the
/// data, damaged segments or not.
pub proof fn lemma_resynced_frame_size(d: Seq<u8>)
    requires
        jpeg_header_ok(d),
        d.len() <= usize::MAX,
    ensures
        frame_size_read(d, resync_parse_spec(d).markers, resync_parse_spec(d).image_height, resync_parse_spec(
            d,
        ).image_width),
{
    let soi = JpegMarker { marker_type: MarkerType::Soi, offset: 0, length: 0 };
    let m0 = push_marker(empty_stream_model(), MarkerType::Soi, 0, 0);
    assert(m0.markers =~= seq![soi]);
    assert forall|k: int| !last_frame_at(m0.markers, k) by {
        if 0 <= k < 1 {
            assert(m0.markers[k] == soi);
        }
    }
    lemma_resync_frame_size(d, 2, 1, false, m0);
}

/// The scan never forgets a damaged segment it has counted, counts at most
/// one for every two bytes it has yet to read, and records where the first
/// one was exactly when it has counted one.
pub proof fn lemma_skips_only_grow(d: Seq<u8>, pos: int, mode: int, found: bool, m: StreamModel)
    ensures
        m.skipped_segments <= resync_scan(d, pos, mode, found, m).skipped_segments,
        0 <= pos <= d.len() ==> 2 * resync_scan(d, pos, mode, found, m).skipped_segments
            <= 2 * m.skipped_segments + d.len() - pos,
        (m.skipped_segments > 0 <==> m.corruption_point is Some) ==> (
            resync_scan(d, pos, mode, found, m).skipped_segments > 0
                <==> resync_scan(d, pos, mode, found, m).corruption_point is Some),
    decreases d.len() - pos, mode,
{
    let n = d.len();
    if pos < 0 || pos > n || mode < 0 || mode > 3 {
    } else if mode == 1 {
        if !(pos < n - 1) {
        } else if d[pos] != 0xFF {
            lemma_skips_only_grow(d, pos + 1, 1, found, m);
        } else {
            lemma_skips_only_grow(d, pos, 0, found, m);
        }
    } else if mode == 0 {
        if pos < n - 1 && d[pos + 1] == 0xFF {
            lemma_skips_only_grow(d, pos + 1, 0, found, m);
        } else if pos >= n - 1 {
        } else {
            let mb = d[pos + 1];
            let t = marker_type_of(mb);
            let found1 = found || content_marker(t);
            if mb == 0x00 {
                lemma_skips_only_grow(d, pos + 2, 1, found, m);
            } else if standalone_spec(mb) {
                if mb != 0xD9 {
                    lemma_skips_only_grow(d, pos + 2, 1, found1, push_marker(m, t, pos, 0));
                }
            } else if pos + 3 >= n {
            } else if be16(d, pos + 2) < 2 || pos + 2 + be16(d, pos + 2) > n {
                lemma_skips_only_grow(d, pos + 2, 3, found1, skip_at(m, pos));
            } else {
                let length = be16(d, pos + 2) as int;
                let m1 = push_marker(m, t, pos, length);
                let next = pos + 2 + length;
                match t {
                    MarkerType::Sof(_) => {
                        let m2 = frame_update(d, pos + 4, m1);
                        let m3 = if mb == 0xC2 { StreamModel { is_progressive: true, ..m2 } } else { m2 };
                        lemma_skips_only_grow(d, next, 1, found1, m3);
                    },
                    MarkerType::Sos => {
                        lemma_skips_only_grow(d, next, 2, found1, StreamModel { sos_offset: Some(pos as u64), ..m1 });
                    },
                    MarkerType::Dri => {
                        let m2 = if length >= 4 && n - pos > 5 {
                            StreamModel { restart_interval: be16(d, pos + 4), ..m1 }
                        } else {
                            m1
                        };
                        lemma_skips_only_grow(d, next, 1, found1, m2);
                    },
                    MarkerType::App(k) => {
                        if k == 1 {
                            lemma_skips_only_grow(d, next, 1, found1, thumbnail_update(d, pos + 4, length - 2, m1));
                        } else {
                            lemma_skips_only_grow(d, next, 1, found1, m1);
                        }
                    },
                    _ => lemma_skips_only_grow(d, next, 1, found1, m1),
                }
            }
        }
    } else if mode == 2 {
        if !(pos < n - 1) {
            lemma_skips_only_grow(d, pos, 1, found, cut_at(m, pos));
        } else if d[pos] == 0xFF && d[pos + 1] != 0x00 {
            let nm = d[pos + 1];
            if nm == 0xD9 {
            } else if restart_spec(nm) {
                lemma_skips_only_grow(d, pos + 2, 2, found, push_marker(m, MarkerType::Rst((nm - 0xD0) as u8), pos, 0));
            } else if nm == 0xFF {
                lemma_skips_only_grow(d, pos + 1, 2, found, m);
            } else {
                lemma_skips_only_grow(d, pos, 1, found, cut_at(m, pos));
            }
        } else {
            lemma_skips_only_grow(d, pos + 1, 2, found, m);
        }
    } else {
        if !(pos < n - 1) {
            lemma_skips_only_grow(d, pos, 1, found, m);
        } else if d[pos] == 0xFF && resync_target(d[pos + 1]) {
            lemma_skips_only_grow(d, pos, 1, found, m);
        } else {
            lemma_skips_only_grow(d, pos + 1, 3, found, m);
        }
    }
}

/// Whether a marker type carries content ([`content_marker`]).
fn is_content_marker(t: MarkerType) -> (r: bool)
    ensures
        r == content_marker(t),
{
    match t {
        MarkerType::App(_) | MarkerType::Dqt | MarkerType::Dht | MarkerType::Sof(_) | MarkerType::Sos
        | MarkerType::Dri | MarkerType::Com => true,
        _ => false,
    }
}

/// Whether the count of damaged segments in `d` fits the structure's
/// counter: the parser panics on a stream with more than `u32::MAX` of them.
pub open spec fn skip_count_fits(d: Seq<u8>) -> bool {
    jpeg_header_ok(d) ==> resync_parse_spec(d).skipped_segments <= u32::MAX
}

/// A stream read by the resynchronising parser has a corruption point
/// exactly when a damaged segment was stepped over.
pub proof fn lemma_damage_is_located(d: Seq<u8>)
    requires
        jpeg_header_ok(d),
    ensures
        resync_parse_spec(d).skipped_segments > 0 <==> resync_parse_spec(d).corruption_point is Some,
{
    lemma_skips_only_grow(d, 2, 1, false, push_marker(empty_stream_model(), MarkerType::Soi, 0, 0));
}

/// A stream counts at most one damaged segment for every two bytes, so the
/// count fits whenever the stream is at most twice `u32::MAX` bytes long.
pub proof fn lemma_short_streams_fit(d: Seq<u8>)
    requires
        d.len() <= 2 * (u32::MAX as int),
    ensures
        skip_count_fits(d),
{
    if jpeg_header_ok(d) {
        lemma_skips_only_grow(d, 2, 1, false, push_marker(empty_stream_model(), MarkerType::Soi, 0, 0));
    }
}

/// The resynchronising JPEG parser. Stateless.
pub struct JpegParser;

impl JpegParser {
    #[inline]
    pub fn new() -> (r: Self) {
        JpegParser
    }

    /// Parses the marker structure of `data`, stepping over damaged
    /// segments.
    ///
    /// Fails exactly when `data` is shorter than four bytes or does not open
    /// with SOI; otherwise the structure is [`resync_parse_spec`] of `data`.
    #[verifier::rlimit(60)]
    #[verifier::spinoff_prover]
    pub fn parse(&self, data: &[u8]) -> (r: Result<JpegStructure, CoreError>)
        requires
            skip_count_fits(data@),
        ensures
            r is Err <==> !jpeg_header_ok(data@),
            r matches Ok(s) ==> s@ == resync_parse_spec(data@),
    {
        if data.len() < 4 {
            return Err(CoreError::InvalidFormat("Data too short for JPEG".to_string()));
        }
        if data[0] != 0xFF || data[1] != 0xD8 {
            return Err(CoreError::InvalidFormat("Missing JPEG SOI marker".to_string()));
        }
        let ghost d = data@;
        let ghost target = resync_parse_spec(d);
        let mut structure = JpegStructure::default();
        structure.markers.push(JpegMarker { marker_type: MarkerType::Soi, offset: 0, length: 0 });
        assert(structure@ =~= push_marker(empty_stream_model(), MarkerType::Soi, 0, 0));
        let n = data.len();
        let mut pos: usize = 2;
        let mut found_valid_marker = false;

        while pos < n - 1
            invariant_except_break
                n == d.len(),
                d == data@,
                n >= 4,
                d[0] == 0xFF && d[1] == 0xD8,
                target == resync_parse_spec(d),
                target.skipped_segments <= u32::MAX,
                2 <= pos <= n,
                resync_scan(d, pos as int, 1, found_valid_marker, structure@) == target,
            ensures
                n == d.len(),
                pos <= n,
                close(structure@, pos as int, found_valid_marker) == target,
            decreases n - pos,
        {
            if data[pos] != 0xFF {
                pos += 1;
                continue;
            }
            let ghost pos0 = pos;
            while pos < n - 1 && data[pos + 1] == 0xFF
                invariant
                    n == d.len(),
                    d == data@,
                    n >= 4,
                    target == resync_parse_spec(d),
                    target.skipped_segments <= u32::MAX,
                    pos0 <= pos < n,
                    2 <= pos < n,
                    resync_scan(d, pos as int, 0, found_valid_marker, structure@) == target,
                decreases n - pos,
            {
                pos += 1;
            }
            if pos >= n - 1 {
                break;
            }
            let marker_byte = data[pos + 1];
            if marker_byte == 0x00 {
                pos += 2;
                continue;
            }
            let marker_type = MarkerType::from_byte(marker_byte);
            let marker_offset = pos as u64;
            if is_content_marker(marker_type) {
                found_valid_marker = true;
            }

            if is_standalone_marker(marker_byte) {
                structure.markers.push(JpegMarker { marker_type, offset: marker_offset, length: 0 });
                if marker_byte == 0xD9 {
                    structure.valid_end_offset = pos as u64 + 2;
                    structure.has_valid_content = found_valid_marker;
                    assert(structure@ =~= target);
                    return Ok(structure);
                }
                pos += 2;
                continue;
            }
            if pos >= n - 3 {
                structure.is_truncated = true;
                structure.valid_end_offset = pos as u64;
                break;
            }
            let length = (data[pos + 2] as u16) * 256 + (data[pos + 3] as u16);
            assert(length == be16(d, pos + 2));
            if length < 2 || length as usize > n - pos - 2 {
                proof {
                    lemma_skips_only_grow(d, pos + 2, 3, found_valid_marker, skip_at(structure@, pos as int));
                }
                structure.skipped_segments = structure.skipped_segments + 1;
                if structure.corruption_point.is_none() {
                    structure.corruption_point = Some(pos as u64);
                }
                pos += 2;
                while pos < n - 1
                    invariant
                        n == d.len(),
                        d == data@,
                        n >= 4,
                        d[0] == 0xFF && d[1] == 0xD8,
                        target == resync_parse_spec(d),
                        target.skipped_segments <= u32::MAX,
                        pos0 < pos <= n,
                        2 <= pos <= n,
                        resync_scan(d, pos as int, 3, found_valid_marker, structure@) == target,
                    ensures
                        pos0 < pos <= n,
                        2 <= pos <= n,
                        resync_scan(d, pos as int, 1, found_valid_marker, structure@) == target,
                    decreases n - pos,
                {
                    if data[pos] == 0xFF && data[pos + 1] != 0x00 && data[pos + 1] != 0xFF {
                        let next_marker = data[pos + 1];
                        if (next_marker >= 0xC0 && next_marker <= 0xEF) || next_marker == 0xFE {
                            break;
                        }
                    }
                    pos += 1;
                }
                continue;
            }
            structure.markers.push(JpegMarker { marker_type, offset: marker_offset, length });
            let next = pos + 2 + length as usize;
            match marker_type {
                MarkerType::Sof(_) => {
                    if data.len() - (pos + 4) >= 5 {
                        structure.image_height = (data[pos + 5] as u16) * 256 + (data[pos + 6] as u16);
                        structure.image_width = (data[pos + 7] as u16) * 256 + (data[pos + 8] as u16);
                    }
                    if marker_byte == 0xC2 {
                        structure.is_progressive = true;
                    }
                },
                MarkerType::Sos => {
                    structure.sos_offset = Some(marker_offset);
                    pos = next;
                    while pos < n - 1
                        invariant
                            n == d.len(),
                            d == data@,
                            n >= 4,
                            d[0] == 0xFF && d[1] == 0xD8,
                            target == resync_parse_spec(d),
                            target.skipped_segments <= u32::MAX,
                            pos0 < pos <= n,
                            2 <= pos <= n,
                            resync_scan(d, pos as int, 2, found_valid_marker, structure@) == target,
                        ensures
                            pos0 < pos <= n,
                            2 <= pos <= n,
                            resync_scan(d, pos as int, 1, found_valid_marker, cut_at(structure@, pos as int)) == target,
                        decreases n - pos,
                    {
                        if data[pos] == 0xFF && data[pos + 1] != 0x00 {
                            let next_marker = data[pos + 1];
                            if next_marker == 0xD9 {
                                structure.markers.push(
                                    JpegMarker { marker_type: MarkerType::Eoi, offset: pos as u64, length: 0 },
                                );
                                structure.valid_end_offset = pos as u64 + 2;
                                structure.has_valid_content = found_valid_marker;
                                assert(structure@ =~= target);
                                return Ok(structure);
                            } else if is_restart_marker(next_marker) {
                                structure.markers.push(
                                    JpegMarker {
                                        marker_type: MarkerType::Rst(next_marker - 0xD0),
                                        offset: pos as u64,
                                        length: 0,
                                    },
                                );
                                pos += 2;
                            } else if next_marker == 0xFF {
                                pos += 1;
                            } else {
                                break;
                            }
                        } else {
                            pos += 1;
                        }
                    }
                    structure.is_truncated = true;
                    structure.valid_end_offset = pos as u64;
                    continue;
                },
                MarkerType::Dri => {
                    if length >= 4 && n - pos > 5 {
                        structure.restart_interval = (data[pos + 4] as u16) * 256 + (data[pos + 5] as u16);
                    }
                },
                MarkerType::App(k) => {
                    if k == 1 {
                        self.parse_app1_exif(data, pos + 4, length - 2, &mut structure);
                    }
                },
                _ => {},
            }
            pos = next;
        }
        if structure.valid_end_offset == 0 {
            structure.valid_end_offset = pos as u64;
            structure.is_truncated = true;
        }
        structure.has_valid_content = found_valid_marker;
        assert(structure@ =~= target);
        Ok(structure)
    }

    /// Looks for a thumbnail inside an APP1 payload of `length` bytes at
    /// `offset`.
    fn parse_app1_exif(&self, data: &[u8], offset: usize, length: u16, structure: &mut JpegStructure)
        requires
            offset + length <= data@.len(),
        ensures
            final(structure)@ == thumbnail_update(data@, offset as int, length as int, old(structure)@),
    {
        if length < 14 || data.len() - offset < 14 {
            return;
        }
        if data[offset] != 0x45 || data[offset + 1] != 0x78 || data[offset + 2] != 0x69
            || data[offset + 3] != 0x66 || data[offset + 4] != 0x00 || data[offset + 5] != 0x00 {
            proof {
                assert(data@.subrange(offset as int, offset + 6) != exif_tag()) by {
                    if data@.subrange(offset as int, offset + 6) == exif_tag() {
                        assert(data@.subrange(offset as int, offset + 6)[0] == data@[offset as int]);
                        assert(data@.subrange(offset as int, offset + 6)[1] == data@[offset + 1]);
                        assert(data@.subrange(offset as int, offset + 6)[2] == data@[offset + 2]);
                        assert(data@.subrange(offset as int, offset + 6)[3] == data@[offset + 3]);
                        assert(data@.subrange(offset as int, offset + 6)[4] == data@[offset + 4]);
                        assert(data@.subrange(offset as int, offset + 6)[5] == data@[offset + 5]);
                    }
                }
            }
            return;
        }
        assert(data@.subrange(offset as int, offset + 6) =~= exif_tag());
        let segment_end = offset + length as usize;
        let soi_to = if segment_end >= 2 { segment_end - 2 } else { 0 };
        match find_marker_pair(data, 0xFF, 0xD8, offset + 6, soi_to) {
            None => {},
            Some(i) => {
                let eoi_to = if segment_end >= 1 { segment_end - 1 } else { 0 };
                let eoi = match find_marker_pair(data, 0xFF, 0xD9, i + 2, eoi_to) {
                    Some(j) => Some(j as u64),
                    None => None,
                };
                structure.thumbnail = Some(ThumbnailInfo { soi_offset: i as u64, eoi_offset: eoi });
            },
        }
    }
}

impl Default for JpegParser {
    fn default() -> (r: Self) {
        JpegParser
    }
}

/// The verdict on one buffer, carrying what the resynchronising parser
/// found.
#[derive(Debug, Clone)]
pub enum ValidationResult {
    Valid(JpegStructure),
    CorruptedAt { offset: u64, reason: CorruptionReason, partial_structure: JpegStructure },
    Truncated { last_valid_offset: u64, partial_structure: JpegStructure },
    InvalidHeader,
}

/// Whether `r` states verdict `v`.
pub open spec fn states_verdict(r: ValidationResult, v: Verdict) -> bool {
    match r {
        ValidationResult::Valid(_) => v == Verdict::Valid,
        ValidationResult::CorruptedAt { offset, reason, .. } => v matches Verdict::CorruptedAt(o, k)
            && o == offset && reason_is(reason, k),
        ValidationResult::Truncated { last_valid_offset, .. } => v == Verdict::Truncated(last_valid_offset),
        ValidationResult::InvalidHeader => v == Verdict::InvalidHeader,
    }
}

/// The structure a result carries, if any.
pub open spec fn carried_stream(r: ValidationResult) -> Option<StreamModel> {
    match r {
        ValidationResult::Valid(s) => Some(s@),
        ValidationResult::CorruptedAt { partial_structure, .. } => Some(partial_structure@),
        ValidationResult::Truncated { partial_structure, .. } => Some(partial_structure@),
        ValidationResult::InvalidHeader => None,
    }
}

/// The verdict on a buffer read by the resynchronising parser: a non-JPEG
/// is `InvalidHeader`; otherwise the verdict on the stream it reports
/// ([`verdict_from`]), so a stream with a damaged segment and an EOI is
/// corrupted at the first damage.
pub open spec fn resync_verdict(d: Seq<u8>) -> Verdict {
    if !jpeg_header_ok(d) {
        Verdict::InvalidHeader
    } else {
        let s = resync_parse_spec(d);
        verdict_from(s.markers, s.valid_end_offset, s.corruption_point, s.restart_interval)
    }
}

impl ValidationResult {
    /// Whether the verdict is `Valid`.
    #[inline]
    pub fn is_valid(&self) -> (r: bool)
        ensures
            r == (*self is Valid),
    {
        match self {
            ValidationResult::Valid(_) => true,
            _ => false,
        }
    }

    /// The structure the verdict carries; none for a buffer that is not a
    /// JPEG.
    pub fn structure(&self) -> (r: Option<&JpegStructure>)
        ensures
            match r {
                Some(s) => carried_stream(*self) == Some(s@),
                None => carried_stream(*self) is None,
            },
    {
        match self {
            ValidationResult::Valid(s) => Some(s),
            ValidationResult::CorruptedAt { partial_structure, .. } => Some(partial_structure),
            ValidationResult::Truncated { partial_structure, .. } => Some(partial_structure),
            ValidationResult::InvalidHeader => None,
        }
    }
}

/// Judges JPEG buffers by the structure the resynchronising parser finds.
pub struct JpegValidator {
    parser: JpegParser,
}

impl JpegValidator {
    #[inline]
    pub fn new() -> (r: Self) {
        JpegValidator { parser: JpegParser::new() }
    }

    /// The verdict on `data` ([`resync_verdict`]), carrying the parsed
    /// structure.
    pub fn validate(&self, data: &[u8]) -> (r: ValidationResult)
        requires
            skip_count_fits(data@),
        ensures
            states_verdict(r, resync_verdict(data@)),
            jpeg_header_ok(data@) ==> carried_stream(r) == Some(resync_parse_spec(data@)),
    {
        let structure = match self.parser.parse(data) {
            Ok(s) => s,
            Err(_) => return ValidationResult::InvalidHeader,
        };
        if !markers_have_eoi(structure.markers.as_slice()) {
            return ValidationResult::Truncated {
                last_valid_offset: structure.valid_end_offset,
                partial_structure: structure,
            };
        }
        if let Some(offset) = structure.corruption_point {
            return ValidationResult::CorruptedAt {
                offset,
                reason: CorruptionReason::InvalidSegmentLength,
                partial_structure: structure,
            };
        }
        if let Some((offset, reason)) = self.validate_marker_sequence(&structure) {
            return ValidationResult::CorruptedAt { offset, reason, partial_structure: structure };
        }
        if structure.restart_interval > 0 {
            if let Some((offset, reason)) = self.validate_restart_sequence(&structure) {
                return ValidationResult::CorruptedAt { offset, reason, partial_structure: structure };
            }
        }
        ValidationResult::Valid(structure)
    }

    /// Parses `data` without judging it.
    #[inline]
    pub fn parse_structure(&self, data: &[u8]) -> (r: Result<JpegStructure, CoreError>)
        requires
            skip_count_fits(data@),
        ensures
            r is Err <==> !jpeg_header_ok(data@),
            r matches Ok(s) ==> s@ == resync_parse_spec(data@),
    {
        self.parser.parse(data)
    }

    /// The first marker-order fault, as [`order_fault`] states it.
    fn validate_marker_sequence(&self, structure: &JpegStructure) -> (r: Option<(u64, CorruptionReason)>)
        ensures
            match order_fault(structure@.markers, 0, false, false, false, false) {
                None => r is None,
                Some(f) => r matches Some(p) && p.0 == f.0 && reason_is(p.1, f.1),
            },
    {
        first_order_fault(structure.markers.as_slice())
    }

    /// The first restart marker out of cycle, as [`restart_fault`] states it.
    fn validate_restart_sequence(&self, structure: &JpegStructure) -> (r: Option<(u64, CorruptionReason)>)
        ensures
            match restart_fault(structure@.markers, 0, 0) {
                None => r is None,
                Some(o) => r == Some((o, CorruptionReason::RestartSequenceError)),
            },
    {
        first_restart_fault(structure.markers.as_slice())
    }
}

impl Default for JpegValidator {
    fn default() -> (r: Self) {
        JpegValidator::new()
    }
}

} // verus!
