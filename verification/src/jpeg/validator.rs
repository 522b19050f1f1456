//! Verdicts on parsed JPEG structure: whole, truncated, corrupted at an
//! offset, or not a JPEG at all.

use vstd::prelude::*;

use super::parser::{jpeg_header_ok, jpeg_parse_spec, JpegMarker, JpegModel, JpegParser, JpegStructure, MarkerType};
use crate::error::CoreError;

verus! {

/// Why a structure was judged corrupt.
#[derive(Debug, Clone, PartialEq, Eq)]
pub enum CorruptionReason {
    InvalidMarkerSequence,
    HuffmanDecodeError,
    UnexpectedEof,
    InvalidSegmentLength,
    DcCoefficientDiscontinuity,
    MissingRequiredMarker(String),
    RestartSequenceError,
}

/// The verdict on one buffer.
#[derive(Debug, Clone)]
pub enum ValidationResult {
    Valid(JpegStructure),
    CorruptedAt { offset: u64, reason: CorruptionReason, partial_structure: JpegStructure },
    Truncated { last_valid_offset: u64, partial_structure: JpegStructure },
    InvalidHeader,
}

/// The kinds of corruption the validator reports.
#[derive(Debug, Clone, Copy, PartialEq, Eq, Structural)]
pub enum FaultKind {
    /// A second SOI after a scan began.
    MarkerSequence,
    /// A frame header with no quantization table before it.
    DqtBeforeSof,
    /// A scan with no frame header before it.
    SofBeforeSos,
    /// A segment whose length field overran the buffer or was below two.
    SegmentLength,
    /// Restart markers out of their `RST0`..`RST7` cycle.
    RestartSequence,
}

/// The verdict without the structure it carries.
#[derive(Debug, Clone, Copy, PartialEq, Eq, Structural)]
pub enum Verdict {
    Valid,
    CorruptedAt(u64, FaultKind),
    Truncated(u64),
    InvalidHeader,
}

/// Whether `reason` is the reason the validator gives for `kind`.
pub open spec fn reason_is(reason: CorruptionReason, kind: FaultKind) -> bool {
    match kind {
        FaultKind::MarkerSequence => reason == CorruptionReason::InvalidMarkerSequence,
        FaultKind::DqtBeforeSof => reason matches CorruptionReason::MissingRequiredMarker(s) && s@ == "DQT before SOF"@,
        FaultKind::SofBeforeSos => reason matches CorruptionReason::MissingRequiredMarker(s) && s@ == "SOF before SOS"@,
        FaultKind::SegmentLength => reason == CorruptionReason::InvalidSegmentLength,
        FaultKind::RestartSequence => reason == CorruptionReason::RestartSequenceError,
    }
}

/// Whether `r` states verdict `v`.
pub open spec fn states(r: ValidationResult, v: Verdict) -> bool {
    match r {
        ValidationResult::Valid(_) => v == Verdict::Valid,
        ValidationResult::CorruptedAt { offset, reason, .. } => v matches Verdict::CorruptedAt(o, k)
            && o == offset && reason_is(reason, k),
        ValidationResult::Truncated { last_valid_offset, .. } => v == Verdict::Truncated(last_valid_offset),
        ValidationResult::InvalidHeader => v == Verdict::InvalidHeader,
    }
}

/// The structure a result carries, if any.
pub open spec fn carried(r: ValidationResult) -> Option<JpegModel> {
    match r {
        ValidationResult::Valid(s) => Some(s@),
        ValidationResult::CorruptedAt { partial_structure, .. } => Some(partial_structure@),
        ValidationResult::Truncated { partial_structure, .. } => Some(partial_structure@),
        ValidationResult::InvalidHeader => None,
    }
}

/// Whether some marker in `ms` is EOI.
pub open spec fn has_eoi(ms: Seq<JpegMarker>) -> bool {
    exists|i: int| 0 <= i < ms.len() && ms[i].marker_type == MarkerType::Eoi
}

/// The first marker-order fault from index `i` on, given which markers were
/// already seen: a frame needs a quantization table before it, a scan needs a
/// frame, and a second SOI after a scan is out of order.
pub open spec fn order_fault(ms: Seq<JpegMarker>, i: int, soi: bool, dqt: bool, sof: bool, sos: bool) -> Option<(u64, FaultKind)>
    decreases ms.len() - i,
{
    if i < 0 || i >= ms.len() {
        None
    } else {
        let m = ms[i];
        match m.marker_type {
            MarkerType::Soi => {
                if soi && sos {
                    Some((m.offset, FaultKind::MarkerSequence))
                } else {
                    order_fault(ms, i + 1, true, dqt, sof, sos)
                }
            },
            MarkerType::Dqt => order_fault(ms, i + 1, soi, true, sof, sos),
            MarkerType::Sof(_) => {
                if !dqt {
                    Some((m.offset, FaultKind::DqtBeforeSof))
                } else {
                    order_fault(ms, i + 1, soi, dqt, true, sos)
                }
            },
            MarkerType::Sos => {
                if !sof {
                    Some((m.offset, FaultKind::SofBeforeSos))
                } else {
                    order_fault(ms, i + 1, soi, dqt, sof, true)
                }
            },
            _ => order_fault(ms, i + 1, soi, dqt, sof, sos),
        }
    }
}

/// The first restart marker from index `i` on whose index breaks the cycle
/// that starts at `RST0`, when `expected` is the index due next.
pub open spec fn restart_fault(ms: Seq<JpegMarker>, i: int, expected: u8) -> Option<u64>
    decreases ms.len() - i,
{
    if i < 0 || i >= ms.len() {
        None
    } else {
        match ms[i].marker_type {
            MarkerType::Rst(k) => {
                if k != expected {
                    Some(ms[i].offset)
                } else {
                    restart_fault(ms, i + 1, ((expected + 1) % 8) as u8)
                }
            },
            _ => restart_fault(ms, i + 1, expected),
        }
    }
}

/// How many restart markers stand before index `i` of `ms`.
pub open spec fn restarts_before(ms: Seq<JpegMarker>, i: int) -> nat
    decreases i,
{
    if i <= 0 {
        0
    } else {
        restarts_before(ms, i - 1) + (if ms[i - 1].marker_type is Rst { 1nat } else { 0nat })
    }
}

/// The marker at `i` keeps the restart cycle: if it is a restart marker, its
/// index is the count of restart markers before it, modulo eight (`RST0`,
/// `RST1`, ..., `RST7`, then `RST0` again).
pub open spec fn keeps_cycle(ms: Seq<JpegMarker>, i: int) -> bool {
    ms[i].marker_type matches MarkerType::Rst(k) ==> k as int == restarts_before(ms, i) as int % 8
}

proof fn lemma_restart_fault_from(ms: Seq<JpegMarker>, i: int, expected: u8)
    requires
        0 <= i <= ms.len(),
        expected as int == restarts_before(ms, i) as int % 8,
    ensures
        restart_fault(ms, i, expected) is None <==> forall|j: int| i <= j < ms.len() ==> keeps_cycle(ms, j),
        restart_fault(ms, i, expected) matches Some(o) ==> exists|j: int|
            i <= j < ms.len() && !keeps_cycle(ms, j) && ms[j].offset == o && forall|l: int|
                i <= l < j ==> keeps_cycle(ms, l),
    decreases ms.len() - i,
{
    if i < ms.len() {
        let rb = restarts_before(ms, i) as int;
        assert(restarts_before(ms, i + 1) == restarts_before(ms, i) + (if ms[i].marker_type is Rst { 1nat } else {
            0nat
        }));
        match ms[i].marker_type {
            MarkerType::Rst(k) => {
                if k != expected {
                    assert(!keeps_cycle(ms, i));
                } else {
                    let e2 = ((expected + 1) % 8) as u8;
                    assert(e2 as int == (rb + 1) % 8);
                    lemma_restart_fault_from(ms, i + 1, e2);
                    assert(keeps_cycle(ms, i));
                    if restart_fault(ms, i + 1, e2) is None {
                        assert forall|j: int| i <= j < ms.len() implies keeps_cycle(ms, j) by {
                            if j > i {
                            }
                        }
                    } else {
                        let o = restart_fault(ms, i + 1, e2)->0;
                        let j = choose|j: int|
                            i + 1 <= j < ms.len() && !keeps_cycle(ms, j) && ms[j].offset == o && forall|l: int|
                                i + 1 <= l < j ==> keeps_cycle(ms, l);
                        assert forall|l: int| i <= l < j implies keeps_cycle(ms, l) by {
                            if l > i {
                            }
                        }
                    }
                }
            },
            _ => {
                assert(keeps_cycle(ms, i));
                lemma_restart_fault_from(ms, i + 1, expected);
                if restart_fault(ms, i + 1, expected) is None {
                    assert forall|j: int| i <= j < ms.len() implies keeps_cycle(ms, j) by {
                        if j > i {
                        }
                    }
                } else {
                    let o = restart_fault(ms, i + 1, expected)->0;
                    let j = choose|j: int|
                        i + 1 <= j < ms.len() && !keeps_cycle(ms, j) && ms[j].offset == o && forall|l: int|
                            i + 1 <= l < j ==> keeps_cycle(ms, l);
                    assert forall|l: int| i <= l < j implies keeps_cycle(ms, l) by {
                        if l > i {
                        }
                    }
                }
            },
        }
    }
}

/// The restart cycle of a marker list is broken exactly when some restart
/// marker's index differs from the count of restart markers before it,
/// modulo eight; the fault reported is the offset of the first such marker.
/// So `RST7` is followed by `RST0`, for any number of intervals.
pub proof fn lemma_restart_cycle(ms: Seq<JpegMarker>)
    ensures
        restart_fault(ms, 0, 0) is None <==> forall|j: int| 0 <= j < ms.len() ==> keeps_cycle(ms, j),
        restart_fault(ms, 0, 0) matches Some(o) ==> exists|j: int|
            0 <= j < ms.len() && !keeps_cycle(ms, j) && ms[j].offset == o && forall|l: int|
                0 <= l < j ==> keeps_cycle(ms, l),
{
    lemma_restart_fault_from(ms, 0, 0);
}

/// The verdict on a parsed stream, from its markers, where its valid part
/// ends, where a segment length first went wrong and its restart interval:
/// no EOI means truncated at the valid end; then a bad segment length, a
/// marker-order fault and (with a restart interval) a broken restart cycle,
/// in that order.
pub open spec fn verdict_from(
    markers: Seq<JpegMarker>,
    valid_end_offset: u64,
    corruption_point: Option<u64>,
    restart_interval: u16,
) -> Verdict {
    if !has_eoi(markers) {
        Verdict::Truncated(valid_end_offset)
    } else if corruption_point is Some {
        Verdict::CorruptedAt(corruption_point->0, FaultKind::SegmentLength)
    } else if order_fault(markers, 0, false, false, false, false) is Some {
        let f = order_fault(markers, 0, false, false, false, false)->0;
        Verdict::CorruptedAt(f.0, f.1)
    } else if restart_interval > 0 && restart_fault(markers, 0, 0) is Some {
        Verdict::CorruptedAt(restart_fault(markers, 0, 0)->0, FaultKind::RestartSequence)
    } else {
        Verdict::Valid
    }
}

/// The order check never blames a restart marker.
proof fn lemma_order_fault_not_restart(ms: Seq<JpegMarker>, i: int, soi: bool, dqt: bool, sof: bool, sos: bool)
    ensures
        order_fault(ms, i, soi, dqt, sof, sos) matches Some(f) ==> f.1 != FaultKind::RestartSequence,
    decreases ms.len() - i,
{
    if 0 <= i < ms.len() {
        match ms[i].marker_type {
            MarkerType::Soi => lemma_order_fault_not_restart(ms, i + 1, true, dqt, sof, sos),
            MarkerType::Dqt => lemma_order_fault_not_restart(ms, i + 1, soi, true, sof, sos),
            MarkerType::Sof(_) => lemma_order_fault_not_restart(ms, i + 1, soi, dqt, true, sos),
            MarkerType::Sos => lemma_order_fault_not_restart(ms, i + 1, soi, dqt, sof, true),
            _ => lemma_order_fault_not_restart(ms, i + 1, soi, dqt, sof, sos),
        }
    }
}

/// A stream whose restart markers all keep the cycle (`RST0` to `RST7`,
/// then `RST0` again, however many intervals there are) is never judged
/// broken for its restart sequence.
pub proof fn lemma_cycled_restarts_pass(
    markers: Seq<JpegMarker>,
    valid_end_offset: u64,
    corruption_point: Option<u64>,
    restart_interval: u16,
)
    requires
        forall|j: int| 0 <= j < markers.len() ==> keeps_cycle(markers, j),
    ensures
        !(verdict_from(markers, valid_end_offset, corruption_point, restart_interval) matches Verdict::CorruptedAt(
            _,
            FaultKind::RestartSequence,
        )),
{
    lemma_restart_cycle(markers);
    lemma_order_fault_not_restart(markers, 0, false, false, false, false);
}

/// The verdict on a parsed structure.
pub open spec fn verdict_of(s: JpegModel) -> Verdict {
    verdict_from(s.markers, s.valid_end_offset, s.corruption_point, s.restart_interval)
}

/// The verdict on a buffer.
pub open spec fn jpeg_verdict(d: Seq<u8>) -> Verdict {
    if !jpeg_header_ok(d) {
        Verdict::InvalidHeader
    } else {
        verdict_of(jpeg_parse_spec(d))
    }
}

impl ValidationResult {
    /// Whether the verdict is `Valid`.
    #[inline]
    pub fn is_valid(&self) -> (r: bool)
        ensures
            r == (*self is Valid),
    {
        match self {
            ValidationResult::Valid(_) => true,
            _ => false,
        }
    }

    /// The structure the verdict carries; none for a buffer that is not a
    /// JPEG.
    pub fn structure(&self) -> (r: Option<&JpegStructure>)
        ensures
            match r {
                Some(s) => carried(*self) == Some(s@),
                None => carried(*self) is None,
            },
    {
        match self {
            ValidationResult::Valid(s) => Some(s),
            ValidationResult::CorruptedAt { partial_structure, .. } => Some(partial_structure),
            ValidationResult::Truncated { partial_structure, .. } => Some(partial_structure),
            ValidationResult::InvalidHeader => None,
        }
    }

    /// Where the stream stops being trustworthy: the corruption offset, the
    /// end of a truncated stream, offset 0 for a non-JPEG, none when valid.
    pub fn corruption_offset(&self) -> (r: Option<u64>)
        ensures
            r == (match *self {
                ValidationResult::Valid(_) => None,
                ValidationResult::CorruptedAt { offset, .. } => Some(offset),
                ValidationResult::Truncated { last_valid_offset, .. } => Some(last_valid_offset),
                ValidationResult::InvalidHeader => Some(0u64),
            }),
    {
        match self {
            ValidationResult::Valid(_) => None,
            ValidationResult::CorruptedAt { offset, .. } => Some(*offset),
            ValidationResult::Truncated { last_valid_offset, .. } => Some(*last_valid_offset),
            ValidationResult::InvalidHeader => Some(0),
        }
    }
}

/// Judges JPEG buffers by their marker structure.
pub struct JpegValidator {
    parser: JpegParser,
}

impl JpegValidator {
    #[inline]
    pub fn new() -> (r: Self) {
        JpegValidator { parser: JpegParser::new() }
    }

    /// The verdict on `data`, carrying the parsed structure.
    ///
    /// The verdict is [`jpeg_verdict`]: a non-JPEG is `InvalidHeader`; a
    /// stream without EOI is `Truncated` at its valid end; then a bad segment
    /// length, a marker-order fault and (when a restart interval is set) a
    /// broken restart cycle are reported, in that order, at their offsets.
    pub fn validate(&self, data: &[u8]) -> (r: ValidationResult)
        ensures
            states(r, jpeg_verdict(data@)),
            jpeg_header_ok(data@) ==> carried(r) == Some(jpeg_parse_spec(data@)),
    {
        let structure = match self.parser.parse(data) {
            Ok(s) => s,
            Err(_) => return ValidationResult::InvalidHeader,
        };
        let has_eoi = markers_have_eoi(structure.markers.as_slice());
        if !has_eoi {
            return ValidationResult::Truncated {
                last_valid_offset: structure.valid_end_offset,
                partial_structure: structure,
            };
        }
        if let Some(offset) = structure.corruption_point {
            return ValidationResult::CorruptedAt {
                offset,
                reason: CorruptionReason::InvalidSegmentLength,
                partial_structure: structure,
            };
        }
        if let Some((offset, reason)) = self.validate_marker_sequence(&structure) {
            return ValidationResult::CorruptedAt { offset, reason, partial_structure: structure };
        }
        if structure.restart_interval > 0 {
            if let Some((offset, reason)) = self.validate_restart_sequence(&structure) {
                return ValidationResult::CorruptedAt { offset, reason, partial_structure: structure };
            }
        }
        ValidationResult::Valid(structure)
    }

    /// Parses `data` without judging it.
    #[inline]
    pub fn parse_structure(&self, data: &[u8]) -> (r: Result<JpegStructure, CoreError>)
        ensures
            r is Err <==> !jpeg_header_ok(data@),
            r matches Ok(s) ==> s@ == jpeg_parse_spec(data@),
    {
        self.parser.parse(data)
    }

    /// The first marker-order fault, as [`order_fault`] states it.
    fn validate_marker_sequence(&self, structure: &JpegStructure) -> (r: Option<(u64, CorruptionReason)>)
        ensures
            match order_fault(structure@.markers, 0, false, false, false, false) {
                None => r is None,
                Some(f) => r matches Some(p) && p.0 == f.0 && reason_is(p.1, f.1),
            },
    {
        first_order_fault(structure.markers.as_slice())
    }

    /// The first restart marker out of cycle, as [`restart_fault`] states it.
    fn validate_restart_sequence(&self, structure: &JpegStructure) -> (r: Option<(u64, CorruptionReason)>)
        ensures
            match restart_fault(structure@.markers, 0, 0) {
                None => r is None,
                Some(o) => r == Some((o, CorruptionReason::RestartSequenceError)),
            },
    {
        first_restart_fault(structure.markers.as_slice())
    }

    /// Where the entropy-coded data after the SOS segment at `sos_offset`
    /// stops being well formed; `None` when it runs cleanly into EOI.
    pub fn validate_entropy_stream(&self, data: &[u8], sos_offset: u64) -> (r: Option<u64>)
        requires
            data@.len() + 0x10002 <= usize::MAX,
        ensures
            r == entropy_fault(data@, sos_offset),
    {
        if sos_offset >= data.len() as u64 {
            return Some(sos_offset);
        }
        let start = sos_offset as usize;
        if data.len() - start < 4 {
            return Some(sos_offset);
        }
        let sos_length = (data[start + 2] as usize) * 256 + (data[start + 3] as usize);
        if sos_length >= data.len() - start - 2 {
            return Some((start + 2 + sos_length) as u64);
        }
        let entropy_start = start + 2 + sos_length;
        let mut pos = entropy_start;
        let mut consecutive_ff: usize = 0;
        while pos < data.len() - 1
            invariant
                entropy_start < data@.len(),
                entropy_start <= pos < data@.len(),
                consecutive_ff <= 4,
                consecutive_ff <= pos,
                entropy_fault(data@, sos_offset) == entropy_walk(data@, entropy_start as int, 0),
                entropy_walk(data@, pos as int, consecutive_ff as int) == entropy_walk(data@, entropy_start as int, 0),
            decreases data.len() - pos,
        {
            if data[pos] == 0xFF {
                consecutive_ff += 1;
                if consecutive_ff > 4 {
                    return Some(pos as u64 - 3);
                }
                let next = data[pos + 1];
                if next == 0x00 {
                    consecutive_ff = 0;
                    if pos + 2 >= data.len() {
                        assert(entropy_walk(data@, pos + 2, 0) == Some((pos + 2) as u64));
                        return Some((pos + 2) as u64);
                    }
                    pos += 2;
                } else if next == 0xD9 {
                    return None;
                } else if next >= 0xD0 && next <= 0xD7 {
                    consecutive_ff = 0;
                    if pos + 2 >= data.len() {
                        assert(entropy_walk(data@, pos + 2, 0) == Some((pos + 2) as u64));
                        return Some((pos + 2) as u64);
                    }
                    pos += 2;
                } else if next == 0xFF {
                    pos += 1;
                } else {
                    return Some(pos as u64);
                }
            } else {
                consecutive_ff = 0;
                pos += 1;
            }
        }
        Some(pos as u64)
    }
}

/// The walk through entropy-coded data from `pos`, with `ff` fill bytes
/// already counted in a row: stuffed zeros and restart markers are stepped
/// over, EOI ends cleanly, and more than four `FF`s in a row, any other marker
/// or the end of the buffer is where it stops.
pub open spec fn entropy_walk(d: Seq<u8>, pos: int, ff: int) -> Option<u64>
    decreases d.len() - pos,
{
    if pos < 0 || pos >= d.len() - 1 {
        Some(pos as u64)
    } else if d[pos] == 0xFF {
        if ff + 1 > 4 {
            Some((pos - 3) as u64)
        } else {
            let next = d[pos + 1];
            if next == 0x00 || (0xD0 <= next <= 0xD7) {
                entropy_walk(d, pos + 2, 0)
            } else if next == 0xD9 {
                None
            } else if next == 0xFF {
                entropy_walk(d, pos + 1, ff + 1)
            } else {
                Some(pos as u64)
            }
        }
    } else {
        entropy_walk(d, pos + 1, 0)
    }
}

/// Where the entropy-coded data after the SOS segment at `sos` stops being
/// well formed, as [`JpegValidator::validate_entropy_stream`] reports it.
pub open spec fn entropy_fault(d: Seq<u8>, sos: u64) -> Option<u64> {
    let n = d.len();
    if sos >= n {
        Some(sos)
    } else if sos + 4 > n {
        Some(sos)
    } else {
        let entropy_start = sos + 2 + (d[sos + 2] as int * 256 + d[sos + 3] as int);
        if entropy_start >= n {
            Some(entropy_start as u64)
        } else {
            entropy_walk(d, entropy_start, 0)
        }
    }
}

/// Whether the markers include an EOI.
pub(crate) fn markers_have_eoi(markers: &[JpegMarker]) -> (r: bool)
    ensures
        r == has_eoi(markers@),
{
    let mut i: usize = 0;
    while i < markers.len()
        invariant
            i <= markers@.len(),
            forall|k: int| 0 <= k < i ==> markers@[k].marker_type != MarkerType::Eoi,
        decreases markers.len() - i,
    {
        if markers[i].marker_type == MarkerType::Eoi {
            return true;
        }
        i += 1;
    }
    false
}

/// The first marker-order fault among `markers`, as [`order_fault`] states
/// it, with the reason the validators give for it.
pub(crate) fn first_order_fault(markers: &[JpegMarker]) -> (r: Option<(u64, CorruptionReason)>)
    ensures
        match order_fault(markers@, 0, false, false, false, false) {
            None => r is None,
            Some(f) => r matches Some(p) && p.0 == f.0 && reason_is(p.1, f.1),
        },
{
    let ghost ms = markers@;
    let mut seen_soi = false;
    let mut seen_dqt = false;
    let mut seen_sof = false;
    let mut seen_sos = false;
    let mut i: usize = 0;
    while i < markers.len()
        invariant
            ms == markers@,
            i <= ms.len(),
            order_fault(ms, i as int, seen_soi, seen_dqt, seen_sof, seen_sos)
                == order_fault(ms, 0, false, false, false, false),
        decreases markers.len() - i,
    {
        let marker = markers[i];
        match marker.marker_type {
            MarkerType::Soi => {
                if seen_soi && seen_sos {
                    return Some((marker.offset, CorruptionReason::InvalidMarkerSequence));
                }
                seen_soi = true;
            },
            MarkerType::Dqt => {
                seen_dqt = true;
            },
            MarkerType::Sof(_) => {
                if !seen_dqt {
                    let message = "DQT before SOF".to_string();
                    return Some((marker.offset, CorruptionReason::MissingRequiredMarker(message)));
                }
                seen_sof = true;
            },
            MarkerType::Sos => {
                if !seen_sof {
                    let message = "SOF before SOS".to_string();
                    return Some((marker.offset, CorruptionReason::MissingRequiredMarker(message)));
                }
                seen_sos = true;
            },
            _ => {},
        }
        i += 1;
    }
    None
}

/// The first restart marker among `markers` out of the cycle that starts at
/// `RST0`, as [`restart_fault`] states it.
pub(crate) fn first_restart_fault(markers: &[JpegMarker]) -> (r: Option<(u64, CorruptionReason)>)
    ensures
        match restart_fault(markers@, 0, 0) {
            None => r is None,
            Some(o) => r == Some((o, CorruptionReason::RestartSequenceError)),
        },
{
    let ghost ms = markers@;
    let mut expected: u8 = 0;
    let mut i: usize = 0;
    while i < markers.len()
        invariant
            ms == markers@,
            i <= ms.len(),
            expected < 8,
            restart_fault(ms, i as int, expected) == restart_fault(ms, 0, 0),
        decreases markers.len() - i,
    {
        let marker = markers[i];
        if let MarkerType::Rst(n) = marker.marker_type {
            if n != expected {
                return Some((marker.offset, CorruptionReason::RestartSequenceError));
            }
            expected = (expected + 1) % 8;
        }
        i += 1;
    }
    None
}

impl Default for JpegValidator {
    fn default() -> (r: Self) {
        JpegValidator::new()
    }
}

} // verus!
