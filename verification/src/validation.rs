//! Staged validation of recovered images: structural checks of the JPEG
//! marker order, DQT tables and PNG chunk order, and a rendering check that
//! decodes the image.
//!
//! Confidence is held in hundredths (`confidence_pct`); details and warnings
//! are [`Finding`]s, which a front end renders as text.

use vstd::prelude::*;
use vstd::string::{StrSliceExecFns, StringExecFns};

use crate::error::{file_format_name, FileFormat};
use crate::text::{decimal, decimal_spec, hex_number, hex_number_spec, upper_hex_byte, upper_hex_byte_spec};
use crate::jpeg::restart_spec;
use crate::png::parser::{be32, read_be32};

verus! {

/// Why a JPEG marker sequence is out of order.
#[derive(Debug, Clone, Copy, PartialEq, Eq, Structural)]
pub enum MarkerOrderError {
    /// There are no markers at all.
    NoMarkers,
    /// The first marker is not SOI; it is this one.
    FirstNotSoi(u8),
    /// A frame header at this offset follows the scan header.
    SofAfterSos(usize),
    /// A scan header comes before any frame header.
    SosBeforeSof,
    /// A restart marker comes before the scan header.
    RstBeforeSos,
    /// There is no frame header.
    NoSof,
    /// There is no scan header.
    NoSos,
    /// There is no quantization table.
    NoDqt,
}

/// Why the DQT segments of a JPEG are unusable.
#[derive(Debug, Clone, Copy, PartialEq, Eq, Structural)]
pub enum DqtError {
    /// The DQT segment at this offset runs past the data.
    BeyondData(usize),
    /// A table names this id, above 3.
    InvalidTableId(u8),
    /// A table runs past the data.
    Truncated,
}

/// Why a PNG chunk sequence is unusable.
#[derive(Debug, Clone, Copy, PartialEq, Eq, Structural)]
pub enum ChunkOrderError {
    /// Fewer than 8 bytes.
    TooShort,
    /// The first 8 bytes are not the PNG signature.
    BadSignature,
    /// A second IHDR.
    DuplicateIhdr,
    /// IHDR is not the first chunk.
    IhdrNotFirst,
    /// IHDR's length field is this, not 13.
    IhdrLength(usize),
    /// IDAT before IHDR.
    IdatBeforeIhdr,
    /// IEND's length field is not 0.
    IendLength,
    /// No IHDR.
    NoIhdr,
    /// No IDAT.
    NoIdat,
}

/// A detail or warning a validation stage reports.
#[derive(Debug, Clone, PartialEq, Eq)]
pub enum Finding {
    /// The stage does not apply to the context's format.
    NotApplicable(FileFormat),
    /// The JPEG does not start with SOI.
    MissingSoi,
    /// SOI is in place.
    ValidSoi,
    /// The marker order is wrong.
    InvalidMarkerSequence(MarkerOrderError),
    /// The marker order is right.
    MarkerSequenceValid,
    /// The DQT segments are unusable.
    DqtFailed(DqtError),
    /// This many DQT tables are well formed.
    DqtTables(usize),
    /// There are no DQT tables.
    NoDqtTables,
    /// The data ends with EOI.
    EoiAtEnd,
    /// The data does not end with EOI.
    NoEoiAtEnd,
    /// Fewer than 200 bytes: small for a JPEG.
    SmallForJpeg,
    /// The PNG chunk order is wrong.
    PngStructureInvalid(ChunkOrderError),
    /// The PNG chunk order is right, with this many chunks.
    PngStructureValid(usize),
    /// No IEND chunk.
    NoIend,
    /// The data is longer than the rendering limit: length and limit.
    TooLargeToRender(usize, usize),
    /// The decoder failed, on a JPEG (`false`) or PNG (`true`) attempt,
    /// with this message.
    DecodeFailed(bool, String),
    /// The decoded image has a zero dimension.
    ZeroDimensions,
    /// The decoded image (width, height) exceeds the dimension limit.
    DimensionsTooLarge(u32, u32, u32),
    /// The image decoded, as JPEG (`false`) or PNG (`true`) attempt, with
    /// this width and height.
    Decoded(bool, u32, u32),
}

/// What a validation stage concludes.
#[derive(Debug, Clone)]
pub struct ValidationResult {
    pub passed: bool,
    /// Confidence in hundredths, 0 to 100.
    pub confidence_pct: u32,
    pub details: Vec<Finding>,
    pub warnings: Vec<Finding>,
}

impl ValidationResult {
    /// A pass with this confidence and one detail.
    pub fn pass(confidence_pct: u32, detail: Finding) -> (r: Self)
        ensures
            r.passed,
            r.confidence_pct == confidence_pct,
            r.details@ == seq![detail],
            r.warnings@ == Seq::<Finding>::empty(),
    {
        let mut details = Vec::new();
        details.push(detail);
        ValidationResult { passed: true, confidence_pct, details, warnings: Vec::new() }
    }

    /// A failure with confidence 0 and the reason as its one detail.
    pub fn fail(reason: Finding) -> (r: Self)
        ensures
            !r.passed,
            r.confidence_pct == 0,
            r.details@ == seq![reason],
            r.warnings@ == Seq::<Finding>::empty(),
    {
        let mut details = Vec::new();
        details.push(reason);
        ValidationResult { passed: false, confidence_pct: 0, details, warnings: Vec::new() }
    }

    /// The result with one more warning.
    pub fn with_warning(self, warning: Finding) -> (r: Self)
        ensures
            r.passed == self.passed,
            r.confidence_pct == self.confidence_pct,
            r.details@ == self.details@,
            r.warnings@ == self.warnings@.push(warning),
    {
        let mut r = self;
        r.warnings.push(warning);
        r
    }

    /// The result with one more detail.
    pub fn with_detail(self, detail: Finding) -> (r: Self)
        ensures
            r.passed == self.passed,
            r.confidence_pct == self.confidence_pct,
            r.details@ == self.details@.push(detail),
            r.warnings@ == self.warnings@,
    {
        let mut r = self;
        r.details.push(detail);
        r
    }
}

/// What a stage is told about the data it validates.
#[derive(Debug, Clone, Copy)]
pub struct ValidationContext {
    pub format: FileFormat,
    pub expected_size: Option<u64>,
    pub is_fragmented: bool,
    pub fragment_count: usize,
}

impl Default for ValidationContext {
    /// Unknown format, no expected size, one unfragmented piece.
    fn default() -> (r: Self)
        ensures
            r.format == FileFormat::Unknown,
            r.expected_size is None,
            !r.is_fragmented,
            r.fragment_count == 1,
    {
        ValidationContext { format: FileFormat::Unknown, expected_size: None, is_fragmented: false, fragment_count: 1 }
    }
}

/// One stage of a validation pipeline.
pub trait ValidationStage {
    /// The stage's name.
    fn name(&self) -> &'static str;

    /// Whether a failure of this stage fails the whole pipeline.
    fn is_required(&self) -> bool;

    /// Validates `data` in `ctx`.
    fn validate(&self, data: &[u8], ctx: &ValidationContext) -> ValidationResult;
}

/// The markers from position `i` on, after `acc`: every `FF` followed by a
/// byte other than `00` and `FF`, with its offset; each `FF` pair is
/// stepped over whole.
pub open spec fn marker_scan(d: Seq<u8>, i: int, acc: Seq<(usize, u8)>) -> Seq<(usize, u8)>
    decreases d.len() - i,
{
    if i < 0 || i + 1 >= d.len() {
        acc
    } else if d[i] == 0xFF {
        if d[i + 1] != 0x00 && d[i + 1] != 0xFF {
            marker_scan(d, i + 2, acc.push((i as usize, d[i + 1])))
        } else {
            marker_scan(d, i + 2, acc)
        }
    } else {
        marker_scan(d, i + 1, acc)
    }
}

/// A frame header in the order check: `C0`-`C3`, `C5`-`C7`, `C9`-`CB`,
/// `CD`-`CF`.
pub open spec fn order_sof(m: u8) -> bool {
    (0xC0 <= m <= 0xC3) || (0xC5 <= m <= 0xC7) || (0xC9 <= m <= 0xCB) || (0xCD <= m <= 0xCF)
}

/// Walks the markers from `k` on with what has been seen so far (frame
/// header, scan header, DQT); EOI ends the walk.
pub open spec fn order_walk(ms: Seq<(usize, u8)>, k: int, sof: bool, sos: bool, dqt: bool) -> Result<(bool, bool, bool), MarkerOrderError>
    decreases ms.len() - k,
{
    if k < 0 || k >= ms.len() {
        Ok((sof, sos, dqt))
    } else {
        let (off, m) = ms[k];
        if order_sof(m) {
            if sos {
                Err(MarkerOrderError::SofAfterSos(off))
            } else {
                order_walk(ms, k + 1, true, sos, dqt)
            }
        } else if m == 0xDB {
            order_walk(ms, k + 1, sof, sos, true)
        } else if m == 0xDA {
            if !sof {
                Err(MarkerOrderError::SosBeforeSof)
            } else {
                order_walk(ms, k + 1, sof, true, dqt)
            }
        } else if m == 0xD9 {
            Ok((sof, sos, dqt))
        } else if restart_spec(m) && !sos {
            Err(MarkerOrderError::RstBeforeSos)
        } else {
            order_walk(ms, k + 1, sof, sos, dqt)
        }
    }
}

/// The marker order check: SOI first, no frame header after the scan
/// header, the scan header after a frame header, restart markers after the
/// scan header, and a frame header, a scan header and a DQT before EOI.
pub open spec fn marker_order(ms: Seq<(usize, u8)>) -> Result<(), MarkerOrderError> {
    if ms.len() == 0 {
        Err(MarkerOrderError::NoMarkers)
    } else if ms[0].1 != 0xD8 {
        Err(MarkerOrderError::FirstNotSoi(ms[0].1))
    } else {
        match order_walk(ms, 1, false, false, false) {
            Err(e) => Err(e),
            Ok((sof, sos, dqt)) => {
                if !sof {
                    Err(MarkerOrderError::NoSof)
                } else if !sos {
                    Err(MarkerOrderError::NoSos)
                } else if !dqt {
                    Err(MarkerOrderError::NoDqt)
                } else {
                    Ok(())
                }
            },
        }
    }
}

/// The tables of one DQT segment body from `pos` up to `end`: each is an
/// info byte (precision in the high nibble, id in the low) and 64 or 128
/// bytes of values. Gives the position after the last table.
pub open spec fn dqt_tables(d: Seq<u8>, pos: int, end: int, acc: Seq<u8>) -> Result<(int, Seq<u8>), DqtError>
    decreases (if pos < end { end - pos } else { 0 }),
{
    if pos < 0 || pos >= end {
        Ok((pos, acc))
    } else {
        let info = d[pos];
        let table_id = info % 16;
        if table_id > 3 {
            Err(DqtError::InvalidTableId(table_id))
        } else {
            let size: int = if info / 16 == 0 { 64 } else { 128 };
            if pos + 1 + size > d.len() {
                Err(DqtError::Truncated)
            } else {
                dqt_tables(d, pos + 1 + size, end, acc.push(table_id))
            }
        }
    }
}

/// The DQT table ids from position `i` on, after `acc`: every `FF DB` is
/// read as a segment whose length field must fit in the data.
pub open spec fn dqt_scan(d: Seq<u8>, i: int, acc: Seq<u8>) -> Result<Seq<u8>, DqtError>
    decreases d.len() - i,
{
    if i < 0 || i + 4 >= d.len() {
        Ok(acc)
    } else if d[i] == 0xFF && d[i + 1] == 0xDB {
        let len = d[i + 2] * 256 + d[i + 3];
        if i + 2 + len > d.len() {
            Err(DqtError::BeyondData(i as usize))
        } else {
            match dqt_tables(d, i + 4, i + 2 + len, acc) {
                Err(e) => Err(e),
                Ok((p, a)) => {
                    proof {
                        lemma_dqt_tables_advance(d, i + 4, i + 2 + len, acc);
                    }
                    if p <= i {
                        Ok(a)
                    } else {
                        dqt_scan(d, p, a)
                    }
                },
            }
        }
    } else {
        dqt_scan(d, i + 1, acc)
    }
}

/// A table walk ends at or past its start.
pub proof fn lemma_dqt_tables_advance(d: Seq<u8>, pos: int, end: int, acc: Seq<u8>)
    requires
        pos >= 0,
    ensures
        dqt_tables(d, pos, end, acc) matches Ok((p, a)) ==> p >= pos && (p > pos ==> p <= d.len()),
    decreases (if pos < end { end - pos } else { 0 }),
{
    if pos < 0 || pos >= end {
    } else {
        let info = d[pos];
        let size: int = if info / 16 == 0 { 64 } else { 128 };
        if info % 16 <= 3 && pos + 1 + size <= d.len() {
            lemma_dqt_tables_advance(d, pos + 1 + size, end, acc.push(info % 16));
        }
    }
}

/// Checks JPEG structure: markers, their order, DQT tables, EOI.
#[derive(Debug, Clone, Copy, Default)]
pub struct JpegStructuralValidator;

impl JpegStructuralValidator {
    /// A validator.
    pub fn new() -> (r: Self) {
        JpegStructuralValidator
    }

    /// Every marker of `data` with its offset ([`marker_scan`]).
    pub fn extract_markers(data: &[u8]) -> (r: Vec<(usize, u8)>)
        ensures
            r@ == marker_scan(data@, 0, Seq::empty()),
    {
        let mut markers: Vec<(usize, u8)> = Vec::new();
        let mut i: usize = 0;
        let n = data.len();
        while i < n && i + 1 < n
            invariant
                n == data@.len(),
                marker_scan(data@, i as int, markers@) == marker_scan(data@, 0, Seq::empty()),
            decreases n - i,
        {
            if data[i] == 0xFF {
                let marker = data[i + 1];
                if marker != 0x00 && marker != 0xFF {
                    markers.push((i, marker));
                }
                i += 2;
            } else {
                i += 1;
            }
        }
        markers
    }

    /// Checks the marker order ([`marker_order`]).
    pub fn validate_marker_order(markers: &[(usize, u8)]) -> (r: Result<(), MarkerOrderError>)
        ensures
            r == marker_order(markers@),
    {
        if markers.len() == 0 {
            return Err(MarkerOrderError::NoMarkers);
        }
        if markers[0].1 != 0xD8 {
            return Err(MarkerOrderError::FirstNotSoi(markers[0].1));
        }
        let mut saw_sof = false;
        let mut saw_sos = false;
        let mut saw_dqt = false;
        let mut k: usize = 1;
        while k < markers.len()
            invariant_except_break
                1 <= k <= markers@.len(),
                markers@[0].1 == 0xD8,
                order_walk(markers@, k as int, saw_sof, saw_sos, saw_dqt) == order_walk(markers@, 1, false, false, false),
            ensures
                markers@.len() > 0,
                markers@[0].1 == 0xD8,
                order_walk(markers@, 1, false, false, false) == Ok::<(bool, bool, bool), MarkerOrderError>((saw_sof, saw_sos, saw_dqt)),
            decreases markers.len() - k,
        {
            let (offset, marker) = markers[k];
            if (marker >= 0xC0 && marker <= 0xC3) || (marker >= 0xC5 && marker <= 0xC7) || (marker >= 0xC9
                && marker <= 0xCB) || (marker >= 0xCD && marker <= 0xCF) {
                if saw_sos {
                    return Err(MarkerOrderError::SofAfterSos(offset));
                }
                saw_sof = true;
            } else if marker == 0xDB {
                saw_dqt = true;
            } else if marker == 0xDA {
                if !saw_sof {
                    return Err(MarkerOrderError::SosBeforeSof);
                }
                saw_sos = true;
            } else if marker == 0xD9 {
                break;
            } else if marker >= 0xD0 && marker <= 0xD7 {
                if !saw_sos {
                    return Err(MarkerOrderError::RstBeforeSos);
                }
            }
            k += 1;
        }
        if !saw_sof {
            return Err(MarkerOrderError::NoSof);
        }
        if !saw_sos {
            return Err(MarkerOrderError::NoSos);
        }
        if !saw_dqt {
            return Err(MarkerOrderError::NoDqt);
        }
        Ok(())
    }

    /// The ids of every DQT table in `data`, in order ([`dqt_scan`]).
    pub fn validate_dqt(data: &[u8]) -> (r: Result<Vec<u8>, DqtError>)
        ensures
            match dqt_scan(data@, 0, Seq::empty()) {
                Ok(ids) => r matches Ok(v) && v@ == ids,
                Err(e) => r == Err::<Vec<u8>, DqtError>(e),
            },
    {
        let mut tables: Vec<u8> = Vec::new();
        let mut i: usize = 0;
        let n = data.len();
        while i < n && n - i > 4
            invariant
                n == data@.len(),
                dqt_scan(data@, i as int, tables@) == dqt_scan(data@, 0, Seq::empty()),
            decreases n - i,
        {
            if data[i] == 0xFF && data[i + 1] == 0xDB {
                let len = (data[i + 2] as usize) * 256 + (data[i + 3] as usize);
                if len > n - i - 2 {
                    return Err(DqtError::BeyondData(i));
                }
                let end = i + 2 + len;
                let ghost start_tables = tables@;
                let mut pos = i + 4;
                proof {
                    lemma_dqt_tables_advance(data@, pos as int, end as int, tables@);
                }
                while pos < end
                    invariant
                        n == data@.len(),
                        end <= n,
                        i + 4 <= pos,
                        i + 4 < n,
                        pos <= n,
                        data@[i as int] == 0xFF && data@[i + 1] == 0xDB,
                        end == i + 2 + data@[i + 2] * 256 + data@[i + 3],
                        dqt_scan(data@, i as int, start_tables) == dqt_scan(data@, 0, Seq::empty()),
                        dqt_tables(data@, pos as int, end as int, tables@) == dqt_tables(data@, i + 4, end as int, start_tables),
                    decreases n - pos,
                {
                    let info = data[pos];
                    let table_id = info % 16;
                    if table_id > 3 {
                        return Err(DqtError::InvalidTableId(table_id));
                    }
                    let table_size: usize = if info / 16 == 0 { 64 } else { 128 };
                    if table_size + 1 > n - pos {
                        return Err(DqtError::Truncated);
                    }
                    tables.push(table_id);
                    pos += 1 + table_size;
                }
                proof {
                    lemma_dqt_tables_advance(data@, i + 4, end as int, start_tables);
                }
                i = pos;
            } else {
                i += 1;
            }
        }
        Ok(tables)
    }
}

/// The outcome a JPEG structural check reaches on `d` in a context of
/// format `format`: passed, confidence, details, warnings.
pub open spec fn jpeg_structural_spec(d: Seq<u8>, format: FileFormat) -> (bool, u32, Seq<Finding>, Seq<Finding>) {
    if format != FileFormat::Jpeg && format != FileFormat::Unknown {
        (true, 100, seq![Finding::NotApplicable(FileFormat::Jpeg)], Seq::empty())
    } else if d.len() < 4 || d[0] != 0xFF || d[1] != 0xD8 {
        (false, 0, seq![Finding::MissingSoi], Seq::empty())
    } else {
        match marker_order(marker_scan(d, 0, Seq::empty())) {
            Err(e) => (false, 0, seq![Finding::InvalidMarkerSequence(e)], Seq::empty()),
            Ok(_) => match dqt_scan(d, 0, Seq::empty()) {
                Err(e) => (false, 0, seq![Finding::DqtFailed(e)], Seq::empty()),
                Ok(ids) => {
                    let has_dqt = ids.len() > 0;
                    let c1: u32 = if has_dqt { 70 } else { 50 };
                    let d1 = if has_dqt {
                        seq![Finding::ValidSoi, Finding::MarkerSequenceValid, Finding::DqtTables(ids.len() as usize)]
                    } else {
                        seq![Finding::ValidSoi, Finding::MarkerSequenceValid]
                    };
                    let w1 = if has_dqt { Seq::empty() } else { seq![Finding::NoDqtTables] };
                    let eoi = d.len() >= 2 && d[d.len() - 2] == 0xFF && d[d.len() - 1] == 0xD9;
                    let c2: u32 = if eoi { (c1 + 20) as u32 } else { c1 };
                    let d2 = if eoi { d1.push(Finding::EoiAtEnd) } else { d1 };
                    let w2 = if eoi { w1 } else { w1.push(Finding::NoEoiAtEnd) };
                    let w3 = if d.len() < 200 { w2.push(Finding::SmallForJpeg) } else { w2 };
                    (true, if c2 < 90 { c2 } else { 90 }, d2, w3)
                },
            },
        }
    }
}

/// Whether `r` is the outcome `o`.
pub open spec fn result_is(r: ValidationResult, o: (bool, u32, Seq<Finding>, Seq<Finding>)) -> bool {
    r.passed == o.0 && r.confidence_pct == o.1 && r.details@ == o.2 && r.warnings@ == o.3
}

impl ValidationStage for JpegStructuralValidator {
    fn name(&self) -> (r: &'static str)
        ensures
            r@ == "jpeg_structural"@,
    {
        "jpeg_structural"
    }

    fn is_required(&self) -> (r: bool)
        ensures
            r,
    {
        true
    }

    /// Checks SOI, the marker order, the DQT tables, EOI and size, and
    /// builds confidence from them ([`jpeg_structural_spec`]).
    fn validate(&self, data: &[u8], ctx: &ValidationContext) -> (r: ValidationResult)
        ensures
            result_is(r, jpeg_structural_spec(data@, ctx.format)),
    {
        match ctx.format {
            FileFormat::Jpeg | FileFormat::Unknown => {},
            _ => {
                return ValidationResult::pass(100, Finding::NotApplicable(FileFormat::Jpeg));
            },
        }
        if data.len() < 4 || data[0] != 0xFF || data[1] != 0xD8 {
            return ValidationResult::fail(Finding::MissingSoi);
        }
        let mut confidence: u32 = 20;
        let mut result = ValidationResult::pass(confidence, Finding::ValidSoi);
        let markers = Self::extract_markers(data);
        match Self::validate_marker_order(&markers) {
            Ok(()) => {
                confidence += 30;
                result = result.with_detail(Finding::MarkerSequenceValid);
            },
            Err(e) => {
                return ValidationResult::fail(Finding::InvalidMarkerSequence(e));
            },
        }
        match Self::validate_dqt(data) {
            Ok(tables) => {
                if tables.len() > 0 {
                    confidence += 20;
                    result = result.with_detail(Finding::DqtTables(tables.len()));
                } else {
                    result = result.with_warning(Finding::NoDqtTables);
                }
            },
            Err(e) => {
                return ValidationResult::fail(Finding::DqtFailed(e));
            },
        }
        let n = data.len();
        let has_eoi = n >= 2 && data[n - 2] == 0xFF && data[n - 1] == 0xD9;
        if has_eoi {
            confidence += 20;
            result = result.with_detail(Finding::EoiAtEnd);
        } else {
            result = result.with_warning(Finding::NoEoiAtEnd);
        }
        if n < 200 {
            result = result.with_warning(Finding::SmallForJpeg);
        }
        result.confidence_pct = if confidence < 90 { confidence } else { 90 };
        assert(result.details@ =~= jpeg_structural_spec(data@, ctx.format).2);
        assert(result.warnings@ =~= jpeg_structural_spec(data@, ctx.format).3);
        result
    }
}

/// The chunk type bytes `IEND`.
pub open spec fn iend_type() -> Seq<u8> {
    seq![0x49u8, 0x45u8, 0x4Eu8, 0x44u8]
}

/// Walks the chunks from `pos` on, with whether IHDR and IDAT were seen,
/// collecting each chunk's type bytes; IEND ends the walk.
pub open spec fn chunk_walk(d: Seq<u8>, pos: int, ihdr: bool, idat: bool, acc: Seq<Seq<u8>>) -> Result<(bool, bool, Seq<Seq<u8>>), ChunkOrderError>
    decreases (if pos <= d.len() { d.len() - pos } else { 0 }),
{
    if pos < 8 || pos + 12 > d.len() {
        Ok((ihdr, idat, acc))
    } else {
        let length = be32(d, pos) as int;
        let ty = d.subrange(pos + 4, pos + 8);
        let acc2 = acc.push(ty);
        let next = pos + 12 + length;
        if ty == seq![0x49u8, 0x48u8, 0x44u8, 0x52u8] {
            if ihdr {
                Err(ChunkOrderError::DuplicateIhdr)
            } else if pos != 8 {
                Err(ChunkOrderError::IhdrNotFirst)
            } else if length != 13 {
                Err(ChunkOrderError::IhdrLength(length as usize))
            } else {
                chunk_walk(d, next, true, idat, acc2)
            }
        } else if ty == seq![0x49u8, 0x44u8, 0x41u8, 0x54u8] {
            if !ihdr {
                Err(ChunkOrderError::IdatBeforeIhdr)
            } else {
                chunk_walk(d, next, ihdr, true, acc2)
            }
        } else if ty == iend_type() {
            if length != 0 {
                Err(ChunkOrderError::IendLength)
            } else {
                Ok((ihdr, idat, acc2))
            }
        } else {
            chunk_walk(d, next, ihdr, idat, acc2)
        }
    }
}

/// The PNG chunk check: the signature, then the chunk walk, which must
/// have seen IHDR and IDAT. Gives the chunk types.
pub open spec fn png_chunk_check(d: Seq<u8>) -> Result<Seq<Seq<u8>>, ChunkOrderError> {
    if d.len() < 8 {
        Err(ChunkOrderError::TooShort)
    } else if d.subrange(0, 8) != seq![0x89u8, 0x50u8, 0x4Eu8, 0x47u8, 0x0Du8, 0x0Au8, 0x1Au8, 0x0Au8] {
        Err(ChunkOrderError::BadSignature)
    } else {
        match chunk_walk(d, 8, false, false, Seq::empty()) {
            Err(e) => Err(e),
            Ok((ihdr, idat, acc)) => {
                if !ihdr {
                    Err(ChunkOrderError::NoIhdr)
                } else if !idat {
                    Err(ChunkOrderError::NoIdat)
                } else {
                    Ok(acc)
                }
            },
        }
    }
}

/// Whether every byte of `bytes` is ASCII.
pub open spec fn ascii_bytes(bytes: Seq<u8>) -> bool {
    forall|k: int| 0 <= k < bytes.len() ==> bytes[k] < 0x80
}

/// ASCII bytes read as text: each byte the character with its code.
pub open spec fn ascii_text(bytes: Seq<u8>) -> Seq<char> {
    bytes.map_values(|b: u8| b as char)
}

/// The text that `String::from_utf8_lossy` makes of `bytes`.
pub uninterp spec fn lossy_text(bytes: Seq<u8>) -> Seq<char>;

/// `String::from_utf8_lossy`: the bytes read as UTF-8, each invalid
/// sequence replaced by U+FFFD. Claimed: the result is [`lossy_text`] of
/// the bytes, and ASCII bytes come out as the same characters.
#[verifier::external_body]
fn utf8_lossy(bytes: &[u8]) -> (r: String)
    ensures
        r@ == lossy_text(bytes@),
        ascii_bytes(bytes@) ==> r@ == ascii_text(bytes@),
{
    String::from_utf8_lossy(bytes).into_owned()
}

/// Whether `data` opens with the PNG signature (`data` holds at least 8
/// bytes).
fn has_png_signature(data: &[u8]) -> (r: bool)
    requires
        data@.len() >= 8,
    ensures
        r == (data@.subrange(0, 8) == seq![0x89u8, 0x50u8, 0x4Eu8, 0x47u8, 0x0Du8, 0x0Au8, 0x1Au8, 0x0Au8]),
{
    let r = data[0] == 0x89 && data[1] == 0x50 && data[2] == 0x4E && data[3] == 0x47 && data[4] == 0x0D
        && data[5] == 0x0A && data[6] == 0x1A && data[7] == 0x0A;
    assert(r == (data@.subrange(0, 8) =~= seq![0x89u8, 0x50u8, 0x4Eu8, 0x47u8, 0x0Du8, 0x0Au8, 0x1Au8, 0x0Au8]));
    r
}

/// The chunk check with the chunk names and whether IEND was among them.
fn check_chunks(data: &[u8]) -> (r: Result<(Vec<String>, bool), ChunkOrderError>)
    ensures
        match png_chunk_check(data@) {
            Ok(types) => r matches Ok((names, iend)) && names@.len() == types.len()
                && (forall|i: int| 0 <= i < types.len() ==> (#[trigger] names@[i])@ == lossy_text(types[i]))
                && (forall|i: int| 0 <= i < types.len() && ascii_bytes(types[i]) ==> (#[trigger] names@[i])@ == ascii_text(types[i]))
                && iend == types.contains(iend_type()),
            Err(e) => r == Err::<(Vec<String>, bool), ChunkOrderError>(e),
        },
{
    if data.len() < 8 {
        return Err(ChunkOrderError::TooShort);
    }
    if !has_png_signature(data) {
        return Err(ChunkOrderError::BadSignature);
    }
    let mut names: Vec<String> = Vec::new();
    let ghost mut types: Seq<Seq<u8>> = Seq::empty();
    let mut saw_iend = false;
    let mut pos: usize = 8;
    let mut saw_ihdr = false;
    let mut saw_idat = false;
    let n = data.len();
    while pos <= n && n - pos >= 12
        invariant_except_break
            n == data@.len(),
            8 <= pos,
            data@.len() >= 8,
            data@.subrange(0, 8) == seq![0x89u8, 0x50u8, 0x4Eu8, 0x47u8, 0x0Du8, 0x0Au8, 0x1Au8, 0x0Au8],
            chunk_walk(data@, pos as int, saw_ihdr, saw_idat, types) == chunk_walk(data@, 8, false, false, Seq::empty()),
            names@.len() == types.len(),
            forall|i: int| 0 <= i < types.len() ==> (#[trigger] names@[i])@ == lossy_text(types[i]),
            forall|i: int| 0 <= i < types.len() && ascii_bytes(types[i]) ==> (#[trigger] names@[i])@ == ascii_text(types[i]),
            saw_iend == types.contains(iend_type()),
        ensures
            data@.len() >= 8,
            data@.subrange(0, 8) == seq![0x89u8, 0x50u8, 0x4Eu8, 0x47u8, 0x0Du8, 0x0Au8, 0x1Au8, 0x0Au8],
            chunk_walk(data@, 8, false, false, Seq::empty()) == Ok::<(bool, bool, Seq<Seq<u8>>), ChunkOrderError>((saw_ihdr, saw_idat, types)),
            names@.len() == types.len(),
            forall|i: int| 0 <= i < types.len() ==> (#[trigger] names@[i])@ == lossy_text(types[i]),
            forall|i: int| 0 <= i < types.len() && ascii_bytes(types[i]) ==> (#[trigger] names@[i])@ == ascii_text(types[i]),
            saw_iend == types.contains(iend_type()),
        decreases n - pos,
    {
        let length = read_be32(data, pos);
        let ty = vstd::slice::slice_subrange(data, pos + 4, pos + 8);
        let name = utf8_lossy(ty);
        let ghost old_types = types;
        proof {
            types = types.push(ty@);
        }
        names.push(name);
        let is_ihdr = data[pos + 4] == 0x49 && data[pos + 5] == 0x48 && data[pos + 6] == 0x44 && data[pos + 7] == 0x52;
        let is_idat = data[pos + 4] == 0x49 && data[pos + 5] == 0x44 && data[pos + 6] == 0x41 && data[pos + 7] == 0x54;
        let is_iend = data[pos + 4] == 0x49 && data[pos + 5] == 0x45 && data[pos + 6] == 0x4E && data[pos + 7] == 0x44;
        assert(is_ihdr == (ty@ =~= seq![0x49u8, 0x48u8, 0x44u8, 0x52u8]));
        assert(is_idat == (ty@ =~= seq![0x49u8, 0x44u8, 0x41u8, 0x54u8]));
        assert(is_iend == (ty@ =~= iend_type()));
        proof {
            assert(types.contains(iend_type()) == (old_types.contains(iend_type()) || ty@ == iend_type())) by {
                if ty@ == iend_type() {
                    assert(types[types.len() - 1] == iend_type());
                }
                if old_types.contains(iend_type()) {
                    let j = choose|j: int| 0 <= j < old_types.len() && old_types[j] == iend_type();
                    assert(types[j] == iend_type());
                }
                if types.contains(iend_type()) && ty@ != iend_type() {
                    let j = choose|j: int| 0 <= j < types.len() && types[j] == iend_type();
                    assert(old_types[j] == iend_type());
                }
            }
        }
        saw_iend = saw_iend || is_iend;
        if is_ihdr {
            if saw_ihdr {
                return Err(ChunkOrderError::DuplicateIhdr);
            }
            if pos != 8 {
                return Err(ChunkOrderError::IhdrNotFirst);
            }
            if length != 13 {
                return Err(ChunkOrderError::IhdrLength(length as usize));
            }
            saw_ihdr = true;
        } else if is_idat {
            if !saw_ihdr {
                return Err(ChunkOrderError::IdatBeforeIhdr);
            }
            saw_idat = true;
        } else if is_iend {
            if length != 0 {
                return Err(ChunkOrderError::IendLength);
            }
            break;
        }
        if length as usize > n - pos - 12 {
            proof {
                assert(chunk_walk(data@, pos + 12 + length, saw_ihdr, saw_idat, types) == Ok::<(bool, bool, Seq<Seq<u8>>), ChunkOrderError>((saw_ihdr, saw_idat, types)));
            }
            pos = n;
            break;
        }
        pos = pos + 12 + length as usize;
    }
    if !saw_ihdr {
        return Err(ChunkOrderError::NoIhdr);
    }
    if !saw_idat {
        return Err(ChunkOrderError::NoIdat);
    }
    Ok((names, saw_iend))
}

/// Checks PNG structure.
#[derive(Debug, Clone, Copy, Default)]
pub struct PngStructuralValidator;

impl PngStructuralValidator {
    /// A validator.
    pub fn new() -> (r: Self) {
        PngStructuralValidator
    }

    /// Checks the signature and the chunk order ([`png_chunk_check`]) and
    /// gives the chunk names, each chunk type read as text: an ASCII type
    /// (every standard one) as its own characters.
    pub fn validate_chunks(data: &[u8]) -> (r: Result<Vec<String>, ChunkOrderError>)
        ensures
            match png_chunk_check(data@) {
                Ok(types) => r matches Ok(names) && names@.len() == types.len()
                    && (forall|i: int| 0 <= i < types.len() ==> (#[trigger] names@[i])@ == lossy_text(types[i]))
                && (forall|i: int| 0 <= i < types.len() && ascii_bytes(types[i]) ==> (#[trigger] names@[i])@ == ascii_text(types[i])),
                Err(e) => r == Err::<Vec<String>, ChunkOrderError>(e),
            },
    {
        match check_chunks(data) {
            Ok((names, _)) => Ok(names),
            Err(e) => Err(e),
        }
    }
}

/// The outcome a PNG structural check reaches.
pub open spec fn png_structural_spec(d: Seq<u8>, format: FileFormat) -> (bool, u32, Seq<Finding>, Seq<Finding>) {
    if format != FileFormat::Png && format != FileFormat::Unknown {
        (true, 100, seq![Finding::NotApplicable(FileFormat::Png)], Seq::empty())
    } else {
        match png_chunk_check(d) {
            Err(e) => (false, 0, seq![Finding::PngStructureInvalid(e)], Seq::empty()),
            Ok(types) => {
                let iend = types.contains(iend_type());
                (
                    true,
                    if iend { 85 } else { 60 },
                    seq![Finding::PngStructureValid(types.len() as usize)],
                    if iend { Seq::empty() } else { seq![Finding::NoIend] },
                )
            },
        }
    }
}

impl ValidationStage for PngStructuralValidator {
    fn name(&self) -> (r: &'static str)
        ensures
            r@ == "png_structural"@,
    {
        "png_structural"
    }

    fn is_required(&self) -> (r: bool)
        ensures
            r,
    {
        true
    }

    /// Passes with confidence 85 when the chunk check passes with IEND,
    /// 60 without ([`png_structural_spec`]).
    fn validate(&self, data: &[u8], ctx: &ValidationContext) -> (r: ValidationResult)
        ensures
            result_is(r, png_structural_spec(data@, ctx.format)),
    {
        match ctx.format {
            FileFormat::Png | FileFormat::Unknown => {},
            _ => {
                return ValidationResult::pass(100, Finding::NotApplicable(FileFormat::Png));
            },
        }
        match check_chunks(data) {
            Ok((chunks, has_iend)) => {
                let confidence: u32 = if has_iend { 85 } else { 60 };
                let mut result = ValidationResult::pass(confidence, Finding::PngStructureValid(chunks.len()));
                if !has_iend {
                    result = result.with_warning(Finding::NoIend);
                }
                result
            },
            Err(e) => ValidationResult::fail(Finding::PngStructureInvalid(e)),
        }
    }
}

/// `image::load_from_memory`, which guesses the format from the first bytes
/// and decodes the whole image, then the image's width and height; a
/// failure comes back as the decoder's message. Nothing is claimed of the
/// outcome: the crate lets any code in the process register format
/// detection and decoding hooks, so the same bytes need not decode alike
/// twice.
#[verifier::external_body]
fn decode_image_size(data: &[u8]) -> (r: Result<(u32, u32), String>) {
    match image::load_from_memory(data) {
        Ok(img) => Ok((img.width(), img.height())),
        Err(e) => Err(format!("{}", e)),
    }
}

/// Checks that an image decodes, within size limits.
#[derive(Debug, Clone, Copy)]
pub struct RenderingValidator {
    pub max_dimension: u32,
    pub max_file_size: usize,
}

impl Default for RenderingValidator {
    /// 16384 pixels a side and 50 MiB.
    fn default() -> (r: Self)
        ensures
            r.max_dimension == 16384,
            r.max_file_size == 52428800,
    {
        RenderingValidator { max_dimension: 16384, max_file_size: 52428800 }
    }
}

/// What a decode attempt gives under the limits of `v`, for data within the
/// length limit: a failed decode fails with the decoder's message, a zero or
/// too large dimension fails, and a decoded image passes with confidence 98.
pub open spec fn decode_verdict(
    v: RenderingValidator,
    decoded: Result<(u32, u32), String>,
    png: bool,
) -> (bool, u32, Seq<Finding>, Seq<Finding>) {
    match decoded {
        Err(message) => (false, 0, seq![Finding::DecodeFailed(png, message)], Seq::empty()),
        Ok((w, h)) => {
            if w == 0 || h == 0 {
                (false, 0, seq![Finding::ZeroDimensions], Seq::empty())
            } else if w > v.max_dimension || h > v.max_dimension {
                (false, 0, seq![Finding::DimensionsTooLarge(w, h, v.max_dimension)], Seq::empty())
            } else {
                (true, 98, seq![Finding::Decoded(png, w, h)], Seq::empty())
            }
        },
    }
}

/// Whether `r` is what rendering `d` as a JPEG (`png` false) or PNG attempt
/// gives under the limits of `v`: too long data fails before any decode;
/// otherwise the verdict is [`decode_verdict`] of what the decode gave,
/// whatever that was.
pub open spec fn render_outcome(v: RenderingValidator, d: Seq<u8>, png: bool, r: ValidationResult) -> bool {
    if d.len() > v.max_file_size {
        result_is(r, (false, 0, seq![Finding::TooLargeToRender(d.len() as usize, v.max_file_size)], Seq::empty()))
    } else {
        exists|decoded: Result<(u32, u32), String>| result_is(r, #[trigger] decode_verdict(v, decoded, png))
    }
}

impl RenderingValidator {
    /// The default limits.
    pub fn new() -> (r: Self)
        ensures
            r.max_dimension == 16384,
            r.max_file_size == 52428800,
    {
        Self::default()
    }

    /// Limits of the caller's choosing.
    pub fn with_limits(max_dimension: u32, max_file_size: usize) -> (r: Self)
        ensures
            r.max_dimension == max_dimension,
            r.max_file_size == max_file_size,
    {
        RenderingValidator { max_dimension, max_file_size }
    }

    /// The verdict on a decode attempt ([`decode_verdict`]): the decoder's
    /// failure, or the decoded width and height checked against the
    /// dimension limit. The sampled-pixel check that follows a successful
    /// decode accepts every image of nonzero size, so a decoded image always
    /// gets the higher confidence.
    pub fn judge_decoded(&self, decoded: Result<(u32, u32), String>, png: bool) -> (r: ValidationResult)
        ensures
            result_is(r, decode_verdict(*self, decoded, png)),
    {
        match decoded {
            Ok((w, h)) => {
                if w == 0 || h == 0 {
                    return ValidationResult::fail(Finding::ZeroDimensions);
                }
                if w > self.max_dimension || h > self.max_dimension {
                    return ValidationResult::fail(Finding::DimensionsTooLarge(w, h, self.max_dimension));
                }
                ValidationResult::pass(98, Finding::Decoded(png, w, h))
            },
            Err(message) => ValidationResult::fail(Finding::DecodeFailed(png, message)),
        }
    }

    /// Decodes `data` and checks its dimensions ([`render_outcome`]).
    fn validate_rendering(&self, data: &[u8], png: bool) -> (r: ValidationResult)
        ensures
            render_outcome(*self, data@, png, r),
    {
        if data.len() > self.max_file_size {
            return ValidationResult::fail(Finding::TooLargeToRender(data.len(), self.max_file_size));
        }
        let decoded = decode_image_size(data);
        let ghost attempt = decoded;
        let r = self.judge_decoded(decoded, png);
        assert(result_is(r, decode_verdict(*self, attempt, png)));
        r
    }
}

impl ValidationStage for RenderingValidator {
    fn name(&self) -> (r: &'static str)
        ensures
            r@ == "rendering"@,
    {
        "rendering"
    }

    fn is_required(&self) -> (r: bool)
        ensures
            !r,
    {
        false
    }

    /// Renders as the context's format; with an unknown format as JPEG,
    /// and when that does not pass, as PNG, whose result is then the
    /// stage's.
    fn validate(&self, data: &[u8], ctx: &ValidationContext) -> (r: ValidationResult)
        ensures
            ctx.format == FileFormat::Jpeg ==> render_outcome(*self, data@, false, r),
            ctx.format == FileFormat::Png ==> render_outcome(*self, data@, true, r),
            ctx.format == FileFormat::Unknown ==> (render_outcome(*self, data@, false, r) && r.passed)
                || render_outcome(*self, data@, true, r),
    {
        match ctx.format {
            FileFormat::Jpeg => self.validate_rendering(data, false),
            FileFormat::Png => self.validate_rendering(data, true),
            FileFormat::Unknown => {
                let jpeg_result = self.validate_rendering(data, false);
                if jpeg_result.passed {
                    return jpeg_result;
                }
                self.validate_rendering(data, true)
            },
        }
    }
}

/// What the bytes where a head and a tail are joined say about the join.
#[derive(Debug, Clone, Copy, PartialEq, Eq, Structural)]
pub enum StitchBoundary {
    /// The tail opens with a marker that is not a restart marker (the byte
    /// after its `FF` is given): the join is likely at the wrong place.
    WrongStitchPoint(u8),
    /// The head ends with `FF` and the tail's first byte (given) is neither
    /// a stuffed zero nor a restart marker.
    InvalidSequence(u8),
    /// Neither.
    Clean,
}

/// The verdict on the bytes at the join of `head` and `tail`: a tail that
/// opens with a marker other than `00` or a restart marker is the wrong
/// stitch point; otherwise a head ending in `FF` must be followed by a
/// stuffed zero or a restart marker.
pub open spec fn stitch_boundary_spec(head: Seq<u8>, tail: Seq<u8>) -> StitchBoundary {
    if tail.len() >= 2 && tail[0] == 0xFF && tail[1] != 0x00 && !(0xD0 <= tail[1] <= 0xD7) {
        StitchBoundary::WrongStitchPoint(tail[1])
    } else if head.len() > 0 && head.last() == 0xFF && tail.len() > 0 && tail[0] != 0x00 && !(0xD0 <= tail[0]
        <= 0xD7) {
        StitchBoundary::InvalidSequence(tail[0])
    } else {
        StitchBoundary::Clean
    }
}

/// The verdict on the bytes at the join of `head` and `tail`
/// ([`stitch_boundary_spec`]).
pub fn stitch_boundary(head: &[u8], tail: &[u8]) -> (r: StitchBoundary)
    ensures
        r == stitch_boundary_spec(head@, tail@),
{
    if tail.len() >= 2 && tail[0] == 0xFF && tail[1] != 0x00 {
        let marker = tail[1];
        if !(marker >= 0xD0 && marker <= 0xD7) {
            return StitchBoundary::WrongStitchPoint(marker);
        }
    }
    if head.len() > 0 && head[head.len() - 1] == 0xFF && tail.len() > 0 {
        let next = tail[0];
        if next != 0x00 && !(next >= 0xD0 && next <= 0xD7) {
            return StitchBoundary::InvalidSequence(next);
        }
    }
    StitchBoundary::Clean
}

/// The text of a marker-order fault.
pub open spec fn marker_order_text(e: MarkerOrderError) -> Seq<char> {
    match e {
        MarkerOrderError::NoMarkers => "No markers found"@,
        MarkerOrderError::FirstNotSoi(b) => "First marker is 0x"@ + upper_hex_byte_spec(b) + ", expected SOI (0xD8)"@,
        MarkerOrderError::SofAfterSos(o) => "SOF marker at offset "@ + ("0x"@ + hex_number_spec(o as nat)) + " after SOS"@,
        MarkerOrderError::SosBeforeSof => "SOS marker before SOF"@,
        MarkerOrderError::RstBeforeSos => "RST marker before SOS"@,
        MarkerOrderError::NoSof => "No SOF marker found"@,
        MarkerOrderError::NoSos => "No SOS marker found"@,
        MarkerOrderError::NoDqt => "No DQT marker found"@,
    }
}

impl MarkerOrderError {
    /// The fault in words ([`marker_order_text`]).
    pub fn message(&self) -> (r: String)
        ensures
            r@ == marker_order_text(*self),
    {
        match *self {
            MarkerOrderError::NoMarkers => String::from_str("No markers found"),
            MarkerOrderError::FirstNotSoi(b) => {
                let mut s = String::from_str("First marker is 0x");
                let h = upper_hex_byte(b);
                s.append(h.as_str());
                s.append(", expected SOI (0xD8)");
                s
            },
            MarkerOrderError::SofAfterSos(o) => {
                let mut s = String::from_str("SOF marker at offset ");
                let h = hex_number(o as u64);
                s.append(h.as_str());
                s.append(" after SOS");
                s
            },
            MarkerOrderError::SosBeforeSof => String::from_str("SOS marker before SOF"),
            MarkerOrderError::RstBeforeSos => String::from_str("RST marker before SOS"),
            MarkerOrderError::NoSof => String::from_str("No SOF marker found"),
            MarkerOrderError::NoSos => String::from_str("No SOS marker found"),
            MarkerOrderError::NoDqt => String::from_str("No DQT marker found"),
        }
    }
}

/// The text of a DQT fault.
pub open spec fn dqt_text(e: DqtError) -> Seq<char> {
    match e {
        DqtError::BeyondData(o) => "DQT at offset "@ + ("0x"@ + hex_number_spec(o as nat)) + " extends beyond data"@,
        DqtError::InvalidTableId(id) => "Invalid DQT table ID: "@ + decimal_spec(id as nat),
        DqtError::Truncated => "DQT table truncated"@,
    }
}

impl DqtError {
    /// The fault in words ([`dqt_text`]).
    pub fn message(&self) -> (r: String)
        ensures
            r@ == dqt_text(*self),
    {
        match *self {
            DqtError::BeyondData(o) => {
                let mut s = String::from_str("DQT at offset ");
                let h = hex_number(o as u64);
                s.append(h.as_str());
                s.append(" extends beyond data");
                s
            },
            DqtError::InvalidTableId(id) => {
                let mut s = String::from_str("Invalid DQT table ID: ");
                let d = decimal(id as u64);
                s.append(d.as_str());
                s
            },
            DqtError::Truncated => String::from_str("DQT table truncated"),
        }
    }
}

/// The text of a PNG chunk-order fault.
pub open spec fn chunk_order_text(e: ChunkOrderError) -> Seq<char> {
    match e {
        ChunkOrderError::TooShort => "Data too short for PNG"@,
        ChunkOrderError::BadSignature => "Invalid PNG signature"@,
        ChunkOrderError::DuplicateIhdr => "Duplicate IHDR chunk"@,
        ChunkOrderError::IhdrNotFirst => "IHDR must be first chunk"@,
        ChunkOrderError::IhdrLength(n) => "IHDR length "@ + decimal_spec(n as nat) + " != 13"@,
        ChunkOrderError::IdatBeforeIhdr => "IDAT before IHDR"@,
        ChunkOrderError::IendLength => "IEND length must be 0"@,
        ChunkOrderError::NoIhdr => "No IHDR chunk found"@,
        ChunkOrderError::NoIdat => "No IDAT chunk found"@,
    }
}

impl ChunkOrderError {
    /// The fault in words ([`chunk_order_text`]).
    pub fn message(&self) -> (r: String)
        ensures
            r@ == chunk_order_text(*self),
    {
        match *self {
            ChunkOrderError::TooShort => String::from_str("Data too short for PNG"),
            ChunkOrderError::BadSignature => String::from_str("Invalid PNG signature"),
            ChunkOrderError::DuplicateIhdr => String::from_str("Duplicate IHDR chunk"),
            ChunkOrderError::IhdrNotFirst => String::from_str("IHDR must be first chunk"),
            ChunkOrderError::IhdrLength(n) => {
                let mut s = String::from_str("IHDR length ");
                let d = decimal(n as u64);
                s.append(d.as_str());
                s.append(" != 13");
                s
            },
            ChunkOrderError::IdatBeforeIhdr => String::from_str("IDAT before IHDR"),
            ChunkOrderError::IendLength => String::from_str("IEND length must be 0"),
            ChunkOrderError::NoIhdr => String::from_str("No IHDR chunk found"),
            ChunkOrderError::NoIdat => String::from_str("No IDAT chunk found"),
        }
    }
}

/// The text of a finding.
pub open spec fn finding_text(f: Finding) -> Seq<char> {
    match f {
        Finding::NotApplicable(fmt) => "Not a "@ + file_format_name(fmt)@ + ", skipping "@ + file_format_name(fmt)@
            + " validation"@,
        Finding::MissingSoi => "Missing or invalid SOI marker"@,
        Finding::ValidSoi => "Valid SOI marker"@,
        Finding::InvalidMarkerSequence(e) => "Invalid marker sequence: "@ + marker_order_text(e),
        Finding::MarkerSequenceValid => "Marker sequence valid"@,
        Finding::DqtFailed(e) => "DQT validation failed: "@ + dqt_text(e),
        Finding::DqtTables(n) => "Found "@ + decimal_spec(n as nat) + " valid DQT table(s)"@,
        Finding::NoDqtTables => "No DQT tables found"@,
        Finding::EoiAtEnd => "Valid EOI marker at end"@,
        Finding::NoEoiAtEnd => "No EOI marker at end of data"@,
        Finding::SmallForJpeg => "File unusually small for JPEG"@,
        Finding::PngStructureInvalid(e) => "PNG structure invalid: "@ + chunk_order_text(e),
        Finding::PngStructureValid(n) => "Valid PNG structure with "@ + decimal_spec(n as nat) + " chunks"@,
        Finding::NoIend => "No IEND chunk found"@,
        Finding::TooLargeToRender(len, limit) => "File too large for rendering validation: "@ + decimal_spec(len as nat)
            + " > "@ + decimal_spec(limit as nat) + " bytes"@,
        Finding::DecodeFailed(png, m) => (if png { "PNG decode failed: "@ } else { "JPEG decode failed: "@ }) + m@,
        Finding::ZeroDimensions => "Decoded image has zero dimensions"@,
        Finding::DimensionsTooLarge(w, h, max) => "Image dimensions "@ + decimal_spec(w as nat) + "x"@ + decimal_spec(
            h as nat,
        ) + " exceed maximum "@ + decimal_spec(max as nat),
        Finding::Decoded(png, w, h) => "Successfully decoded "@ + decimal_spec(w as nat) + "x"@ + decimal_spec(h as nat)
            + (if png { " PNG image"@ } else { " image"@ }),
    }
}

impl Finding {
    /// The finding in words ([`finding_text`]).
    pub fn message(&self) -> (r: String)
        ensures
            r@ == finding_text(*self),
    {
        match self {
            Finding::NotApplicable(fmt) => {
                let mut s = String::from_str("Not a ");
                s.append(fmt.name());
                s.append(", skipping ");
                s.append(fmt.name());
                s.append(" validation");
                s
            },
            Finding::MissingSoi => String::from_str("Missing or invalid SOI marker"),
            Finding::ValidSoi => String::from_str("Valid SOI marker"),
            Finding::InvalidMarkerSequence(e) => {
                let mut s = String::from_str("Invalid marker sequence: ");
                let t = e.message();
                s.append(t.as_str());
                s
            },
            Finding::MarkerSequenceValid => String::from_str("Marker sequence valid"),
            Finding::DqtFailed(e) => {
                let mut s = String::from_str("DQT validation failed: ");
                let t = e.message();
                s.append(t.as_str());
                s
            },
            Finding::DqtTables(n) => {
                let mut s = String::from_str("Found ");
                let d = decimal(*n as u64);
                s.append(d.as_str());
                s.append(" valid DQT table(s)");
                s
            },
            Finding::NoDqtTables => String::from_str("No DQT tables found"),
            Finding::EoiAtEnd => String::from_str("Valid EOI marker at end"),
            Finding::NoEoiAtEnd => String::from_str("No EOI marker at end of data"),
            Finding::SmallForJpeg => String::from_str("File unusually small for JPEG"),
            Finding::PngStructureInvalid(e) => {
                let mut s = String::from_str("PNG structure invalid: ");
                let t = e.message();
                s.append(t.as_str());
                s
            },
            Finding::PngStructureValid(n) => {
                let mut s = String::from_str("Valid PNG structure with ");
                let d = decimal(*n as u64);
                s.append(d.as_str());
                s.append(" chunks");
                s
            },
            Finding::NoIend => String::from_str("No IEND chunk found"),
            Finding::TooLargeToRender(len, limit) => {
                let mut s = String::from_str("File too large for rendering validation: ");
                let a = decimal(*len as u64);
                s.append(a.as_str());
                s.append(" > ");
                let b = decimal(*limit as u64);
                s.append(b.as_str());
                s.append(" bytes");
                s
            },
            Finding::DecodeFailed(png, m) => {
                let mut s = if *png {
                    String::from_str("PNG decode failed: ")
                } else {
                    String::from_str("JPEG decode failed: ")
                };
                s.append(m.as_str());
                s
            },
            Finding::ZeroDimensions => String::from_str("Decoded image has zero dimensions"),
            Finding::DimensionsTooLarge(w, h, max) => {
                let mut s = String::from_str("Image dimensions ");
                let a = decimal(*w as u64);
                s.append(a.as_str());
                s.append("x");
                let b = decimal(*h as u64);
                s.append(b.as_str());
                s.append(" exceed maximum ");
                let c = decimal(*max as u64);
                s.append(c.as_str());
                s
            },
            Finding::Decoded(png, w, h) => {
                let mut s = String::from_str("Successfully decoded ");
                let a = decimal(*w as u64);
                s.append(a.as_str());
                s.append("x");
                let b = decimal(*h as u64);
                s.append(b.as_str());
                if *png {
                    s.append(" PNG image");
                } else {
                    s.append(" image");
                }
                s
            },
        }
    }
}

} // verus!
