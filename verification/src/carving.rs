//! What the carver decides about a candidate, and why.

use vstd::prelude::*;

use crate::buffer::{lemma_round_up, round_up};
use crate::jpeg::resync::{JpegStructure, StreamModel, ValidationResult};
use crate::png::validator::PngValidationResult;
use crate::statistics::ImageClassification;

verus! {

/// Why a candidate is not extracted.
#[derive(Debug, Clone, PartialEq, Eq, Structural)]
pub enum SkipReason {
    /// An embedded thumbnail of a larger picture.
    Thumbnail,
    /// A drawn graphic rather than a photograph.
    ArtificialGraphic,
    /// Random-looking bytes.
    Encrypted,
    /// Too small to be worth keeping.
    TooSmall,
    /// The structure does not parse.
    InvalidStructure,
    /// Already recovered.
    Duplicate,
}

/// What to do with a candidate.
#[derive(Debug, Clone, PartialEq, Eq, Structural)]
pub enum CarveDecision {
    /// Extract it whole.
    Extract,
    /// Extract what there is of it.
    ExtractPartial,
    /// Leave it, for the reason given.
    Skip(SkipReason),
    /// Try bifragment gap carving.
    AttemptBgc,
}

/// A note recorded while validating a candidate.
#[derive(Debug, Clone, Copy, PartialEq, Eq, Structural)]
pub enum ValidationNote {
    /// The structure parsed cleanly.
    StructureValid,
    /// Corruption begins at this offset.
    CorruptionAt(u64),
    /// Gap carving joined the fragments.
    BgcSuccessful,
    /// Gap carving found no join.
    BgcFailed,
    /// The data ends before the structure does.
    Truncated,
    /// An EXIF thumbnail is embedded.
    ContainsExifThumbnail,
    /// This many chunk checksums failed.
    CrcErrors(usize),
    /// Parsing failed outright.
    ParseFailed,
}

/// The reason, if any, for which a classification makes the carver skip a
/// candidate: none unless statistical filtering is on; then encrypted and
/// too-small pictures are skipped, and drawn graphics when graphics are
/// filtered.
pub open spec fn skip_reason_spec(
    classification: ImageClassification,
    statistical_filtering: bool,
    filter_graphics: bool,
) -> Option<SkipReason> {
    if !statistical_filtering {
        None
    } else {
        match classification {
            ImageClassification::ArtificialGraphic => if filter_graphics {
                Some(SkipReason::ArtificialGraphic)
            } else {
                None
            },
            ImageClassification::Encrypted => Some(SkipReason::Encrypted),
            ImageClassification::TooSmall => Some(SkipReason::TooSmall),
            _ => None,
        }
    }
}

/// The skip decision the classifier's verdict leads to, as
/// [`skip_reason_spec`] states it.
pub fn classification_skip_reason(
    classification: ImageClassification,
    statistical_filtering: bool,
    filter_graphics: bool,
) -> (r: Option<SkipReason>)
    ensures
        r == skip_reason_spec(classification, statistical_filtering, filter_graphics),
{
    if !statistical_filtering {
        return None;
    }
    match classification {
        ImageClassification::NaturalPhoto => None,
        ImageClassification::ArtificialGraphic => if filter_graphics {
            Some(SkipReason::ArtificialGraphic)
        } else {
            None
        },
        ImageClassification::Encrypted => Some(SkipReason::Encrypted),
        ImageClassification::TooSmall => Some(SkipReason::TooSmall),
        ImageClassification::Corrupted => None,
    }
}

/// A photograph is never skipped for its classification.
pub proof fn lemma_photos_are_kept(statistical_filtering: bool, filter_graphics: bool)
    ensures
        skip_reason_spec(ImageClassification::NaturalPhoto, statistical_filtering, filter_graphics) is None,
{
}

/// What the carver makes of a candidate before any pixel statistics: the
/// decision, the bytes to extract, and the notes taken on the way.
#[derive(Debug, Clone, PartialEq, Eq)]
pub struct CarvePlan {
    pub decision: CarveDecision,
    pub size: u64,
    pub notes: Vec<ValidationNote>,
}

/// The plan for a PNG candidate of `data_len` bytes, given the validator's
/// verdict, or `None` when structural validation is off (then the whole
/// candidate is extracted as it is). A valid or CRC-damaged file is
/// extracted up to its last good chunk; a truncated one partially, up to
/// where it stops; a corrupted one partially, whole; a non-PNG is skipped.
pub open spec fn png_plan_spec(data_len: u64, validation: Option<PngValidationResult>) -> (CarveDecision, u64, Seq<ValidationNote>) {
    match validation {
        None => (CarveDecision::Extract, data_len, Seq::empty()),
        Some(PngValidationResult::Valid(structure)) => (
            CarveDecision::Extract,
            structure.valid_end_offset,
            seq![ValidationNote::StructureValid],
        ),
        Some(PngValidationResult::RecoverableCrcErrors { structure, errors }) => (
            CarveDecision::Extract,
            structure.valid_end_offset,
            seq![ValidationNote::CrcErrors(errors@.len() as usize)],
        ),
        Some(PngValidationResult::Truncated { last_valid_offset, .. }) => (
            CarveDecision::ExtractPartial,
            last_valid_offset,
            seq![ValidationNote::Truncated],
        ),
        Some(PngValidationResult::CorruptedAt { offset, .. }) => (
            CarveDecision::ExtractPartial,
            data_len,
            seq![ValidationNote::CorruptionAt(offset)],
        ),
        Some(PngValidationResult::InvalidHeader) => (
            CarveDecision::Skip(SkipReason::InvalidStructure),
            data_len,
            Seq::empty(),
        ),
    }
}

/// A PNG candidate the validator judges well formed, or well formed apart
/// from chunk CRCs, is planned for extraction in full, up to the end of its
/// last good chunk: a structurally valid image is never skipped nor cut.
pub proof fn lemma_valid_png_is_extracted(data_len: u64, v: PngValidationResult)
    requires
        v is Valid || v is RecoverableCrcErrors,
    ensures
        png_plan_spec(data_len, Some(v)).0 == CarveDecision::Extract,
        v matches PngValidationResult::Valid(s) ==> png_plan_spec(data_len, Some(v)).1 == s.valid_end_offset,
        v matches PngValidationResult::RecoverableCrcErrors { structure, .. } ==> png_plan_spec(data_len, Some(v)).1
            == structure.valid_end_offset,
{
}

/// A JPEG candidate that parses as a whole stream (not cut short) and that
/// the validator judges valid is planned for extraction in full.
pub proof fn lemma_valid_jpeg_is_extracted(
    data_len: u64,
    s: StreamModel,
    filter_thumbnails: bool,
    v: ValidationResult,
    bifragment_carving: bool,
)
    requires
        !s.is_truncated,
        v is Valid,
    ensures
        jpeg_plan_spec(data_len, Some(s), filter_thumbnails, Some(v), bifragment_carving).0 == CarveDecision::Extract,
        jpeg_plan_spec(data_len, Some(s), filter_thumbnails, Some(v), bifragment_carving).1 == data_len,
{
}

/// Whether `plan` is the triple `t`.
pub open spec fn plan_is(plan: CarvePlan, t: (CarveDecision, u64, Seq<ValidationNote>)) -> bool {
    plan.decision == t.0 && plan.size == t.1 && plan.notes@ =~= t.2
}

/// The carve plan for a PNG candidate, as [`png_plan_spec`] states it.
pub fn png_carve_plan(data_len: u64, validation: Option<&PngValidationResult>) -> (r: CarvePlan)
    ensures
        plan_is(r, png_plan_spec(data_len, match validation { Some(v) => Some(*v), None => None })),
        validation matches Some(PngValidationResult::Valid(s)) ==> r.decision == CarveDecision::Extract && r.size
            == s.valid_end_offset,
        validation matches Some(PngValidationResult::RecoverableCrcErrors { structure, .. }) ==> r.decision
            == CarveDecision::Extract && r.size == structure.valid_end_offset,
{
    match validation {
        None => CarvePlan { decision: CarveDecision::Extract, size: data_len, notes: Vec::new() },
        Some(PngValidationResult::Valid(structure)) => CarvePlan {
            decision: CarveDecision::Extract,
            size: structure.valid_end_offset,
            notes: vec![ValidationNote::StructureValid],
        },
        Some(PngValidationResult::RecoverableCrcErrors { structure, errors }) => CarvePlan {
            decision: CarveDecision::Extract,
            size: structure.valid_end_offset,
            notes: vec![ValidationNote::CrcErrors(errors.len())],
        },
        Some(PngValidationResult::Truncated { last_valid_offset, .. }) => CarvePlan {
            decision: CarveDecision::ExtractPartial,
            size: *last_valid_offset,
            notes: vec![ValidationNote::Truncated],
        },
        Some(PngValidationResult::CorruptedAt { offset, .. }) => CarvePlan {
            decision: CarveDecision::ExtractPartial,
            size: data_len,
            notes: vec![ValidationNote::CorruptionAt(*offset)],
        },
        Some(PngValidationResult::InvalidHeader) => CarvePlan {
            decision: CarveDecision::Skip(SkipReason::InvalidStructure),
            size: data_len,
            notes: Vec::new(),
        },
    }
}

/// The plan for a JPEG candidate of `data_len` bytes, before any gap
/// carving, from what the resynchronising parser found (`None` when the
/// candidate does not parse, which skips it) and the validator's verdict
/// (`None` when structural validation is off). A stream cut short is noted
/// and kept up to its valid end, partially when it carries content and not
/// at all otherwise. An EXIF thumbnail is noted when thumbnails are
/// filtered. Then a valid stream is noted; a corrupted one is noted and,
/// with bifragment carving on, marked for gap carving, otherwise extracted
/// partially; a truncated one is noted and extracted partially; one the
/// validator does not take for a JPEG is skipped.
pub open spec fn jpeg_plan_spec(
    data_len: u64,
    parsed: Option<StreamModel>,
    filter_thumbnails: bool,
    validation: Option<ValidationResult>,
    bifragment_carving: bool,
) -> (CarveDecision, u64, Seq<ValidationNote>) {
    match parsed {
        None => (CarveDecision::Skip(SkipReason::InvalidStructure), data_len, seq![ValidationNote::ParseFailed]),
        Some(s) => {
            let size = if s.is_truncated && s.valid_end_offset > 0 { s.valid_end_offset } else { data_len };
            let cut: Seq<ValidationNote> = if s.is_truncated { seq![ValidationNote::Truncated] } else { Seq::empty() };
            if s.is_truncated && !s.has_valid_content {
                (CarveDecision::Skip(SkipReason::InvalidStructure), size, cut)
            } else {
                let decision = if s.is_truncated { CarveDecision::ExtractPartial } else { CarveDecision::Extract };
                let notes = if filter_thumbnails && s.thumbnail is Some {
                    cut.push(ValidationNote::ContainsExifThumbnail)
                } else {
                    cut
                };
                match validation {
                    None => (decision, size, notes),
                    Some(ValidationResult::Valid(_)) => (decision, size, notes.push(ValidationNote::StructureValid)),
                    Some(ValidationResult::CorruptedAt { offset, .. }) => (
                        if bifragment_carving { CarveDecision::AttemptBgc } else { CarveDecision::ExtractPartial },
                        size,
                        notes.push(ValidationNote::CorruptionAt(offset)),
                    ),
                    Some(ValidationResult::Truncated { .. }) => (
                        CarveDecision::ExtractPartial,
                        size,
                        notes.push(ValidationNote::Truncated),
                    ),
                    Some(ValidationResult::InvalidHeader) => (CarveDecision::Skip(SkipReason::InvalidStructure), size, notes),
                }
            }
        },
    }
}

/// The carve plan for a JPEG candidate, as [`jpeg_plan_spec`] states it.
pub fn jpeg_carve_plan(
    data_len: u64,
    parsed: Option<&JpegStructure>,
    filter_thumbnails: bool,
    validation: Option<&ValidationResult>,
    bifragment_carving: bool,
) -> (r: CarvePlan)
    ensures
        plan_is(r, jpeg_plan_spec(data_len, match parsed { Some(s) => Some(s@), None => None }, filter_thumbnails,
            match validation { Some(v) => Some(*v), None => None }, bifragment_carving)),
        (parsed matches Some(p) && !p.is_truncated) && (validation matches Some(ValidationResult::Valid(_)))
            ==> r.decision == CarveDecision::Extract && r.size == data_len,
{
    let structure = match parsed {
        None => {
            return CarvePlan {
                decision: CarveDecision::Skip(SkipReason::InvalidStructure),
                size: data_len,
                notes: vec![ValidationNote::ParseFailed],
            };
        },
        Some(s) => s,
    };
    let mut decision = CarveDecision::Extract;
    let mut size = data_len;
    let mut notes: Vec<ValidationNote> = Vec::new();
    if structure.is_truncated {
        notes.push(ValidationNote::Truncated);
        if structure.valid_end_offset > 0 {
            size = structure.valid_end_offset;
        }
        if structure.has_valid_content {
            decision = CarveDecision::ExtractPartial;
        } else {
            return CarvePlan { decision: CarveDecision::Skip(SkipReason::InvalidStructure), size, notes };
        }
    }
    if filter_thumbnails && structure.thumbnail.is_some() {
        notes.push(ValidationNote::ContainsExifThumbnail);
    }
    match validation {
        None => {},
        Some(ValidationResult::Valid(_)) => {
            notes.push(ValidationNote::StructureValid);
        },
        Some(ValidationResult::CorruptedAt { offset, .. }) => {
            notes.push(ValidationNote::CorruptionAt(*offset));
            decision = if bifragment_carving {
                CarveDecision::AttemptBgc
            } else {
                CarveDecision::ExtractPartial
            };
        },
        Some(ValidationResult::Truncated { .. }) => {
            decision = CarveDecision::ExtractPartial;
            notes.push(ValidationNote::Truncated);
        },
        Some(ValidationResult::InvalidHeader) => {
            decision = CarveDecision::Skip(SkipReason::InvalidStructure);
        },
    }
    CarvePlan { decision, size, notes }
}

/// A plan marked for gap carving, after the carvers' answers: a
/// multi-fragment reconstruction of more than one fragment makes it an
/// extraction of the reconstruction's total size; failing that, a
/// bifragment join (`Some((true, total))`) makes it an extraction of
/// `total` bytes; either success is noted. Anything else makes it a partial
/// extraction and notes the failure.
pub open spec fn gap_carving_spec(
    plan: (CarveDecision, u64, Seq<ValidationNote>),
    multi_fragments: nat,
    multi_total: u64,
    bgc: Option<(bool, u64)>,
) -> (CarveDecision, u64, Seq<ValidationNote>) {
    if multi_fragments > 1 {
        (CarveDecision::Extract, multi_total, plan.2.push(ValidationNote::BgcSuccessful))
    } else {
        match bgc {
            Some((fragmented, total)) => if fragmented {
                (CarveDecision::Extract, total, plan.2.push(ValidationNote::BgcSuccessful))
            } else {
                (CarveDecision::ExtractPartial, plan.1, plan.2.push(ValidationNote::BgcFailed))
            },
            None => (CarveDecision::ExtractPartial, plan.1, plan.2.push(ValidationNote::BgcFailed)),
        }
    }
}

/// Applies the gap carvers' answers to a plan, as [`gap_carving_spec`]
/// states it: the multi-fragment carver's fragment count and total size,
/// and the bifragment carver's answer (which is only asked for when the
/// multi-fragment carver found no more than one fragment).
pub fn apply_gap_carving(plan: CarvePlan, multi: (usize, u64), bgc: Option<(bool, u64)>) -> (r: CarvePlan)
    ensures
        plan_is(r, gap_carving_spec((plan.decision, plan.size, plan.notes@), multi.0 as nat, multi.1, bgc)),
{
    let mut plan = plan;
    let (fragments, total) = multi;
    if fragments > 1 {
        plan.size = total;
        plan.decision = CarveDecision::Extract;
        plan.notes.push(ValidationNote::BgcSuccessful);
        return plan;
    }
    match bgc {
        Some((true, joined)) => {
            plan.size = joined;
            plan.decision = CarveDecision::Extract;
            plan.notes.push(ValidationNote::BgcSuccessful);
        },
        _ => {
            plan.decision = CarveDecision::ExtractPartial;
            plan.notes.push(ValidationNote::BgcFailed);
        },
    }
    plan
}

/// Whether an EOI marker (`FF D9`) starts at `i` of `b`.
pub open spec fn eoi_at(b: Seq<u8>, i: int) -> bool {
    0 <= i && i + 1 < b.len() && b[i] == 0xFF && b[i + 1] == 0xD9
}

/// The offset of the first EOI marker in `data`, if there is one.
pub fn find_eoi(data: &[u8]) -> (r: Option<usize>)
    ensures
        match r {
            Some(i) => eoi_at(data@, i as int) && forall|j: int| 0 <= j < i ==> !eoi_at(data@, j),
            None => forall|j: int| !eoi_at(data@, j),
        },
{
    let n = data.len();
    let mut i: usize = 0;
    while i < n && n - i > 1
        invariant
            n == data@.len(),
            forall|j: int| 0 <= j < i ==> !eoi_at(data@, j),
        decreases n - i,
    {
        if data[i] == 0xFF && data[i + 1] == 0xD9 {
            return Some(i);
        }
        i += 1;
    }
    None
}

/// How far back from an EOI a tail is searched for the SOI that would make
/// it the end of a whole file rather than an orphan.
pub const ORPHAN_LOOKBACK: usize = 65536;

/// Whether an SOI marker (`FF D8`) lies wholly within `lo..hi` of `b`.
pub open spec fn soi_within(b: Seq<u8>, lo: int, hi: int) -> bool {
    exists|j: int| lo <= j && j + 1 < hi && #[trigger] b[j] == 0xFF && b[j + 1] == 0xD8
}

/// Where the look-back from position `i` starts.
pub open spec fn lookback_start(i: int) -> int {
    if i >= ORPHAN_LOOKBACK { i - ORPHAN_LOOKBACK } else { 0 }
}

/// The orphan tail whose EOI starts at `i` of a window read at `off`: an
/// EOI with no SOI in the look-back before it is the end of a tail that
/// begins at the first cluster boundary of the look-back and runs through
/// the EOI, when that is a nonempty range.
pub open spec fn orphan_at(b: Seq<u8>, off: u64, cluster: u64, i: int) -> Option<(u64, u64)> {
    if eoi_at(b, i) && !soi_within(b, lookback_start(i), i) {
        let tail_end = off + i + 2;
        let start = round_up(off + lookback_start(i), cluster as int);
        if tail_end > start {
            Some((start as u64, (tail_end - start) as u64))
        } else {
            None
        }
    } else {
        None
    }
}

/// The orphan tails whose EOI starts before `n`, in order.
pub open spec fn orphans_upto(b: Seq<u8>, off: u64, cluster: u64, n: int) -> Seq<(u64, u64)>
    decreases n,
{
    if n <= 0 {
        Seq::empty()
    } else {
        orphans_upto(b, off, cluster, n - 1) + match orphan_at(b, off, cluster, n - 1) {
            Some(t) => seq![t],
            None => Seq::empty(),
        }
    }
}

/// Whether an SOI lies wholly within `lo..hi` of `data`.
fn has_soi(data: &[u8], lo: usize, hi: usize) -> (r: bool)
    requires
        lo <= hi <= data@.len(),
    ensures
        r == soi_within(data@, lo as int, hi as int),
{
    let mut j = lo;
    while j < hi && hi - j > 1
        invariant
            lo <= j,
            hi <= data@.len(),
            forall|k: int| lo <= k < j ==> !(k + 1 < hi && #[trigger] data@[k] == 0xFF && data@[k + 1] == 0xD8),
        decreases hi - j,
    {
        if data[j] == 0xFF && data[j + 1] == 0xD8 {
            return true;
        }
        j += 1;
    }
    false
}

/// The tails in one window of `buffer`, read at `offset`, whose EOI has no
/// SOI before it in the look-back: [`orphans_upto`] over the whole window.
pub fn orphan_tails_in(buffer: &[u8], offset: u64, cluster_size: u64) -> (r: Vec<(u64, u64)>)
    requires
        cluster_size > 0,
        offset + buffer@.len() + cluster_size <= u64::MAX,
    ensures
        r@ == orphans_upto(buffer@, offset, cluster_size, buffer@.len() - 1),
{
    let n = buffer.len();
    let mut out: Vec<(u64, u64)> = Vec::new();
    if n == 0 {
        return out;
    }
    let mut i: usize = 0;
    while i < n - 1
        invariant
            n == buffer@.len(),
            n >= 1,
            i + 1 <= n,
            cluster_size > 0,
            offset + n + cluster_size <= u64::MAX,
            out@ == orphans_upto(buffer@, offset, cluster_size, i as int),
        decreases n - i,
    {
        let ghost before = out@;
        if buffer[i] == 0xFF && buffer[i + 1] == 0xD9 {
            let lo = if i >= ORPHAN_LOOKBACK { i - ORPHAN_LOOKBACK } else { 0 };
            if !has_soi(buffer, lo, i) {
                let tail_end = offset + i as u64 + 2;
                let from = offset + lo as u64;
                let units = from / cluster_size + if from % cluster_size != 0 { 1 } else { 0 };
                proof {
                    lemma_round_up(from as int, cluster_size as int);
                }
                let start = units * cluster_size;
                if tail_end > start {
                    out.push((start, tail_end - start));
                }
            }
        }
        i += 1;
        assert(out@ =~= orphans_upto(buffer@, offset, cluster_size, i as int)) by {
            assert(orphans_upto(buffer@, offset, cluster_size, i as int) == before + match orphan_at(buffer@, offset, cluster_size, i - 1) {
                Some(t) => seq![t],
                None => Seq::<(u64, u64)>::empty(),
            });
        }
    }
    out
}

} // verus!
