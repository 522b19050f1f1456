//! The ports of the engine: reading a medium ([`BlockSource`]), recording
//! what was recovered ([`Artifact`]), scoring images ([`Classifier`]) and
//! reporting progress ([`ProgressSink`]).

use vstd::prelude::*;
use vstd::string::StringExecFns;

use crate::confidence::Confidence;
use crate::geometry::{captured_backtrace_text, capture_backtrace, ByteOffset, ByteRange, Lba, SectorSize};
use crate::recovery::{Format, Stage, Timestamps};
use crate::text::{decimal, decimal_spec, hex, hex_spec};

verus! {

/// A sector-addressed medium. Implementations read whole sectors and report
/// bad sectors and out-of-range requests as [`ReadError`]s.
pub trait BlockSource {
    /// The bytes the medium holds, sector after sector. A source that does
    /// not describe its medium leaves it unknown.
    closed spec fn medium(&self) -> Seq<u8> {
        arbitrary()
    }

    /// The medium's geometry, fixed when it was opened. A source that does
    /// not describe it leaves it unknown.
    closed spec fn spec_geometry(&self) -> Geometry {
        arbitrary()
    }

    /// The reads asked of the medium so far, in order, each as the sector
    /// it starts at and its length in bytes. A source that does not keep
    /// this account leaves it unknown.
    closed spec fn requests(&self) -> Seq<(Lba, nat)> {
        arbitrary()
    }

    /// The medium's geometry; the medium holds exactly its sectors.
    fn geometry(&self) -> (r: Geometry)
        ensures
            r == self.spec_geometry(),
            self.medium().len() == r.sector_count * r.sector_size@,
    ;

    /// Fills `buf`, a non-zero whole number of sectors, from the sectors
    /// starting at `lba`. On success `buf` holds the medium's own bytes
    /// there, never made-up ones; on failure its contents are not to be
    /// used. Reading changes neither the medium nor its geometry, and each
    /// read is one more request in the medium's account.
    fn read_at(&mut self, lba: Lba, buf: &mut [u8]) -> (r: Result<(), ReadError>)
        requires
            old(buf)@.len() > 0,
            (old(buf)@.len() as int) % (old(self).spec_geometry().sector_size@ as int) == 0,
        ensures
            final(self).medium() == old(self).medium(),
            final(self).spec_geometry() == old(self).spec_geometry(),
            final(self).requests() == old(self).requests().push((lba, old(buf)@.len())),
            final(buf)@.len() == old(buf)@.len(),
            r is Ok ==> final(buf)@ == old(self).medium().subrange(
                lba@ * (old(self).spec_geometry().sector_size@ as int),
                lba@ * (old(self).spec_geometry().sector_size@ as int) + old(buf)@.len(),
            ),
    ;
}

/// What kind of medium is being read.
#[derive(Clone, Copy, Debug, PartialEq, Eq, Hash, Structural)]
#[non_exhaustive]
pub enum DeviceClass {
    /// A rotational disk.
    Hdd,
    /// A solid-state disk.
    Ssd,
    /// An image file.
    ImageFile,
    /// Unknown.
    Unknown,
}

/// The name a class is reported by.
pub open spec fn device_class_name(c: DeviceClass) -> &'static str {
    match c {
        DeviceClass::Hdd => "hdd",
        DeviceClass::Ssd => "ssd",
        DeviceClass::ImageFile => "image file",
        DeviceClass::Unknown => "unknown",
    }
}

impl DeviceClass {
    /// The class's name in reports.
    pub fn name(self) -> (r: &'static str)
        ensures
            r@ == device_class_name(self)@,
    {
        match self {
            DeviceClass::Hdd => "hdd",
            DeviceClass::Ssd => "ssd",
            DeviceClass::ImageFile => "image file",
            DeviceClass::Unknown => "unknown",
        }
    }
}

/// The shape of a medium: sector size, sector count and class.
#[derive(Clone, Copy, Debug, PartialEq, Eq)]
pub struct Geometry {
    pub sector_size: SectorSize,
    pub sector_count: u64,
    pub class: DeviceClass,
}

impl Geometry {
    /// A geometry of these parts.
    pub fn new(sector_size: SectorSize, sector_count: u64, class: DeviceClass) -> (r: Self)
        ensures
            r.sector_size == sector_size,
            r.sector_count == sector_count,
            r.class == class,
    {
        Geometry { sector_size, sector_count, class }
    }

    /// The medium's size in bytes, or `None` on overflow.
    pub fn capacity_bytes(&self) -> (r: Option<u64>)
        ensures
            match r {
                Some(b) => b == self.sector_count * self.sector_size@,
                None => self.sector_count * self.sector_size@ > u64::MAX,
            },
    {
        self.sector_count.checked_mul(self.sector_size.as_u64())
    }

    /// Whether the `sectors` sectors from `lba` lie on the medium; a range
    /// whose end overflows does not.
    pub fn contains(&self, lba: Lba, sectors: u64) -> (r: bool)
        ensures
            r == (lba@ + sectors <= self.sector_count),
    {
        match lba.get().checked_add(sectors) {
            Some(end) => end <= self.sector_count,
            None => false,
        }
    }
}

#[verifier::external_type_specification]
#[verifier::external_body]
pub struct ExIoError(std::io::Error);

/// `Display` of an I/O error. Nothing is claimed of the text.
#[verifier::external_body]
pub(crate) fn io_error_text(e: &std::io::Error) -> String {
    format!("{}", e)
}

/// The fixed text that names a read failure: the whole of it for a bad
/// sector or an out-of-range request, the part before the I/O layer's own
/// words for an I/O fault.
pub open spec fn read_failure_text(failure: ReadFailure) -> Seq<char> {
    match failure {
        ReadFailure::BadSector => "medium reports bad sector"@,
        ReadFailure::OutOfRange(n) => "range exceeds medium of "@ + decimal_spec(n as nat) + " sectors"@,
        ReadFailure::Io => "i/o fault: "@,
    }
}

/// The start of a read error's message.
pub open spec fn read_message_head(at: Lba, length: u64, failure: ReadFailure) -> Seq<char> {
    "read of sectors "@ + decimal_spec(at@ as nat) + "..+"@ + decimal_spec(length as nat) + " failed: "@
        + read_failure_text(failure)
}

/// What went wrong with a read.
#[derive(Debug)]
enum ReadErrorKind {
    BadSector,
    OutOfRange { sector_count: u64 },
    Io(std::io::Error),
}

/// Which kind of read failure an error is.
#[derive(Clone, Copy, Debug, PartialEq, Eq, Structural)]
pub enum ReadFailure {
    /// The medium reported a bad sector.
    BadSector,
    /// The range runs past a medium of this many sectors.
    OutOfRange(u64),
    /// The I/O layer failed.
    Io,
}

/// A failed read of `sectors` sectors at `lba`.
#[derive(Debug)]
pub struct ReadError {
    lba: Lba,
    sectors: u64,
    kind: ReadErrorKind,
    backtrace: std::backtrace::Backtrace,
}

impl ReadError {
    /// The first sector of the failed read.
    pub closed spec fn at(&self) -> Lba {
        self.lba
    }

    /// The length of the failed read in sectors.
    pub closed spec fn length(&self) -> u64 {
        self.sectors
    }

    /// Which kind of failure it is.
    pub closed spec fn failure(&self) -> ReadFailure {
        match self.kind {
            ReadErrorKind::BadSector => ReadFailure::BadSector,
            ReadErrorKind::OutOfRange { sector_count } => ReadFailure::OutOfRange(sector_count),
            ReadErrorKind::Io(_) => ReadFailure::Io,
        }
    }

    /// The medium reported `sectors` sectors at `lba` unreadable.
    pub fn bad_sector(lba: Lba, sectors: u64) -> (r: Self)
        ensures
            r.at() == lba,
            r.length() == sectors,
            r.failure() == ReadFailure::BadSector,
    {
        ReadError { lba, sectors, kind: ReadErrorKind::BadSector, backtrace: capture_backtrace() }
    }

    /// The request ran past a medium of `sector_count` sectors.
    pub fn out_of_range(lba: Lba, sectors: u64, sector_count: u64) -> (r: Self)
        ensures
            r.at() == lba,
            r.length() == sectors,
            r.failure() == ReadFailure::OutOfRange(sector_count),
    {
        ReadError { lba, sectors, kind: ReadErrorKind::OutOfRange { sector_count }, backtrace: capture_backtrace() }
    }

    /// The I/O layer failed with `source`.
    pub fn io(lba: Lba, sectors: u64, source: std::io::Error) -> (r: Self)
        ensures
            r.at() == lba,
            r.length() == sectors,
            r.failure() == ReadFailure::Io,
    {
        ReadError { lba, sectors, kind: ReadErrorKind::Io(source), backtrace: capture_backtrace() }
    }

    /// The first sector of the failed read.
    pub fn lba(&self) -> (r: Lba)
        ensures
            r == self.at(),
    {
        self.lba
    }

    /// The length of the failed read in sectors.
    pub fn sectors(&self) -> (r: u64)
        ensures
            r == self.length(),
    {
        self.sectors
    }

    /// Whether the medium reported a bad sector.
    pub fn is_bad_sector(&self) -> (r: bool)
        ensures
            r == (self.failure() == ReadFailure::BadSector),
    {
        match self.kind {
            ReadErrorKind::BadSector => true,
            _ => false,
        }
    }

    /// Whether the request ran past the medium.
    pub fn is_out_of_range(&self) -> (r: bool)
        ensures
            r == (self.failure() is OutOfRange),
    {
        match self.kind {
            ReadErrorKind::OutOfRange { .. } => true,
            _ => false,
        }
    }

    /// The backtrace this error holds, captured when it was made.
    pub closed spec fn trace(&self) -> std::backtrace::Backtrace {
        self.backtrace
    }

    /// The backtrace captured where the error was made.
    pub fn backtrace(&self) -> (r: &std::backtrace::Backtrace)
        ensures
            *r == self.trace(),
    {
        &self.backtrace
    }

    /// What went wrong, in words: [`read_message_head`], then the I/O
    /// layer's text for an I/O fault, then the backtrace on a line of its own
    /// when one was captured. The head is stated; the I/O text and the
    /// backtrace are not.
    pub fn message(&self) -> (r: String)
        ensures
            read_message_head(self.at(), self.length(), self.failure()).len() <= r@.len(),
            r@.subrange(0, read_message_head(self.at(), self.length(), self.failure()).len() as int)
                == read_message_head(self.at(), self.length(), self.failure()),
    {
        let mut s = String::from_str("read of sectors ");
        let a = decimal(self.lba.get());
        s.append(a.as_str());
        s.append("..+");
        let b = decimal(self.sectors);
        s.append(b.as_str());
        s.append(" failed: ");
        match &self.kind {
            ReadErrorKind::BadSector => s.append("medium reports bad sector"),
            ReadErrorKind::OutOfRange { sector_count } => {
                s.append("range exceeds medium of ");
                let c = decimal(*sector_count);
                s.append(c.as_str());
                s.append(" sectors");
            },
            ReadErrorKind::Io(_) => s.append("i/o fault: "),
        }
        let ghost head = s@;
        assert(head =~= read_message_head(self.at(), self.length(), self.failure()));
        match &self.kind {
            ReadErrorKind::Io(source) => {
                let t = io_error_text(source);
                s.append(t.as_str());
            },
            _ => {},
        }
        match captured_backtrace_text(&self.backtrace) {
            Some(text) => {
                s.append("\n");
                s.append(text.as_str());
            },
            None => {},
        }
        assert(s@.subrange(0, head.len() as int) =~= head);
        s
    }
}

/// A SHA-256 digest.
#[derive(Clone, Copy, PartialEq, Eq, PartialOrd, Ord, Hash, Debug)]
pub struct Digest([u8; 32]);

impl View for Digest {
    type V = Seq<u8>;

    closed spec fn view(&self) -> Seq<u8> {
        self.0@
    }
}

impl Digest {
    /// The digest of these 32 bytes.
    pub fn new(bytes: [u8; 32]) -> (r: Self)
        ensures
            r@ == bytes@,
    {
        Digest(bytes)
    }

    /// The digest's bytes.
    pub fn as_bytes(&self) -> (r: &[u8; 32])
        ensures
            r@ == self@,
    {
        &self.0
    }

    /// The digest in lower-case hexadecimal.
    pub fn to_hex(&self) -> (r: String)
        ensures
            r@ == hex_spec(self@),
    {
        hex(self.0.as_slice())
    }
}

/// Camera metadata that survived with an image. It has no `Debug`: the
/// values are never to reach a log.
#[derive(Clone, Default, PartialEq, Eq)]
pub struct Capture {
    pub make: Option<String>,
    pub model: Option<String>,
    pub taken: Option<String>,
    pub modified: Option<String>,
    pub pixels: Option<(u32, u32)>,
}

impl Capture {
    /// Whether nothing survived.
    pub fn is_empty(&self) -> (r: bool)
        ensures
            r == (self.make is None && self.model is None && self.taken is None && self.modified is None
                && self.pixels is None),
    {
        self.make.is_none() && self.model.is_none() && self.taken.is_none() && self.modified.is_none()
            && self.pixels.is_none()
    }
}

/// The provenance record of one recovered artifact. It has no `Debug`:
/// its name and capture metadata are never to reach a log.
#[derive(Clone, Copy, PartialEq, Eq)]
pub struct Artifact<'a> {
    pub format: Format,
    pub stage: Stage,
    pub confidence: Confidence,
    pub extents: &'a [ByteRange],
    pub length: u64,
    pub expected_length: Option<u64>,
    pub sha256: Digest,
    pub timestamps: Timestamps,
    pub recovered_name: Option<&'a str>,
    pub source_object: Option<u64>,
    pub parent: Option<ByteOffset>,
    pub pixels: Option<(u32, u32)>,
    pub capture: &'a Capture,
}

/// A decoded image as RGBA bytes, row by row. It has no `Debug`: pixels
/// are never to reach a log.
#[derive(Clone, PartialEq, Eq)]
pub struct PixelImage {
    width: u32,
    height: u32,
    pixels: Vec<u8>,
}

impl PixelImage {
    /// The image's width.
    pub closed spec fn spec_width(&self) -> u32 {
        self.width
    }

    /// The image's height.
    pub closed spec fn spec_height(&self) -> u32 {
        self.height
    }

    /// The image's RGBA bytes.
    pub closed spec fn spec_rgba(&self) -> Seq<u8> {
        self.pixels@
    }

    /// An image of `width` by `height` RGBA pixels; the buffer holds four
    /// bytes a pixel.
    pub fn new(width: u32, height: u32, pixels: Vec<u8>) -> (r: Self)
        requires
            pixels@.len() == width * height * 4,
        ensures
            r.spec_width() == width,
            r.spec_height() == height,
            r.spec_rgba() == pixels@,
    {
        PixelImage { width, height, pixels }
    }

    /// The width.
    pub fn width(&self) -> (r: u32)
        ensures
            r == self.spec_width(),
    {
        self.width
    }

    /// The height.
    pub fn height(&self) -> (r: u32)
        ensures
            r == self.spec_height(),
    {
        self.height
    }

    /// The number of pixels.
    pub fn pixel_count(&self) -> (r: u64)
        ensures
            r == self.spec_width() * self.spec_height(),
    {
        assert(self.width as u64 * self.height as u64 <= u64::MAX) by (nonlinear_arith)
            requires
                self.width <= u32::MAX,
                self.height <= u32::MAX,
        ;
        (self.width as u64) * (self.height as u64)
    }

    /// The RGBA bytes.
    pub fn rgba(&self) -> (r: &[u8])
        ensures
            r@ == self.spec_rgba(),
    {
        self.pixels.as_slice()
    }
}

/// What triage thinks an image is.
#[derive(Clone, Copy, Debug, PartialEq, Eq, PartialOrd, Ord, Hash, Structural)]
pub enum TriageLabel {
    Photograph,
    SyntheticAsset,
    Ambiguous,
}

/// The name a TriageLabel is reported by.
pub open spec fn triage_label_name(v: TriageLabel) -> &'static str {
    match v {
        TriageLabel::Photograph => "photograph",
        TriageLabel::SyntheticAsset => "synthetic-asset",
        TriageLabel::Ambiguous => "ambiguous",
    }
}

impl TriageLabel {
    /// The name it is reported by.
    pub fn name(self) -> (r: &'static str)
        ensures
            r@ == triage_label_name(self)@,
    {
        match self {
            TriageLabel::Photograph => "photograph",
            TriageLabel::SyntheticAsset => "synthetic-asset",
            TriageLabel::Ambiguous => "ambiguous",
        }
    }
}

/// Which test settled a triage label.
#[derive(Clone, Copy, Debug, PartialEq, Eq, PartialOrd, Ord, Hash, Structural)]
pub enum Decision {
    Transparency,
    Palette,
    FlatFill,
    SensorTexture,
    Inconclusive,
}

/// The name a Decision is reported by.
pub open spec fn decision_name(v: Decision) -> &'static str {
    match v {
        Decision::Transparency => "transparency",
        Decision::Palette => "palette",
        Decision::FlatFill => "flat-fill",
        Decision::SensorTexture => "sensor-texture",
        Decision::Inconclusive => "inconclusive",
    }
}

impl Decision {
    /// The name it is reported by.
    pub fn name(self) -> (r: &'static str)
        ensures
            r@ == decision_name(self)@,
    {
        match self {
            Decision::Transparency => "transparency",
            Decision::Palette => "palette",
            Decision::FlatFill => "flat-fill",
            Decision::SensorTexture => "sensor-texture",
            Decision::Inconclusive => "inconclusive",
        }
    }
}

/// A triage opinion.
#[derive(Clone, Copy, Debug, PartialEq, Eq, Structural)]
pub struct TriageScore {
    pub label: TriageLabel,
    pub decided_by: Decision,
}

/// The identity of a classifier's decision procedure.
#[derive(Clone, Copy, Debug, PartialEq, Eq)]
pub struct ModelIdentity {
    pub version: &'static str,
}

/// Scores decoded images; every answer is an annotation, never a reason to
/// drop an artifact.
pub trait Classifier {
    /// What scoring fails with.
    type Error;

    /// The identity of the decision procedure, when there is one.
    fn model(&self) -> Option<ModelIdentity>;

    /// Scores a batch, one answer per image in order; `None` is no opinion.
    fn score_batch(&mut self, images: &[PixelImage]) -> (r: Result<Vec<Option<TriageScore>>, Self::Error>)
        ensures
            r matches Ok(v) ==> v@.len() == images@.len(),
    ;
}

/// The null classifier: no opinion on anything.
#[derive(Clone, Copy, Debug, Default, PartialEq, Eq)]
pub struct AcceptAll;

impl AcceptAll {
    /// The null classifier.
    pub fn new() -> (r: Self) {
        AcceptAll
    }
}

impl Classifier for AcceptAll {
    type Error = core::convert::Infallible;

    fn model(&self) -> (r: Option<ModelIdentity>)
        ensures
            r is None,
    {
        None
    }

    /// No opinion on any image.
    fn score_batch(&mut self, images: &[PixelImage]) -> (r: Result<Vec<Option<TriageScore>>, core::convert::Infallible>)
        ensures
            r matches Ok(v) && v@.len() == images@.len() && forall|i: int| 0 <= i < v@.len() ==> v@[i] is None,
    {
        let mut v: Vec<Option<TriageScore>> = Vec::new();
        let mut i: usize = 0;
        while i < images.len()
            invariant
                i <= images@.len(),
                v@.len() == i,
                forall|k: int| 0 <= k < v@.len() ==> v@[k] is None,
            decreases images.len() - i,
        {
            v.push(None);
            i += 1;
        }
        Ok(v)
    }
}

/// Lifecycle state of a scan run.
#[derive(Clone, Copy, Debug, Default, PartialEq, Eq, Hash, Structural)]
pub enum RunState {
    #[default]
    Running,
    Paused,
    Cancelled,
    Finished,
}

/// The name a RunState is reported by.
pub open spec fn run_state_name(v: RunState) -> &'static str {
    match v {
        RunState::Running => "running",
        RunState::Paused => "paused",
        RunState::Cancelled => "cancelled",
        RunState::Finished => "finished",
    }
}

impl RunState {
    /// The name it is reported by.
    pub fn name(self) -> (r: &'static str)
        ensures
            r@ == run_state_name(self)@,
    {
        match self {
            RunState::Running => "running",
            RunState::Paused => "paused",
            RunState::Cancelled => "cancelled",
            RunState::Finished => "finished",
        }
    }

    /// Whether the run is over.
    pub fn is_terminal(self) -> (r: bool)
        ensures
            r == (self == RunState::Cancelled || self == RunState::Finished),
    {
        match self {
            RunState::Cancelled | RunState::Finished => true,
            _ => false,
        }
    }
}

/// What a progress count counts.
#[derive(Clone, Copy, Debug, Default, PartialEq, Eq, Hash, Structural)]
pub enum Unit {
    #[default]
    Bytes,
    Items,
    Steps,
    Seconds,
}

/// The name a Unit is reported by.
pub open spec fn unit_name(v: Unit) -> &'static str {
    match v {
        Unit::Bytes => "bytes",
        Unit::Items => "items",
        Unit::Steps => "steps",
        Unit::Seconds => "seconds",
    }
}

impl Unit {
    /// The name it is reported by.
    pub fn name(self) -> (r: &'static str)
        ensures
            r@ == unit_name(self)@,
    {
        match self {
            Unit::Bytes => "bytes",
            Unit::Items => "items",
            Unit::Steps => "steps",
            Unit::Seconds => "seconds",
        }
    }

    /// Whether a count in this unit can be shown as a percentage.
    pub fn supports_percentage(self) -> (r: bool)
        ensures
            r == (self != Unit::Steps),
    {
        match self {
            Unit::Bytes | Unit::Items | Unit::Seconds => true,
            Unit::Steps => false,
        }
    }
}

/// A structured progress event: offsets, sizes and counts only.
#[derive(Clone, Copy, Debug, PartialEq, Eq)]
#[non_exhaustive]
pub enum ScanEvent {
    StageStarted { stage: Stage, unit: Unit, total: u64 },
    StageProgress { stage: Stage, unit: Unit, done: u64, total: u64 },
    StageFinished { stage: Stage, findings: u64 },
    StateChanged { state: RunState },
    RegionUnreadable { range: ByteRange },
    ArtifactStored { artifacts: u64, bytes: u64 },
}

/// Receives recovered artifacts: the provenance record of each, with its
/// bytes read from a stream, so that a sink stores them wherever it wants
/// without the whole image ever being held in memory.
pub trait ArtifactSink {
    /// What this sink fails with.
    type Error;

    /// Accepts one artifact, reading its bytes from `bytes`.
    fn accept<R: std::io::Read + ?Sized>(&mut self, artifact: &Artifact<'_>, bytes: &mut R) -> Result<(), Self::Error>;

    /// Records an artifact that was recognised but whose bytes were not
    /// stored, and why. The default records nothing.
    fn omit(&mut self, artifact: &Artifact<'_>, reason: &str) -> (r: Result<(), Self::Error>)
        default_ensures
            r is Ok,
    {
        Ok(())
    }

    /// Accepts a preview of an artifact already accepted, named by its
    /// content hash. The default ignores it.
    fn preview(&mut self, sha256: &Digest, image: &PixelImage) -> (r: Result<(), Self::Error>)
        default_ensures
            r is Ok,
    {
        Ok(())
    }
}

/// Receives progress events.
pub trait ProgressSink {
    /// Takes one event.
    fn emit(&self, event: ScanEvent);
}

/// A sink that drops every event.
#[derive(Clone, Copy, Debug, Default, PartialEq, Eq)]
pub struct Discard;

impl ProgressSink for Discard {
    fn emit(&self, _event: ScanEvent) {
    }
}

} // verus!
