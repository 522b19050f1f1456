//! Multi-pass acquisition of a medium into a raw image, as a state machine.
//!
//! A fast sweep reads the medium in chunks and sets every chunk that fails
//! aside as a suspect; a refinement pass then reads the suspects sector by
//! sector. Sectors that stay unreadable are recorded, merged into runs, in
//! the [`Report`]; sectors a cancelled run never reached are counted apart
//! from them. The reads themselves, the image writes and the progress and
//! cancellation callbacks belong to whoever drives the machine: it asks
//! [`Acquisition::next_action`] what to do and reports back what happened.

use vstd::prelude::*;

use crate::geometry::{captured_backtrace_text, capture_backtrace, Lba, SectorRange};
use crate::ports::io_error_text;
use vstd::string::StringExecFns;

verus! {

broadcast use {Lba::lemma_new_spec, Lba::lemma_view_determines};

/// Sectors read per sweep chunk unless the caller chooses otherwise.
pub const SWEEP_CHUNK_SECTORS: u64 = 128;

/// Progress is reported about this many times per pass.
pub const PROGRESS_STEPS: u64 = 200;

/// How an acquisition reads.
#[derive(Clone, Copy, Debug)]
pub struct Options {
    chunk_sectors: u64,
}

impl Options {
    #[verifier::type_invariant]
    spec fn inv(self) -> bool {
        self.chunk_sectors > 0
    }

    /// The sweep's chunk size in sectors.
    pub closed spec fn chunk(self) -> u64 {
        self.chunk_sectors
    }

    /// Chunks of [`SWEEP_CHUNK_SECTORS`] sectors.
    pub fn new() -> (r: Self)
        ensures
            r.chunk() == SWEEP_CHUNK_SECTORS,
    {
        Options { chunk_sectors: SWEEP_CHUNK_SECTORS }
    }

    /// Chunks of `chunk_sectors` sectors, at least one.
    pub fn with_chunk_sectors(self, chunk_sectors: u64) -> (r: Self)
        requires
            chunk_sectors > 0,
        ensures
            r.chunk() == chunk_sectors,
    {
        Options { chunk_sectors }
    }

    /// The sweep's chunk size in sectors, never zero.
    pub fn chunk_sectors(&self) -> (r: u64)
        ensures
            r == self.chunk(),
            r > 0,
    {
        proof {
            use_type_invariant(self);
        }
        self.chunk_sectors
    }
}

impl Default for Options {
    fn default() -> (r: Self)
        ensures
            r.chunk() == SWEEP_CHUNK_SECTORS,
    {
        Options::new()
    }
}

/// How far a pass has got.
#[derive(Clone, Copy, Debug, PartialEq, Eq, Hash, Structural)]
pub enum Progress {
    Swept { done: u64, total: u64 },
    Refined { done: u64, total: u64 },
}

/// The number of sectors in `runs`.
pub open spec fn runs_total(runs: Seq<SectorRange>) -> int
    decreases runs.len(),
{
    if runs.len() == 0 {
        0
    } else {
        runs_total(runs.drop_last()) + runs.last().sectors
    }
}

/// Runs sorted by start, each at least one sector, each ending strictly
/// before the next begins: no two could be merged.
pub open spec fn merged_runs(runs: Seq<SectorRange>) -> bool {
    &&& forall|k: int| 0 <= k < runs.len() ==> (#[trigger] runs[k]).sectors >= 1
    &&& forall|k: int| 0 <= k < runs.len() - 1 ==> (#[trigger] runs[k]).start@ + runs[k].sectors < runs[k + 1].start@
}

/// Runs sorted by start, each at least one sector, none overlapping the
/// next, all ending by `end`.
pub open spec fn disjoint_runs(runs: Seq<SectorRange>, end: int) -> bool {
    &&& forall|k: int| 0 <= k < runs.len() ==> (#[trigger] runs[k]).sectors >= 1 && runs[k].start@ + runs[k].sectors
        <= end
    &&& forall|k: int| 0 <= k < runs.len() - 1 ==> (#[trigger] runs[k]).start@ + runs[k].sectors <= runs[k + 1].start@
}

/// What an acquisition found: how many sectors the medium has, the runs
/// that stayed unreadable, and how many sectors a stopped run never tried.
#[derive(Debug, PartialEq, Eq)]
pub struct Report {
    sector_count: u64,
    unreadable: Vec<SectorRange>,
    not_attempted: u64,
}

impl Report {
    #[verifier::type_invariant]
    spec fn inv(self) -> bool {
        &&& runs_total(self.unreadable@) + self.not_attempted <= self.sector_count
        &&& merged_runs(self.unreadable@)
    }

    /// The medium's size in sectors.
    pub closed spec fn spec_sector_count(&self) -> u64 {
        self.sector_count
    }

    /// The unreadable runs.
    pub closed spec fn spec_unreadable(&self) -> Seq<SectorRange> {
        self.unreadable@
    }

    /// The sectors never tried.
    pub closed spec fn spec_not_attempted(&self) -> u64 {
        self.not_attempted
    }

    /// The medium's size in sectors.
    pub fn sector_count(&self) -> (r: u64)
        ensures
            r == self.spec_sector_count(),
    {
        self.sector_count
    }

    /// The sectors read: the medium less what it refused and what was never
    /// tried. The account never claims more lost than the medium holds.
    pub fn recovered_sectors(&self) -> (r: u64)
        ensures
            r == self.spec_sector_count() - runs_total(self.spec_unreadable()) - self.spec_not_attempted(),
    {
        proof {
            use_type_invariant(self);
        }
        let mut refused: u64 = 0;
        let mut i: usize = 0;
        while i < self.unreadable.len()
            invariant
                i <= self.unreadable@.len(),
                refused == runs_total(self.unreadable@.subrange(0, i as int)),
                runs_total(self.unreadable@) + self.not_attempted <= self.sector_count,
            decreases self.unreadable.len() - i,
        {
            proof {
                lemma_runs_total_prefix(self.unreadable@, i + 1);
                let p = self.unreadable@.subrange(0, i + 1);
                assert(p.drop_last() =~= self.unreadable@.subrange(0, i as int));
            }
            refused = refused + self.unreadable[i].sectors;
            i += 1;
        }
        assert(self.unreadable@.subrange(0, i as int) =~= self.unreadable@);
        self.sector_count - (refused + self.not_attempted)
    }

    /// The sectors a stopped run never tried.
    pub fn not_attempted(&self) -> (r: u64)
        ensures
            r == self.spec_not_attempted(),
    {
        self.not_attempted
    }

    /// Whether the run was stopped before it tried everything.
    pub fn stopped_early(&self) -> (r: bool)
        ensures
            r == (self.spec_not_attempted() > 0),
    {
        self.not_attempted > 0
    }

    /// The runs that stayed unreadable, sorted, merged.
    pub fn unreadable(&self) -> (r: &[SectorRange])
        ensures
            r@ == self.spec_unreadable(),
            merged_runs(r@),
    {
        proof {
            use_type_invariant(self);
        }
        self.unreadable.as_slice()
    }

    /// Whether every sector was read.
    pub fn is_complete(&self) -> (r: bool)
        ensures
            r == (self.spec_unreadable().len() == 0 && self.spec_not_attempted() == 0),
    {
        self.unreadable.len() == 0 && self.not_attempted == 0
    }
}

impl Clone for Report {
    fn clone(&self) -> (r: Self)
        ensures
            r.spec_sector_count() == self.spec_sector_count(),
            r.spec_unreadable() == self.spec_unreadable(),
            r.spec_not_attempted() == self.spec_not_attempted(),
    {
        proof {
            use_type_invariant(self);
        }
        let mut runs: Vec<SectorRange> = Vec::new();
        let mut i: usize = 0;
        while i < self.unreadable.len()
            invariant
                i <= self.unreadable@.len(),
                runs@ == self.unreadable@.subrange(0, i as int),
            decreases self.unreadable.len() - i,
        {
            let run = self.unreadable[i];
            runs.push(run);
            i += 1;
            assert(runs@ =~= self.unreadable@.subrange(0, i as int));
        }
        assert(runs@ =~= self.unreadable@);
        Report { sector_count: self.sector_count, unreadable: runs, not_attempted: self.not_attempted }
    }
}

/// The total of a prefix grows with the prefix, up to the whole.
pub proof fn lemma_runs_total_prefix(runs: Seq<SectorRange>, k: int)
    requires
        0 <= k <= runs.len(),
    ensures
        runs_total(runs.subrange(0, k)) <= runs_total(runs),
        runs_total(runs.subrange(0, k)) >= 0,
    decreases runs.len() - k,
{
    lemma_runs_total_nonneg(runs.subrange(0, k));
    if k < runs.len() {
        lemma_runs_total_prefix(runs, k + 1);
        let p = runs.subrange(0, k + 1);
        assert(p.drop_last() =~= runs.subrange(0, k));
    } else {
        assert(runs.subrange(0, k) =~= runs);
        lemma_runs_total_nonneg(runs);
    }
}

/// A total of sector counts is never negative.
pub proof fn lemma_runs_total_nonneg(runs: Seq<SectorRange>)
    ensures
        runs_total(runs) >= 0,
    decreases runs.len(),
{
    if runs.len() > 0 {
        lemma_runs_total_nonneg(runs.drop_last());
    }
}

/// Writing the image failed.
#[derive(Debug)]
pub struct AcquireError {
    source: std::io::Error,
    backtrace: std::backtrace::Backtrace,
}

impl AcquireError {
    /// The I/O error the write failed with.
    pub closed spec fn cause(&self) -> std::io::Error {
        self.source
    }

    /// The image write failed with `source`.
    pub fn new(source: std::io::Error) -> (r: Self)
        ensures
            r.cause() == source,
    {
        AcquireError { source, backtrace: capture_backtrace() }
    }

    /// The I/O error the write failed with.
    pub fn io_source(&self) -> (r: &std::io::Error)
        ensures
            *r == self.cause(),
    {
        &self.source
    }

    /// The backtrace this error holds, captured when it was made.
    pub closed spec fn trace(&self) -> std::backtrace::Backtrace {
        self.backtrace
    }

    /// The backtrace captured where the error was made.
    pub fn backtrace(&self) -> (r: &std::backtrace::Backtrace)
        ensures
            *r == self.trace(),
    {
        &self.backtrace
    }

    /// What went wrong, in words: it starts `cannot write acquired image: `,
    /// then the I/O layer's text and the backtrace when one was captured,
    /// neither of which is stated.
    pub fn message(&self) -> (r: String)
        ensures
            "cannot write acquired image: "@.len() <= r@.len(),
            r@.subrange(0, "cannot write acquired image: "@.len() as int) == "cannot write acquired image: "@,
    {
        let mut s = String::from_str("cannot write acquired image: ");
        let ghost head = s@;
        let t = io_error_text(&self.source);
        s.append(t.as_str());
        match captured_backtrace_text(&self.backtrace) {
            Some(text) => {
                s.append("\n");
                s.append(text.as_str());
            },
            None => {},
        }
        assert(s@.subrange(0, head.len() as int) =~= head);
        s
    }
}

/// Progress is reported every `stride` units: the total over
/// [`PROGRESS_STEPS`], rounded up, and at least one.
pub open spec fn stride_spec(total: u64) -> u64 {
    let s = (total + (PROGRESS_STEPS - 1)) / (PROGRESS_STEPS as int);
    if s < 1 { 1 } else { s as u64 }
}

/// The progress stride for a pass over `total` units.
pub fn stride(total: u64) -> (r: u64)
    ensures
        r == stride_spec(total),
        r >= 1,
{
    let s = total / PROGRESS_STEPS + if total % PROGRESS_STEPS == 0 { 0 } else { 1 };
    assert(s == (total + (PROGRESS_STEPS - 1)) / (PROGRESS_STEPS as int)) by (nonlinear_arith)
        requires
            s == total / 200 + if total % 200 == 0 { 0int } else { 1int },
            PROGRESS_STEPS == 200,
    ;
    if s < 1 {
        1
    } else {
        s
    }
}

/// Whether a pass over `total` units that has reached `done` reports its
/// progress: at every stride, and at the end.
pub open spec fn reports_at(done: int, total: u64) -> bool {
    done % (stride_spec(total) as int) == 0 || done >= total
}

/// How many of the positions `dones` a pass reports at.
pub open spec fn reports_among(dones: Seq<int>, total: u64) -> nat
    decreases dones.len(),
{
    if dones.len() == 0 {
        0
    } else {
        reports_among(dones.drop_last(), total) + if reports_at(dones.last(), total) { 1nat } else { 0nat }
    }
}

/// How many of the positions `dones` fall on a multiple of `s`.
pub open spec fn multiples_among(dones: Seq<int>, s: int) -> nat
    decreases dones.len(),
{
    if dones.len() == 0 {
        0
    } else {
        multiples_among(dones.drop_last(), s) + if dones.last() % s == 0 { 1nat } else { 0nat }
    }
}

/// Whether `dones` rises strictly and stays within `1..=total`.
pub open spec fn rising_within(dones: Seq<int>, total: int) -> bool {
    &&& forall|i: int, j: int| 0 <= i < j < dones.len() ==> #[trigger] dones[i] < #[trigger] dones[j]
    &&& forall|i: int| 0 <= i < dones.len() ==> 0 < #[trigger] dones[i] <= total
}

/// Strictly rising positive positions hold no more multiples of `s` than
/// the last of them does below it.
proof fn lemma_multiples_bounded(dones: Seq<int>, s: int, total: int)
    requires
        s >= 1,
        rising_within(dones, total),
        dones.len() > 0,
    ensures
        multiples_among(dones, s) <= dones.last() / s,
    decreases dones.len(),
{
    let last = dones.last();
    let rest = dones.drop_last();
    if rest.len() == 0 {
        if last % s == 0 {
            assert(last / s >= 1) by (nonlinear_arith)
                requires
                    last > 0,
                    s >= 1,
                    last % s == 0,
            ;
        }
        assert(multiples_among(rest, s) == 0);
        assert(last / s >= 0) by (nonlinear_arith)
            requires
                last > 0,
                s >= 1,
        ;
    } else {
        assert(rising_within(rest, total)) by {
            assert forall|i: int, j: int| 0 <= i < j < rest.len() implies #[trigger] rest[i] < #[trigger] rest[j] by {
                assert(rest[i] == dones[i] && rest[j] == dones[j]);
            }
            assert forall|i: int| 0 <= i < rest.len() implies 0 < #[trigger] rest[i] <= total by {
                assert(rest[i] == dones[i]);
            }
        }
        lemma_multiples_bounded(rest, s, total);
        let prev = rest.last();
        assert(prev == dones[dones.len() - 2]);
        assert(prev < last);
        if last % s == 0 {
            assert(prev / s + 1 <= last / s) by (nonlinear_arith)
                requires
                    0 < prev < last,
                    s >= 1,
                    last % s == 0,
            ;
        } else {
            assert(prev / s <= last / s) by (nonlinear_arith)
                requires
                    0 < prev < last,
                    s >= 1,
            ;
        }
    }
}

/// Only the last of strictly rising positions within `1..=total` can reach
/// the end, and every report is a stride's multiple or that end.
proof fn lemma_reports_bounded(dones: Seq<int>, total: u64)
    requires
        rising_within(dones, total as int),
    ensures
        reports_among(dones, total) <= multiples_among(dones, stride_spec(total) as int) + 1,
        dones.len() > 0 && dones.last() < total ==> reports_among(dones, total) == multiples_among(
            dones,
            stride_spec(total) as int,
        ),
    decreases dones.len(),
{
    if dones.len() > 0 {
        let rest = dones.drop_last();
        assert(rising_within(rest, total as int)) by {
            assert forall|i: int, j: int| 0 <= i < j < rest.len() implies #[trigger] rest[i] < #[trigger] rest[j] by {
                assert(rest[i] == dones[i] && rest[j] == dones[j]);
            }
            assert forall|i: int| 0 <= i < rest.len() implies 0 < #[trigger] rest[i] <= total by {
                assert(rest[i] == dones[i]);
            }
        }
        lemma_reports_bounded(rest, total);
        if rest.len() > 0 {
            assert(rest.last() == dones[dones.len() - 2]);
            assert(rest.last() < dones.last());
        }
    }
}

/// A pass reports its progress at most [`PROGRESS_STEPS`] times and once
/// more at its end, however large the medium: whatever positions it
/// reaches, rising within its total, at most `PROGRESS_STEPS + 1` of them
/// are reported.
pub proof fn lemma_progress_is_capped(dones: Seq<int>, total: u64)
    requires
        rising_within(dones, total as int),
    ensures
        reports_among(dones, total) <= PROGRESS_STEPS + 1,
{
    lemma_reports_bounded(dones, total);
    let s = stride_spec(total) as int;
    if dones.len() > 0 {
        lemma_multiples_bounded(dones, s, total as int);
        assert(dones.last() <= total);
        assert(s * 200 >= total) by (nonlinear_arith)
            requires
                s == (if (total + 199) / 200 < 1 { 1 } else { (total + 199) / 200 }),
                total >= 0,
        ;
        assert(dones.last() / s <= 200) by (nonlinear_arith)
            requires
                s >= 1,
                s * 200 >= total,
                0 < dones.last() <= total,
        ;
    }
}

/// `runs` after marking `sector` unreadable: the last run grows when the
/// sector follows it, otherwise a run of one sector starts.
pub open spec fn merge_spec(runs: Seq<SectorRange>, sector: Lba) -> Seq<SectorRange> {
    if runs.len() > 0 && runs.last().start@ + runs.last().sectors == sector@ {
        runs.update(runs.len() - 1, SectorRange { start: runs.last().start, sectors: (runs.last().sectors + 1) as u64 })
    } else {
        runs.push(SectorRange { start: sector, sectors: 1 })
    }
}

/// Marks `sector` unreadable in `runs` ([`merge_spec`]).
pub fn push_merged(runs: &mut Vec<SectorRange>, sector: Lba)
    requires
        sector@ < u64::MAX,
    ensures
        final(runs)@ == merge_spec(old(runs)@, sector),
{
    let n = runs.len();
    if n > 0 {
        let last = runs[n - 1];
        match last.end() {
            Some(end) => {
                if end.get() == sector.get() {
                    runs.set(n - 1, SectorRange::new(last.start, last.sectors + 1));
                    return;
                }
            },
            None => {},
        }
    }
    runs.push(SectorRange::new(sector, 1));
}

/// What the driver of an acquisition does next.
#[derive(Clone, Copy, Debug, PartialEq, Eq, Structural)]
pub enum Action {
    /// Read `sectors` sectors at `lba` and write them (or zeros, if the read
    /// fails) to the image at the current position, then report
    /// [`Acquisition::chunk_read`].
    ReadChunk { lba: Lba, sectors: u64 },
    /// Read the one sector at `lba` and, if that works, write it at its
    /// place in the image, then report [`Acquisition::sector_read`].
    ReadSector { lba: Lba },
    /// Both passes are over: take the [`Acquisition::into_report`].
    Finish,
}

/// Where a multi-pass acquisition stands.
pub struct Acquisition {
    sector_count: u64,
    chunk_sectors: u64,
    sweeping: bool,
    lba: u64,
    suspects: Vec<SectorRange>,
    sweep_stride: u64,
    sweep_not_attempted: u64,
    stopped: bool,
    suspect_sectors: u64,
    refine_stride: u64,
    idx: usize,
    step: u64,
    refined: u64,
    unreadable: Vec<SectorRange>,
    refine_not_attempted: u64,
    finished: bool,
    cancelled: Ghost<bool>,
}

impl Acquisition {
    /// The machine's invariant: positions within the medium, suspects
    /// disjoint and behind the sweep, refinement visiting them in order,
    /// and an account that never loses more than the medium holds.
    pub closed spec fn wf(&self) -> bool {
        &&& self.chunk_sectors > 0
        &&& self.lba <= self.sector_count
        &&& (!self.cancelled@ ==> !self.stopped && self.refine_not_attempted == 0 && (!self.sweeping ==> self.lba
            == self.sector_count))
        &&& disjoint_runs(self.suspects@, self.lba as int)
        &&& runs_total(self.suspects@) <= self.lba
        &&& self.sweep_stride == stride_spec(self.sector_count)
        &&& self.sweep_stride >= 1
        &&& self.refine_stride >= 1
        &&& merged_runs(self.unreadable@)
        &&& (self.sweeping ==> !self.finished && !self.stopped && self.unreadable@.len() == 0 && self.lba
            < self.sector_count && self.sweep_not_attempted == 0 && self.refine_not_attempted == 0)
        &&& (!self.sweeping ==> {
            &&& self.suspect_sectors == runs_total(self.suspects@)
            &&& self.refine_stride == stride_spec(self.suspect_sectors)
            &&& self.sweep_not_attempted == self.sector_count - self.lba
            &&& self.refined <= self.suspect_sectors
            &&& runs_total(self.unreadable@) <= self.refined
            &&& self.idx <= self.suspects@.len()
            &&& (!self.finished ==> {
                &&& self.idx < self.suspects@.len()
                &&& self.step < self.suspects@[self.idx as int].sectors
                &&& self.refined == runs_total(self.suspects@.subrange(0, self.idx as int)) + self.step
                &&& self.refine_not_attempted == 0
                &&& (self.unreadable@.len() > 0 ==> self.unreadable@.last().start@ + self.unreadable@.last().sectors
                    <= self.suspects@[self.idx as int].start@ + self.step)
            })
            &&& (self.finished ==> self.refined + self.refine_not_attempted <= self.suspect_sectors)
        })
    }

    /// The medium's size in sectors.
    pub closed spec fn spec_sector_count(&self) -> u64 {
        self.sector_count
    }

    /// Whether both passes are over.
    pub closed spec fn spec_finished(&self) -> bool {
        self.finished
    }

    /// Whether the driver told the acquisition to stop.
    pub closed spec fn spec_cancelled(&self) -> bool {
        self.cancelled@
    }

    /// The sectors neither pass tried.
    pub closed spec fn spec_not_attempted(&self) -> int {
        self.sweep_not_attempted + self.refine_not_attempted
    }

    /// Whether the sweep is under way.
    pub closed spec fn spec_sweeping(&self) -> bool {
        self.sweeping
    }

    /// The sweep's position.
    pub closed spec fn spec_lba(&self) -> u64 {
        self.lba
    }

    /// The chunks the sweep could not read.
    pub closed spec fn spec_suspects(&self) -> Seq<SectorRange> {
        self.suspects@
    }

    /// The sectors refinement could not read, merged into runs.
    pub closed spec fn spec_unreadable(&self) -> Seq<SectorRange> {
        self.unreadable@
    }

    /// The chunk size.
    pub closed spec fn spec_chunk(&self) -> u64 {
        self.chunk_sectors
    }

    /// The sector refinement reads next.
    pub closed spec fn spec_refine_sector(&self) -> int {
        self.suspects@[self.idx as int].start@ + self.step
    }

    /// How many suspect sectors refinement has read.
    pub closed spec fn spec_refined(&self) -> u64 {
        self.refined
    }

    /// How many sectors the suspects hold.
    pub closed spec fn spec_suspect_sectors(&self) -> u64 {
        self.suspect_sectors
    }

    /// An acquisition of a medium of `sector_count` sectors: the sweep starts
    /// at sector 0 (an empty medium is done at once).
    pub fn new(sector_count: u64, options: Options) -> (r: Self)
        ensures
            r.wf(),
            r.spec_sector_count() == sector_count,
            r.spec_chunk() == options.chunk(),
            !r.spec_cancelled(),
            sector_count > 0 ==> r.spec_sweeping() && r.spec_lba() == 0 && r.spec_suspects().len() == 0,
            sector_count == 0 ==> r.spec_finished() && r.spec_unreadable().len() == 0,
    {
        let chunk = options.chunk_sectors();
        let mut a = Acquisition {
            sector_count,
            chunk_sectors: chunk,
            sweeping: true,
            lba: 0,
            suspects: Vec::new(),
            sweep_stride: stride(sector_count),
            sweep_not_attempted: 0,
            stopped: false,
            suspect_sectors: 0,
            refine_stride: 1,
            idx: 0,
            step: 0,
            refined: 0,
            unreadable: Vec::new(),
            refine_not_attempted: 0,
            finished: false,
            cancelled: Ghost(false),
        };
        if sector_count == 0 {
            a.begin_refine();
        }
        a
    }

    /// Ends the sweep at the current position and sets up refinement over
    /// the suspects (nothing to do when stopped or when there are none).
    fn begin_refine(&mut self)
        requires
            old(self).chunk_sectors > 0,
            old(self).lba <= old(self).sector_count,
            disjoint_runs(old(self).suspects@, old(self).lba as int),
            runs_total(old(self).suspects@) <= old(self).lba,
            old(self).sweep_stride >= 1,
            old(self).sweep_stride == stride_spec(old(self).sector_count),
            old(self).unreadable@.len() == 0,
            old(self).refine_not_attempted == 0,
            !old(self).finished,
            !old(self).cancelled@ ==> !old(self).stopped && old(self).lba == old(self).sector_count,
        ensures
            final(self).cancelled == old(self).cancelled,
            final(self).wf(),
            !final(self).sweeping,
            final(self).sector_count == old(self).sector_count,
            final(self).chunk_sectors == old(self).chunk_sectors,
            final(self).lba == old(self).lba,
            final(self).suspects@ == old(self).suspects@,
            final(self).stopped == old(self).stopped,
            final(self).sweep_not_attempted == old(self).sector_count - old(self).lba,
            final(self).suspect_sectors == runs_total(old(self).suspects@),
            final(self).unreadable@.len() == 0,
            final(self).refined == 0,
            final(self).refine_stride == stride_spec(final(self).suspect_sectors),
            final(self).finished == (old(self).stopped || old(self).suspects@.len() == 0),
            final(self).finished ==> final(self).refine_not_attempted == (if old(self).stopped {
                final(self).suspect_sectors
            } else {
                0
            }),
            !final(self).finished ==> final(self).idx == 0 && final(self).step == 0,
    {
        self.sweeping = false;
        self.sweep_not_attempted = self.sector_count - self.lba;
        let mut total: u64 = 0;
        let mut i: usize = 0;
        while i < self.suspects.len()
            invariant
                i <= self.suspects@.len(),
                total == runs_total(self.suspects@.subrange(0, i as int)),
                runs_total(self.suspects@) <= self.lba,
            decreases self.suspects.len() - i,
        {
            proof {
                lemma_runs_total_prefix(self.suspects@, i + 1);
                let p = self.suspects@.subrange(0, i + 1);
                assert(p.drop_last() =~= self.suspects@.subrange(0, i as int));
            }
            total = total + self.suspects[i].sectors;
            i += 1;
        }
        assert(self.suspects@.subrange(0, i as int) =~= self.suspects@);
        self.suspect_sectors = total;
        self.refine_stride = stride(total);
        self.refined = 0;
        self.idx = 0;
        self.step = 0;
        if self.stopped {
            self.refine_not_attempted = total;
            self.finished = true;
        } else if self.suspects.len() == 0 {
            self.finished = true;
        } else {
            assert(self.suspects@.subrange(0, 0) =~= Seq::<SectorRange>::empty());
        }
    }

    /// What to do next: read the next sweep chunk (at most the chunk size,
    /// never past the end), read the next suspect sector, or finish.
    pub fn next_action(&self) -> (r: Action)
        requires
            self.wf(),
        ensures
            self.spec_finished() ==> r == Action::Finish,
            !self.spec_finished() && self.spec_sweeping() ==> r == (Action::ReadChunk {
                lba: Lba::new_spec(self.spec_lba()),
                sectors: if self.spec_chunk() < self.spec_sector_count() - self.spec_lba() {
                    self.spec_chunk()
                } else {
                    (self.spec_sector_count() - self.spec_lba()) as u64
                },
            }),
            !self.spec_finished() && !self.spec_sweeping() ==> r == (Action::ReadSector {
                lba: Lba::new_spec(self.spec_refine_sector() as u64),
            }),
    {
        if self.finished {
            Action::Finish
        } else if self.sweeping {
            let left = self.sector_count - self.lba;
            let sectors = if self.chunk_sectors < left { self.chunk_sectors } else { left };
            Action::ReadChunk { lba: Lba::new(self.lba), sectors }
        } else {
            let s = self.suspects[self.idx];
            proof {
                assert(s.start@ + s.sectors <= self.lba);
            }
            Action::ReadSector { lba: Lba::new(s.start.get() + self.step) }
        }
    }

    /// The driver was told to stop before the next action: the sweep counts
    /// every sector it never reached (and every suspect) as not attempted;
    /// refinement counts the suspect sectors it never reached. Unreadable
    /// runs found so far stay.
    pub fn cancel(&mut self)
        requires
            old(self).wf(),
        ensures
            final(self).wf(),
            final(self).spec_finished(),
            final(self).spec_cancelled(),
            final(self).spec_sector_count() == old(self).spec_sector_count(),
            final(self).spec_unreadable() == old(self).spec_unreadable(),
    {
        self.cancelled = Ghost(true);
        if self.finished {
            return;
        }
        if self.sweeping {
            self.stopped = true;
            self.begin_refine();
        } else {
            self.refine_not_attempted = self.suspect_sectors - self.refined;
            self.finished = true;
        }
    }

    /// The sweep chunk from [`Acquisition::next_action`] was read (`ok`) or
    /// not: a failed chunk becomes a suspect; the sweep moves past it and
    /// reports progress every stride and at the end; at the end refinement
    /// begins.
    #[verifier::rlimit(50)]
    pub fn chunk_read(&mut self, ok: bool) -> (r: Option<Progress>)
        requires
            old(self).wf(),
            old(self).spec_sweeping(),
            !old(self).spec_finished(),
        ensures
            final(self).wf(),
            final(self).spec_cancelled() == old(self).spec_cancelled(),
            final(self).spec_sector_count() == old(self).spec_sector_count(),
            ({
                let left = old(self).spec_sector_count() - old(self).spec_lba();
                let sectors = if old(self).spec_chunk() < left { old(self).spec_chunk() as int } else { left };
                let done = old(self).spec_lba() + sectors;
                &&& final(self).spec_lba() == done
                &&& final(self).spec_suspects() == (if ok {
                    old(self).spec_suspects()
                } else {
                    old(self).spec_suspects().push(SectorRange { start: Lba::new_spec(old(self).spec_lba()), sectors: sectors as u64 })
                })
                &&& r == (if reports_at(done, old(self).spec_sector_count()) {
                    Some(Progress::Swept { done: done as u64, total: old(self).spec_sector_count() })
                } else {
                    None
                })
                &&& final(self).spec_sweeping() == (done < old(self).spec_sector_count())
            }),
    {
        let left = self.sector_count - self.lba;
        let sectors = if self.chunk_sectors < left { self.chunk_sectors } else { left };
        let start = self.lba;
        if !ok {
            self.suspects.push(SectorRange::new(Lba::new(start), sectors));
            proof {
                let s = self.suspects@;
                assert(runs_total(s) == runs_total(s.drop_last()) + sectors);
                assert(s.drop_last() =~= old(self).suspects@);
            }
        }
        self.lba = start + sectors;
        proof {
            assert(Lba::new_spec(start)@ == start);
        }
        let done = self.lba;
        let report = if done % self.sweep_stride == 0 || done >= self.sector_count {
            Some(Progress::Swept { done, total: self.sector_count })
        } else {
            None
        };
        if self.lba >= self.sector_count {
            self.begin_refine();
        }
        report
    }

    /// The suspect sector from [`Acquisition::next_action`] was read (`ok`)
    /// or not: a failed sector joins the unreadable runs; progress is
    /// reported every stride and at the end; after the last suspect sector
    /// the acquisition is finished.
    pub fn sector_read(&mut self, ok: bool) -> (r: Option<Progress>)
        requires
            old(self).wf(),
            !old(self).spec_sweeping(),
            !old(self).spec_finished(),
        ensures
            final(self).wf(),
            final(self).spec_cancelled() == old(self).spec_cancelled(),
            final(self).spec_sector_count() == old(self).spec_sector_count(),
            final(self).spec_unreadable() == (if ok {
                old(self).spec_unreadable()
            } else {
                merge_spec(old(self).spec_unreadable(), Lba::new_spec(old(self).spec_refine_sector() as u64))
            }),
            final(self).spec_refined() == old(self).spec_refined() + 1,
            r == (if reports_at(old(self).spec_refined() + 1, old(self).spec_suspect_sectors()) {
                Some(Progress::Refined { done: (old(self).spec_refined() + 1) as u64, total: old(self).spec_suspect_sectors() })
            } else {
                None
            }),
    {
        let ghost pre = *self;
        let s = self.suspects[self.idx];
        proof {
            assert(s.start@ + s.sectors <= self.lba);
            lemma_runs_total_prefix(self.suspects@, self.idx as int + 1);
            let p = self.suspects@.subrange(0, self.idx as int + 1);
            assert(p.drop_last() =~= self.suspects@.subrange(0, self.idx as int));
        }
        let sector = Lba::new(s.start.get() + self.step);
        if !ok {
            push_merged(&mut self.unreadable, sector);
            proof {
                lemma_merge_total(pre.unreadable@, sector);
                lemma_merge_ordered(pre.unreadable@, sector);
            }
        }
        self.refined = self.refined + 1;
        let done = self.refined;
        let report = if done % self.refine_stride == 0 || done >= self.suspect_sectors {
            Some(Progress::Refined { done, total: self.suspect_sectors })
        } else {
            None
        };
        self.step = self.step + 1;
        let count = self.suspects.len();
        if self.step >= s.sectors {
            self.idx = self.idx + 1;
            self.step = 0;
            proof {
                if (self.idx as int) < self.suspects@.len() {
                    assert(self.suspects@[self.idx as int - 1].start@ + self.suspects@[self.idx as int - 1].sectors
                        <= self.suspects@[self.idx as int].start@);
                }
                let p = self.suspects@.subrange(0, self.idx as int);
                assert(p.drop_last() =~= self.suspects@.subrange(0, self.idx as int - 1));
            }
            if self.idx >= count {
                self.finished = true;
            }
        }
        report
    }

    /// The account of a finished acquisition: the unreadable runs, and the
    /// sectors never tried by either pass.
    pub fn into_report(self) -> (r: Report)
        requires
            self.wf(),
            self.spec_finished(),
        ensures
            r.spec_sector_count() == self.spec_sector_count(),
            r.spec_unreadable() == self.spec_unreadable(),
            r.spec_not_attempted() == self.spec_not_attempted(),
    {
        proof {
            lemma_runs_total_nonneg(self.suspects@);
        }
        Report {
            sector_count: self.sector_count,
            unreadable: self.unreadable,
            not_attempted: self.sweep_not_attempted + self.refine_not_attempted,
        }
    }
}

/// The account of a whole run, once both passes are over: the unreadable
/// runs are sorted, disjoint and not adjacent; they and the sectors never
/// tried make up no more than the medium, the rest having been read; and a
/// run the driver never cancelled tried every sector.
pub proof fn lemma_finished_run_accounts(a: Acquisition)
    requires
        a.wf(),
        a.spec_finished(),
    ensures
        merged_runs(a.spec_unreadable()),
        runs_total(a.spec_unreadable()) + a.spec_not_attempted() <= a.spec_sector_count(),
        !a.spec_cancelled() ==> a.spec_not_attempted() == 0,
{
    lemma_runs_total_nonneg(a.suspects@);
}

/// Marking one more sector unreadable adds one to the total.
pub proof fn lemma_merge_total(runs: Seq<SectorRange>, sector: Lba)
    requires
        sector@ < u64::MAX,
    ensures
        runs_total(merge_spec(runs, sector)) == runs_total(runs) + 1,
{
    let m = merge_spec(runs, sector);
    if runs.len() > 0 && runs.last().start@ + runs.last().sectors == sector@ {
        assert(m.drop_last() =~= runs.drop_last());
        assert(m.last().sectors == runs.last().sectors + 1);
    } else {
        assert(m.drop_last() =~= runs);
    }
}

/// Merging a sector at or past the end of the last run keeps the runs
/// merged.
pub proof fn lemma_merge_ordered(runs: Seq<SectorRange>, sector: Lba)
    requires
        merged_runs(runs),
        runs.len() > 0 ==> runs.last().start@ + runs.last().sectors <= sector@,
        sector@ < u64::MAX,
    ensures
        merged_runs(merge_spec(runs, sector)),
        merge_spec(runs, sector).last().start@ + merge_spec(runs, sector).last().sectors == sector@ + 1,
{
    let m = merge_spec(runs, sector);
    if runs.len() > 0 && runs.last().start@ + runs.last().sectors == sector@ {
        assert forall|k: int| 0 <= k < m.len() - 1 implies (#[trigger] m[k]).start@ + m[k].sectors < m[k + 1].start@ by {
            assert(m[k] == runs[k]);
            if k + 1 < m.len() - 1 {
                assert(m[k + 1] == runs[k + 1]);
            } else {
                assert(m[k + 1].start == runs[k + 1].start);
            }
        }
    } else {
        assert forall|k: int| 0 <= k < m.len() - 1 implies (#[trigger] m[k]).start@ + m[k].sectors < m[k + 1].start@ by {
            assert(m[k] == runs[k]);
            if k + 1 < m.len() - 1 {
                assert(m[k + 1] == runs[k + 1]);
            }
        }
    }
}

/// An acquisition's account adds up: the sectors read, the sectors the
/// medium refused and the sectors never tried make up the medium.
pub proof fn lemma_report_adds_up(r: Report)
    requires
        runs_total(r.spec_unreadable()) + r.spec_not_attempted() <= r.spec_sector_count(),
    ensures
        (r.spec_sector_count() - runs_total(r.spec_unreadable()) - r.spec_not_attempted()) + runs_total(
            r.spec_unreadable(),
        ) + r.spec_not_attempted() == r.spec_sector_count(),
        r.spec_sector_count() - runs_total(r.spec_unreadable()) - r.spec_not_attempted() >= 0,
{
}

} // verus!
