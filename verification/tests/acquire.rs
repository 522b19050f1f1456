use argos::device::acquire::{stride, Acquisition, Action, Options, Progress, PROGRESS_STEPS, SWEEP_CHUNK_SECTORS};
use argos::fixture::MemDisk;
use argos::geometry::{Lba, SectorRange, SectorSize};

const SECTOR_BYTES: usize = 512;

fn patterned(sectors: u64) -> Vec<u8> {
    (0..sectors).flat_map(|s| (0..SECTOR_BYTES as u64).map(move |i| (s * 31 + i) as u8)).collect()
}

/// Runs an acquisition of `disk` into memory the way a driver does: each
/// action performed, each outcome reported back. Before each action
/// `cancelled` is asked, given the reads made and the progress heard so far.
fn drive(
    mut disk: MemDisk,
    options: Options,
    cancelled: &dyn Fn(usize, &[Progress]) -> bool,
) -> (Vec<u8>, argos::device::acquire::Report, Vec<Progress>) {
    let sectors = disk.geometry().sector_count;
    let mut image = vec![0_u8; sectors as usize * SECTOR_BYTES];
    let mut acq = Acquisition::new(sectors, options);
    let mut events = Vec::new();
    let mut reads = 0;
    loop {
        if cancelled(reads, &events) {
            acq.cancel();
        }
        match acq.next_action() {
            Action::ReadChunk { lba, sectors } => {
                let at = lba.get() as usize * SECTOR_BYTES;
                let len = sectors as usize * SECTOR_BYTES;
                let mut buf = vec![0_u8; len];
                let ok = disk.read_at(lba, &mut buf).is_ok();
                if ok {
                    image[at..at + len].copy_from_slice(&buf);
                }
                reads += 1;
                events.extend(acq.chunk_read(ok));
            },
            Action::ReadSector { lba } => {
                let at = lba.get() as usize * SECTOR_BYTES;
                let mut buf = vec![0_u8; SECTOR_BYTES];
                let ok = disk.read_at(lba, &mut buf).is_ok();
                if ok {
                    image[at..at + SECTOR_BYTES].copy_from_slice(&buf);
                }
                reads += 1;
                events.extend(acq.sector_read(ok));
            },
            Action::Finish => break,
        }
    }
    (image, acq.into_report(), events)
}

fn never(_: usize, _: &[Progress]) -> bool {
    false
}

#[test]
fn healthy_medium_is_acquired_bit_identical() {
    let data = patterned(300);
    let (image, report, _) = drive(MemDisk::new(SectorSize::new(512), data.clone()), Options::new(), &never);
    assert!(report.is_complete());
    assert_eq!(report.recovered_sectors(), 300);
    assert_eq!(report.sector_count(), 300);
    assert_eq!(image, data);
}

#[test]
fn bad_sectors_are_zero_filled_and_mapped_exactly() {
    let data = patterned(300);
    let disk = MemDisk::new(SectorSize::new(512), data.clone())
        .with_bad_sector(Lba::new(7))
        .with_bad_sector(Lba::new(8))
        .with_bad_sector(Lba::new(130));
    let (image, report, _) = drive(disk, Options::new(), &never);
    assert_eq!(report.unreadable(), [SectorRange::new(Lba::new(7), 2), SectorRange::new(Lba::new(130), 1)]);
    assert_eq!(report.recovered_sectors(), 297);
    assert!(!report.is_complete());
    assert!(!report.stopped_early());
    assert_eq!(image.len(), data.len());
    for sector in 0..300_usize {
        let range = sector * SECTOR_BYTES..(sector + 1) * SECTOR_BYTES;
        if [7, 8, 130].contains(&sector) {
            assert!(image[range].iter().all(|&b| b == 0), "sector {sector}");
        } else {
            assert_eq!(image[range.clone()], data[range], "sector {sector}");
        }
    }
}

#[test]
fn small_chunks_and_trailing_partial_chunk_are_handled() {
    let data = patterned(10);
    let disk = MemDisk::new(SectorSize::new(512), data.clone()).with_bad_sector(Lba::new(9));
    let (image, report, _) = drive(disk, Options::new().with_chunk_sectors(4), &never);
    assert_eq!(report.unreadable(), [SectorRange::new(Lba::new(9), 1)]);
    assert_eq!(image[..9 * SECTOR_BYTES], data[..9 * SECTOR_BYTES]);
}

#[test]
fn both_passes_report_progress_that_reaches_their_own_total() {
    let sectors = 4_000;
    let disk = MemDisk::new(SectorSize::new(512), patterned(sectors))
        .with_bad_sector(Lba::new(500))
        .with_bad_sector(Lba::new(2_000));
    let (_, report, events) = drive(disk, Options::new(), &never);
    let swept: Vec<(u64, u64)> = events
        .iter()
        .filter_map(|p| match *p {
            Progress::Swept { done, total } => Some((done, total)),
            Progress::Refined { .. } => None,
        })
        .collect();
    let refined: Vec<(u64, u64)> = events
        .iter()
        .filter_map(|p| match *p {
            Progress::Refined { done, total } => Some((done, total)),
            Progress::Swept { .. } => None,
        })
        .collect();
    assert_eq!(swept.last().copied(), Some((sectors, sectors)));
    let suspects: u64 = report.unreadable().iter().map(|range| range.sectors).sum();
    assert!(suspects > 0);
    let (done, total) = refined.last().copied().expect("refinement must report");
    assert_eq!(done, total);
    assert!(total < sectors);
    assert!(swept.len() <= 201 && refined.len() <= 201);
}

#[test]
fn a_stopped_acquisition_counts_what_it_never_reached_apart_from_what_the_medium_refused() {
    const SECTORS: u64 = 4096;
    let data = vec![0xA5_u8; (SECTORS * 512) as usize];
    let disk = MemDisk::new(SectorSize::new(512), data);
    let (_, report, _) = drive(disk, Options::new(), &|_, heard| !heard.is_empty());
    assert!(report.stopped_early());
    assert!(report.not_attempted() > 0);
    assert!(report.unreadable().is_empty());
    assert!(!report.is_complete());
    assert_eq!(report.recovered_sectors() + report.not_attempted(), SECTORS);
    assert!(report.recovered_sectors() > 0);
}

#[test]
fn a_cancelled_run_accounts_for_what_it_never_read() {
    let disk = MemDisk::new(SectorSize::new(512), patterned(40)).with_bad_sector(Lba::new(2));
    let (_, report, _) = drive(disk, Options::new().with_chunk_sectors(4), &|reads, _| reads == 3);
    assert!(report.stopped_early());
    assert!(!report.is_complete());
    assert_eq!(report.not_attempted(), 32);
    assert!(report.unreadable().is_empty());
    assert_eq!(report.recovered_sectors(), 8);
}

#[test]
fn progress_of_each_pass_reaches_its_own_total() {
    let disk = MemDisk::new(SectorSize::new(512), patterned(20)).with_bad_sector(Lba::new(5));
    let (_, _, events) = drive(disk, Options::new().with_chunk_sectors(4), &never);
    assert_eq!(events.first(), Some(&Progress::Swept { done: 4, total: 20 }));
    assert!(events.contains(&Progress::Swept { done: 20, total: 20 }));
    assert_eq!(events.last(), Some(&Progress::Refined { done: 4, total: 4 }));
}

#[test]
fn an_empty_medium_finishes_at_once() {
    let acq = Acquisition::new(0, Options::new());
    assert_eq!(acq.next_action(), Action::Finish);
    let report = acq.into_report();
    assert!(report.is_complete());
    assert_eq!(report.recovered_sectors(), 0);
}

#[test]
fn options_default_to_the_sweep_chunk() {
    assert_eq!(Options::new().chunk_sectors(), SWEEP_CHUNK_SECTORS);
    assert_eq!(Options::default().chunk_sectors(), 128);
    assert_eq!(Options::new().with_chunk_sectors(9).chunk_sectors(), 9);
}

#[test]
fn progress_is_reported_about_two_hundred_times_a_pass() {
    assert_eq!(PROGRESS_STEPS, 200);
    assert_eq!(stride(0), 1);
    assert_eq!(stride(100), 1);
    assert_eq!(stride(400), 2);
    assert_eq!(stride(401), 3);
}
