use argos::buffer::{aligned_capacity, DEFAULT_ALIGNMENT};
use argos::confidence::Confidence;
use argos::fixture::MemDisk;
use argos::geometry::{ByteOffset, ByteRange, Lba, SectorRange, SectorSize};
use argos::ports::{DeviceClass, Geometry};

fn sector() -> SectorSize {
    SectorSize::new(512)
}

#[test]
fn sector_size_accepts_every_power_of_two_in_range() {
    for bytes in [512_u32, 1024, 2048, 4096] {
        let size = SectorSize::from_u32(bytes).expect("in-range power of two must be accepted");
        assert_eq!(size.get(), bytes);
    }
}

#[test]
fn sector_size_rejects_out_of_range_and_non_powers() {
    for bytes in [0_u32, 1, 256, 511, 513, 1536, 8192, u32::MAX] {
        let err = SectorSize::from_u32(bytes).expect_err("invalid size must be rejected");
        assert_eq!(err.bytes(), bytes);
        assert!(err.message().contains(&bytes.to_string()));
    }
}

#[test]
fn geometry_error_message_names_the_rule() {
    let err = SectorSize::from_u32(1000).expect_err("not a power of two");
    assert!(err.message().starts_with("invalid sector size: 1000 bytes (must be a power of two in 512..=4096)"));
}

#[test]
fn lba_to_byte_offset_is_checked() {
    let size = SectorSize::new(4096);
    assert_eq!(Lba::new(3).to_byte_offset(size).map(ByteOffset::get), Some(3 * 4096));
    assert_eq!(Lba::new(u64::MAX / 2).to_byte_offset(size), None);
    assert_eq!(Lba::new(u64::MAX).checked_add(1), None);
}

#[test]
fn sector_range_end_is_checked() {
    assert_eq!(SectorRange::new(Lba::new(10), 5).end(), Some(Lba::new(15)));
    assert_eq!(SectorRange::new(Lba::new(u64::MAX), 1).end(), None);
}

#[test]
fn byte_range_end_is_checked_or_saturates() {
    let r = ByteRange::new(ByteOffset::new(100), 28);
    assert_eq!(r.end(), Some(ByteOffset::new(128)));
    let big = ByteRange::new(ByteOffset::new(u64::MAX - 1), 5);
    assert_eq!(big.end(), None);
    assert_eq!(big.end_saturating(), ByteOffset::new(u64::MAX));
    assert_eq!(ByteOffset::new(7).checked_add(3), Some(ByteOffset::new(10)));
    assert_eq!(ByteOffset::new(u64::MAX).checked_add(1), None);
}

#[test]
fn confidence_orders_metadata_above_all_carving() {
    let tiers = [
        Confidence::PartialOrThumbnail,
        Confidence::Reassembled,
        Confidence::ContiguousCarve,
        Confidence::JournalResidue,
        Confidence::FsMetadata,
    ];
    assert!(tiers.windows(2).all(|pair| pair[0] < pair[1]));
    assert_eq!(tiers.iter().max(), Some(&Confidence::FsMetadata));
}

#[test]
fn geometry_capacity_and_containment() {
    let g = Geometry::new(SectorSize::new(512), 8, DeviceClass::ImageFile);
    assert_eq!(g.capacity_bytes(), Some(4096));
    assert!(g.contains(Lba::new(6), 2));
    assert!(!g.contains(Lba::new(7), 2));
    assert!(!g.contains(Lba::new(u64::MAX), 2));
    let huge = Geometry::new(SectorSize::new(4096), u64::MAX, DeviceClass::ImageFile);
    assert_eq!(huge.capacity_bytes(), None);
}

#[test]
fn aligned_capacity_rounds_up_to_whole_units() {
    assert_eq!(aligned_capacity(1024, 4096), Some(4096));
    assert_eq!(aligned_capacity(4096, 4096), Some(4096));
    assert_eq!(aligned_capacity(4097, DEFAULT_ALIGNMENT), Some(8192));
    assert_eq!(aligned_capacity(0, 512), Some(0));
    assert_eq!(aligned_capacity(usize::MAX, 4096), None);
}

/// A synthetic medium where byte `i` of sector `s` is `(s * 31 + i) as u8`.
fn patterned(sectors: u64) -> Vec<u8> {
    (0..sectors).flat_map(|s| (0..u64::from(sector().get())).map(move |i| (s * 31 + i) as u8)).collect()
}

#[test]
fn reads_return_the_bytes_at_the_claimed_offset() {
    let mut disk = MemDisk::new(sector(), patterned(8));
    let mut buf = vec![0_u8; sector().get() as usize * 2];
    disk.read_at(Lba::new(3), &mut buf).expect("healthy read");
    assert_eq!(buf, patterned(8)[3 * 512..5 * 512]);
}

#[test]
fn bad_sector_fails_the_covering_read_and_names_the_sector() {
    let mut disk = MemDisk::new(sector(), patterned(8)).with_bad_sector(Lba::new(5));
    let mut buf = vec![0_u8; sector().get() as usize * 4];
    let err = disk.read_at(Lba::new(4), &mut buf).expect_err("chunk covering the bad sector must fail");
    assert!(err.is_bad_sector());
    assert_eq!(err.lba(), Lba::new(5));

    let mut one = vec![0_u8; sector().get() as usize];
    disk.read_at(Lba::new(4), &mut one).expect("neighbouring sector stays readable");
}

#[test]
fn out_of_range_reads_are_rejected_not_truncated() {
    let mut disk = MemDisk::new(sector(), patterned(4));
    let mut buf = vec![0_u8; sector().get() as usize * 2];
    let err = disk.read_at(Lba::new(3), &mut buf).expect_err("read past the end must fail");
    assert!(err.is_out_of_range());
    assert_eq!(err.sectors(), 2);
}

#[test]
fn read_error_message_names_range_and_cause() {
    let mut disk = MemDisk::new(sector(), patterned(4));
    let mut buf = vec![0_u8; 1024];
    let err = disk.read_at(Lba::new(3), &mut buf).expect_err("past the end");
    assert!(err.message().starts_with("read of sectors 3..+2 failed: range exceeds medium of 4 sectors"));
}

#[test]
fn memdisk_reports_its_geometry_and_data() {
    let disk = MemDisk::new(sector(), patterned(3));
    assert_eq!(disk.geometry().sector_count, 3);
    assert_eq!(disk.data(), &patterned(3)[..]);
}
