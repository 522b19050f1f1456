use argos::device::class::{
    expects_deleted_content, from_rotational, from_seek_penalty, from_solid_state, TrimState,
};
use argos::device::error::DeviceError;
use argos::device::inventory::{
    order_devices, shadow_copy_index, shadow_copy_path, DeviceInfo, MountPoint,
};
use argos::device::mount::{mounts_of, parse_linux_mountinfo};
use argos::device::naming::{
    canonical, linux_node_kind, linux_whole_disk, macos_node_kind, macos_raw_path, macos_whole_disk,
    windows_node_kind, windows_physical_drive, NodeKind,
};
use argos::device::reader::{settle_read, BlockReader, SeekTarget};
use argos::fixture::MemDisk;
use argos::geometry::{Lba, SectorSize};
use argos::ports::{DeviceClass, ReadError};

#[test]
fn every_platform_reads_the_same_fact_the_same_way() {
    assert_eq!(from_rotational(Some("1")), DeviceClass::Hdd);
    assert_eq!(from_seek_penalty(Some(true)), DeviceClass::Hdd);
    assert_eq!(from_solid_state(Some(false)), DeviceClass::Hdd);

    assert_eq!(from_rotational(Some("0")), DeviceClass::Ssd);
    assert_eq!(from_seek_penalty(Some(false)), DeviceClass::Ssd);
    assert_eq!(from_solid_state(Some(true)), DeviceClass::Ssd);
}

#[test]
fn a_driver_that_declines_leaves_the_class_unknown() {
    assert_eq!(from_rotational(None), DeviceClass::Unknown);
    assert_eq!(from_rotational(Some("")), DeviceClass::Unknown);
    assert_eq!(from_rotational(Some("maybe")), DeviceClass::Unknown);
    assert_eq!(from_seek_penalty(None), DeviceClass::Unknown);
    assert_eq!(from_solid_state(None), DeviceClass::Unknown);
}

#[test]
fn sysfs_whitespace_does_not_change_the_answer() {
    assert_eq!(from_rotational(Some("1\n")), DeviceClass::Hdd);
    assert_eq!(from_rotational(Some(" 0 \n")), DeviceClass::Ssd);
}

#[test]
fn an_ssd_with_trim_off_still_expects_its_deleted_content() {
    assert!(expects_deleted_content(DeviceClass::Ssd, TrimState::Disabled));
    assert!(!expects_deleted_content(DeviceClass::Ssd, TrimState::Enabled));
    assert!(!expects_deleted_content(DeviceClass::Ssd, TrimState::Unknown));
}

#[test]
fn a_rotational_disk_always_expects_its_deleted_content() {
    for trim in [TrimState::Enabled, TrimState::Disabled, TrimState::Unknown] {
        assert!(expects_deleted_content(DeviceClass::Hdd, trim), "{trim:?}");
        assert!(expects_deleted_content(DeviceClass::ImageFile, trim), "{trim:?}");
    }
}

#[test]
fn an_unknown_class_only_warns_on_evidence() {
    assert!(expects_deleted_content(DeviceClass::Unknown, TrimState::Unknown));
    assert!(expects_deleted_content(DeviceClass::Unknown, TrimState::Disabled));
    assert!(!expects_deleted_content(DeviceClass::Unknown, TrimState::Enabled));
}

#[test]
fn trim_flag_reads_as_a_state() {
    assert_eq!(TrimState::from_flag(Some(true)), TrimState::Enabled);
    assert_eq!(TrimState::from_flag(Some(false)), TrimState::Disabled);
    assert_eq!(TrimState::from_flag(None), TrimState::Unknown);
}

#[test]
fn windows_physical_drives_are_whole_disks_and_volumes_are_not() {
    assert_eq!(windows_node_kind(r"\\.\PhysicalDrive0"), Some(NodeKind::WholeDisk));
    assert_eq!(windows_node_kind(r"\\?\physicaldrive12"), Some(NodeKind::WholeDisk));
    assert_eq!(windows_node_kind(r"\\.\HarddiskVolume3"), Some(NodeKind::Partition));
    assert_eq!(windows_node_kind(r"\\.\C:"), Some(NodeKind::Partition));
    assert_eq!(windows_node_kind(r"C:\images\disk.img"), None);
    assert_eq!(windows_node_kind(r"\\.\PhysicalDriveX"), None);
    assert_eq!(windows_node_kind(r"\\server\share"), None);
}

#[test]
fn windows_drive_paths_round_trip() {
    for index in [0_u32, 1, 9, 10, 255] {
        let path = windows_physical_drive(index);
        assert_eq!(windows_node_kind(&path), Some(NodeKind::WholeDisk));
    }
    assert_eq!(windows_physical_drive(7), r"\\.\PhysicalDrive7");
}

#[test]
fn linux_partitions_are_told_from_their_disks() {
    for (path, kind) in [
        ("/dev/sda", NodeKind::WholeDisk),
        ("/dev/sdb", NodeKind::WholeDisk),
        ("/dev/sda1", NodeKind::Partition),
        ("/dev/sdaa", NodeKind::WholeDisk),
        ("/dev/sdaa12", NodeKind::Partition),
        ("/dev/vda", NodeKind::WholeDisk),
        ("/dev/vda2", NodeKind::Partition),
        ("/dev/nvme0n1", NodeKind::WholeDisk),
        ("/dev/nvme0n1p3", NodeKind::Partition),
        ("/dev/mmcblk0", NodeKind::WholeDisk),
        ("/dev/mmcblk0p1", NodeKind::Partition),
        ("/dev/loop0", NodeKind::WholeDisk),
        ("/dev/mapper/vg-root", NodeKind::WholeDisk),
    ] {
        assert_eq!(linux_node_kind(path), Some(kind), "{path}");
    }
    assert_eq!(linux_node_kind("/tmp/disk.img"), None);
    assert_eq!(linux_node_kind("/dev/null"), None);
    assert_eq!(linux_node_kind("/dev/sd"), None);
}

#[test]
fn a_linux_partition_names_the_disk_it_belongs_to() {
    assert_eq!(linux_whole_disk("/dev/sda1").as_deref(), Some("/dev/sda"));
    assert_eq!(linux_whole_disk("/dev/sdaa12").as_deref(), Some("/dev/sdaa"));
    assert_eq!(linux_whole_disk("/dev/nvme0n1p3").as_deref(), Some("/dev/nvme0n1"));
    assert_eq!(linux_whole_disk("/dev/mmcblk0p1").as_deref(), Some("/dev/mmcblk0"));
    assert_eq!(linux_whole_disk("/dev/loop0p1").as_deref(), Some("/dev/loop0"));
    assert_eq!(linux_node_kind("/dev/loop0p1"), Some(NodeKind::Partition));
    assert_eq!(linux_whole_disk("/dev/sda"), None);
    assert_eq!(linux_whole_disk("/dev/nvme0n1"), None);
}

#[test]
fn macos_slices_are_partitions_and_bare_disks_are_not() {
    for (path, kind) in [
        ("/dev/disk0", NodeKind::WholeDisk),
        ("/dev/rdisk0", NodeKind::WholeDisk),
        ("/dev/disk2", NodeKind::WholeDisk),
        ("/dev/disk0s1", NodeKind::Partition),
        ("/dev/rdisk0s1", NodeKind::Partition),
        ("/dev/disk1s2s1", NodeKind::Partition),
    ] {
        assert_eq!(macos_node_kind(path), Some(kind), "{path}");
    }
    assert_eq!(macos_node_kind("/dev/null"), None);
    assert_eq!(macos_node_kind("/Users/me/disk.img"), None);
    assert_eq!(macos_node_kind("/dev/disk"), None);
}

#[test]
fn the_raw_node_is_preferred_and_asking_twice_changes_nothing() {
    assert_eq!(macos_raw_path("/dev/disk0"), "/dev/rdisk0");
    assert_eq!(macos_raw_path("/dev/disk0s1"), "/dev/rdisk0s1");
    assert_eq!(macos_raw_path("/dev/rdisk0"), "/dev/rdisk0");
    assert_eq!(macos_raw_path("/tmp/disk.img"), "/tmp/disk.img");
    let once = macos_raw_path("/dev/disk4s2");
    assert_eq!(macos_raw_path(&once), once);
}

#[test]
fn two_spellings_of_one_medium_compare_equal() {
    assert_eq!(canonical("/dev/rdisk0"), canonical("/dev/disk0"));
    assert_eq!(canonical("/dev/rdisk2s1"), canonical("/dev/disk2s1"));
    assert_eq!(canonical(r"\\?\PhysicalDrive0"), canonical(r"\\.\PhysicalDrive0"));
    assert_eq!(canonical(r"\\.\physicaldrive3"), canonical(r"\\.\PhysicalDrive3"));
}

#[test]
fn canonicalising_leaves_different_media_apart() {
    assert_ne!(canonical("/dev/disk0"), canonical("/dev/disk1"));
    assert_ne!(canonical("/dev/disk0"), canonical("/dev/disk0s1"));
    assert_ne!(canonical(r"\\.\PhysicalDrive0"), canonical(r"\\.\PhysicalDrive1"));
    assert_eq!(canonical("/dev/sda1"), "/dev/sda1");
    assert_eq!(canonical("/tmp/disk.img"), "/tmp/disk.img");
    assert_eq!(canonical("/dev/random"), "/dev/random");
}

#[test]
fn a_macos_slice_names_the_disk_it_belongs_to() {
    assert_eq!(macos_whole_disk("/dev/disk0s1").as_deref(), Some("/dev/disk0"));
    assert_eq!(macos_whole_disk("/dev/rdisk3s2s1").as_deref(), Some("/dev/rdisk3"));
    assert_eq!(macos_whole_disk("/dev/disk0"), None);
}

const MOUNTINFO: &str = "\
21 27 0:20 / /proc rw,nosuid,relatime shared:5 - proc proc rw
24 27 0:6 / /dev rw,nosuid shared:2 - devtmpfs devtmpfs rw,size=4096k
30 27 8:2 / / rw,relatime shared:1 - ext4 /dev/sda2 rw,errors=remount-ro
31 30 8:1 / /boot ro,relatime shared:9 - vfat /dev/sda1 ro,fmask=0022
32 30 259:3 / /home rw,relatime shared:12 - ext4 /dev/nvme0n1p3 rw
33 30 8:17 / /media/My\\040Disk rw,relatime shared:14 - ext4 /dev/sdb1 rw
";

#[test]
fn pseudo_filesystems_are_not_mounts_of_any_medium() {
    let mounts = parse_linux_mountinfo(MOUNTINFO);
    assert!(
        mounts.iter().all(|mount| mount.source.starts_with("/dev/")),
        "proc, devtmpfs and friends belong to no medium: {mounts:?}"
    );
    assert_eq!(mounts.len(), 4);
}

#[test]
fn a_read_only_mount_is_recognised_from_either_option_list() {
    let mounts = parse_linux_mountinfo(MOUNTINFO);
    let boot = mounts.iter().find(|mount| mount.target == "/boot").expect("/boot is in the fixture");
    assert!(boot.read_only);
    let root = mounts.iter().find(|mount| mount.target == "/").expect("/ is in the fixture");
    assert!(!root.read_only, "errors=remount-ro is not a read-only mount");
}

#[test]
fn a_mount_path_with_a_space_survives_parsing() {
    let mounts = parse_linux_mountinfo(MOUNTINFO);
    let media = mounts.iter().find(|mount| mount.source == "/dev/sdb1").expect("/dev/sdb1 is in the fixture");
    assert_eq!(media.target, "/media/My Disk");
}

#[test]
fn a_disk_inherits_the_mounts_of_its_partitions() {
    let mounts = parse_linux_mountinfo(MOUNTINFO);
    let sda = mounts_of("/dev/sda", &mounts, |path| linux_whole_disk(path));
    assert_eq!(sda.len(), 2, "sda1 and sda2 both sit on /dev/sda");
    let nvme = mounts_of("/dev/nvme0n1", &mounts, |path| linux_whole_disk(path));
    assert_eq!(nvme.len(), 1);
    let idle = mounts_of("/dev/sdz", &mounts, |path| linux_whole_disk(path));
    assert!(idle.is_empty());
}

#[test]
fn a_partition_matches_only_its_own_mount() {
    let mounts = parse_linux_mountinfo(MOUNTINFO);
    let sda1 = mounts_of("/dev/sda1", &mounts, |path| linux_whole_disk(path));
    assert_eq!(sda1.len(), 1);
    assert_eq!(sda1[0].target, "/boot");
}

fn mount(source: &str, target: &str, read_only: bool) -> MountPoint {
    MountPoint { source: source.to_string(), target: target.to_string(), read_only }
}

#[test]
fn a_macos_slice_joins_to_its_disk() {
    let mounts = vec![mount("/dev/disk0s2", "/", false), mount("/dev/disk1s1", "/Volumes/Backup", true)];
    let disk0 = mounts_of("/dev/disk0", &mounts, |path| macos_whole_disk(path));
    assert_eq!(disk0.len(), 1);
    assert_eq!(disk0[0].target, "/");
}

#[test]
fn a_mountinfo_line_without_a_separator_is_skipped_not_guessed_at() {
    assert!(parse_linux_mountinfo("garbage").is_empty());
    assert!(parse_linux_mountinfo("").is_empty());
    assert!(parse_linux_mountinfo("21 27 0:20 / /proc rw - proc").is_empty());
}

#[test]
fn a_mount_describes_itself() {
    assert_eq!(mount("/dev/sda1", "/boot", true).describe(), "/dev/sda1 at /boot (read-only)");
    assert_eq!(mount("/dev/sda2", "/", false).describe(), "/dev/sda2 at /");
    let m = mount("/dev/sdc1", "/mnt", false);
    assert_eq!(m.duplicate(), m);
}

fn info(path: &str, kind: NodeKind, mounts: Vec<MountPoint>) -> DeviceInfo {
    DeviceInfo {
        path: path.to_string(),
        kind,
        capacity_bytes: None,
        class: DeviceClass::Unknown,
        trim: TrimState::Unknown,
        mounts,
        model: None,
    }
}

#[test]
fn a_writable_mount_is_told_from_a_read_only_one() {
    let read_only = info("/dev/sda", NodeKind::WholeDisk, vec![mount("/dev/sda1", "/mnt/evidence", true)]);
    assert!(read_only.is_mounted());
    assert!(!read_only.has_writable_mount(), "a read-only mount changes nothing underneath a scan");

    let writable =
        info("/dev/sda", NodeKind::WholeDisk, vec![mount("/dev/sda1", "/boot", true), mount("/dev/sda2", "/", false)]);
    assert!(writable.has_writable_mount());
}

#[test]
fn an_unmounted_device_reports_neither() {
    let idle = info("/dev/sdb", NodeKind::WholeDisk, Vec::new());
    assert!(!idle.is_mounted());
    assert!(!idle.has_writable_mount());
}

#[test]
fn the_listing_puts_whole_disks_first_then_orders_by_path() {
    let found = vec![
        info("/dev/sdb1", NodeKind::Partition, Vec::new()),
        info("/dev/sdb", NodeKind::WholeDisk, Vec::new()),
        info("/dev/nvme0n1p1", NodeKind::Partition, Vec::new()),
        info("/dev/sda", NodeKind::WholeDisk, Vec::new()),
        info("/dev/nvme0n1", NodeKind::WholeDisk, Vec::new()),
    ];
    let ordered: Vec<String> = order_devices(found).into_iter().map(|d| d.path).collect();
    assert_eq!(ordered, vec!["/dev/nvme0n1", "/dev/sda", "/dev/sdb", "/dev/nvme0n1p1", "/dev/sdb1"]);
    assert!(order_devices(Vec::new()).is_empty());
}

#[test]
fn inventory_a_shadow_copy_path_round_trips_through_its_index() {
    for index in [1_u32, 2, 17, 999, 1024] {
        let path = shadow_copy_path(index);
        assert_eq!(shadow_copy_index(&path), Some(index), "{path}");
    }
}

#[test]
fn shadow_a_shadow_copy_path_round_trips_through_its_index() {
    for index in [1_u32, 2, 17, 999, 1024] {
        let path = shadow_copy_path(index);
        assert_eq!(shadow_copy_index(&path), Some(index), "{path}");
    }
    assert_eq!(shadow_copy_path(3), r"\\?\GLOBALROOT\Device\HarddiskVolumeShadowCopy3");
}

fn assert_live_volumes_are_not_snapshots() {
    assert_eq!(shadow_copy_index(r"\\.\PhysicalDrive0"), None);
    assert_eq!(shadow_copy_index(r"\\.\HarddiskVolume2"), None);
    assert_eq!(shadow_copy_index(r"C:\images\disk.img"), None);
    assert_eq!(shadow_copy_index("/dev/sda"), None);
    assert_eq!(shadow_copy_index(r"\\?\GLOBALROOT\Device\HarddiskVolumeShadowCopy"), None);
}

#[test]
fn inventory_a_live_volume_is_not_mistaken_for_a_snapshot() {
    assert_live_volumes_are_not_snapshots();
}

#[test]
fn shadow_a_live_volume_is_not_mistaken_for_a_snapshot() {
    assert_live_volumes_are_not_snapshots();
}

#[test]
fn inventory_the_namespace_is_matched_case_insensitively() {
    assert_eq!(shadow_copy_index(r"\\?\globalroot\device\harddiskvolumeshadowcopy7"), Some(7));
}

#[test]
fn shadow_the_namespace_is_matched_case_insensitively() {
    assert_eq!(shadow_copy_index(r"\\?\globalroot\device\harddiskvolumeshadowcopy7"), Some(7));
}

const SECTOR: usize = 512;

/// A disk whose every byte is a function of its offset.
fn patterned(sectors: usize) -> Vec<u8> {
    (0..sectors * SECTOR).map(|i| u8::try_from(i % 251).expect("modulo 251 fits u8")).collect()
}

fn reader(data: Vec<u8>) -> BlockReader<MemDisk> {
    BlockReader::new(MemDisk::new(SectorSize::new(512), data)).expect("geometry fits u64")
}

fn read_to_end(src: &mut BlockReader<MemDisk>, out: &mut Vec<u8>) -> Result<usize, ReadError> {
    let mut total = 0;
    let mut chunk = [0_u8; 700];
    loop {
        let n = src.read_bytes(&mut chunk)?;
        if n == 0 {
            return Ok(total);
        }
        out.extend_from_slice(&chunk[..n]);
        total += n;
    }
}

fn read_exact(src: &mut BlockReader<MemDisk>, buf: &mut [u8]) -> Result<(), ReadError> {
    let mut filled = 0;
    while filled < buf.len() {
        let n = src.read_bytes(&mut buf[filled..])?;
        assert!(n > 0, "unexpected end of medium");
        filled += n;
    }
    Ok(())
}

fn assert_reads_whole_medium() {
    let data = patterned(8);
    let mut src = reader(data.clone());
    let mut out = Vec::new();
    read_to_end(&mut src, &mut out).expect("read to end");
    assert_eq!(out, data);
    assert_eq!(src.len(), data.len() as u64);
}

#[test]
fn reader_reads_the_whole_medium_byte_for_byte() {
    assert_reads_whole_medium();
}

#[test]
fn sources_reads_the_whole_medium_byte_for_byte() {
    assert_reads_whole_medium();
}

fn assert_unaligned_reads_match() {
    let data = patterned(4);
    let mut src = reader(data.clone());
    src.seek_to(SeekTarget::Start(777)).expect("seek");
    let mut out = vec![0_u8; 1000];
    read_exact(&mut src, &mut out).expect("read exact across sectors");
    assert_eq!(out, data[777..1777]);
}

#[test]
fn reader_unaligned_reads_yield_the_same_bytes_as_aligned_ones() {
    assert_unaligned_reads_match();
}

#[test]
fn sources_unaligned_reads_yield_the_same_bytes_as_aligned_ones() {
    assert_unaligned_reads_match();
}

fn assert_seek_past_end_reads_nothing() {
    let mut src = reader(patterned(2));
    let at = src.seek_to(SeekTarget::End(4096)).expect("seek past end");
    assert_eq!(at, 2 * SECTOR as u64 + 4096);
    let mut out = [0_u8; 16];
    assert_eq!(src.read_bytes(&mut out).expect("read past end"), 0);
}

#[test]
fn reader_seeking_past_the_end_reads_nothing_rather_than_failing() {
    assert_seek_past_end_reads_nothing();
}

#[test]
fn sources_seeking_past_the_end_reads_nothing_rather_than_failing() {
    assert_seek_past_end_reads_nothing();
}

fn assert_seek_before_start_fails() {
    let mut src = reader(patterned(2));
    assert!(src.seek_to(SeekTarget::Current(-1)).is_err());
    assert_eq!(src.position(), 0);
}

#[test]
fn reader_seeking_before_the_start_is_an_error_not_a_wrapped_offset() {
    assert_seek_before_start_fails();
}

#[test]
fn sources_seeking_before_the_start_is_an_error_not_a_wrapped_offset() {
    assert_seek_before_start_fails();
}

fn assert_bad_sector_is_an_error() {
    let disk = MemDisk::new(SectorSize::new(512), patterned(4)).with_bad_sector(Lba::new(2));
    let mut src = BlockReader::new(disk).expect("geometry fits u64");
    src.seek_to(SeekTarget::Start(2 * SECTOR as u64)).expect("seek");
    let mut out = [0_u8; SECTOR];
    let err = read_exact(&mut src, &mut out).expect_err("an unreadable sector must not be fabricated as data");
    assert!(err.message().contains("bad sector"));
}

#[test]
fn reader_a_bad_sector_surfaces_as_an_error_never_as_zeros() {
    assert_bad_sector_is_an_error();
}

#[test]
fn sources_a_bad_sector_surfaces_as_an_error_never_as_zeros() {
    assert_bad_sector_is_an_error();
}

#[test]
fn a_device_error_names_the_path_and_the_kind() {
    let err = DeviceError::not_block_device("/tmp/file");
    assert!(err.is_not_block_device());
    assert_eq!(err.path(), "/tmp/file");
    assert!(err.message().starts_with("device /tmp/file: not a block device"));

    let io = std::io::Error::new(std::io::ErrorKind::PermissionDenied, "denied");
    let err = DeviceError::open("/dev/sda", io);
    assert!(!err.is_not_block_device());
    assert!(err.message().starts_with("device /dev/sda: cannot open read-only: denied"));
}

use argos::device::class::{from_discard_max_bytes, parse_sysfs_number, sysfs_capacity_bytes};

#[test]
fn sysfs_numbers_are_read_whitespace_aside() {
    assert_eq!(parse_sysfs_number(Some("2147483648\n")), Some(2147483648));
    assert_eq!(parse_sysfs_number(Some(" 0 ")), Some(0));
    assert_eq!(parse_sysfs_number(Some("18446744073709551616")), None);
    assert_eq!(parse_sysfs_number(Some("12ab")), None);
    assert_eq!(parse_sysfs_number(None), None);
}

#[test]
fn discard_limits_decide_trim() {
    assert_eq!(from_discard_max_bytes(Some("2147450880\n")), TrimState::Enabled);
    assert_eq!(from_discard_max_bytes(Some("0\n")), TrimState::Disabled);
    assert_eq!(from_discard_max_bytes(Some("")), TrimState::Unknown);
    assert_eq!(from_discard_max_bytes(None), TrimState::Unknown);
}

#[test]
fn sysfs_size_counts_half_kilobyte_units() {
    assert_eq!(sysfs_capacity_bytes(Some("1000215216\n")), Some(512_110_190_592));
    assert_eq!(sysfs_capacity_bytes(Some("36028797018963968")), None);
    assert_eq!(sysfs_capacity_bytes(Some("x")), None);
}

#[test]
fn a_settled_read_passes_a_failure_on_and_copies_a_success() {
    let chunk = [1u8, 2, 3, 4, 5, 6, 7, 8];
    let mut buf = [9u8; 4];
    assert_eq!(settle_read(Ok(()), &chunk, 5, 3, &mut buf).unwrap(), 3);
    assert_eq!(buf, [6, 7, 8, 9]);
    let mut untouched = [9u8; 4];
    let failed = settle_read(Err(ReadError::bad_sector(Lba::new(3), 1)), &chunk, 0, 4, &mut untouched);
    assert!(failed.unwrap_err().is_bad_sector());
    assert_eq!(untouched, [9u8; 4]);
}

#[test]
fn canonicalising_twice_changes_nothing_more() {
    for p in ["/dev/rdisk0", "/dev/disk2s1", r"\\?\PhysicalDrive0", r"\\.\HarddiskVolume2", "/dev/sda1", "/dev/random", "C:"] {
        let once = canonical(p);
        assert_eq!(canonical(&once), once, "{p}");
    }
}
