use disk_spinner::device::{
    check_child_partitions, check_device_kind, child_partitions, media_type_from_name,
    media_type_from_rotational, parse_partition_number, written_for_capacity, DeviceMetadata, MediaType, SanityError,
    SanityOptions, SanityWarning,
};

fn paths(ps: &[&str]) -> Vec<String> {
    ps.iter().map(|p| p.to_string()).collect()
}

fn detect(dev: &str, existing: &[&str]) -> Vec<String> {
    child_partitions(dev, &paths(existing))
}

#[test]
fn detects_child_partitions_a_normal_partition_of_the_given_device() {
    assert_eq!(detect("sda", &["/dev/sdb1", "/dev/sda1"]), paths(&["/dev/sda1"]));
}

#[test]
fn detects_child_partitions_no_partitions() {
    assert_eq!(detect("sda", &["/dev/sdb1"]), paths(&[]));
}

#[test]
fn detects_child_partitions_block_devices_above_26_are_present() {
    assert_eq!(detect("sda", &["/dev/sda", "/dev/sdb", "/dev/sdai"]), paths(&[]));
}

#[test]
fn detects_child_partitions_nvme_partitions_use_a_p_separator() {
    assert_eq!(
        detect("nvme0n1", &["/dev/nvme0n1p1", "/dev/nvme0n11"]),
        paths(&["/dev/nvme0n1p1"])
    );
}

#[test]
fn child_partitions_keep_their_order_and_repeats() {
    assert_eq!(
        detect("sdb", &["/dev/sdb2", "/dev/sda1", "/dev/sdb10", "/dev/sdb2"]),
        paths(&["/dev/sdb2", "/dev/sdb10", "/dev/sdb2"])
    );
}

#[test]
fn child_partition_numbers_are_read_like_usize() {
    assert_eq!(detect("sda", &["/dev/sda+1", "/dev/sda01", "/dev/sda-1", "/dev/sda+"]),
        paths(&["/dev/sda+1", "/dev/sda01"]));
    assert_eq!(detect("sda", &["/dev/sda99999999999999999999999"]), paths(&[]));
    assert_eq!(detect("nvme0n1", &["/dev/nvme0n1p", "/dev/nvme0n1p+7"]), paths(&["/dev/nvme0n1p+7"]));
}

#[test]
fn a_disk_is_not_its_own_partition() {
    assert_eq!(detect("sda", &["/dev/sda"]), paths(&[]));
    assert_eq!(detect("nvme0n1", &["/dev/nvme0n1", "/dev/nvme0n1/"]), paths(&[]));
}

#[test]
fn numbered_partitions_are_found() {
    assert_eq!(detect("sdc", &["/dev/sdc12"]), paths(&["/dev/sdc12"]));
    assert_eq!(detect("mmcblk0", &["/dev/mmcblk0p3"]), paths(&["/dev/mmcblk0p3"]));
}

#[test]
fn media_type_from_the_device_name() {
    assert_eq!(media_type_from_name("loop0"), Some(MediaType::Loopback));
    assert_eq!(media_type_from_name("ram1"), Some(MediaType::Ram));
    assert_eq!(media_type_from_name("md127"), Some(MediaType::MdRaid));
    assert_eq!(media_type_from_name("nvme0n1"), Some(MediaType::Nvme));
    assert_eq!(media_type_from_name("sda"), None);
    assert_eq!(media_type_from_name("lo"), None);
}

#[test]
fn media_type_from_the_rotational_flag() {
    assert_eq!(media_type_from_rotational(None), MediaType::Unknown);
    assert_eq!(media_type_from_rotational(Some("1\n")), MediaType::Rotational);
    assert_eq!(media_type_from_rotational(Some("0\n")), MediaType::SolidState);
    assert_eq!(media_type_from_rotational(Some(" \t1 ")), MediaType::Rotational);
    assert_eq!(media_type_from_rotational(Some("2\n")), MediaType::Unknown);
    assert_eq!(media_type_from_rotational(Some("")), MediaType::Unknown);
    assert_eq!(media_type_from_rotational(Some("01")), MediaType::Unknown);
    assert_eq!(media_type_from_rotational(Some("\u{3000}0\u{85}")), MediaType::SolidState);
}

#[test]
fn partition_numbers_from_sysfs() {
    assert_eq!(parse_partition_number("1\n"), Some(1));
    assert_eq!(parse_partition_number("  12 "), Some(12));
    assert_eq!(parse_partition_number("+3"), Some(3));
    assert_eq!(parse_partition_number("18446744073709551615"), Some(u64::MAX));
    assert_eq!(parse_partition_number("18446744073709551616"), None);
    assert_eq!(parse_partition_number(""), None);
    assert_eq!(parse_partition_number("-1"), None);
    assert_eq!(parse_partition_number("1 2"), None);
    assert_eq!(parse_partition_number("x"), None);
}

#[test]
fn partition_numbers_agree_with_str_parse() {
    for s in ["0", "007", "+", "++1", " 5\n", "4294967296", "99999999999999999999", "1a", "\u{a0}9"] {
        assert_eq!(parse_partition_number(s), s.trim().parse::<u64>().ok(), "{s:?}");
    }
}

fn disk(name: &str, media_type: MediaType) -> DeviceMetadata {
    DeviceMetadata { name: name.to_string(), media_type }
}

const STRICT: SanityOptions = SanityOptions {
    allow_any_media: false,
    allow_any_block_device: false,
    skip_sanity_checks: false,
};
const LENIENT: SanityOptions = SanityOptions {
    allow_any_media: true,
    allow_any_block_device: true,
    skip_sanity_checks: false,
};
const SKIP: SanityOptions = SanityOptions {
    allow_any_media: false,
    allow_any_block_device: false,
    skip_sanity_checks: true,
};

#[test]
fn a_whole_spinning_disk_passes_without_warnings() {
    let w = check_device_kind(&STRICT, None, &disk("sda", MediaType::Rotational)).unwrap();
    assert!(w.is_empty());
}

#[test]
fn a_partition_is_refused_unless_allowed() {
    let r = check_device_kind(&STRICT, Some(1), &disk("sda1", MediaType::Rotational));
    assert!(matches!(r, Err(SanityError::PartitionNotAllowed)));
    let r = check_device_kind(&STRICT, Some(1), &disk("sda1", MediaType::SolidState));
    assert!(matches!(r, Err(SanityError::PartitionNotAllowed)));
    let w = check_device_kind(&LENIENT, Some(1), &disk("sda1", MediaType::Rotational)).unwrap();
    assert_eq!(w, vec![SanityWarning::TestingPartition]);
}

#[test]
fn other_media_are_refused_unless_allowed() {
    let r = check_device_kind(&STRICT, None, &disk("nvme0n1", MediaType::Nvme));
    assert!(matches!(r, Err(SanityError::MediaNotAllowed)));
    let only_media = SanityOptions {
        allow_any_media: true,
        allow_any_block_device: false,
        skip_sanity_checks: false,
    };
    let w = check_device_kind(&only_media, None, &disk("nvme0n1", MediaType::Nvme)).unwrap();
    assert_eq!(w, vec![SanityWarning::UnexpectedMedia(MediaType::Nvme)]);
    let w = check_device_kind(&LENIENT, Some(2), &disk("sdb2", MediaType::Unknown)).unwrap();
    assert_eq!(
        w,
        vec![SanityWarning::TestingPartition, SanityWarning::UnexpectedMedia(MediaType::Unknown)]
    );
}

#[test]
fn a_disk_with_partitions_is_refused() {
    let listing = paths(&["/dev/sdb1", "/dev/sda1", "/dev/sda2"]);
    let r = check_child_partitions(&STRICT, &disk("sda", MediaType::Rotational), None, &listing);
    match r {
        Err(SanityError::ChildPartitions(found)) => assert_eq!(found, paths(&["/dev/sda1", "/dev/sda2"])),
        other => panic!("unexpected {other:?}"),
    }
    assert!(check_child_partitions(&STRICT, &disk("sdc", MediaType::Rotational), None, &listing).is_ok());
}

#[test]
fn a_partition_is_not_searched_for_partitions() {
    let listing = paths(&["/dev/sda1", "/dev/sda2"]);
    assert!(check_child_partitions(&STRICT, &disk("sda", MediaType::Rotational), Some(1), &listing).is_ok());
}

#[test]
fn read_back_covers_whole_buffers_of_the_capacity() {
    assert_eq!(written_for_capacity(1000, 16), 992);
    assert_eq!(written_for_capacity(1024, 16), 1024);
    assert_eq!(written_for_capacity(15, 16), 0);
    assert_eq!(written_for_capacity(u64::MAX, 1), u64::MAX);
}

#[test]
fn skipping_the_checks_lets_every_device_pass() {
    let w = check_device_kind(&SKIP, Some(3), &disk("nvme0n1p3", MediaType::Nvme)).unwrap();
    assert_eq!(
        w,
        vec![SanityWarning::TestingPartition, SanityWarning::UnexpectedMedia(MediaType::Nvme)]
    );
    assert!(check_device_kind(&SKIP, None, &disk("sda", MediaType::Rotational)).unwrap().is_empty());
    let listing = paths(&["/dev/sda1"]);
    assert!(check_child_partitions(&SKIP, &disk("sda", MediaType::Rotational), None, &listing).is_ok());
}
