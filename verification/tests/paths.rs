use disk_spinner::path::{file_name, join_path, parent_file_name, parent_sysfs_block_path, sysfs_block_path};

fn name(p: &str) -> Option<String> {
    file_name(p)
}

#[test]
fn file_name_of_plain_paths() {
    assert_eq!(name("/dev/sda1"), Some("sda1".to_string()));
    assert_eq!(name("sda"), Some("sda".to_string()));
    assert_eq!(name("/dev/sda1/"), Some("sda1".to_string()));
    assert_eq!(name("/dev//nvme0n1p1//"), Some("nvme0n1p1".to_string()));
}

#[test]
fn file_name_skips_dot_segments_after_a_separator() {
    assert_eq!(name("foo.txt/."), Some("foo.txt".to_string()));
    assert_eq!(name("foo.txt/.//"), Some("foo.txt".to_string()));
    assert_eq!(name("./sda"), Some("sda".to_string()));
}

#[test]
fn file_name_absent() {
    assert_eq!(name(""), None);
    assert_eq!(name("/"), None);
    assert_eq!(name("."), None);
    assert_eq!(name("./"), None);
    assert_eq!(name(".."), None);
    assert_eq!(name("foo/.."), None);
    assert_eq!(name("///"), None);
}

#[test]
fn file_name_agrees_with_std_path() {
    let cases = [
        "/dev/sda1", "a/b/c", "a/./b/.", "/./", ".//.", "a/..", "../a", "x/y//", "...", "a/...", "..a",
    ];
    for c in cases {
        let want = std::path::Path::new(c)
            .file_name()
            .map(|n| n.to_string_lossy().into_owned());
        assert_eq!(name(c), want, "{c}");
    }
}

#[test]
fn parent_file_name_agrees_with_std_path() {
    let cases = [
        "/sys/devices/pci0000:00/block/sda/sda1",
        "/sys/block/sda/sda1/",
        "a/b",
        "a",
        "/a",
        "/",
        "",
        "./a",
        "../a",
        "a/..",
        "a/b/.",
        ".",
        "a//b//",
    ];
    for c in cases {
        let want = std::path::Path::new(c)
            .parent()
            .and_then(std::path::Path::file_name)
            .map(|n| n.to_string_lossy().into_owned());
        assert_eq!(parent_file_name(c), want, "{c}");
    }
}

#[test]
fn join_agrees_with_std_path() {
    let cases = [
        ("/sys/class/block", "sda"),
        ("/dev", "nvme0n1"),
        ("/dev/", "sda"),
        ("", "sda"),
        ("/dev", "/abs"),
        ("/dev", ""),
        ("/sys/class/block/sda", "queue/rotational"),
    ];
    for (base, n) in cases {
        let want = std::path::Path::new(base).join(n);
        assert_eq!(join_path(base, n), want.to_string_lossy(), "{base} {n}");
    }
}

#[test]
fn sysfs_block_path_of_a_device() {
    assert_eq!(sysfs_block_path("sda"), "/sys/class/block/sda");
    assert_eq!(sysfs_block_path("nvme0n1p2"), "/sys/class/block/nvme0n1p2");
}

#[test]
fn parent_sysfs_block_path_of_a_partition() {
    assert_eq!(
        parent_sysfs_block_path("/sys/devices/pci0000:00/0000:00:17.0/ata1/host0/target0:0:0/0:0:0:0/block/sda/sda1"),
        Some("/sys/class/block/sda".to_string())
    );
    assert_eq!(parent_sysfs_block_path("/"), None);
    assert_eq!(parent_sysfs_block_path("sda1"), None);
}

#[test]
fn file_name_of_a_joined_component_is_the_component() {
    for base in ["/dev", "/dev/", "", "a/b/..", "/"] {
        for n in ["sda", "nvme0n1p3", "...", ".x"] {
            assert_eq!(name(&join_path(base, n)), Some(n.to_string()));
        }
    }
}
