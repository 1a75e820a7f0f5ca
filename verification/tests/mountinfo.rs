use nixos_limine::mountinfo::{device_for, unescape};

#[test]
fn leaves_ordinary_paths_alone() {
    assert_eq!(unescape("/boot/efi"), "/boot/efi");
}

#[test]
fn decodes_the_four_escaped_characters() {
    assert_eq!(unescape(r"/mnt/my\040disk"), "/mnt/my disk");
    assert_eq!(unescape(r"/mnt/a\011b"), "/mnt/a\tb");
    assert_eq!(unescape(r"/mnt/a\012b"), "/mnt/a\nb");
    assert_eq!(unescape(r"/mnt/a\134b"), r"/mnt/a\b");
}

#[test]
fn keeps_a_malformed_escape_verbatim() {
    assert_eq!(unescape(r"/mnt/a\09"), r"/mnt/a\09");
    assert_eq!(unescape(r"/mnt/a\zzz"), r"/mnt/a\zzz");
}

#[test]
fn decodes_several_in_one_field() {
    assert_eq!(unescape(r"/a\040b\040c"), "/a b c");
}

#[test]
fn keeps_an_escape_that_does_not_fit_a_byte_verbatim() {
    assert_eq!(unescape(r"/mnt/a\777"), r"/mnt/a\777");
}

const MOUNTINFO: &str = "\
22 1 259:2 / / rw,relatime shared:1 - ext4 /dev/nvme0n1p2 rw
25 22 259:1 / /boot rw,relatime shared:2 - vfat /dev/nvme0n1p1 rw,fmask=0022
26 22 0:21 / /proc rw,nosuid - proc proc rw
";

#[test]
fn finds_the_device_under_the_longest_mount_point() {
    assert_eq!(device_for("/boot/limine", MOUNTINFO).as_deref(), Some("/dev/nvme0n1p1"));
    assert_eq!(device_for("/boot", MOUNTINFO).as_deref(), Some("/dev/nvme0n1p1"));
    assert_eq!(device_for("/bootx", MOUNTINFO).as_deref(), Some("/dev/nvme0n1p2"));
    assert_eq!(device_for("/etc", MOUNTINFO).as_deref(), Some("/dev/nvme0n1p2"));
}

#[test]
fn the_most_recent_mount_wins() {
    let stacked = format!("{MOUNTINFO}40 25 259:3 / /boot rw - vfat /dev/sdb1 rw\n");

    assert_eq!(device_for("/boot/efi", &stacked).as_deref(), Some("/dev/sdb1"));
}

#[test]
fn reads_past_the_optional_fields() {
    let info = "30 1 8:1 / /mnt/my\\040disk rw shared:7 master:3 - ext4 /dev/sda1 rw\n";

    assert_eq!(device_for("/mnt/my disk/x", info).as_deref(), Some("/dev/sda1"));
}

#[test]
fn nothing_covers_a_path_outside_every_mount() {
    let info = "25 22 259:1 / /boot rw - vfat /dev/nvme0n1p1 rw\n";

    assert_eq!(device_for("/etc", info), None);
    assert_eq!(device_for("/etc", "garbage line\n"), None);
}

#[test]
fn keeps_an_escape_without_three_octal_digits_verbatim() {
    assert_eq!(unescape(r"/a\+12b"), r"/a\+12b");
    assert_eq!(unescape(r"/a\12"), r"/a\12");
    assert_eq!(unescape(r"/a\"), r"/a\");
}
