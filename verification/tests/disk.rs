use nixos_limine::disk::{TableEntry, disk_of, number_of, partition_in, sysfs_path_of};

#[test]
fn looks_a_device_up_in_sysfs() {
    assert_eq!(sysfs_path_of("/dev/nvme0n1p1"), "/sys/class/block/nvme0n1p1");
    assert_eq!(sysfs_path_of("/dev/mapper/esp"), "/sys/class/block/mapper/esp");
    assert_eq!(sysfs_path_of("/run/esp"), "/run/esp");
}

#[test]
fn reads_the_partition_number_sysfs_gives() {
    assert_eq!(number_of("/dev/sda1", "1\n").ok(), Some(1));
    assert_eq!(number_of("/dev/sda12", " 12 ").ok(), Some(12));
}

#[test]
fn a_partition_sysfs_cannot_number_is_unknown() {
    let e = number_of("/dev/sda", "").err().expect("unknown");

    assert_eq!(e.message(), "could not work out which partition /dev/sda is");
}

#[test]
fn the_disk_is_the_parent_of_the_partition_in_sysfs() {
    let disk = disk_of("/dev/nvme0n1p1", "/sys/devices/pci0000:00/nvme/nvme0/nvme0n1/nvme0n1p1").ok();

    assert_eq!(disk.as_deref(), Some("/dev/nvme0n1"));
    assert!(disk_of("/dev/x", "/").is_err());
}

#[test]
fn takes_the_partition_out_of_the_table() {
    let table = vec![
        TableEntry { number: 1, first_lba: 2048, last_lba: 1_050_623, guid: 7 },
        TableEntry { number: 2, first_lba: 1_050_624, last_lba: 2_000_000, guid: 8 },
    ];
    let p = match partition_in("/dev/nvme0n1", &table, 1) {
        Ok(p) => p,
        Err(e) => panic!("{}", e.message()),
    };

    assert_eq!((p.number, p.start, p.size, p.guid), (1, 2048, 1_048_576, 7));
}

#[test]
fn a_partition_missing_from_the_table_is_an_error() {
    let e = partition_in("/dev/nvme0n1", &vec![], 3).err().expect("missing");

    assert_eq!(e.message(), "/dev/nvme0n1 has no partition 3");
}

#[test]
fn an_entry_that_ends_before_it_starts_makes_the_table_unreadable() {
    let table = vec![TableEntry { number: 1, first_lba: 4096, last_lba: 2047, guid: 7 }];
    let e = partition_in("/dev/sda", &table, 1).err().expect("unreadable");

    assert_eq!(e.message(), "could not read the partition table of /dev/sda");

    let last = vec![TableEntry { number: 1, first_lba: 0, last_lba: u64::MAX, guid: 7 }];
    assert!(partition_in("/dev/sda", &last, 1).is_err());

    let empty = vec![TableEntry { number: 1, first_lba: 2048, last_lba: 2047, guid: 7 }];
    let p = partition_in("/dev/sda", &empty, 1).ok().expect("an empty partition");
    assert_eq!(p.size, 0);
}
