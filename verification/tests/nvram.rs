use nixos_limine::facts::Partition;
use nixos_limine::nvram::{GPT_FORMAT, HardDriveType, LOAD_OPTION_ACTIVE, entry, free_id, slot, updated_order};

/// The partition an ESP might sit on.
fn esp() -> Partition {
    Partition { number: 1, start: 2048, size: 1_048_576, guid: 0x1c06f03b_704e_4657_b9cd_681a087a2fdc }
}

#[test]
fn names_the_partition_the_esp_is_on() {
    let entry = entry(&esp(), "BOOTAA64.EFI");
    let drive = entry.hard_drive;

    assert_eq!(drive.partition_number, 1);
    assert_eq!(drive.partition_start, 2048);
    assert_eq!(drive.partition_size, 1_048_576);
    assert_eq!(drive.partition_sig, esp().guid);
    assert_eq!(drive.format, GPT_FORMAT);
    assert_eq!(drive.sig_type, HardDriveType::Gpt);
}

#[test]
fn points_at_the_loader_the_way_efi_spells_paths() {
    let entry = entry(&esp(), "BOOTX64.EFI");

    assert_eq!(entry.file_path, r"\efi\limine\BOOTX64.EFI");
}

#[test]
fn is_an_active_entry_the_firmware_will_try() {
    let entry = entry(&esp(), "BOOTAA64.EFI");

    assert_eq!(entry.description, "Limine");
    assert_eq!(entry.attributes & LOAD_OPTION_ACTIVE, LOAD_OPTION_ACTIVE);
    assert!(entry.optional_data.is_empty());
}

#[test]
fn takes_the_lowest_free_slot() {
    assert_eq!(free_id(&vec![]), 0);
    assert_eq!(free_id(&vec![0, 1, 3]), 2);
    assert_eq!(free_id(&vec![2, 0, 1]), 3);
}

#[test]
fn falls_back_to_the_first_slot_when_every_one_is_taken() {
    let every: Vec<u16> = (0..=u16::MAX).collect();
    assert_eq!(free_id(&every), 0);
}

#[test]
fn reuses_its_own_slot_from_last_time() {
    let entries = vec![(0u16, Some("Windows Boot Manager".to_owned())), (4u16, Some("Limine".to_owned()))];
    assert_eq!(slot(&entries, &vec![0, 4]), 4);
}

#[test]
fn takes_a_free_slot_when_it_has_none() {
    let entries = vec![(0u16, Some("Windows Boot Manager".to_owned())), (1u16, None)];
    assert_eq!(slot(&entries, &vec![0, 1]), 2);
}

#[test]
fn puts_a_new_entry_first_in_the_boot_order() {
    assert_eq!(updated_order(&vec![3, 0], 2), Some(vec![2, 3, 0]));
    assert_eq!(updated_order(&vec![], 2), Some(vec![2]));
}

#[test]
fn leaves_a_boot_order_that_already_has_it_alone() {
    assert_eq!(updated_order(&vec![3, 2, 0], 2), None);
}
