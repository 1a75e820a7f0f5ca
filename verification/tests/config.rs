use nixos_limine::config::{Arch, EfiDiscovery, KeyPolicy, LimineInstallConfig, SecureBoot};
use nixos_limine::raw::{
    ConfigError, FileSystem, RawArch, RawAutoEnrollKeys, RawConfig, RawSecureBoot, resolve,
};

/// The shape the module's activation script emits.
fn wire() -> RawConfig {
    RawConfig {
        limine_path: "/nix/store/aaa-limine".to_owned(),
        host_architecture: RawArch {
            family: "arm".to_owned(),
            bits: 64,
            arch: Some("armv8-a".to_owned()),
        },
        file_systems: vec![],
        efi_support: true,
        efi_mount_point: "/boot".to_owned(),
        efi_removable: true,
        can_touch_efi_variables: false,
        enroll_config: false,
        secure_boot: RawSecureBoot {
            enable: false,
            auto_generate_keys: false,
            auto_enroll_keys: RawAutoEnrollKeys { enable: false, extra_args: vec![] },
            sbctl: "/nix/store/bbb-sbctl".to_owned(),
        },
        fwupd_efi_path: None,
        bios_support: false,
        bios_device: "nodev".to_owned(),
        partition_index: None,
        force: false,
        validate_checksums: true,
        max_generations: 0,
        settings: vec![],
        extra_entries: String::new(),
        additional_files: vec![],
    }
}

fn try_parse(raw: RawConfig) -> Result<LimineInstallConfig, String> {
    resolve(raw).map_err(|e: ConfigError| e.message())
}

fn parse(raw: RawConfig) -> LimineInstallConfig {
    match try_parse(raw) {
        Ok(cfg) => cfg,
        Err(e) => panic!("a valid config: {e}"),
    }
}

fn bios_only() -> RawConfig {
    let mut raw = wire();
    raw.efi_support = false;
    raw.bios_support = true;
    raw.host_architecture = RawArch { family: "x86".to_owned(), bits: 64, arch: None };
    raw
}

#[test]
fn accepts_what_the_module_emits() {
    let cfg = parse(wire());

    assert_eq!(cfg.arch, Arch::Aarch64);
    assert!(cfg.efi_support());
    assert_eq!(cfg.install_dir, "/boot/limine");
}

#[test]
fn reads_zero_max_generations_as_unlimited() {
    assert_eq!(parse(wire()).max_generations, None);

    let mut five = wire();
    five.max_generations = 5;
    assert_eq!(parse(five).max_generations, Some(5));
}

#[test]
fn derives_the_paths_it_installs_from() {
    let cfg = parse(wire());

    assert_eq!(cfg.limine_binary(), "/nix/store/aaa-limine/bin/limine");
    assert_eq!(cfg.efi_image(), "/nix/store/aaa-limine/share/limine/BOOTAA64.EFI");
    assert_eq!(cfg.limine_conf(), "/boot/limine/limine.conf");
}

#[test]
fn removable_installs_go_to_the_firmware_fallback_path() {
    let cfg = parse(wire());
    let efi = cfg.target.here().expect("efi");

    assert!(matches!(efi.discovery, EfiDiscovery::Removable));
    assert_eq!(efi.image_path("/boot", "BOOTAA64.EFI"), "/boot/efi/boot/BOOTAA64.EFI");
}

#[test]
fn registered_installs_go_under_their_own_directory() {
    let mut raw = wire();
    raw.efi_removable = false;
    raw.can_touch_efi_variables = true;
    let cfg = parse(raw);
    let efi = cfg.target.here().expect("efi");

    assert!(matches!(efi.discovery, EfiDiscovery::Registered));
    assert_eq!(efi.image_path("/boot", "BOOTAA64.EFI"), "/boot/efi/limine/BOOTAA64.EFI");
}

#[test]
fn unregistered_is_neither() {
    let mut raw = wire();
    raw.efi_removable = false;
    let cfg = parse(raw);
    let efi = cfg.target.here().expect("efi");

    assert!(matches!(efi.discovery, EfiDiscovery::Unregistered));
}

#[test]
fn resolves_the_sbctl_binary_out_of_its_store_path() {
    let mut raw = wire();
    raw.secure_boot = RawSecureBoot {
        enable: true,
        auto_generate_keys: true,
        auto_enroll_keys: RawAutoEnrollKeys { enable: true, extra_args: vec!["--microsoft".to_owned()] },
        sbctl: "/nix/store/bbb-sbctl".to_owned(),
    };
    let cfg = parse(raw);

    let Some(SecureBoot::Enabled { sbctl, keys, .. }) = cfg.secure_boot() else {
        panic!("expected secure boot");
    };

    assert_eq!(sbctl, "/nix/store/bbb-sbctl/bin/sbctl");

    let KeyPolicy::Generate { enroll } = keys else {
        panic!("expected key generation");
    };
    assert_eq!(enroll.as_deref(), Some(["--microsoft".to_owned()].as_slice()));
}

#[test]
fn a_bios_only_install_needs_a_fat_boot_filesystem() {
    let mut with_vfat = bios_only();
    with_vfat.file_systems = vec![("/boot".to_owned(), FileSystem { fs_type: "vfat".to_owned() })];
    assert_eq!(parse(with_vfat).install_dir, "/boot/limine");

    let mut with_ext4 = bios_only();
    with_ext4.file_systems = vec![("/boot".to_owned(), FileSystem { fs_type: "ext4".to_owned() })];
    assert!(try_parse(with_ext4).err().expect("an error").contains("limine cannot read ext4"));

    assert!(try_parse(bios_only()).err().expect("an error").contains("none is configured"));
}

#[test]
fn rejects_a_cpu_limine_has_no_binary_for() {
    let mut raw = wire();
    raw.host_architecture = RawArch { family: "riscv".to_owned(), bits: 64, arch: None };
    let error = try_parse(raw).err().expect("an error");

    assert!(error.contains("unsupported CPU"), "{error}");
}

#[test]
fn rejects_an_install_with_no_target() {
    let mut raw = wire();
    raw.efi_support = false;
    raw.bios_support = false;
    let error = try_parse(raw).err().expect("an error");

    assert!(error.contains("neither efiSupport nor biosSupport"), "{error}");
}

#[test]
fn rejects_bios_on_a_cpu_without_a_stage_1() {
    let mut raw = wire();
    raw.bios_support = true;
    let error = try_parse(raw).err().expect("an error");

    assert!(error.contains("no BIOS stage 1"), "{error}");
}

#[test]
fn rejects_secure_boot_without_efi() {
    let mut raw = bios_only();
    raw.file_systems = vec![("/boot".to_owned(), FileSystem { fs_type: "vfat".to_owned() })];
    raw.secure_boot.enable = true;
    let error = try_parse(raw).err().expect("an error");

    assert_eq!(error, "secureBoot.enable is true but efiSupport is false");
}

#[test]
fn names_the_architecture_it_refuses() {
    let mut raw = wire();
    raw.host_architecture = RawArch { family: "riscv".to_owned(), bits: 64, arch: None };

    assert_eq!(try_parse(raw).err().expect("an error"), "unsupported CPU: riscv family, 64-bit, arch unknown");
}

#[test]
fn installs_to_both_targets_when_both_are_asked_for() {
    let mut raw = wire();
    raw.bios_support = true;
    raw.host_architecture = RawArch { family: "x86".to_owned(), bits: 64, arch: None };
    let cfg = parse(raw);

    assert!(cfg.target.here().is_some());
    assert!(cfg.target.there().is_some());
    assert_eq!(cfg.arch, Arch::X86_64);
    assert_eq!(cfg.efi_image(), "/nix/store/aaa-limine/share/limine/BOOTX64.EFI");
}

#[test]
fn has_no_signing_setup_when_signing_is_off() {
    assert!(parse(wire()).secure_boot().is_none());
    assert!(parse({
        let mut raw = bios_only();
        raw.file_systems = vec![("/boot".to_owned(), FileSystem { fs_type: "vfat".to_owned() })];
        raw
    })
    .secure_boot()
    .is_none());
}
