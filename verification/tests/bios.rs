use nixos_limine::bios::{command, plan};
use nixos_limine::config::LimineInstallConfig;
use nixos_limine::plan::{Action, Plan};
use nixos_limine::raw::{FileSystem, RawArch, RawAutoEnrollKeys, RawConfig, RawSecureBoot, resolve};

fn raw() -> RawConfig {
    RawConfig {
        limine_path: "/nix/store/aaa-limine".to_owned(),
        host_architecture: RawArch { family: "x86".to_owned(), bits: 64, arch: None },
        file_systems: vec![("/boot".to_owned(), FileSystem { fs_type: "vfat".to_owned() })],
        efi_support: false,
        efi_mount_point: "/boot".to_owned(),
        efi_removable: false,
        can_touch_efi_variables: false,
        enroll_config: false,
        secure_boot: RawSecureBoot {
            enable: false,
            auto_generate_keys: false,
            auto_enroll_keys: RawAutoEnrollKeys { enable: false, extra_args: vec![] },
            sbctl: "/nix/store/bbb-sbctl".to_owned(),
        },
        fwupd_efi_path: None,
        bios_support: true,
        bios_device: "nodev".to_owned(),
        partition_index: None,
        force: false,
        validate_checksums: false,
        max_generations: 0,
        settings: vec![],
        extra_entries: String::new(),
        additional_files: vec![],
    }
}

fn config(raw: RawConfig) -> LimineInstallConfig {
    match resolve(raw) {
        Ok(cfg) => cfg,
        Err(e) => panic!("a valid config: {}", e.message()),
    }
}

fn command_line(raw: RawConfig) -> Option<String> {
    let cfg = config(raw);
    let bios = cfg.target.there().expect("a bios target");

    command(&cfg, bios).map(|invocation| invocation.line().replace("/nix/store/aaa-limine/bin/limine", "limine"))
}

#[test]
fn nodev_runs_nothing() {
    assert!(command_line(raw()).is_none());
}

#[test]
fn writes_stage_1_to_the_disk_it_was_given() {
    let mut r = raw();
    r.bios_device = "/dev/sda".to_owned();
    assert_eq!(command_line(r).as_deref(), Some("limine bios-install /dev/sda"));
}

#[test]
fn passes_the_stage_2_partition_and_force_in_order() {
    let mut r = raw();
    r.bios_device = "/dev/sda".to_owned();
    r.partition_index = Some(2);
    r.force = true;
    assert_eq!(command_line(r).as_deref(), Some("limine bios-install /dev/sda 2 --force"));
}

#[test]
fn ignores_a_zero_partition_index() {
    let mut r = raw();
    r.bios_device = "/dev/sda".to_owned();
    r.partition_index = Some(0);
    assert_eq!(command_line(r).as_deref(), Some("limine bios-install /dev/sda"));
}

#[test]
fn copies_stage_2_next_to_limine_conf() {
    let cfg = config(raw());
    let mut p = Plan::new(cfg.install_dir.as_str(), false);
    plan(&mut p, &cfg);

    assert_eq!(p.actions().len(), 1);
    match &p.actions()[0] {
        Action::Copy { from, to } => {
            assert_eq!(from, "/nix/store/aaa-limine/share/limine/limine-bios.sys");
            assert_eq!(to, "/boot/limine/limine-bios.sys");
        },
        _ => panic!("expected a copy"),
    }
}
