use nixos_limine::bootspec::BootSpec;
use nixos_limine::config::{
    Arch, BiosConfig, EfiDiscovery, EfiInstall, InstallTarget, KeyPolicy, LimineInstallConfig, SecureBoot, Stage1,
};
use nixos_limine::facts::{Facts, Generation, Partition, Profile};
use nixos_limine::gather::{referenced_files, scripts_to_run};
use nixos_limine::install::{finish, prepare};
use nixos_limine::plan::Action;
use nixos_limine::settings::{Scalar, Setting};
use nixos_limine::step::Step;

fn spec(n: u32) -> BootSpec {
    BootSpec {
        init: format!("/nix/store/aaa-system-{n}/init"),
        kernel: format!("/nix/store/bbb-linux-{n}/Image"),
        kernel_params: vec![],
        label: format!("finix {n}"),
        toplevel: format!("/nix/store/aaa-system-{n}"),
        initrd: Some(format!("/nix/store/ccc-initrd-{n}/initrd")),
        initrd_secrets: None,
        specialisations: vec![],
        xen: None,
    }
}

fn facts() -> Facts {
    Facts {
        profiles: vec![Profile {
            name: "system".to_owned(),
            generations: vec![Generation { number: 1, spec: spec(1), built_at: "t".to_owned() }],
        }],
        digests: vec![],
        fwupd: vec![],
        secrets: vec![],
        sbctl_keys_exist: false,
        esp: None,
    }
}

fn efi(discovery: EfiDiscovery, secure_boot: SecureBoot) -> EfiInstall {
    EfiInstall { discovery, enroll_config: false, secure_boot }
}

fn config(target: InstallTarget) -> LimineInstallConfig {
    LimineInstallConfig {
        limine_path: "/nix/store/lll-limine".to_owned(),
        arch: Arch::X86_64,
        mount_point: "/boot".to_owned(),
        install_dir: "/boot/limine".to_owned(),
        target,
        validate_checksums: false,
        max_generations: None,
        settings: vec![],
        extra_entries: String::new(),
        additional_files: vec![("efi/memtest.efi".to_owned(), "/nix/store/mmm-memtest/memtest.efi".to_owned())],
    }
}

fn destinations(cfg: &LimineInstallConfig, f: &Facts) -> Vec<String> {
    match prepare(cfg, f) {
        Ok((plan, _)) => plan.actions().iter().map(|a| a.destination().clone()).collect(),
        Err(e) => panic!("{}", e.message()),
    }
}

#[test]
fn plans_everything_before_doing_anything() {
    let cfg = config(InstallTarget::Efi(efi(EfiDiscovery::Removable, SecureBoot::Disabled)));

    assert_eq!(
        destinations(&cfg, &facts()),
        [
            "/boot/limine/kernels/bbb-linux-1-Image",
            "/boot/limine/kernels/ccc-initrd-1-initrd",
            "/boot/limine/limine.conf",
            "/boot/efi/memtest.efi",
            "/boot/efi/boot/BOOTX64.EFI",
        ]
    );
}

#[test]
fn a_both_install_also_copies_stage_2() {
    let cfg = config(InstallTarget::Both(
        efi(EfiDiscovery::Removable, SecureBoot::Disabled),
        BiosConfig { stage1: None },
    ));

    assert_eq!(destinations(&cfg, &facts()).last().map(String::as_str), Some("/boot/limine/limine-bios.sys"));
}

#[test]
fn writes_the_rendered_config() {
    let cfg = config(InstallTarget::Efi(efi(EfiDiscovery::Removable, SecureBoot::Disabled)));
    let (plan, text) = prepare(&cfg, &facts()).ok().expect("prepared");

    assert!(plan.actions().iter().any(|a| matches!(a, Action::Write { to, contents }
        if to == "/boot/limine/limine.conf" && contents == text.as_bytes())));
}

#[test]
fn refuses_before_planning_when_required_keys_are_missing() {
    let sb = SecureBoot::Enabled { sbctl: "/sbctl".to_owned(), keys: KeyPolicy::Require, fwupd: None };
    let cfg = config(InstallTarget::Efi(efi(EfiDiscovery::Removable, sb)));
    let e = prepare(&cfg, &facts()).err().expect("refused");

    assert!(e.message().contains("no sbctl secure boot keys"));
}

#[test]
fn registers_a_boot_entry_for_the_esp() {
    let cfg = config(InstallTarget::Efi(efi(EfiDiscovery::Registered, SecureBoot::Disabled)));
    let mut f = facts();
    f.esp = Some(Partition { number: 1, start: 2048, size: 4096, guid: 9 });
    assert!(cfg.registers_boot_entry());

    let steps = finish(&cfg, &f, "timeout: 5");
    assert_eq!(steps.len(), 1);
    match &steps[0] {
        Step::Register(entry) => {
            assert_eq!(entry.file_path, r"\efi\limine\BOOTX64.EFI");
            assert_eq!(entry.hard_drive.partition_start, 2048);
        },
        _ => panic!("expected a registration"),
    }
}

#[test]
fn warns_when_limine_is_left_undiscoverable() {
    let cfg = config(InstallTarget::Efi(efi(EfiDiscovery::Unregistered, SecureBoot::Disabled)));
    let steps = finish(&cfg, &facts(), "");

    assert!(matches!(steps.as_slice(), [Step::Warn(w)] if w.contains("without an EFI boot entry")));
}

#[test]
fn enrols_the_config_digest_then_writes_stage_1() {
    let mut e = efi(EfiDiscovery::Removable, SecureBoot::Disabled);
    e.enroll_config = true;
    let bios = BiosConfig { stage1: Some(Stage1 { device: "/dev/sda".to_owned(), partition_index: None, force: false }) };
    let cfg = config(InstallTarget::Both(e, bios));
    let steps = finish(&cfg, &facts(), "timeout: 5");

    let lines: Vec<String> = steps
        .iter()
        .map(|s| match s {
            Step::Run(i) => i.line(),
            Step::Stage1(i) => format!("stage 1: {}", i.line()),
            _ => panic!("only commands"),
        })
        .collect();
    assert_eq!(lines.len(), 2);
    assert!(lines[0].starts_with("/nix/store/lll-limine/bin/limine enroll-config /boot/efi/boot/BOOTX64.EFI "));
    assert_eq!(lines[0].rsplit(' ').next().map(str::len), Some(128));
    assert_eq!(lines[1], "stage 1: /nix/store/lll-limine/bin/limine bios-install /dev/sda");
}

#[test]
fn lists_every_file_that_needs_a_digest() {
    let mut cfg = config(InstallTarget::Bios(BiosConfig { stage1: None }));
    cfg.settings = vec![(
        "wallpaper".to_owned(),
        Setting::Many(vec![Scalar::Str("/nix/store/ddd-art/bg.png".to_owned()), Scalar::Int(1)]),
    )];
    let mut f = facts();
    let mut s = spec(2);
    s.specialisations = vec![("hardened".to_owned(), spec(3))];
    f.profiles[0].generations.push(Generation { number: 2, spec: s, built_at: "t".to_owned() });

    assert_eq!(
        referenced_files(&cfg, &f.profiles),
        [
            "/nix/store/bbb-linux-1/Image",
            "/nix/store/ccc-initrd-1/initrd",
            "/nix/store/bbb-linux-2/Image",
            "/nix/store/ccc-initrd-2/initrd",
            "/nix/store/bbb-linux-3/Image",
            "/nix/store/ccc-initrd-3/initrd",
            "/nix/store/ddd-art/bg.png",
        ]
    );
}

#[test]
fn runs_the_secrets_script_of_each_generation_that_has_one() {
    let mut f = facts();
    f.profiles[0].generations[0].spec.initrd_secrets = Some("/nix/store/sss/append-secrets".to_owned());

    assert_eq!(
        scripts_to_run(&f.profiles),
        [("/nix/store/sss/append-secrets".to_owned(), "/nix/store/aaa-system-1".to_owned())]
    );
}

#[test]
fn the_digests_of_the_referenced_files_are_all_rendering_needs() {
    let mut cfg = config(InstallTarget::Efi(efi(EfiDiscovery::Removable, SecureBoot::Disabled)));
    cfg.validate_checksums = true;
    cfg.settings = vec![(
        "wallpaper".to_owned(),
        Setting::Many(vec![Scalar::Str("/nix/store/ddd-art/bg.png".to_owned())]),
    )];
    let mut f = facts();
    f.digests = referenced_files(&cfg, &f.profiles)
        .into_iter()
        .map(|path| {
            let digest = nixos_limine::hash::blake2b(path.as_bytes());
            (path, digest)
        })
        .collect();

    let (_, text) = match prepare(&cfg, &f) {
        Ok(prepared) => prepared,
        Err(e) => panic!("{}", e.message()),
    };
    let expected = nixos_limine::hash::blake2b(b"/nix/store/bbb-linux-1/Image");
    assert!(text.contains(&format!("kernel_path: boot():/limine/kernels/bbb-linux-1-Image#{expected}")), "{text}");
}

#[test]
fn enrols_the_digest_of_the_config_it_writes() {
    let mut e = efi(EfiDiscovery::Removable, SecureBoot::Disabled);
    e.enroll_config = true;
    let cfg = config(InstallTarget::Efi(e));
    let f = facts();
    let (plan, text) = prepare(&cfg, &f).ok().expect("prepared");

    let written = plan
        .actions()
        .iter()
        .find_map(|a| match a {
            Action::Write { to, contents } if to == "/boot/limine/limine.conf" => Some(contents.clone()),
            _ => None,
        })
        .expect("limine.conf");
    let steps = finish(&cfg, &f, &text);
    let Step::Run(enrol) = &steps[0] else { panic!("expected enroll-config") };

    assert_eq!(enrol.arguments()[2], nixos_limine::hash::blake2b(&written));
}

#[test]
fn lists_a_single_wallpaper_too() {
    let mut cfg = config(InstallTarget::Bios(BiosConfig { stage1: None }));
    cfg.settings = vec![("wallpaper".to_owned(), Setting::One(Scalar::Str("/nix/store/ddd-art/bg.png".to_owned())))];

    assert_eq!(referenced_files(&cfg, &facts().profiles).last().map(String::as_str), Some("/nix/store/ddd-art/bg.png"));
}
