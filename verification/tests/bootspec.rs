use nixos_limine::bootspec::{BootSpec, Document, RawBootSpec, RawXen, resolve_xen};

const TOPLEVEL: &str = "/nix/store/aaa-finix-system";

fn document() -> Document {
    Document {
        init: format!("{TOPLEVEL}/init"),
        kernel: "/nix/store/ccc-linux/Image".to_owned(),
        kernel_params: vec!["console=ttyAMA0".to_owned(), "quiet".to_owned()],
        label: "finix (Linux 6.18.50)".to_owned(),
        toplevel: TOPLEVEL.to_owned(),
        initrd: Some("/nix/store/bbb-initrd/initrd".to_owned()),
        initrd_secrets: None,
    }
}

fn boot_json(xen: Option<RawXen>) -> RawBootSpec {
    RawBootSpec { document: document(), specialisations: vec![], xen }
}

fn parse(raw: RawBootSpec) -> BootSpec {
    BootSpec::from_raw(raw, &vec![])
}

#[test]
fn flattens_the_bootspec_document() {
    let spec = parse(boot_json(None));

    assert_eq!(spec.label, "finix (Linux 6.18.50)");
    assert_eq!(spec.kernel, "/nix/store/ccc-linux/Image");
    assert!(spec.initrd.is_some());
    assert!(spec.initrd_secrets.is_none());
    assert!(!spec.has_specialisations());
    assert!(spec.xen.is_none());
}

#[test]
fn builds_the_kernel_command_line() {
    assert_eq!(parse(boot_json(None)).cmdline(), format!("init={TOPLEVEL}/init console=ttyAMA0 quiet"));
}

#[test]
fn reads_specialisations_as_nested_generations() {
    let hardened = RawBootSpec {
        document: Document {
            init: format!("{TOPLEVEL}-hardened/init"),
            kernel: "/nix/store/ddd-linux/Image".to_owned(),
            kernel_params: vec!["lockdown=1".to_owned()],
            label: "finix hardened".to_owned(),
            toplevel: format!("{TOPLEVEL}-hardened"),
            initrd: None,
            initrd_secrets: None,
        },
        specialisations: vec![],
        xen: None,
    };
    let raw = RawBootSpec {
        document: Document {
            init: format!("{TOPLEVEL}/init"),
            kernel: "/nix/store/ccc-linux/Image".to_owned(),
            kernel_params: vec![],
            label: "finix".to_owned(),
            toplevel: TOPLEVEL.to_owned(),
            initrd: None,
            initrd_secrets: None,
        },
        specialisations: vec![("hardened".to_owned(), hardened)],
        xen: None,
    };

    let spec = parse(raw);
    assert!(spec.has_specialisations());

    let (name, hardened) = &spec.specialisations[0];
    assert_eq!(name, "hardened");
    assert_eq!(hardened.label, "finix hardened");
    assert!(hardened.cmdline().ends_with("lockdown=1"));
}

#[test]
fn ignores_a_xen_extension_with_no_version() {
    let spec = parse(boot_json(Some(RawXen {
        efi_path: None,
        multiboot_path: None,
        params: vec!["dom0_mem=4G".to_owned()],
        version: None,
    })));

    assert!(spec.xen.is_none());
}

#[test]
fn reads_a_versioned_xen_extension_without_a_multiboot_binary() {
    let spec = parse(boot_json(Some(RawXen {
        efi_path: None,
        multiboot_path: None,
        params: vec!["dom0_mem=4G".to_owned(), "ucode=scan".to_owned()],
        version: Some("4.19".to_owned()),
    })));

    let xen = spec.xen.expect("xen");
    assert_eq!(xen.version, "4.19");
    assert_eq!(xen.params(), "dom0_mem=4G ucode=scan");
    assert!(xen.boot.is_none());
}

#[test]
fn boots_xen_only_from_a_multiboot_binary_that_is_there() {
    let raw = RawXen {
        efi_path: Some("/nix/store/eee-xen/boot/xen.efi".to_owned()),
        multiboot_path: Some("/nix/store/eee-xen/boot/xen".to_owned()),
        params: vec![],
        version: Some("4.19".to_owned()),
    };
    let missing = resolve_xen(raw, &vec![]).expect("xen");
    assert!(missing.boot.is_none());

    let raw = RawXen {
        efi_path: Some("/nix/store/eee-xen/boot/xen.efi".to_owned()),
        multiboot_path: Some("/nix/store/eee-xen/boot/xen".to_owned()),
        params: vec![],
        version: Some("4.19".to_owned()),
    };
    let present = resolve_xen(raw, &vec!["/nix/store/eee-xen/boot/xen".to_owned()]).expect("xen");
    let boot = present.boot.expect("boot");
    assert_eq!(boot.multiboot, "/nix/store/eee-xen/boot/xen");
    assert_eq!(boot.efi.as_deref(), Some("/nix/store/eee-xen/boot/xen.efi"));
}

#[test]
fn an_empty_command_line_is_just_init() {
    let mut doc = document();
    doc.kernel_params = vec![];
    let spec = parse(RawBootSpec { document: doc, specialisations: vec![], xen: None });
    assert_eq!(spec.cmdline(), format!("init={TOPLEVEL}/init"));
}
