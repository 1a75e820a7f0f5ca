use nixos_limine::bootspec::{BootSpec, Xen, XenBoot};
use nixos_limine::entries::generation_entries_exec;
use nixos_limine::facts::{Facts, Generation, Profile};
use nixos_limine::hash::blake2b;
use nixos_limine::plan::{Action, Plan};

const STORE: &str = "/tmp/fixture/store";

fn spec(specialisations: Vec<(String, BootSpec)>, xen: Option<Xen>) -> BootSpec {
    BootSpec {
        init: "/nix/store/aaa-finix-system/init".to_owned(),
        kernel: format!("{STORE}/bbb-linux/Image"),
        kernel_params: vec!["console=ttyAMA0".to_owned(), "quiet".to_owned()],
        label: "finix (Linux 6.18.50)".to_owned(),
        toplevel: "/nix/store/aaa-finix-system".to_owned(),
        initrd: Some(format!("{STORE}/ccc-initrd/initrd")),
        initrd_secrets: None,
        specialisations,
        xen,
    }
}

fn hardened() -> (String, BootSpec) {
    (
        "hardened".to_owned(),
        BootSpec {
            init: "/nix/store/ddd-hardened/init".to_owned(),
            kernel: format!("{STORE}/bbb-linux/Image"),
            kernel_params: vec!["lockdown=1".to_owned()],
            label: "finix hardened".to_owned(),
            toplevel: "/nix/store/ddd-hardened".to_owned(),
            initrd: None,
            initrd_secrets: None,
            specialisations: vec![],
            xen: None,
        },
    )
}

/// A Xen extension; `multiboot` says whether its multiboot binary is there.
fn xen(multiboot: bool) -> Xen {
    Xen {
        version: "4.19".to_owned(),
        params: vec!["dom0_mem=4G".to_owned(), "ucode=scan".to_owned()],
        boot: if multiboot {
            Some(XenBoot {
                multiboot: format!("{STORE}/eee-xen/xen"),
                efi: Some(format!("{STORE}/eee-xen/xen.efi")),
            })
        } else {
            None
        },
    }
}

fn generation(spec: BootSpec) -> Generation {
    Generation { number: 1, spec, built_at: "<time>".to_owned() }
}

fn facts(digests: Vec<(String, String)>) -> Facts {
    Facts {
        profiles: vec![Profile { name: "system".to_owned(), generations: vec![] }],
        digests,
        fwupd: vec![],
        secrets: vec![],
        sbctl_keys_exist: false,
        esp: None,
    }
}

fn plan(validate_checksums: bool) -> Plan {
    Plan::new("/tmp/fixture/boot/limine", validate_checksums)
}

fn render_with(plan: &mut Plan, f: &Facts, g: &Generation, efi_support: bool, expanded: bool) -> String {
    match generation_entries_exec(plan, f, g, efi_support, expanded) {
        Ok(entries) => entries,
        Err(e) => panic!("entries: {}", e.message()),
    }
}

fn render(g: &Generation, expanded: bool) -> String {
    render_with(&mut plan(false), &facts(vec![]), g, false, expanded)
}

/// Everything but the `built on` timestamp, line by line.
fn without_timestamp(entries: &str) -> String {
    entries
        .lines()
        .map(|line| match line.split_once(", built on ") {
            Some((head, _)) => format!("{head}, built on <time>"),
            None => line.to_owned(),
        })
        .collect::<Vec<_>>()
        .join("\n")
}

#[test]
fn renders_a_generation_as_one_entry() {
    assert_eq!(
        without_timestamp(&render(&generation(spec(vec![], None)), false)),
        "\
//Generation 1
protocol: linux
comment: finix (Linux 6.18.50), built on <time>
kernel_path: boot():/limine/kernels/bbb-linux-Image
cmdline: init=/nix/store/aaa-finix-system/init console=ttyAMA0 quiet
module_path: boot():/limine/kernels/ccc-initrd-initrd"
    );
}

#[test]
fn renders_specialisations_as_a_submenu() {
    let entries = without_timestamp(&render(&generation(spec(vec![hardened()], None)), true));
    let lines: Vec<&str> = entries.lines().collect();

    assert_eq!(lines[0], "//+Generation 1");
    assert_eq!(lines[1], "///Default");
    assert!(entries.contains("\n///hardened\n"), "{entries}");
    assert!(entries.contains("cmdline: init=/nix/store/ddd-hardened/init lockdown=1"));
}

#[test]
fn only_the_newest_generation_is_expanded() {
    let g = generation(spec(vec![hardened()], None));

    assert!(render(&g, true).starts_with("//+Generation 1"));
    assert!(render(&g, false).starts_with("//Generation 1"));
}

#[test]
fn appends_digests_when_checksums_are_on() {
    let kernel_digest = blake2b(b"kernel");
    let f = facts(vec![
        (format!("{STORE}/bbb-linux/Image"), kernel_digest.clone()),
        (format!("{STORE}/ccc-initrd/initrd"), blake2b(b"initrd")),
    ]);
    let entries = render_with(&mut plan(true), &f, &generation(spec(vec![], None)), false, false);

    let digest = entries
        .lines()
        .find_map(|line| line.strip_prefix("kernel_path: "))
        .and_then(|uri| uri.split_once('#'))
        .map(|(_, digest)| digest.to_owned())
        .expect("a digest");

    assert_eq!(digest, kernel_digest);
}

#[test]
fn renders_a_xen_multiboot_entry() {
    let entries = without_timestamp(&render(&generation(spec(vec![], Some(xen(true)))), false));
    let xen_entry: Vec<&str> = entries
        .lines()
        .skip_while(|line| !line.contains("with Xen"))
        .take_while(|line| *line != "//Generation 1")
        .collect();

    assert_eq!(
        xen_entry,
        [
            "//Generation 1 with Xen 4.19",
            "comment: Xen 4.19 finix (Linux 6.18.50), built on <time>",
            "protocol: multiboot",
            "path: boot():/limine/xen/1/eee-xen-xen",
            "cmdline: -- dom0_mem=4G ucode=scan",
            "module_path: boot():/limine/kernels/bbb-linux-Image",
            "module_string: -- init=/nix/store/aaa-finix-system/init console=ttyAMA0 quiet",
            "module_path: boot():/limine/kernels/ccc-initrd-initrd",
        ]
    );
}

#[test]
fn renders_a_xen_efi_entry_when_efi_is_supported() {
    let entries = render_with(&mut plan(false), &facts(vec![]), &generation(spec(vec![], Some(xen(true)))), true, false);

    assert!(entries.contains("//Generation 1 with Xen 4.19 EFI\n"), "{entries}");
    assert!(entries.contains("protocol: efi\npath: boot():/limine/xen/1/eee-xen-xen.efi"));
    assert!(entries.contains("protocol: multiboot"));
}

#[test]
fn writes_the_xen_efi_config_beside_its_binary() {
    let mut p = plan(false);
    render_with(&mut p, &facts(vec![]), &generation(spec(vec![], Some(xen(true)))), true, false);

    let written = p
        .actions()
        .iter()
        .find_map(|action| match action {
            Action::Write { to, contents } if to.ends_with("eee-xen-xen.cfg") => Some(contents.clone()),
            _ => None,
        })
        .expect("a xen.cfg");

    assert_eq!(
        String::from_utf8(written).expect("utf8"),
        "default=nixos1\n\n[nixos1]\noptions=dom0_mem=4G ucode=scan\n\
         kernel=bbb-linux-Image init=/nix/store/aaa-finix-system/init console=ttyAMA0 quiet\n\
         ramdisk=ccc-initrd-initrd\n"
    );
}

#[test]
fn a_xen_entry_with_no_multiboot_binary_carries_no_protocol() {
    let entries = render(&generation(spec(vec![], Some(xen(false)))), false);

    assert!(entries.contains("//Generation 1 with Xen 4.19\n"), "{entries}");
    assert!(!entries.contains("protocol: multiboot"), "{entries}");
    assert!(!entries.contains("protocol: efi"), "{entries}");
}

#[test]
fn plans_the_copies_without_making_them() {
    let mut p = plan(false);
    render_with(&mut p, &facts(vec![]), &generation(spec(vec![], None)), false, false);

    assert_eq!(p.actions().len(), 2);
    assert!(p.actions().iter().all(|a| matches!(a, Action::CopyIfMissing { .. })));
}

#[test]
fn a_xen_efi_entry_without_its_binary_is_refused() {
    let mut x = xen(true);
    if let Some(boot) = x.boot.as_mut() {
        boot.efi = None;
    }
    let g = generation(spec(vec![], Some(x)));
    let e = generation_entries_exec(&mut plan(false), &facts(vec![]), &g, true, false).err().expect("refused");

    assert_eq!(e.message(), "generation 1 has a Xen bootspec with no efiPath");
}

#[test]
fn carries_the_secrets_a_script_produced() {
    let mut s = spec(vec![], None);
    s.initrd_secrets = Some("/nix/store/fff-secrets/append-secrets".to_owned());
    let mut f = facts(vec![]);
    f.secrets = vec![("/nix/store/aaa-finix-system".to_owned(), b"secret".to_vec())];
    let mut p = plan(false);
    let entries = render_with(&mut p, &f, &generation(s), false, false);

    assert!(entries.ends_with("module_path: boot():/limine/kernels/kernels-aaa-finix-system-secrets\n"), "{entries}");
    assert!(p.actions().iter().any(|a| matches!(a, Action::Write { to, contents }
        if to == "/tmp/fixture/boot/limine/kernels/aaa-finix-system-secrets" && contents == b"secret")));
}
