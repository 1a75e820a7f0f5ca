use nixos_limine::config::{KeyPolicy, SecureBoot};
use nixos_limine::secure_boot::{check, efi_binaries, sign};
use nixos_limine::step::Step;

const SBCTL: &str = "/nix/store/bbb-sbctl/bin/sbctl";

fn enabled(keys: KeyPolicy, fwupd: Option<String>) -> SecureBoot {
    SecureBoot::Enabled { sbctl: SBCTL.to_owned(), keys, fwupd }
}

/// What would be run, as `sbctl` sees its arguments.
fn calls(steps: &[Step]) -> Vec<String> {
    steps
        .iter()
        .filter_map(|step| match step {
            Step::Run(invocation) => {
                assert_eq!(invocation.program(), SBCTL);
                Some(invocation.arguments().join(" "))
            },
            _ => None,
        })
        .collect()
}

fn signing(secure_boot: &SecureBoot, keys_exist: bool, fwupd_binaries: &Vec<String>) -> Vec<Step> {
    let mut steps = Vec::new();
    sign(secure_boot, "/boot/x.efi", keys_exist, fwupd_binaries, &mut steps);
    steps
}

#[test]
fn disabled_secure_boot_does_nothing() {
    assert!(check(&SecureBoot::Disabled, false).is_ok());
    assert!(signing(&SecureBoot::Disabled, false, &vec![]).is_empty());
}

#[test]
fn requiring_keys_fails_when_there_are_none() {
    let secure_boot = enabled(KeyPolicy::Require, None);

    let error = check(&secure_boot, false).unwrap_err();
    assert!(error.message().contains("no sbctl secure boot keys"));

    assert!(check(&secure_boot, true).is_ok());
}

#[test]
fn generating_keys_never_fails_the_check() {
    let generate = enabled(KeyPolicy::Generate { enroll: None }, None);

    assert!(check(&generate, false).is_ok());
}

#[test]
fn signs_without_generating_when_keys_are_already_there() {
    let secure_boot = enabled(KeyPolicy::Generate { enroll: None }, None);

    assert_eq!(calls(&signing(&secure_boot, true, &vec![])), ["sign /boot/x.efi"]);
}

#[test]
fn generates_keys_before_signing_when_there_are_none() {
    let secure_boot = enabled(KeyPolicy::Generate { enroll: None }, None);

    assert_eq!(calls(&signing(&secure_boot, false, &vec![])), ["create-keys", "sign /boot/x.efi"]);
}

#[test]
fn enrols_generated_keys_with_the_configured_arguments() {
    let secure_boot = enabled(
        KeyPolicy::Generate { enroll: Some(vec!["--microsoft".to_owned(), "--firmware-builtin".to_owned()]) },
        None,
    );

    assert_eq!(
        calls(&signing(&secure_boot, false, &vec![])),
        ["create-keys", "enroll-keys --microsoft --firmware-builtin", "sign /boot/x.efi"]
    );
}

#[test]
fn does_not_enrol_over_existing_keys() {
    let secure_boot = enabled(KeyPolicy::Generate { enroll: Some(vec!["--microsoft".to_owned()]) }, None);

    assert_eq!(calls(&signing(&secure_boot, true, &vec![])), ["sign /boot/x.efi"]);
}

#[test]
fn signs_every_fwupd_efi_binary() {
    let fwupd = "/nix/store/ccc-fwupd".to_owned();
    let secure_boot = enabled(KeyPolicy::Require, Some(fwupd.clone()));
    let names = vec!["fwupdx64.efi".to_owned(), "fwupd.efi".to_owned(), "notes.txt".to_owned()];
    let binaries = efi_binaries(&fwupd, &names);

    assert_eq!(
        calls(&signing(&secure_boot, true, &binaries)),
        [
            "sign /boot/x.efi",
            "sign /nix/store/ccc-fwupd/libexec/fwupd/efi/fwupd.efi",
            "sign /nix/store/ccc-fwupd/libexec/fwupd/efi/fwupdx64.efi",
        ]
    );
}

#[test]
fn tolerates_an_fwupd_with_no_efi_binaries() {
    let secure_boot = enabled(KeyPolicy::Require, Some("/nix/store/absent".to_owned()));
    let binaries = efi_binaries("/nix/store/absent", &vec![]);

    assert!(binaries.is_empty());
    assert_eq!(calls(&signing(&secure_boot, true, &binaries)), ["sign /boot/x.efi"]);
}

#[test]
fn says_what_it_signs() {
    let secure_boot = enabled(KeyPolicy::Require, Some("/nix/store/ccc-fwupd".to_owned()));
    let steps = signing(&secure_boot, true, &vec!["/nix/store/ccc-fwupd/libexec/fwupd/efi/fwupd.efi".to_owned()]);
    let notes: Vec<&str> = steps
        .iter()
        .filter_map(|step| match step {
            Step::Note(note) => Some(note.as_str()),
            _ => None,
        })
        .collect();

    assert_eq!(notes, ["signing limine...", "signing fwupd: fwupd.efi"]);
}
