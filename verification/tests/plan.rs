use nixos_limine::plan::{Action, Plan, dest_file_of, tmp_path_of, uri_path_of};

const KERNEL: &str = "/nix/store/abcdef-linux-6.18.50/Image";

fn plan() -> Plan {
    Plan::new("/boot/limine", false)
}

#[test]
fn names_copies_after_the_store_path_they_came_from() {
    assert_eq!(dest_file_of(KERNEL), "abcdef-linux-6.18.50-Image");
}

#[test]
fn puts_copies_under_their_target_directory() {
    assert_eq!(plan().dest_path(KERNEL, "kernels"), "/boot/limine/kernels/abcdef-linux-6.18.50-Image");
}

#[test]
fn uris_are_relative_to_the_boot_volume() {
    assert_eq!(uri_path_of(KERNEL, "kernels"), "/limine/kernels/abcdef-linux-6.18.50-Image");
}

#[test]
fn an_empty_target_puts_the_file_at_the_top() {
    assert_eq!(uri_path_of(KERNEL, ""), "/limine/abcdef-linux-6.18.50-Image");
}

#[test]
fn records_what_it_would_do_without_doing_it() {
    let mut plan = plan();
    plan.copy("/nix/store/x-limine/BOOTAA64.EFI", "/boot/efi/boot/BOOTAA64.EFI");
    plan.write_text("/boot/limine/limine.conf", "timeout: 5\n");

    let actions = plan.actions();
    assert_eq!(actions.len(), 2);
    match &actions[0] {
        Action::Copy { from, to } => {
            assert_eq!(from, "/nix/store/x-limine/BOOTAA64.EFI");
            assert_eq!(to, "/boot/efi/boot/BOOTAA64.EFI");
        },
        _ => panic!("expected a copy"),
    }
    match &actions[1] {
        Action::Write { to, contents } => {
            assert_eq!(to, "/boot/limine/limine.conf");
            assert_eq!(contents, b"timeout: 5\n");
        },
        _ => panic!("expected a write"),
    }
}

#[test]
fn asks_for_kernels_only_if_they_are_missing() {
    let mut plan = plan();
    let uri = match plan.copied_uri(KERNEL, "kernels", None) {
        Ok(uri) => uri,
        Err(e) => panic!("{}", e.message()),
    };

    assert_eq!(uri, "boot():/limine/kernels/abcdef-linux-6.18.50-Image");
    assert!(matches!(plan.actions().as_slice(), [Action::CopyIfMissing { .. }]));
}

#[test]
fn carries_the_digest_when_checksums_are_on() {
    let mut plan = Plan::new("/boot/limine", true);
    let digest = "ab".repeat(64);
    let uri = match plan.copied_uri(KERNEL, "kernels", Some(&digest)) {
        Ok(uri) => uri,
        Err(e) => panic!("{}", e.message()),
    };

    assert_eq!(uri, format!("boot():/limine/kernels/abcdef-linux-6.18.50-Image#{digest}"));
}

#[test]
fn a_copy_without_a_digest_is_refused_when_checksums_are_on() {
    let mut plan = Plan::new("/boot/limine", true);
    let error = plan.copied_uri(KERNEL, "kernels", None).err().expect("refused");

    assert_eq!(error.message(), format!("could not read {KERNEL}"));
}

#[test]
fn a_copy_lands_where_its_uri_says() {
    let plan = Plan::new("/boot/limine", false);
    let dest = plan.dest_path(KERNEL, "kernels");

    assert_eq!(dest, format!("/boot{}", uri_path_of(KERNEL, "kernels")));
}

#[test]
fn prunes_only_what_the_plan_did_not_ask_for() {
    let mut plan = plan();
    plan.copy("/nix/store/x/kernel", "/boot/limine/kernels/kernel");
    let present = vec![
        "/boot/limine/kernels/kernel".to_owned(),
        "/boot/limine/kernels/old-kernel".to_owned(),
        "/boot/limine//kernels/kernel".to_owned(),
    ];

    assert_eq!(plan.stale(&present), vec!["/boot/limine/kernels/old-kernel".to_owned()]);
}

#[test]
fn stages_a_file_beside_where_it_goes() {
    assert_eq!(tmp_path_of("/boot/limine/limine.conf"), "/boot/limine/limine.conf.tmp");
}
