use nixos_limine::profiles::{Profiles, generation_number_of};

const ROOT: &str = "/tmp/fixture/profiles";

fn names(entries: &[&str]) -> Vec<String> {
    entries.iter().map(|e| (*e).to_owned()).collect()
}

#[test]
fn reads_generations_out_of_the_symlink_names() {
    let found = names(&["system-1-link", "system-10-link", "system-2-link"]);

    assert_eq!(Profiles::new(ROOT).generations("system", &found, None), [1, 2, 10]);
}

#[test]
fn ignores_everything_that_is_not_a_generation() {
    let found = names(&["system-1-link", "system", "system-profiles", "per-user"]);

    assert_eq!(Profiles::new(ROOT).generations("system", &found, None), [1]);
}

#[test]
fn keeps_only_the_newest_max_generations() {
    let found = names(&["system-1-link", "system-2-link", "system-3-link"]);
    let profiles = Profiles::new(ROOT);

    assert_eq!(profiles.generations("system", &found, Some(2)), [2, 3]);
    assert_eq!(profiles.generations("system", &found, Some(9)), [1, 2, 3]);
}

#[test]
fn finds_non_system_profiles_and_their_generations() {
    let others = names(&["test", "test-1-link", "test-2-link"]);
    let profiles = Profiles::new(ROOT);

    assert_eq!(profiles.list(&others), ["test"]);
    assert_eq!(profiles.generations("test", &others, None), [1, 2]);
}

#[test]
fn a_system_without_other_profiles_lists_none() {
    assert!(Profiles::new(ROOT).list(&vec![]).is_empty());
}

#[test]
fn generation_paths_are_where_nix_puts_them() {
    let profiles = Profiles::new(ROOT);

    assert_eq!(profiles.generation_path("system", 7), format!("{ROOT}/system-7-link"));
    assert_eq!(profiles.generation_path("test", 7), format!("{ROOT}/system-profiles/test-7-link"));
}

#[test]
fn lists_profiles_in_name_order() {
    let others = names(&["zeta", "alpha", "alpha-3-link", "mid"]);

    assert_eq!(Profiles::new(ROOT).list(&others), ["alpha", "mid", "zeta"]);
}

#[test]
fn a_generation_name_is_the_profile_a_number_and_link() {
    assert_eq!(generation_number_of("system", "system-12-link"), Some(12));
    assert_eq!(generation_number_of("system", "system--link"), None);
    assert_eq!(generation_number_of("system", "system-x-link"), None);
    assert_eq!(generation_number_of("system", "other-1-link"), None);
    assert_eq!(generation_number_of("test", "test-99999999999-link"), None);
}

#[test]
fn the_system_profiles_live_where_nix_keeps_them() {
    assert_eq!(Profiles::system().dir("system"), "/nix/var/nix/profiles");
    assert_eq!(Profiles::system().dir("test"), "/nix/var/nix/profiles/system-profiles");
}
