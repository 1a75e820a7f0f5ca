use nixos_limine::bootspec::{BootSpec, Xen};
use nixos_limine::conf::generate;
use nixos_limine::config::{EfiDiscovery, EfiInstall, InstallTarget, LimineInstallConfig, SecureBoot, Arch};
use nixos_limine::facts::{Facts, Generation, Profile};
use nixos_limine::plan::Plan;
use nixos_limine::profiles::Profiles;
use nixos_limine::settings::{Scalar, Setting};

const STORE: &str = "/tmp/fixture/store";

fn spec(profile: &str, generation: u32, specialisations: Vec<(String, BootSpec)>) -> BootSpec {
    BootSpec {
        init: format!("/nix/store/aaa-{profile}-{generation}/init"),
        kernel: format!("{STORE}/bbb-linux/Image"),
        kernel_params: vec!["quiet".to_owned()],
        label: format!("finix {generation}"),
        toplevel: format!("/nix/store/aaa-{profile}-{generation}"),
        initrd: None,
        initrd_secrets: None,
        specialisations,
        xen: None,
    }
}

fn generation(profile: &str, number: u32) -> Generation {
    Generation { number, spec: spec(profile, number, vec![]), built_at: "2026-09-21 00:00:00".to_owned() }
}

/// The profile as the install reads it: the generations nix keeps, newest
/// first, trimmed to `max`.
fn profile(name: &str, numbers: &[u32], max: Option<u32>) -> Profile {
    let names: Vec<String> = numbers.iter().map(|n| format!("{name}-{n}-link")).collect();
    let mut kept = Profiles::system().generations(name, &names, max);
    kept.reverse();
    Profile { name: name.to_owned(), generations: kept.into_iter().map(|n| generation(name, n)).collect() }
}

fn facts(profiles: Vec<Profile>) -> Facts {
    Facts {
        profiles,
        digests: vec![],
        fwupd: vec![],
        secrets: vec![],
        sbctl_keys_exist: false,
        esp: None,
    }
}

fn config() -> LimineInstallConfig {
    LimineInstallConfig {
        limine_path: "/nix/store/aaa-limine".to_owned(),
        arch: Arch::Aarch64,
        mount_point: "/boot".to_owned(),
        install_dir: "/boot/limine".to_owned(),
        target: InstallTarget::Efi(EfiInstall {
            discovery: EfiDiscovery::Removable,
            enroll_config: false,
            secure_boot: SecureBoot::Disabled,
        }),
        validate_checksums: false,
        max_generations: None,
        settings: vec![],
        extra_entries: String::new(),
        additional_files: vec![],
    }
}

fn render_with(cfg: &LimineInstallConfig, f: &Facts) -> String {
    let mut plan = Plan::new(cfg.install_dir.as_str(), cfg.validate_checksums);
    match generate(&mut plan, cfg, f) {
        Ok(conf) => conf,
        Err(e) => panic!("limine.conf: {}", e.message()),
    }
}

fn render(f: &Facts) -> String {
    render_with(&config(), f)
}

fn skeleton(conf: &str) -> Vec<&str> {
    conf.lines()
        .filter(|line| {
            line.is_empty() || line.starts_with('/') || line.starts_with('#') || line.starts_with("default_entry")
        })
        .collect()
}

fn setting(key: &str, value: Setting) -> (String, Setting) {
    (key.to_owned(), value)
}

#[test]
fn frames_the_entries_with_the_markers_the_module_documents() {
    let f = facts(vec![profile("system", &[1], None)]);

    assert_eq!(
        skeleton(&render(&f)),
        [
            "default_entry: 2",
            "",
            "# NixOS boot entries start here",
            "/+NixOS default profile",
            "//Generation 1",
            "",
            "# NixOS boot entries end here",
        ]
    );
}

#[test]
fn lists_generations_newest_first() {
    let conf = render(&facts(vec![profile("system", &[1, 2, 3], None)]));
    let generations: Vec<&str> = conf.lines().filter(|line| line.starts_with("//")).collect();

    assert_eq!(generations, ["//Generation 3", "//Generation 2", "//Generation 1"]);
}

#[test]
fn honours_max_generations() {
    let conf = render(&facts(vec![profile("system", &[1, 2, 3], Some(2))]));

    assert!(conf.contains("//Generation 3"));
    assert!(conf.contains("//Generation 2"));
    assert!(!conf.contains("//Generation 1"), "{conf}");
}

#[test]
fn gives_every_profile_its_own_group() {
    let conf = render(&facts(vec![profile("system", &[1], None), profile("test", &[1], None)]));

    assert!(conf.contains("/+NixOS default profile"));
    assert!(conf.contains("/+NixOS profile 'test'"), "{conf}");
}

#[test]
fn renders_settings_the_way_limine_spells_them() {
    let mut cfg = config();
    cfg.settings = vec![
        setting("backdrop", Setting::One(Scalar::Str("2F302F".to_owned()))),
        setting("editor_enabled", Setting::One(Scalar::Bool(false))),
        setting("graphics", Setting::One(Scalar::Bool(true))),
        setting("timeout", Setting::One(Scalar::Str("no".to_owned()))),
    ];
    let conf = render_with(&cfg, &facts(vec![profile("system", &[1], None)]));

    let settings: Vec<&str> = conf.lines().take_while(|line| !line.is_empty()).collect();

    assert_eq!(
        settings,
        ["backdrop: 2F302F", "editor_enabled: no", "graphics: yes", "timeout: no", "default_entry: 2"]
    );
}

#[test]
fn repeats_a_key_for_each_value_in_a_list() {
    let mut cfg = config();
    cfg.settings = vec![setting(
        "module_path",
        Setting::Many(vec![Scalar::Str("a".to_owned()), Scalar::Str("b".to_owned())]),
    )];
    let conf = render_with(&cfg, &facts(vec![profile("system", &[1], None)]));

    assert!(conf.contains("module_path: a\nmodule_path: b\n"), "{conf}");
}

#[test]
fn copies_wallpapers_and_refers_to_them_by_uri() {
    let mut cfg = config();
    let wallpaper = format!("{STORE}/ddd-art/bg.png");
    cfg.settings = vec![setting("wallpaper", Setting::Many(vec![Scalar::Str(wallpaper)]))];
    let f = facts(vec![profile("system", &[1], None)]);

    let mut plan = Plan::new(cfg.install_dir.as_str(), cfg.validate_checksums);
    let conf = match generate(&mut plan, &cfg, &f) {
        Ok(conf) => conf,
        Err(e) => panic!("conf: {}", e.message()),
    };

    assert!(conf.contains("wallpaper: boot():/limine/wallpapers/ddd-art-bg.png"), "{conf}");
    assert!(
        plan.actions().iter().any(|action| action.destination().ends_with("wallpapers/ddd-art-bg.png")),
        "the wallpaper was never asked for"
    );
}

#[test]
fn picks_a_default_entry_that_matches_the_menu_depth() {
    let plain = facts(vec![profile("system", &[1], None)]);
    assert!(render(&plain).contains("default_entry: 2"));

    let hardened = BootSpec {
        init: "/nix/store/ddd/init".to_owned(),
        kernel: format!("{STORE}/bbb-linux/Image"),
        kernel_params: vec![],
        label: "h".to_owned(),
        toplevel: "/nix/store/ddd".to_owned(),
        initrd: None,
        initrd_secrets: None,
        specialisations: vec![],
        xen: None,
    };
    let nested = Generation {
        number: 1,
        spec: spec("system", 1, vec![("hardened".to_owned(), hardened)]),
        built_at: "2026-09-21 00:00:00".to_owned(),
    };
    let f = facts(vec![Profile { name: "system".to_owned(), generations: vec![nested] }]);
    assert!(render(&f).contains("default_entry: 3"));
}

#[test]
fn leaves_an_explicit_default_entry_alone() {
    let mut cfg = config();
    cfg.settings = vec![setting("default_entry", Setting::One(Scalar::Int(7)))];
    let conf = render_with(&cfg, &facts(vec![profile("system", &[1], None)]));

    assert!(conf.contains("default_entry: 7"), "{conf}");
    assert_eq!(conf.matches("default_entry").count(), 1, "{conf}");
}

#[test]
fn appends_extra_entries_after_the_generated_ones() {
    let mut cfg = config();
    cfg.extra_entries = "/memtest\n  protocol: chainload\n".to_owned();
    let conf = render_with(&cfg, &facts(vec![profile("system", &[1], None)]));

    let (_, tail) = conf.split_once("# NixOS boot entries end here").expect("marker");
    assert_eq!(tail.trim(), "/memtest\n  protocol: chainload");
}

#[test]
fn writes_nothing_while_rendering() {
    let cfg = config();
    let f = facts(vec![profile("system", &[1], None)]);
    let mut plan = Plan::new(cfg.install_dir.as_str(), cfg.validate_checksums);
    let conf = generate(&mut plan, &cfg, &f);

    assert!(conf.is_ok());
    // rendering only asks: the kernel is recorded as wanted, nothing else
    assert_eq!(plan.actions().len(), 1);
    assert!(plan.actions()[0].destination().starts_with("/boot/limine/kernels/"));
}

#[test]
fn refuses_a_system_with_no_generations() {
    let f = facts(vec![Profile { name: "system".to_owned(), generations: vec![] }]);
    let mut plan = Plan::new("/boot/limine", false);
    let e = generate(&mut plan, &config(), &f).err().expect("no generations");

    assert_eq!(e.message(), "the system profile has no generations");
}

#[test]
fn a_missing_digest_fails_the_render_when_checksums_are_on() {
    let mut cfg = config();
    cfg.validate_checksums = true;
    let f = facts(vec![profile("system", &[1], None)]);
    let mut plan = Plan::new(cfg.install_dir.as_str(), true);
    let e = generate(&mut plan, &cfg, &f).err().expect("no digest");

    assert_eq!(e.message(), format!("could not read {STORE}/bbb-linux/Image"));
}

#[test]
fn counts_the_xen_entries_ahead_of_the_default() {
    let mut g = generation("system", 1);
    g.spec.xen = Some(Xen { version: "4.19".to_owned(), params: vec![], boot: None });
    let f = facts(vec![Profile { name: "system".to_owned(), generations: vec![g] }]);

    // EFI lists a chainloading entry and a multiboot one ahead of it
    assert!(render(&f).contains("default_entry: 4"), "{}", render(&f));

    let mut bios = config();
    bios.target = InstallTarget::Bios(nixos_limine::config::BiosConfig { stage1: None });
    assert!(render_with(&bios, &f).contains("default_entry: 3"));
}

#[test]
fn a_failed_render_for_want_of_generations_asks_for_nothing() {
    let f = facts(vec![Profile { name: "system".to_owned(), generations: vec![] }]);
    let mut plan = Plan::new("/boot/limine", false);

    assert!(generate(&mut plan, &config(), &f).is_err());
    assert!(plan.actions().is_empty());
}
