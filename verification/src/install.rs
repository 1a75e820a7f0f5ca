//! An install from start to end: what to put on the boot filesystem, and
//! what to do once it is there.

use vstd::prelude::*;
use crate::bios;
use crate::config::{BiosConfig, EfiDiscovery, EfiInstall, LimineInstallConfig, bios_of, efi_boot_file, efi_of, image_path};
use crate::conf::{conf, generate};
use crate::efi;
use crate::error::{ErrorView, InstallError};
use crate::facts::{Facts, Partition};
use crate::path::{join, path_join};
use crate::plan::{ActionView, Plan, PlanView, with_action};
use crate::secure_boot::{check, missing_keys};
use crate::step::{Step, StepView, push_step, step_views};
use vstd::utf8::encode_utf8;

verus! {

/// The copies `additionalFiles` asks for, each source to its destination
/// under the ESP's mount point, in key order.
pub open spec fn with_additional(p: PlanView, mount_point: Seq<char>, files: Seq<(String, String)>) -> PlanView
    decreases files.len(),
{
    if files.len() == 0 {
        p
    } else {
        with_action(
            with_additional(p, mount_point, files.drop_last()),
            ActionView::Copy { from: files.last().1@, to: path_join(mount_point, files.last().0@) },
        )
    }
}

/// The plan an install starts from: nothing asked for yet.
pub open spec fn empty_plan(cfg: &LimineInstallConfig) -> PlanView {
    PlanView { install_dir: cfg.install_dir@, validate_checksums: cfg.validate_checksums, actions: seq![] }
}

/// Everything an install puts on the boot filesystem, in order: what
/// limine.conf names, limine.conf itself, the additional files, then the EFI
/// binary and the BIOS stage 2 where those are installed. Nothing at all
/// when secure boot needs keys that are not there.
pub open spec fn prepared(cfg: &LimineInstallConfig, f: &Facts) -> Result<(Seq<char>, PlanView), ErrorView> {
    if efi_of(&cfg.target) matches Some(e) && missing_keys(&e.secure_boot, f.sbctl_keys_exist) {
        Err(ErrorView::NoSecureBootKeys)
    } else {
        match conf(empty_plan(cfg), cfg, f) {
            Err(e) => Err(e),
            Ok((text, p1)) => {
                let p2 = with_action(
                    p1,
                    ActionView::Write { to: path_join(cfg.install_dir@, "limine.conf"@), contents: encode_utf8(text) },
                );
                let p3 = with_additional(p2, cfg.mount_point@, cfg.additional_files@);
                let p4 = match efi_of(&cfg.target) {
                    Some(e) => with_action(
                        p3,
                        ActionView::Copy {
                            from: path_join(path_join(cfg.limine_path@, "share/limine"@), efi_boot_file(cfg.arch)),
                            to: image_path(cfg.mount_point@, e.discovery, efi_boot_file(cfg.arch)),
                        },
                    ),
                    None => p3,
                };
                let p5 = match bios_of(&cfg.target) {
                    Some(_) => with_action(
                        p4,
                        ActionView::Copy {
                            from: path_join(cfg.limine_path@, "share/limine/limine-bios.sys"@),
                            to: bios::stage2_dest(cfg),
                        },
                    ),
                    None => p4,
                };
                Ok((text, p5))
            },
        }
    }
}

/// Works out an install: the plan to carry out, and the text of
/// limine.conf, which what follows the plan needs again.
pub fn prepare(cfg: &LimineInstallConfig, f: &Facts) -> (r: Result<(Plan, String), InstallError>)
    requires
        cfg.well_formed(),
        f.well_formed(),
    ensures
        match r {
            Ok((plan, text)) => prepared(cfg, f) == Ok::<(Seq<char>, PlanView), ErrorView>((text@, plan@)),
            Err(e) => prepared(cfg, f) == Err::<(Seq<char>, PlanView), ErrorView>(e@),
        },
{
    match cfg.secure_boot() {
        Some(sb) => match check(sb, f.sbctl_keys_exist) {
            Ok(()) => {},
            Err(e) => return Err(e),
        },
        None => {},
    }
    let mut plan = Plan::new(cfg.install_dir.as_str(), cfg.validate_checksums);
    assert(plan@ == empty_plan(cfg));
    let text = match generate(&mut plan, cfg, f) {
        Ok(t) => t,
        Err(e) => return Err(e),
    };
    plan.write_text(cfg.limine_conf().as_str(), text.as_str());
    let ghost p2 = plan@;
    let mut i: usize = 0;
    while i < cfg.additional_files.len()
        invariant
            i <= cfg.additional_files@.len(),
            plan@ == with_additional(p2, cfg.mount_point@, cfg.additional_files@.take(i as int)),
        decreases cfg.additional_files@.len() - i,
    {
        let (dest, source) = &cfg.additional_files[i];
        let to = join(cfg.mount_point.as_str(), dest.as_str());
        plan.copy(source.as_str(), to.as_str());
        assert(cfg.additional_files@.take(i + 1).drop_last() == cfg.additional_files@.take(i as int));
        i = i + 1;
    }
    assert(cfg.additional_files@.take(i as int) == cfg.additional_files@);
    match cfg.target.here() {
        Some(e) => efi::plan(&mut plan, cfg, e),
        None => {},
    }
    match cfg.target.there() {
        Some(_) => bios::plan(&mut plan, cfg),
        None => {},
    }
    Ok((plan, text))
}

/// The steps that follow the plan, with `e` the boot entry registered, if
/// any: the EFI binary activated, then stage 1 written for BIOS, each
/// where it is installed.
pub open spec fn finish_steps(
    cfg: &LimineInstallConfig,
    f: &Facts,
    limine_conf: Seq<char>,
    e: Option<crate::nvram::BootEntry>,
) -> Seq<StepView> {
    (match efi_of(&cfg.target) {
        Some(x) => efi::enroll_steps(cfg, x, limine_conf) + crate::secure_boot::sign_steps(
            &x.secure_boot,
            image_path(cfg.mount_point@, x.discovery, efi_boot_file(cfg.arch)),
            f.sbctl_keys_exist,
            crate::text::strs(f.fwupd@),
        ) + efi::discovery_steps(x, e),
        None => seq![],
    }) + bios_steps(cfg)
}

/// `steps` are what follows the plan: the only entry they register names
/// limine's binary on the ESP's partition, and one is registered exactly
/// when the config says so.
pub open spec fn finishes(
    cfg: &LimineInstallConfig,
    f: &Facts,
    limine_conf: Seq<char>,
    steps: Seq<StepView>,
) -> bool {
    exists|e: Option<crate::nvram::BootEntry>| {
        &&& steps == #[trigger] finish_steps(cfg, f, limine_conf, e)
        &&& (e matches Some(entry) ==> efi::registers(entry, f.esp->0, efi_boot_file(cfg.arch)))
        &&& (efi_of(&cfg.target) matches Some(x) && x.discovery == EfiDiscovery::Registered ==> e is Some)
    }
}

/// Stage 1 written to the disk, when BIOS is installed onto one.
pub open spec fn bios_steps(cfg: &LimineInstallConfig) -> Seq<StepView> {
    match bios_of(&cfg.target) {
        Some(b) => match b.stage1 {
            Some(_) => seq![
                StepView::Stage1(
                    crate::cmd::InvocationView {
                        program: path_join(cfg.limine_path@, "bin/limine"@),
                        args: bios::bios_install_args(b),
                    },
                ),
            ],
            None => seq![],
        },
        None => seq![],
    }
}

/// The steps that follow carrying out the plan, in order. A registered
/// boot entry names the ESP's partition, which has to have been read.
pub fn finish(cfg: &LimineInstallConfig, f: &Facts, limine_conf: &str) -> (r: Vec<Step>)
    requires
        crate::gather::registers_boot_entry(cfg) ==> f.esp is Some,
    ensures
        finishes(cfg, f, limine_conf@, step_views(r@)),
{
    let mut steps: Vec<Step> = Vec::new();
    assert(step_views(steps@) =~= Seq::<StepView>::empty());
    let ghost mut e: Option<crate::nvram::BootEntry> = None;
    match cfg.target.here() {
        Some(x) => {
            let esp = f.esp.as_ref();
            efi::activate(cfg, x, limine_conf, f.sbctl_keys_exist, &f.fwupd, esp, &mut steps);
            proof {
                e = choose|e: Option<crate::nvram::BootEntry>| {
                    &&& step_views(steps@) == Seq::<StepView>::empty() + efi::enroll_steps(cfg, x, limine_conf@)
                        + crate::secure_boot::sign_steps(
                        &x.secure_boot,
                        image_path(cfg.mount_point@, x.discovery, efi_boot_file(cfg.arch)),
                        f.sbctl_keys_exist,
                        crate::text::strs(f.fwupd@),
                    ) + efi::discovery_steps(x, e)
                    &&& (e matches Some(entry) ==> efi::registers(entry, *esp->0, efi_boot_file(cfg.arch)))
                    &&& (x.discovery == EfiDiscovery::Registered ==> e is Some)
                };
                if x.discovery == EfiDiscovery::Registered {
                    assert(*esp->0 == f.esp->0);
                } else {
                    assert(efi::discovery_steps(x, e) == efi::discovery_steps(x, None));
                    e = None;
                }
            }
        },
        None => {},
    }
    let ghost activated = step_views(steps@);
    match cfg.target.there() {
        Some(b) => match bios::command(cfg, b) {
            Some(inv) => {
                push_step(&mut steps, Step::Stage1(inv));
            },
            None => {},
        },
        None => {},
    }
    assert(step_views(steps@) =~= activated + bios_steps(cfg));
    assert(step_views(steps@) == finish_steps(cfg, f, limine_conf@, e));
    steps
}

proof fn lemma_additional_keeps(p: PlanView, mount_point: Seq<char>, files: Seq<(String, String)>, a: ActionView)
    requires
        p.actions.contains(a),
    ensures
        with_additional(p, mount_point, files).actions.contains(a),
        with_additional(p, mount_point, files).install_dir == p.install_dir,
    decreases files.len(),
{
    if files.len() > 0 {
        lemma_additional_keeps(p, mount_point, files.drop_last(), a);
        let q = with_additional(p, mount_point, files.drop_last());
        let i = choose|i: int| 0 <= i < q.actions.len() && q.actions[i] == a;
        let r = with_additional(p, mount_point, files);
        assert(r.actions[i] == a);
    }
}

/// The digest `limine enroll-config` pins the EFI binary to is that of the
/// very bytes the plan writes to limine.conf.
pub proof fn lemma_enrols_what_it_writes(cfg: &LimineInstallConfig, f: &Facts, text: Seq<char>, plan: PlanView)
    requires
        prepared(cfg, f) == Ok::<(Seq<char>, PlanView), ErrorView>((text, plan)),
        efi_of(&cfg.target) matches Some(e) && e.enroll_config,
    ensures
        ({
            let written = encode_utf8(text);
            &&& plan.actions.contains(ActionView::Write { to: path_join(cfg.install_dir@, "limine.conf"@), contents: written })
            &&& efi::enroll_steps(cfg, efi_of(&cfg.target)->0, text) == seq![
                StepView::Run(
                    crate::cmd::InvocationView {
                        program: path_join(cfg.limine_path@, "bin/limine"@),
                        args: seq![
                            "enroll-config"@,
                            image_path(cfg.mount_point@, efi_of(&cfg.target)->0.discovery, efi_boot_file(cfg.arch)),
                            crate::text::hex(crate::hash::blake2b_512(written)),
                        ],
                    },
                ),
            ]
        }),
{
    let e = efi_of(&cfg.target)->0;
    let written = encode_utf8(text);
    let w = ActionView::Write { to: path_join(cfg.install_dir@, "limine.conf"@), contents: written };
    let (t, p1) = conf(empty_plan(cfg), cfg, f)->Ok_0;
    assert(t == text);
    let p2 = with_action(p1, w);
    assert(p2.actions[p1.actions.len() as int] == w);
    lemma_additional_keeps(p2, cfg.mount_point@, cfg.additional_files@, w);
    let p3 = with_additional(p2, cfg.mount_point@, cfg.additional_files@);
    let i = choose|i: int| 0 <= i < p3.actions.len() && p3.actions[i] == w;
    let p4 = with_action(
        p3,
        ActionView::Copy {
            from: path_join(path_join(cfg.limine_path@, "share/limine"@), efi_boot_file(cfg.arch)),
            to: image_path(cfg.mount_point@, e.discovery, efi_boot_file(cfg.arch)),
        },
    );
    assert(p4.actions[i] == w);
    match bios_of(&cfg.target) {
        Some(_) => {
            let p5 = with_action(
                p4,
                ActionView::Copy {
                    from: path_join(cfg.limine_path@, "share/limine/limine-bios.sys"@),
                    to: bios::stage2_dest(cfg),
                },
            );
            assert(p5.actions[i] == w);
            assert(plan == p5);
        },
        None => {
            assert(plan == p4);
        },
    }
}

} // verus!
