//! The EFI half of an install: limine's binary where the firmware will find
//! it, and what has to happen once it is there.

use vstd::prelude::*;
use crate::cmd::{Invocation, InvocationView};
use crate::config::{EfiDiscovery, EfiInstall, LimineInstallConfig, efi_boot_file, image_path};
use crate::facts::Partition;
use crate::hash::{blake2b, blake2b_512};
use crate::nvram::{BootEntry, entry};
use crate::path::path_join;
use crate::plan::{ActionView, Plan, with_action};
use crate::secure_boot::{sign, sign_steps};
use crate::step::{Step, StepView, push_step, step_views};
use crate::text::{hex, owned, strs};

verus! {

/// Puts limine's EFI binary where the firmware will find it.
pub fn plan(plan: &mut Plan, cfg: &LimineInstallConfig, efi: &EfiInstall)
    ensures
        final(plan)@ == with_action(
            old(plan)@,
            ActionView::Copy {
                from: path_join(path_join(cfg.limine_path@, "share/limine"@), efi_boot_file(cfg.arch)),
                to: image_path(cfg.mount_point@, efi.discovery, efi_boot_file(cfg.arch)),
            },
        ),
{
    let dest = efi.image_path(cfg.mount_point.as_str(), cfg.arch.efi_boot_file());
    plan.copy(cfg.efi_image().as_str(), dest.as_str());
}

/// What is printed when limine is installed where the firmware will not
/// find it on its own.
pub open spec fn unregistered_warning() -> Seq<char> {
    "both boot.loader.efi.canTouchEfiVariables and programs.limine.efiInstallAsRemovable are false,\n  so limine was installed to /efi/limine without an EFI boot entry. This may render the system unbootable."@
}

/// Pinning limine.conf to the binary: `limine enroll-config` with the
/// config's digest, when asked for.
pub open spec fn enroll_steps(cfg: &LimineInstallConfig, efi: &EfiInstall, limine_conf: Seq<char>) -> Seq<StepView> {
    if efi.enroll_config {
        seq![StepView::Run(InvocationView {
            program: path_join(cfg.limine_path@, "bin/limine"@),
            args: seq![
                "enroll-config"@,
                image_path(cfg.mount_point@, efi.discovery, efi_boot_file(cfg.arch)),
                hex(blake2b_512(vstd::utf8::encode_utf8(limine_conf))),
            ],
        })]
    } else {
        seq![]
    }
}

/// Making the firmware aware of the binary, as the discovery mode says.
pub open spec fn discovery_steps(efi: &EfiInstall, registered: Option<BootEntry>) -> Seq<StepView> {
    match efi.discovery {
        EfiDiscovery::Removable => seq![],
        EfiDiscovery::Registered => match registered {
            Some(e) => seq![StepView::Register(e)],
            None => seq![],
        },
        EfiDiscovery::Unregistered => seq![StepView::Warn(unregistered_warning())],
    }
}

/// Everything that has to happen once the binary is actually on the ESP:
/// pinning the config to it, signing it, and making the firmware aware of
/// it. `esp` is the partition the ESP is on, which is read only when the
/// entry is registered.
pub fn activate(
    cfg: &LimineInstallConfig,
    efi: &EfiInstall,
    limine_conf: &str,
    keys_exist: bool,
    fwupd_binaries: &Vec<String>,
    esp: Option<&Partition>,
    steps: &mut Vec<Step>,
)
    requires
        efi.discovery == EfiDiscovery::Registered ==> esp is Some,
    ensures
        exists|e: Option<BootEntry>| {
            &&& step_views(final(steps)@) == step_views(old(steps)@) + enroll_steps(cfg, efi, limine_conf@)
                + sign_steps(
                &efi.secure_boot,
                image_path(cfg.mount_point@, efi.discovery, efi_boot_file(cfg.arch)),
                keys_exist,
                strs(fwupd_binaries@),
            ) + discovery_steps(efi, e)
            &&& (e matches Some(entry) ==> registers(entry, *esp->0, efi_boot_file(cfg.arch)))
            &&& (efi.discovery == EfiDiscovery::Registered ==> e is Some)
        },
{
    let boot_file = cfg.arch.efi_boot_file();
    let binary = efi.image_path(cfg.mount_point.as_str(), boot_file);
    let ghost start = step_views(steps@);
    if efi.enroll_config {
        let digest = blake2b(limine_conf.as_bytes());
        let inv = Invocation::new(cfg.limine_binary().as_str()).arg("enroll-config").arg(binary.as_str()).arg(digest.as_str());
        assert(inv@.args =~= seq!["enroll-config"@, binary@, digest@]);
        push_step(steps, Step::Run(inv));
    }
    let ghost enrolled = step_views(steps@);
    assert(enrolled =~= start + enroll_steps(cfg, efi, limine_conf@));
    sign(&efi.secure_boot, binary.as_str(), keys_exist, fwupd_binaries, steps);
    let ghost signed = step_views(steps@);
    match efi.discovery {
        EfiDiscovery::Removable => {
            assert(step_views(steps@) =~= signed + discovery_steps(efi, None));
        },
        EfiDiscovery::Registered => {
            let e = entry(esp.unwrap(), boot_file);
            let ghost ev = e;
            push_step(steps, Step::Register(e));
            assert(step_views(steps@) =~= signed + discovery_steps(efi, Some(ev)));
        },
        EfiDiscovery::Unregistered => {
            let mut w = owned(
                "both boot.loader.efi.canTouchEfiVariables and programs.limine.efiInstallAsRemovable are false,\n  so limine was installed to /efi/limine without an EFI boot entry. This may render the system unbootable.",
            );
            push_step(steps, Step::Warn(w));
            assert(step_views(steps@) =~= signed + discovery_steps(efi, None));
        },
    }
}

/// `e` is the boot entry naming limine's `boot_file` on `esp`.
pub open spec fn registers(e: BootEntry, esp: Partition, boot_file: Seq<char>) -> bool {
    &&& e.attributes == crate::nvram::LOAD_OPTION_ACTIVE
    &&& e.description@ == crate::nvram::label()
    &&& e.file_path@ == crate::nvram::loader_path(boot_file)
    &&& e.hard_drive.partition_number == esp.number
    &&& e.hard_drive.partition_start == esp.start
    &&& e.hard_drive.partition_size == esp.size
    &&& e.hard_drive.partition_sig == esp.guid
    &&& e.hard_drive.format == crate::nvram::GPT_FORMAT
    &&& e.hard_drive.sig_type == crate::nvram::HardDriveType::Gpt
    &&& e.optional_data@.len() == 0
}

} // verus!
