//! The BIOS half of an install: stage 2 next to limine.conf, stage 1 onto
//! the disk.

use vstd::prelude::*;
use crate::cmd::{CmdError, Invocation, InvocationView, cmd_message};
use crate::config::{BiosConfig, LimineInstallConfig};
use crate::path::{join, path_join};
use crate::plan::{ActionView, Plan, with_action};
use crate::text::{decimal, decimal_string};

verus! {

/// Where stage 2 goes: next to limine.conf, where stage 1 will look for it.
pub open spec fn stage2_dest(cfg: &LimineInstallConfig) -> Seq<char> {
    path_join(cfg.install_dir@, "limine-bios.sys"@)
}

pub fn plan(plan: &mut Plan, cfg: &LimineInstallConfig)
    ensures
        final(plan)@ == with_action(
            old(plan)@,
            ActionView::Copy {
                from: path_join(cfg.limine_path@, "share/limine/limine-bios.sys"@),
                to: stage2_dest(cfg),
            },
        ),
{
    let dest = join(cfg.install_dir.as_str(), "limine-bios.sys");
    plan.copy(cfg.bios_stage2().as_str(), dest.as_str());
}

/// `limine bios-install <device> [<partition>] [--force]`: the stage 2
/// partition is positional, and `--force` comes after it.
pub open spec fn bios_install_args(b: &BiosConfig) -> Seq<Seq<char>> {
    match b.stage1 {
        Some(s) => seq!["bios-install"@, s.device@] + match s.partition_index {
            Some(i) => seq![decimal(i as nat)],
            None => seq![],
        } + if s.force {
            seq!["--force"@]
        } else {
            seq![]
        },
        None => seq![],
    }
}

/// Writing stage 1 to the disk, once stage 2 is there for it to find;
/// `None` when the module said `nodev`, which installs stage 2 alone.
pub fn command(cfg: &LimineInstallConfig, bios: &BiosConfig) -> (r: Option<Invocation>)
    ensures
        bios.stage1 is None ==> r is None,
        bios.stage1 is Some ==> (r matches Some(i) && i@ == (InvocationView {
            program: path_join(cfg.limine_path@, "bin/limine"@),
            args: bios_install_args(bios),
        })),
{
    let stage1 = match &bios.stage1 {
        Some(s) => s,
        None => return None,
    };
    let mut command = Invocation::new(cfg.limine_binary().as_str()).arg("bios-install").arg(stage1.device.as_str());
    let ghost base = seq!["bios-install"@, stage1.device@];
    assert(command@.args =~= base);
    match stage1.partition_index {
        Some(index) => {
            command = command.arg(decimal_string(index as u64).as_str());
        },
        None => {},
    }
    let ghost with_index = command@.args;
    if stage1.force {
        command = command.arg("--force");
    }
    assert(command@.args =~= bios_install_args(bios));
    Some(command)
}

/// How a failed `limine bios-install` is reported: with the hint that
/// usually gets past it, then what the run said.
pub open spec fn stage1_failure(e: &CmdError) -> Seq<char> {
    "failed to deploy the BIOS stage 1 bootloader; you might want to try enabling programs.limine.force: "@
        + cmd_message(e)
}

pub fn stage1_failure_message(e: &CmdError) -> (r: String)
    ensures
        r@ == stage1_failure(e),
{
    let mut r = crate::text::owned(
        "failed to deploy the BIOS stage 1 bootloader; you might want to try enabling programs.limine.force: ",
    );
    r.append(e.message().as_str());
    r
}

} // verus!
