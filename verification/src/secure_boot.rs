//! Signing limine's EFI binary with sbctl.

use vstd::prelude::*;
use crate::cmd::{Invocation, InvocationView};
use crate::step::{Step, StepView, push_step, step_views};
use crate::config::{KeyPolicy, SecureBoot};
use crate::error::InstallError;
use crate::path::{file_name, file_name_of, join, or_empty, path_join, extension, extension_of};
use crate::text::{owned, sort_strings, sorted, str_eq, strs};

verus! {

/// Where sbctl keeps the keys it generates.
pub open spec fn state() -> Seq<char> {
    "/var/lib/sbctl"@
}

pub fn state_dir() -> (r: &'static str)
    ensures
        r@ == state(),
{
    "/var/lib/sbctl"
}

/// Whether the install has to stop before it touches the boot filesystem:
/// keys that were required to exist do not.
pub open spec fn missing_keys(s: &SecureBoot, keys_exist: bool) -> bool {
    match s {
        SecureBoot::Enabled { keys: KeyPolicy::Require, .. } => !keys_exist,
        _ => false,
    }
}

/// Fails before anything is written if the keys the module said to use do
/// not exist.
pub fn check(s: &SecureBoot, keys_exist: bool) -> (r: Result<(), InstallError>)
    ensures
        r is Err <==> missing_keys(s, keys_exist),
        r matches Err(e) ==> e is NoSecureBootKeys,
{
    match s {
        SecureBoot::Enabled { keys: KeyPolicy::Require, .. } => {
            if !keys_exist {
                return Err(InstallError::NoSecureBootKeys);
            }
            Ok(())
        },
        _ => Ok(()),
    }
}

pub open spec fn run(program: Seq<char>, args: Seq<Seq<char>>) -> StepView {
    StepView::Run(InvocationView { program, args })
}

/// Key generation, and enrolment when asked for, when there are no keys
/// yet and the module said to generate them.
pub open spec fn key_steps(sbctl: Seq<char>, keys: &KeyPolicy, keys_exist: bool) -> Seq<StepView> {
    match keys {
        KeyPolicy::Generate { enroll } => if keys_exist {
            seq![]
        } else {
            seq![StepView::Note("auto generating keys"@), run(sbctl, seq!["create-keys"@])]
                + match enroll {
                Some(extra) => seq![run(sbctl, seq!["enroll-keys"@] + strs(extra@))],
                None => seq![],
            }
        },
        KeyPolicy::Require => seq![],
    }
}

/// Keys that are already there are never made again nor enrolled again,
/// whatever the module says to do with missing ones.
pub proof fn lemma_existing_keys_kept(sbctl: Seq<char>, keys: &KeyPolicy)
    ensures
        key_steps(sbctl, keys, true) == Seq::<StepView>::empty(),
{
}

/// Signing each of fwupd's EFI binaries, in order.
pub open spec fn fwupd_steps(sbctl: Seq<char>, binaries: Seq<Seq<char>>) -> Seq<StepView>
    decreases binaries.len(),
{
    if binaries.len() == 0 {
        seq![]
    } else {
        fwupd_steps(sbctl, binaries.drop_last()) + seq![
            StepView::Note("signing fwupd: "@ + or_empty(file_name(binaries.last()))),
            run(sbctl, seq!["sign"@, binaries.last()]),
        ]
    }
}

/// What signing the installed binary takes: keys first if they have to be
/// made, then limine, then fwupd's binaries when fwupd is there.
pub open spec fn sign_steps(s: &SecureBoot, binary: Seq<char>, keys_exist: bool, fwupd_binaries: Seq<Seq<char>>) -> Seq<StepView> {
    match s {
        SecureBoot::Disabled => seq![],
        SecureBoot::Enabled { sbctl, keys, fwupd } => key_steps(sbctl@, keys, keys_exist) + seq![
            StepView::Note("signing limine..."@),
            run(sbctl@, seq!["sign"@, binary]),
        ] + if fwupd is Some {
            fwupd_steps(sbctl@, fwupd_binaries)
        } else {
            seq![]
        },
    }
}

/// Appends what signing takes to `steps`.
pub fn sign(s: &SecureBoot, binary: &str, keys_exist: bool, fwupd_binaries: &Vec<String>, steps: &mut Vec<Step>)
    ensures
        step_views(final(steps)@) == step_views(old(steps)@) + sign_steps(s, binary@, keys_exist, strs(fwupd_binaries@)),
{
    let ghost start = step_views(steps@);
    match s {
        SecureBoot::Disabled => {
            assert(start + seq![] =~= start);
        },
        SecureBoot::Enabled { sbctl, keys, fwupd } => {
            match keys {
                KeyPolicy::Generate { enroll } => {
                    if !keys_exist {
                        push_step(steps, Step::Note(owned("auto generating keys")));
                        push_step(steps, Step::Run(Invocation::new(sbctl.as_str()).arg("create-keys")));
                        match enroll {
                            Some(extra) => {
                                let inv = Invocation::new(sbctl.as_str()).arg("enroll-keys").args(extra);
                                assert(inv@.args =~= seq!["enroll-keys"@] + strs(extra@));
                                push_step(steps, Step::Run(inv));
                            },
                            None => {},
                        }
                    }
                },
                KeyPolicy::Require => {},
            }
            let ghost keyed = step_views(steps@);
            assert(keyed =~= start + key_steps(sbctl@, keys, keys_exist));
            push_step(steps, Step::Note(owned("signing limine...")));
            let sign_limine = Invocation::new(sbctl.as_str()).arg("sign").arg(binary);
            assert(sign_limine@.args =~= seq!["sign"@, binary@]);
            push_step(steps, Step::Run(sign_limine));
            let ghost signed = step_views(steps@);
            assert(signed =~= start + key_steps(sbctl@, keys, keys_exist) + seq![
                StepView::Note("signing limine..."@),
                run(sbctl@, seq!["sign"@, binary@]),
            ]);
            if fwupd.is_some() {
                let mut i: usize = 0;
                assert(strs(fwupd_binaries@.take(0)) =~= Seq::<Seq<char>>::empty());
                while i < fwupd_binaries.len()
                    invariant
                        i <= fwupd_binaries@.len(),
                        step_views(steps@) == signed + fwupd_steps(sbctl@, strs(fwupd_binaries@.take(i as int))),
                    decreases fwupd_binaries@.len() - i,
                {
                    let b = &fwupd_binaries[i];
                    let mut note = owned("signing fwupd: ");
                    note.append(file_name_of(b.as_str()).as_str());
                    push_step(steps, Step::Note(note));
                    let inv = Invocation::new(sbctl.as_str()).arg("sign").arg(b.as_str());
                    assert(inv@.args =~= seq!["sign"@, b@]);
                    push_step(steps, Step::Run(inv));
                    proof {
                        let next = strs(fwupd_binaries@.take(i + 1));
                        assert(next.drop_last() =~= strs(fwupd_binaries@.take(i as int)));
                        assert(next.last() == b@);
                    }
                    i = i + 1;
                }
                assert(fwupd_binaries@.take(fwupd_binaries@.len() as int) =~= fwupd_binaries@);
            } else {
                assert(signed + seq![] =~= signed);
            }
        },
    }
}

/// The directory fwupd keeps its EFI binaries in.
pub open spec fn fwupd_efi_dir(fwupd: Seq<char>) -> Seq<char> {
    path_join(fwupd, "libexec/fwupd/efi"@)
}

pub fn fwupd_efi_dir_of(fwupd: &str) -> (r: String)
    ensures
        r@ == fwupd_efi_dir(fwupd@),
{
    join(fwupd, "libexec/fwupd/efi")
}

/// Whether a directory entry is an EFI binary.
pub open spec fn is_efi_name(name: Seq<char>) -> bool {
    extension(name) == Some("efi"@)
}

/// fwupd's EFI binaries, given the names in its EFI directory: those ending
/// in `.efi`, in name order, as paths under that directory.
pub fn efi_binaries(fwupd: &str, names: &Vec<String>) -> (r: Vec<String>)
    ensures
        sorted(strs(r@)),
        strs(r@).to_multiset() =~= strs(names@).filter(|n: Seq<char>| is_efi_name(n)).map_values(
            |n: Seq<char>| path_join(fwupd_efi_dir(fwupd@), n),
        ).to_multiset(),
{
    let dir = fwupd_efi_dir_of(fwupd);
    let mut picked: Vec<String> = Vec::new();
    let mut i: usize = 0;
    while i < names.len()
        invariant
            i <= names@.len(),
            dir@ == fwupd_efi_dir(fwupd@),
            strs(picked@) == strs(names@.take(i as int)).filter(|n: Seq<char>| is_efi_name(n)).map_values(
                |n: Seq<char>| path_join(fwupd_efi_dir(fwupd@), n),
            ),
        decreases names@.len() - i,
    {
        let name = &names[i];
        let efi = match extension_of(name.as_str()) {
            Some(e) => str_eq(e.as_str(), "efi"),
            None => false,
        };
        let ghost before = picked@;
        proof {
            let pre = strs(names@.take(i as int));
            assert(strs(names@.take(i + 1)) =~= pre.push(name@));
            pre.lemma_filter_push(name@, |n: Seq<char>| is_efi_name(n));
        }
        if efi {
            picked.push(join(dir.as_str(), name.as_str()));
            assert(strs(picked@) =~= strs(before).push(path_join(fwupd_efi_dir(fwupd@), name@)));
        }
        i = i + 1;
    }
    assert(names@.take(names@.len() as int) =~= names@);
    sort_strings(picked)
}

} // verus!
