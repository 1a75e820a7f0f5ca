//! The menu entries for one generation: its Xen entries first, then the
//! generation itself, then its specialisations.

use vstd::prelude::*;
use crate::bootspec::{BootSpec, Xen, cmdline, xen_params};
use crate::error::{ErrorView, InstallError};
use crate::facts::{Facts, Generation, digest, secrets};
use crate::path::{file_name, file_name_of, join, or_empty, path_join, with_extension, with_extension_of};
use crate::plan::{ActionView, Plan, PlanView, Rendered, agrees, copied_uri, dest_path, with_action};
use crate::text::{decimal, join_strings, join_with, owned, push_char, push_decimal, push_slashes, slashes, strs};

verus! {

/// Where the kernels, initrds and their secrets are copied to.
pub open spec fn kernels() -> Seq<char> {
    "kernels"@
}

/// Lines as limine.conf holds them: each followed by a newline.
pub open spec fn block(lines: Seq<Seq<char>>) -> Seq<char> {
    join_with(lines, seq!['\n']) + seq!['\n']
}

pub fn block_of(lines: &Vec<String>) -> (r: String)
    ensures
        r@ == block(strs(lines@)),
{
    let mut r = join_strings(lines, "\n");
    push_char(&mut r, '\n');
    proof {
        reveal_strlit("\n");
        assert("\n"@ =~= seq!['\n']);
    }
    r
}

/// Where a generation's secrets are written before they are copied like any
/// other module.
pub open spec fn secrets_dest(install_dir: Seq<char>, toplevel: Seq<char>) -> Seq<char> {
    path_join(path_join(install_dir, kernels()), or_empty(file_name(toplevel)) + "-secrets"@)
}

/// Where a generation's secrets are written.
pub fn secrets_dest_of(install_dir: &str, toplevel: &str) -> (r: String)
    ensures
        r@ == secrets_dest(install_dir@, toplevel@),
{
    let dir = join(install_dir, "kernels");
    let name = prefixed(file_name_of(toplevel).as_str(), "-secrets");
    join(dir.as_str(), name.as_str())
}

/// The module lines of a linux entry: the initrd, then the secrets.
pub open spec fn module_lines(p: PlanView, f: &Facts, s: &BootSpec) -> Result<(Seq<Seq<char>>, PlanView), ErrorView> {
    let initrd: Result<(Seq<Seq<char>>, PlanView), ErrorView> = match s.initrd {
        None => Ok((seq![], p)),
        Some(i) => match copied_uri(p, i@, kernels(), digest(f, i@)) {
            Err(e) => Err(e),
            Ok((u, q)) => Ok((seq!["module_path: "@ + u], q)),
        },
    };
    match initrd {
        Err(e) => Err(e),
        Ok((l1, p1)) => match (s.initrd_secrets, secrets(f, s.toplevel@)) {
            (Some(_), Some(c)) => {
                let d = secrets_dest(p1.install_dir, s.toplevel@);
                let p2 = with_action(p1, ActionView::Write { to: d, contents: c });
                match copied_uri(p2, d, kernels(), digest(f, d)) {
                    Err(e) => Err(e),
                    Ok((u, p3)) => Ok((l1.push("module_path: "@ + u), p3)),
                }
            },
            _ => Ok((l1, p1)),
        },
    }
}

/// A linux protocol entry for `s`, `levels` deep in the menu.
pub open spec fn linux_entry(p: PlanView, f: &Facts, levels: nat, s: &BootSpec, label: Seq<char>, time: Seq<char>) -> Rendered {
    match copied_uri(p, s.kernel@, kernels(), digest(f, s.kernel@)) {
        Err(e) => Err(e),
        Ok((k, p1)) => match module_lines(p1, f, s) {
            Err(e) => Err(e),
            Ok((m, p2)) => Ok(
                (
                    block(
                        seq![
                            slashes(levels) + label,
                            "protocol: linux"@,
                            "comment: "@ + s.label@ + ", built on "@ + time,
                            "kernel_path: "@ + k,
                            "cmdline: "@ + cmdline(s),
                        ] + m,
                    ),
                    p2,
                ),
            ),
        },
    }
}

fn push_line(lines: &mut Vec<String>, line: String)
    ensures
        strs(final(lines)@) == strs(old(lines)@).push(line@),
{
    let ghost before = lines@;
    lines.push(line);
    assert(strs(lines@) =~= strs(before).push(line@));
}

fn prefixed(prefix: &str, rest: &str) -> (r: String)
    ensures
        r@ == prefix@ + rest@,
{
    let mut r = owned(prefix);
    r.append(rest);
    r
}

fn module_lines_exec(plan: &mut Plan, f: &Facts, s: &BootSpec, lines: &mut Vec<String>) -> (r: Result<(), InstallError>)
    ensures
        match (r, module_lines(old(plan)@, f, s)) {
            (Ok(_), Ok((m, q))) => strs(final(lines)@) == strs(old(lines)@) + m && final(plan)@ == q,
            (Err(e), Err(g)) => e@ == g,
            _ => false,
        },
{
    let ghost start = strs(lines@);
    match &s.initrd {
        Some(i) => {
            let u = plan.copied_uri(i.as_str(), "kernels", f.digest(i.as_str()));
            match u {
                Ok(u) => push_line(lines, prefixed("module_path: ", u.as_str())),
                Err(e) => return Err(e),
            }
        },
        None => {},
    }
    assert(strs(lines@) =~= start + match s.initrd { Some(_) => strs(lines@).subrange(start.len() as int, strs(lines@).len() as int), None => seq![] });
    if s.initrd_secrets.is_some() {
        match f.secrets(s.toplevel.as_str()) {
            Some(contents) => {
                let dest = secrets_dest_of(plan.install_dir().as_str(), s.toplevel.as_str());
                plan.write(dest.as_str(), contents.clone());
                let u = plan.copied_uri(dest.as_str(), "kernels", f.digest(dest.as_str()));
                match u {
                    Ok(u) => push_line(lines, prefixed("module_path: ", u.as_str())),
                    Err(e) => return Err(e),
                }
            },
            None => {},
        }
    }
    Ok(())
}

fn linux_entry_exec(plan: &mut Plan, f: &Facts, levels: usize, s: &BootSpec, label: &str, time: &str) -> (r: Result<String, InstallError>)
    ensures
        agrees(r, final(plan)@, linux_entry(old(plan)@, f, levels as nat, s, label@, time@)),
{
    let k = match plan.copied_uri(s.kernel.as_str(), "kernels", f.digest(s.kernel.as_str())) {
        Ok(k) => k,
        Err(e) => return Err(e),
    };
    let mut lines: Vec<String> = Vec::new();
    let mut title = String::new();
    push_slashes(&mut title, levels);
    title.append(label);
    push_line(&mut lines, title);
    push_line(&mut lines, owned("protocol: linux"));
    let mut comment = prefixed("comment: ", s.label.as_str());
    comment.append(", built on ");
    comment.append(time);
    push_line(&mut lines, comment);
    push_line(&mut lines, prefixed("kernel_path: ", k.as_str()));
    push_line(&mut lines, prefixed("cmdline: ", s.cmdline().as_str()));
    let ghost head = strs(lines@);
    match module_lines_exec(plan, f, s, &mut lines) {
        Ok(()) => {},
        Err(e) => return Err(e),
    }
    proof {
        let want = seq![
            slashes(levels as nat) + label@,
            "protocol: linux"@,
            "comment: "@ + s.label@ + ", built on "@ + time@,
            "kernel_path: "@ + k@,
            "cmdline: "@ + cmdline(s),
        ];
        assert(head =~= want);
    }
    Ok(block_of(&lines))
}

/// The directory a generation's Xen files go in.
pub open spec fn xen_target(generation: u32) -> Seq<char> {
    "xen/"@ + decimal(generation as nat)
}

/// The section Xen's EFI binary reads beside itself, before it becomes a
/// block of lines.
pub open spec fn xen_cfg_lines(s: &BootSpec, x: &Xen, generation: u32, kernel: Seq<char>, initrd: Option<Seq<char>>) -> Seq<Seq<char>> {
    let n = decimal(generation as nat);
    seq!["default=nixos"@ + n, seq![], "[nixos"@ + n + "]"@] + (if x.params@.len() > 0 {
        seq!["options="@ + xen_params(x)]
    } else {
        seq![]
    }) + seq!["kernel="@ + or_empty(file_name(kernel)) + " "@ + cmdline(s)] + match initrd {
        Some(d) => seq!["ramdisk="@ + or_empty(file_name(d))],
        None => seq![],
    }
}

/// Lays out the `xen/<generation>` directory that Xen's EFI binary reads:
/// the binary, the kernel and initrd under their own names, and the `.cfg`
/// that names them. Yields the URI of the binary.
pub open spec fn xen_efi_files(p: PlanView, f: &Facts, s: &BootSpec, x: &Xen, efi_path: Seq<char>, generation: u32) -> Rendered {
    let target = xen_target(generation);
    match copied_uri(p, efi_path, target, digest(f, efi_path)) {
        Err(e) => Err(e),
        Ok((u, p1)) => {
            let cfg = with_extension(dest_path(p1.install_dir, efi_path, target), "cfg"@);
            let kernel = dest_path(p1.install_dir, s.kernel@, target);
            let p2 = with_action(p1, ActionView::Copy { from: s.kernel@, to: kernel });
            let (initrd, p3) = match s.initrd {
                Some(i) => {
                    let d = dest_path(p1.install_dir, i@, target);
                    (Some(d), with_action(p2, ActionView::Copy { from: i@, to: d }))
                },
                None => (None, p2),
            };
            let text = block(xen_cfg_lines(s, x, generation, kernel, initrd));
            Ok((u, with_action(p3, ActionView::Write { to: cfg, contents: vstd::utf8::encode_utf8(text) })))
        },
    }
}

fn xen_efi_files_exec(plan: &mut Plan, f: &Facts, s: &BootSpec, x: &Xen, efi_path: &str, generation: u32) -> (r: Result<String, InstallError>)
    ensures
        agrees(r, final(plan)@, xen_efi_files(old(plan)@, f, s, x, efi_path@, generation)),
{
    let target = prefixed("xen/", crate::text::decimal_string(generation as u64).as_str());
    let u = match plan.copied_uri(efi_path, target.as_str(), f.digest(efi_path)) {
        Ok(u) => u,
        Err(e) => return Err(e),
    };
    let config_path = with_extension_of(plan.dest_path(efi_path, target.as_str()).as_str(), "cfg");
    let n = crate::text::decimal_string(generation as u64);
    let mut lines: Vec<String> = Vec::new();
    push_line(&mut lines, prefixed("default=nixos", n.as_str()));
    push_line(&mut lines, String::new());
    let mut section = prefixed("[nixos", n.as_str());
    section.append("]");
    push_line(&mut lines, section);
    if x.params.len() > 0 {
        push_line(&mut lines, prefixed("options=", x.params().as_str()));
    }
    let kernel = plan.dest_path(s.kernel.as_str(), target.as_str());
    plan.copy(s.kernel.as_str(), kernel.as_str());
    let mut kernel_line = prefixed("kernel=", file_name_of(kernel.as_str()).as_str());
    kernel_line.append(" ");
    kernel_line.append(s.cmdline().as_str());
    push_line(&mut lines, kernel_line);
    match &s.initrd {
        Some(i) => {
            let dest = plan.dest_path(i.as_str(), target.as_str());
            plan.copy(i.as_str(), dest.as_str());
            push_line(&mut lines, prefixed("ramdisk=", file_name_of(dest.as_str()).as_str()));
        },
        None => {},
    }
    let text = block_of(&lines);
    proof {
        let initrd = match &s.initrd {
            Some(i) => Some(dest_path(plan@.install_dir, i@, target@)),
            None => None,
        };
        assert(strs(lines@) =~= xen_cfg_lines(s, x, generation, kernel@, initrd));
    }
    plan.write_text(config_path.as_str(), text.as_str());
    Ok(u)
}

/// A Xen entry: Xen loaded as the executable with the kernel and initrd as
/// modules, or under EFI, Xen's own EFI binary chainloaded.
pub open spec fn xen_entry(p: PlanView, f: &Facts, levels: nat, s: &BootSpec, x: &Xen, generation: u32, time: Seq<char>, efi: bool) -> Rendered {
    let head = seq![
        slashes(levels) + "Generation "@ + decimal(generation as nat) + " with Xen "@ + x.version@
            + if efi { " EFI"@ } else { seq![] },
        "comment: Xen "@ + x.version@ + " "@ + s.label@ + ", built on "@ + time,
    ];
    match x.boot {
        None => Ok((block(head), p)),
        Some(b) => if efi {
            match b.efi {
                None => Err(ErrorView::XenWithoutEfiPath { generation }),
                Some(e) => match xen_efi_files(p, f, s, x, e@, generation) {
                    Err(e) => Err(e),
                    Ok((u, q)) => Ok((block(head + seq!["protocol: efi"@, "path: "@ + u]), q)),
                },
            }
        } else {
            match copied_uri(p, b.multiboot@, xen_target(generation), digest(f, b.multiboot@)) {
                Err(e) => Err(e),
                Ok((m, p1)) => {
                    let l1 = head + seq!["protocol: multiboot"@, "path: "@ + m] + if x.params@.len() > 0 {
                        seq!["cmdline: -- "@ + xen_params(x)]
                    } else {
                        seq![]
                    };
                    match copied_uri(p1, s.kernel@, kernels(), digest(f, s.kernel@)) {
                        Err(e) => Err(e),
                        Ok((k, p2)) => {
                            let l2 = l1 + seq!["module_path: "@ + k, "module_string: -- "@ + cmdline(s)];
                            match s.initrd {
                                None => Ok((block(l2), p2)),
                                Some(i) => match copied_uri(p2, i@, kernels(), digest(f, i@)) {
                                    Err(e) => Err(e),
                                    Ok((u, p3)) => Ok((block(l2.push("module_path: "@ + u)), p3)),
                                },
                            }
                        },
                    }
                },
            }
        },
    }
}

fn xen_entry_exec(plan: &mut Plan, f: &Facts, levels: usize, s: &BootSpec, x: &Xen, generation: u32, time: &str, efi: bool) -> (r: Result<String, InstallError>)
    ensures
        agrees(r, final(plan)@, xen_entry(old(plan)@, f, levels as nat, s, x, generation, time@, efi)),
        (efi && (x.boot matches Some(b) && b.efi is None)) ==> final(plan)@ == old(plan)@,
{
    let mut lines: Vec<String> = Vec::new();
    let mut title = String::new();
    push_slashes(&mut title, levels);
    title.append("Generation ");
    push_decimal(&mut title, generation as u64);
    title.append(" with Xen ");
    title.append(x.version.as_str());
    if efi {
        title.append(" EFI");
    }
    push_line(&mut lines, title);
    let mut comment = prefixed("comment: Xen ", x.version.as_str());
    comment.append(" ");
    comment.append(s.label.as_str());
    comment.append(", built on ");
    comment.append(time);
    push_line(&mut lines, comment);
    let ghost head = strs(lines@);
    proof {
        let want = seq![
            slashes(levels as nat) + "Generation "@ + decimal(generation as nat) + " with Xen "@ + x.version@
                + if efi { " EFI"@ } else { seq![] },
            "comment: Xen "@ + x.version@ + " "@ + s.label@ + ", built on "@ + time@,
        ];
        assert(head =~= want);
    }
    let boot = match &x.boot {
        None => return Ok(block_of(&lines)),
        Some(b) => b,
    };
    if efi {
        let binary = match &boot.efi {
            None => return Err(InstallError::XenWithoutEfiPath { generation }),
            Some(e) => e,
        };
        let u = match xen_efi_files_exec(plan, f, s, x, binary.as_str(), generation) {
            Ok(u) => u,
            Err(e) => return Err(e),
        };
        push_line(&mut lines, owned("protocol: efi"));
        push_line(&mut lines, prefixed("path: ", u.as_str()));
        assert(strs(lines@) =~= head + seq!["protocol: efi"@, "path: "@ + u@]);
        return Ok(block_of(&lines));
    }
    let target = prefixed("xen/", crate::text::decimal_string(generation as u64).as_str());
    let m = match plan.copied_uri(boot.multiboot.as_str(), target.as_str(), f.digest(boot.multiboot.as_str())) {
        Ok(m) => m,
        Err(e) => return Err(e),
    };
    push_line(&mut lines, owned("protocol: multiboot"));
    push_line(&mut lines, prefixed("path: ", m.as_str()));
    if x.params.len() > 0 {
        push_line(&mut lines, prefixed("cmdline: -- ", x.params().as_str()));
    }
    let ghost l1 = strs(lines@);
    let k = match plan.copied_uri(s.kernel.as_str(), "kernels", f.digest(s.kernel.as_str())) {
        Ok(k) => k,
        Err(e) => return Err(e),
    };
    push_line(&mut lines, prefixed("module_path: ", k.as_str()));
    push_line(&mut lines, prefixed("module_string: -- ", s.cmdline().as_str()));
    let ghost l2 = strs(lines@);
    proof {
        assert(l1 =~= head + seq!["protocol: multiboot"@, "path: "@ + m@] + if x.params@.len() > 0 {
            seq!["cmdline: -- "@ + xen_params(x)]
        } else {
            seq![]
        });
        assert(l2 =~= l1 + seq!["module_path: "@ + k@, "module_string: -- "@ + cmdline(s)]);
    }
    match &s.initrd {
        Some(i) => {
            let u = match plan.copied_uri(i.as_str(), "kernels", f.digest(i.as_str())) {
                Ok(u) => u,
                Err(e) => return Err(e),
            };
            push_line(&mut lines, prefixed("module_path: ", u.as_str()));
        },
        None => {},
    }
    Ok(block_of(&lines))
}

/// A generation's Xen entries: under EFI the chainloading one first, then
/// the multiboot one.
pub open spec fn xen_entries(p: PlanView, f: &Facts, s: &BootSpec, x: &Xen, generation: u32, time: Seq<char>, efi_support: bool) -> Rendered {
    let first: Rendered = if efi_support {
        xen_entry(p, f, 2, s, x, generation, time, true)
    } else {
        Ok((seq![], p))
    };
    match first {
        Err(e) => Err(e),
        Ok((t1, p1)) => match xen_entry(p1, f, 2, s, x, generation, time, false) {
            Err(e) => Err(e),
            Ok((t2, p2)) => Ok((t1 + t2, p2)),
        },
    }
}

/// The entries of the first `k` specialisations of `s`, in name order.
pub open spec fn specialisation_entries(p: PlanView, f: &Facts, s: &BootSpec, depth: nat, time: Seq<char>, k: nat) -> Rendered
    decreases k,
{
    if k == 0 || k > s.specialisations@.len() {
        Ok((seq![], p))
    } else {
        match specialisation_entries(p, f, s, depth, time, (k - 1) as nat) {
            Err(e) => Err(e),
            Ok((t, q)) => match linux_entry(
                q,
                f,
                depth,
                &s.specialisations@[k - 1].1,
                s.specialisations@[k - 1].0@,
                time,
            ) {
                Err(e) => Err(e),
                Ok((u, r)) => Ok((t + u, r)),
            },
        }
    }
}

/// The entry of a generation itself: a single entry, or, when it has
/// specialisations, a submenu header and a "Default" entry one level deeper.
pub open spec fn own_entry(p: PlanView, f: &Facts, g: &Generation, expanded: bool) -> Rendered {
    let s = &g.spec;
    let n = decimal(g.number as nat);
    if s.specialisations@.len() > 0 {
        match linux_entry(p, f, 3, s, "Default"@, g.built_at@) {
            Err(e) => Err(e),
            Ok((u, q)) => Ok((
                slashes(2) + (if expanded { seq!['+'] } else { seq![] }) + "Generation "@ + n + seq!['\n'] + u,
                q,
            )),
        }
    } else {
        linux_entry(p, f, 2, s, "Generation "@ + n, g.built_at@)
    }
}

/// The menu entries for one generation: its Xen entries first, then the
/// generation itself, then its specialisations.
#[verifier::opaque]
pub open spec fn generation_entries(p: PlanView, f: &Facts, g: &Generation, efi_support: bool, expanded: bool) -> Rendered {
    let s = &g.spec;
    let xen: Rendered = match s.xen {
        None => Ok((seq![], p)),
        Some(x) => xen_entries(p, f, s, &x, g.number, g.built_at@, efi_support),
    };
    match xen {
        Err(e) => Err(e),
        Ok((t0, p0)) => match own_entry(p0, f, g, expanded) {
            Err(e) => Err(e),
            Ok((t1, p1)) => {
                let depth: nat = if s.specialisations@.len() > 0 { 3 } else { 2 };
                match specialisation_entries(p1, f, s, depth, g.built_at@, s.specialisations@.len()) {
                    Err(e) => Err(e),
                    Ok((t2, p2)) => Ok((t0 + t1 + t2, p2)),
                }
            },
        },
    }
}

fn own_entry_exec(plan: &mut Plan, f: &Facts, g: &Generation, expanded: bool) -> (r: Result<String, InstallError>)
    ensures
        agrees(r, final(plan)@, own_entry(old(plan)@, f, g, expanded)),
{
    let s = &g.spec;
    if s.has_specialisations() {
        let u = match linux_entry_exec(plan, f, 3, s, "Default", g.built_at.as_str()) {
            Ok(u) => u,
            Err(e) => return Err(e),
        };
        let mut head = String::new();
        push_slashes(&mut head, 2);
        if expanded {
            push_char(&mut head, '+');
        }
        head.append("Generation ");
        push_decimal(&mut head, g.number as u64);
        push_char(&mut head, '\n');
        head.append(u.as_str());
        assert(head@ =~= slashes(2) + (if expanded { seq!['+'] } else { seq![] }) + "Generation "@ + decimal(g.number as nat) + seq!['\n'] + u@);
        Ok(head)
    } else {
        let mut label = owned("Generation ");
        push_decimal(&mut label, g.number as u64);
        linux_entry_exec(plan, f, 2, s, label.as_str(), g.built_at.as_str())
    }
}

proof fn lemma_specialisation_error_stays(p: PlanView, f: &Facts, s: &BootSpec, depth: nat, time: Seq<char>, k: nat, m: nat)
    requires
        specialisation_entries(p, f, s, depth, time, k) is Err,
        1 <= k <= m <= s.specialisations@.len(),
    ensures
        specialisation_entries(p, f, s, depth, time, m) == specialisation_entries(p, f, s, depth, time, k),
    decreases m - k,
{
    if m > k {
        lemma_specialisation_error_stays(p, f, s, depth, time, k, (m - 1) as nat);
    }
}

fn specialisation_entries_exec(plan: &mut Plan, f: &Facts, s: &BootSpec, depth: usize, time: &str) -> (r: Result<String, InstallError>)
    ensures
        agrees(r, final(plan)@, specialisation_entries(old(plan)@, f, s, depth as nat, time@, s.specialisations@.len())),
{
    let ghost p0 = plan@;
    let mut out = String::new();
    let mut i: usize = 0;
    while i < s.specialisations.len()
        invariant
            i <= s.specialisations@.len(),
            p0 == old(plan)@,
            specialisation_entries(p0, f, s, depth as nat, time@, i as nat) == Ok::<(Seq<char>, PlanView), ErrorView>((out@, plan@)),
        decreases s.specialisations@.len() - i,
    {
        let (name, spec) = (&s.specialisations[i].0, &s.specialisations[i].1);
        match linux_entry_exec(plan, f, depth, spec, name.as_str(), time) {
            Ok(u) => out.append(u.as_str()),
            Err(e) => {
                proof {
                    assert(*spec == s.specialisations@[i as int].1);
                    assert(specialisation_entries(p0, f, s, depth as nat, time@, (i + 1) as nat) == Err::<(Seq<char>, PlanView), ErrorView>(e@));
                    lemma_specialisation_error_stays(p0, f, s, depth as nat, time@, (i + 1) as nat, s.specialisations@.len());
                }
                return Err(e);
            },
        }
        i = i + 1;
    }
    Ok(out)
}

/// The menu entries for one generation.
pub fn generation_entries_exec(plan: &mut Plan, f: &Facts, g: &Generation, efi_support: bool, expanded: bool) -> (r: Result<String, InstallError>)
    ensures
        agrees(r, final(plan)@, generation_entries(old(plan)@, f, g, efi_support, expanded)),
{
    proof {
        reveal(generation_entries);
    }
    let s = &g.spec;
    let mut out = String::new();
    match &s.xen {
        Some(x) => {
            if efi_support {
                match xen_entry_exec(plan, f, 2, s, x, g.number, g.built_at.as_str(), true) {
                    Ok(t) => out.append(t.as_str()),
                    Err(e) => return Err(e),
                }
            }
            match xen_entry_exec(plan, f, 2, s, x, g.number, g.built_at.as_str(), false) {
                Ok(t) => out.append(t.as_str()),
                Err(e) => return Err(e),
            }
        },
        None => {},
    }
    match own_entry_exec(plan, f, g, expanded) {
        Ok(t) => out.append(t.as_str()),
        Err(e) => return Err(e),
    }
    let depth: usize = if s.has_specialisations() { 3 } else { 2 };
    match specialisation_entries_exec(plan, f, s, depth, g.built_at.as_str()) {
        Ok(t) => out.append(t.as_str()),
        Err(e) => return Err(e),
    }
    Ok(out)
}

/// `mid` with `a` before it and `b` after it.
pub open spec fn around(a: Seq<char>, mid: Seq<char>, b: Seq<char>) -> Seq<char> {
    a + mid + b
}

/// The header of a generation's submenu, marked `+` when it is expanded.
pub open spec fn submenu_header(generation: u32, expanded: bool) -> Seq<char> {
    "//"@ + (if expanded { seq!['+'] } else { seq![] }) + "Generation "@ + decimal(generation as nat) + seq!['\n']
}

/// Rendering a generation expanded or collapsed asks for the same files and
/// fails alike. Without specialisations the text is the same; with them, it
/// differs only in the submenu header, `//+Generation N` against
/// `//Generation N`.
pub proof fn lemma_expanded_differs_only_in_header(p: PlanView, f: &Facts, g: &Generation, efi_support: bool)
    ensures
        match (generation_entries(p, f, g, efi_support, true), generation_entries(p, f, g, efi_support, false)) {
            (Err(a), Err(b)) => a == b,
            (Ok((t1, q1)), Ok((t0, q0))) => {
                &&& q1 == q0
                &&& g.spec.specialisations@.len() == 0 ==> t1 == t0
                &&& g.spec.specialisations@.len() > 0 ==> exists|a: Seq<char>, b: Seq<char>|
                    t1 == #[trigger] around(a, submenu_header(g.number, true), b)
                        && t0 == around(a, submenu_header(g.number, false), b)
            },
            _ => false,
        },
{
    reveal(generation_entries);
    let s = &g.spec;
    reveal_strlit("//");
    assert(slashes(2) =~= "//"@);
    let xen: Rendered = match s.xen {
        None => Ok((seq![], p)),
        Some(x) => xen_entries(p, f, s, &x, g.number, g.built_at@, efi_support),
    };
    if let Ok((t0, p0)) = xen {
        if s.specialisations@.len() > 0 {
            if let Ok((u, q)) = linux_entry(p0, f, 3, s, "Default"@, g.built_at@) {
                let depth: nat = 3;
                if let Ok((t2, _)) = specialisation_entries(q, f, s, depth, g.built_at@, s.specialisations@.len()) {
                    let n = decimal(g.number as nat);
                    let h1 = submenu_header(g.number, true);
                    let h0 = submenu_header(g.number, false);
                    assert(slashes(2) + seq!['+'] + "Generation "@ + n + seq!['\n'] + u =~= h1 + u);
                    assert(slashes(2) + Seq::<char>::empty() + "Generation "@ + n + seq!['\n'] + u =~= h0 + u);
                    assert(t0 + (h1 + u) + t2 =~= around(t0, h1, u + t2));
                    assert(t0 + (h0 + u) + t2 =~= around(t0, h0, u + t2));
                }
            }
        }
    }
}

} // verus!
