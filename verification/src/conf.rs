//! The whole of limine.conf: the module's settings, then a group per profile
//! with its generations newest first, then the user's extra entries.

use vstd::prelude::*;
use crate::config::LimineInstallConfig;
use crate::entries::{generation_entries, generation_entries_exec};
use crate::error::{ErrorView, InstallError};
use crate::facts::{Facts, Generation, Profile, digest, group, latest};
use crate::plan::{Plan, PlanView, Rendered, agrees, copied_uri};
use crate::settings::{Scalar, Setting, scalar_str, scalar_value, setting_values};
use crate::text::{decimal, owned, push_char, push_decimal, str_eq, trim, trimmed};

verus! {

/// The one setting whose value is a path to put on the boot filesystem.
pub open spec fn wallpaper() -> Seq<char> {
    "wallpaper"@
}

/// The line one value of a setting becomes, if any: a wallpaper is copied
/// and referred to by its URI; anything else is spelled the way limine
/// spells it, and a null is left out.
pub open spec fn value_line(p: PlanView, f: &Facts, key: Seq<char>, v: &Scalar) -> Rendered {
    if key == wallpaper() && scalar_str(v) is Some {
        let path = scalar_str(v)->0;
        match copied_uri(p, path, "wallpapers"@, digest(f, path)) {
            Err(e) => Err(e),
            Ok((u, q)) => Ok((key + ": "@ + u + seq!['\n'], q)),
        }
    } else {
        match scalar_value(v) {
            Some(t) => Ok((key + ": "@ + t + seq!['\n'], p)),
            None => Ok((seq![], p)),
        }
    }
}

/// The lines of the first `k` values of a setting: one per value.
pub open spec fn values_lines(p: PlanView, f: &Facts, key: Seq<char>, vs: Seq<Scalar>, k: nat) -> Rendered
    decreases k,
{
    if k == 0 || k > vs.len() {
        Ok((seq![], p))
    } else {
        match values_lines(p, f, key, vs, (k - 1) as nat) {
            Err(e) => Err(e),
            Ok((t, q)) => match value_line(q, f, key, &vs[k - 1]) {
                Err(e) => Err(e),
                Ok((u, r)) => Ok((t + u, r)),
            },
        }
    }
}

/// The lines of the first `k` settings, in key order.
pub open spec fn settings_lines(p: PlanView, f: &Facts, settings: Seq<(String, Setting)>, k: nat) -> Rendered
    decreases k,
{
    if k == 0 || k > settings.len() {
        Ok((seq![], p))
    } else {
        match settings_lines(p, f, settings, (k - 1) as nat) {
            Err(e) => Err(e),
            Ok((t, q)) => {
                let vs = setting_values(&settings[k - 1].1);
                match values_lines(q, f, settings[k - 1].0@, vs, vs.len()) {
                    Err(e) => Err(e),
                    Ok((u, r)) => Ok((t + u, r)),
                }
            },
        }
    }
}

proof fn lemma_values_error_stays(p: PlanView, f: &Facts, key: Seq<char>, vs: Seq<Scalar>, k: nat, m: nat)
    requires
        values_lines(p, f, key, vs, k) is Err,
        1 <= k <= m <= vs.len(),
    ensures
        values_lines(p, f, key, vs, m) == values_lines(p, f, key, vs, k),
    decreases m - k,
{
    if m > k {
        lemma_values_error_stays(p, f, key, vs, k, (m - 1) as nat);
    }
}

proof fn lemma_settings_error_stays(p: PlanView, f: &Facts, settings: Seq<(String, Setting)>, k: nat, m: nat)
    requires
        settings_lines(p, f, settings, k) is Err,
        1 <= k <= m <= settings.len(),
    ensures
        settings_lines(p, f, settings, m) == settings_lines(p, f, settings, k),
    decreases m - k,
{
    if m > k {
        lemma_settings_error_stays(p, f, settings, k, (m - 1) as nat);
    }
}

fn value_line_exec(plan: &mut Plan, f: &Facts, key: &str, v: &Scalar) -> (r: Result<String, InstallError>)
    ensures
        agrees(r, final(plan)@, value_line(old(plan)@, f, key@, v)),
{
    let is_wallpaper = str_eq(key, "wallpaper");
    proof {
        reveal_strlit("wallpaper");
    }
    let path = v.as_str();
    if is_wallpaper && path.is_some() {
        let path = path.unwrap();
        let u = match plan.copied_uri(path.as_str(), "wallpapers", f.digest(path.as_str())) {
            Ok(u) => u,
            Err(e) => return Err(e),
        };
        let mut line = owned(key);
        line.append(": ");
        line.append(u.as_str());
        push_char(&mut line, '\n');
        assert(line@ =~= key@ + ": "@ + u@ + seq!['\n']);
        assert(path@ == scalar_str(v)->0);
        Ok(line)
    } else {
        match v.value() {
            Some(t) => {
                let mut line = owned(key);
                line.append(": ");
                line.append(t.as_str());
                push_char(&mut line, '\n');
                assert(line@ =~= key@ + ": "@ + t@ + seq!['\n']);
                assert(!(key@ == wallpaper() && scalar_str(v) is Some));
                Ok(line)
            },
            None => Ok(String::new()),
        }
    }
}

fn values_lines_exec(plan: &mut Plan, f: &Facts, key: &str, vs: &Vec<Scalar>) -> (r: Result<String, InstallError>)
    ensures
        agrees(r, final(plan)@, values_lines(old(plan)@, f, key@, vs@, vs@.len())),
{
    let ghost p0 = plan@;
    let mut out = String::new();
    let mut i: usize = 0;
    while i < vs.len()
        invariant
            i <= vs@.len(),
            p0 == old(plan)@,
            values_lines(p0, f, key@, vs@, i as nat) == Ok::<(Seq<char>, PlanView), ErrorView>((out@, plan@)),
        decreases vs@.len() - i,
    {
        match value_line_exec(plan, f, key, &vs[i]) {
            Ok(u) => out.append(u.as_str()),
            Err(e) => {
                proof {
                    assert(values_lines(p0, f, key@, vs@, (i + 1) as nat) == Err::<(Seq<char>, PlanView), ErrorView>(e@));
                    lemma_values_error_stays(p0, f, key@, vs@, (i + 1) as nat, vs@.len());
                }
                return Err(e);
            },
        }
        i = i + 1;
    }
    Ok(out)
}

fn setting_lines_exec(plan: &mut Plan, f: &Facts, key: &str, setting: &Setting) -> (r: Result<String, InstallError>)
    ensures
        agrees(r, final(plan)@, values_lines(old(plan)@, f, key@, setting_values(setting), setting_values(setting).len())),
{
    match setting {
        Setting::One(v) => {
            let ghost p0 = plan@;
            let r = value_line_exec(plan, f, key, v);
            proof {
                let vs = seq![*v];
                assert(values_lines(p0, f, key@, vs, 0) == Ok::<(Seq<char>, PlanView), ErrorView>((seq![], p0)));
                assert(vs[0] == *v);
                match value_line(p0, f, key@, v) {
                    Ok((u, q)) => {
                        assert(seq![] + u =~= u);
                    },
                    Err(_) => {},
                }
            }
            r
        },
        Setting::Many(vs) => values_lines_exec(plan, f, key, vs),
    }
}

/// The global section: each setting in key order, one line per value.
pub fn settings_exec(plan: &mut Plan, f: &Facts, settings: &Vec<(String, Setting)>) -> (r: Result<String, InstallError>)
    ensures
        agrees(r, final(plan)@, settings_lines(old(plan)@, f, settings@, settings@.len())),
{
    let ghost p0 = plan@;
    let mut out = String::new();
    let mut i: usize = 0;
    while i < settings.len()
        invariant
            i <= settings@.len(),
            p0 == old(plan)@,
            settings_lines(p0, f, settings@, i as nat) == Ok::<(Seq<char>, PlanView), ErrorView>((out@, plan@)),
        decreases settings@.len() - i,
    {
        match setting_lines_exec(plan, f, settings[i].0.as_str(), &settings[i].1) {
            Ok(u) => out.append(u.as_str()),
            Err(e) => {
                proof {
                    assert(settings_lines(p0, f, settings@, (i + 1) as nat) == Err::<(Seq<char>, PlanView), ErrorView>(e@));
                    lemma_settings_error_stays(p0, f, settings@, (i + 1) as nat, settings@.len());
                }
                return Err(e);
            },
        }
        i = i + 1;
    }
    Ok(out)
}

/// The entries of the first `k` generations of a profile, newest first;
/// only the newest is expanded.
pub open spec fn generations_entries(p: PlanView, f: &Facts, prof: &Profile, efi_support: bool, k: nat) -> Rendered
    decreases k,
{
    if k == 0 || k > prof.generations@.len() {
        Ok((seq![], p))
    } else {
        match generations_entries(p, f, prof, efi_support, (k - 1) as nat) {
            Err(e) => Err(e),
            Ok((t, q)) => match generation_entries(q, f, &prof.generations@[k - 1], efi_support, k - 1 == 0) {
                Err(e) => Err(e),
                Ok((u, r)) => Ok((t + u, r)),
            },
        }
    }
}

/// A profile's group: its header, then its generations.
pub open spec fn profile_group(p: PlanView, f: &Facts, prof: &Profile, efi_support: bool) -> Rendered {
    match generations_entries(p, f, prof, efi_support, prof.generations@.len()) {
        Err(e) => Err(e),
        Ok((t, q)) => Ok(("/+NixOS "@ + group(prof.name@) + seq!['\n'] + t, q)),
    }
}

/// The groups of the first `k` profiles.
pub open spec fn groups(p: PlanView, f: &Facts, efi_support: bool, k: nat) -> Rendered
    decreases k,
{
    if k == 0 || k > f.profiles@.len() {
        Ok((seq![], p))
    } else {
        match groups(p, f, efi_support, (k - 1) as nat) {
            Err(e) => Err(e),
            Ok((t, q)) => match profile_group(q, f, &f.profiles@[k - 1], efi_support) {
                Err(e) => Err(e),
                Ok((u, r)) => Ok((t + u, r)),
            },
        }
    }
}

proof fn lemma_generations_error_stays(p: PlanView, f: &Facts, prof: &Profile, efi_support: bool, k: nat, m: nat)
    requires
        generations_entries(p, f, prof, efi_support, k) is Err,
        1 <= k <= m <= prof.generations@.len(),
    ensures
        generations_entries(p, f, prof, efi_support, m) == generations_entries(p, f, prof, efi_support, k),
    decreases m - k,
{
    if m > k {
        lemma_generations_error_stays(p, f, prof, efi_support, k, (m - 1) as nat);
    }
}

proof fn lemma_groups_error_stays(p: PlanView, f: &Facts, efi_support: bool, k: nat, m: nat)
    requires
        groups(p, f, efi_support, k) is Err,
        1 <= k <= m <= f.profiles@.len(),
    ensures
        groups(p, f, efi_support, m) == groups(p, f, efi_support, k),
    decreases m - k,
{
    if m > k {
        lemma_groups_error_stays(p, f, efi_support, k, (m - 1) as nat);
    }
}

fn profile_group_exec(plan: &mut Plan, f: &Facts, prof: &Profile, efi_support: bool) -> (r: Result<String, InstallError>)
    ensures
        agrees(r, final(plan)@, profile_group(old(plan)@, f, prof, efi_support)),
{
    let ghost p0 = plan@;
    let mut out = owned("/+NixOS ");
    out.append(prof.group().as_str());
    push_char(&mut out, '\n');
    let ghost head = out@;
    let mut body = String::new();
    let mut i: usize = 0;
    while i < prof.generations.len()
        invariant
            i <= prof.generations@.len(),
            p0 == old(plan)@,
            generations_entries(p0, f, prof, efi_support, i as nat) == Ok::<(Seq<char>, PlanView), ErrorView>((body@, plan@)),
        decreases prof.generations@.len() - i,
    {
        match generation_entries_exec(plan, f, &prof.generations[i], efi_support, i == 0) {
            Ok(u) => body.append(u.as_str()),
            Err(e) => {
                proof {
                    assert(generations_entries(p0, f, prof, efi_support, (i + 1) as nat) == Err::<(Seq<char>, PlanView), ErrorView>(e@));
                    lemma_generations_error_stays(p0, f, prof, efi_support, (i + 1) as nat, prof.generations@.len());
                }
                return Err(e);
            },
        }
        i = i + 1;
    }
    out.append(body.as_str());
    assert(out@ =~= "/+NixOS "@ + group(prof.name@) + seq!['\n'] + body@);
    Ok(out)
}

fn groups_exec(plan: &mut Plan, f: &Facts, efi_support: bool) -> (r: Result<String, InstallError>)
    ensures
        agrees(r, final(plan)@, groups(old(plan)@, f, efi_support, f.profiles@.len())),
{
    let ghost p0 = plan@;
    let mut out = String::new();
    let mut i: usize = 0;
    while i < f.profiles.len()
        invariant
            i <= f.profiles@.len(),
            p0 == old(plan)@,
            groups(p0, f, efi_support, i as nat) == Ok::<(Seq<char>, PlanView), ErrorView>((out@, plan@)),
        decreases f.profiles@.len() - i,
    {
        match profile_group_exec(plan, f, &f.profiles[i], efi_support) {
            Ok(u) => out.append(u.as_str()),
            Err(e) => {
                proof {
                    assert(groups(p0, f, efi_support, (i + 1) as nat) == Err::<(Seq<char>, PlanView), ErrorView>(e@));
                    lemma_groups_error_stays(p0, f, efi_support, (i + 1) as nat, f.profiles@.len());
                }
                return Err(e);
            },
        }
        i = i + 1;
    }
    Ok(out)
}

/// Whether the module set `key` itself.
pub open spec fn has_key(settings: Seq<(String, Setting)>, key: Seq<char>) -> bool {
    exists|i: int| 0 <= i < settings.len() && #[trigger] settings[i].0@ == key
}

/// The 1-based menu index of the newest generation's own entry: after its
/// profile's group and the Xen entries listed ahead of it, and one deeper
/// when it is a submenu holding specialisations.
pub open spec fn default_entry(g: &Generation, efi_support: bool) -> nat {
    let xen: nat = match g.spec.xen {
        Some(_) => if efi_support { 2 } else { 1 },
        None => 0,
    };
    1 + xen + if g.spec.specialisations@.len() > 0 {
        2nat
    } else {
        1nat
    }
}

/// The whole of limine.conf, and the plan with everything it names.
pub open spec fn conf(p: PlanView, cfg: &LimineInstallConfig, f: &Facts) -> Rendered {
    match latest(f) {
        None => Err(ErrorView::NoGenerations),
        Some(g) => match settings_lines(p, f, cfg.settings@, cfg.settings@.len()) {
            Err(e) => Err(e),
            Ok((st, p1)) => {
                let de = if has_key(cfg.settings@, "default_entry"@) {
                    seq![]
                } else {
                    "default_entry: "@ + decimal(default_entry(&g, !(cfg.target is Bios))) + seq!['\n']
                };
                match groups(p1, f, !(cfg.target is Bios), f.profiles@.len()) {
                    Err(e) => Err(e),
                    Ok((gt, p2)) => Ok((
                        trim(st + de + "\n# NixOS boot entries start here\n"@ + gt
                            + "\n# NixOS boot entries end here\n\n"@ + cfg.extra_entries@),
                        p2,
                    )),
                }
            },
        },
    }
}

fn has_key_exec(settings: &Vec<(String, Setting)>, key: &str) -> (r: bool)
    ensures
        r == has_key(settings@, key@),
{
    let mut i: usize = 0;
    while i < settings.len()
        invariant
            i <= settings@.len(),
            forall|k: int| 0 <= k < i ==> settings@[k].0@ != key@,
        decreases settings@.len() - i,
    {
        if str_eq(settings[i].0.as_str(), key) {
            return true;
        }
        i = i + 1;
    }
    false
}

/// Renders limine.conf. Nothing is written: what it names goes into the plan.
pub fn generate(plan: &mut Plan, cfg: &LimineInstallConfig, f: &Facts) -> (r: Result<String, InstallError>)
    requires
        cfg.well_formed(),
        f.well_formed(),
    ensures
        agrees(r, final(plan)@, conf(old(plan)@, cfg, f)),
        latest(f) is None ==> final(plan)@ == old(plan)@,
{
    let latest = match f.latest() {
        Some(g) => g,
        None => return Err(InstallError::NoGenerations),
    };
    let st = match settings_exec(plan, f, &cfg.settings) {
        Ok(t) => t,
        Err(e) => return Err(e),
    };
    let mut out = owned(st.as_str());
    if !has_key_exec(&cfg.settings, "default_entry") {
        out.append("default_entry: ");
        let xen: u64 = match &latest.spec.xen {
            Some(_) => if cfg.efi_support() { 2 } else { 1 },
            None => 0,
        };
        let n: u64 = 1 + xen + if latest.spec.has_specialisations() { 2 } else { 1 };
        push_decimal(&mut out, n);
        push_char(&mut out, '\n');
    }
    out.append("\n# NixOS boot entries start here\n");
    let gt = match groups_exec(plan, f, cfg.efi_support()) {
        Ok(t) => t,
        Err(e) => return Err(e),
    };
    out.append(gt.as_str());
    out.append("\n# NixOS boot entries end here\n\n");
    out.append(cfg.extra_entries.as_str());
    proof {
        let de = if has_key(cfg.settings@, "default_entry"@) {
            seq![]
        } else {
            "default_entry: "@ + decimal(default_entry(latest, !(cfg.target is Bios))) + seq!['\n']
        };
        assert(out@ =~= st@ + de + "\n# NixOS boot entries start here\n"@ + gt@
            + "\n# NixOS boot entries end here\n\n"@ + cfg.extra_entries@);
    }
    Ok(trimmed(out.as_str()))
}

} // verus!
