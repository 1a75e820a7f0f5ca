//! Which files rendering limine.conf needs a digest of.
//!
//! The digests are taken before anything is rendered, of the files
//! `gather::referenced` lists. What is proved here is that rendering asks
//! for no other file's digest, but for the secrets it writes itself.

use vstd::prelude::*;
use crate::bootspec::{BootSpec, Xen};
use crate::conf::{conf, groups, generations_entries, profile_group, settings_lines, value_line, values_lines, wallpaper};
use crate::config::LimineInstallConfig;
use crate::entries::{
    generation_entries, kernels, linux_entry, own_entry, secrets_dest, specialisation_entries, xen_efi_files,
    xen_entries, xen_entry,
};
use crate::error::ErrorView;
use crate::facts::{Facts, Generation, Profile, digest, latest};
use crate::gather::{
    generation_files, profile_files, referenced, setting_named, spec_files, specialisation_files, str_values,
    wallpaper_files, xen_files,
};
use crate::install::empty_plan;
use crate::plan::{PlanView, Rendered, copied_uri};
use crate::settings::{Scalar, Setting, scalar_str, setting_values};

verus! {

/// Where some generation's secrets are written.
pub open spec fn is_secrets_file(dir: Seq<char>, path: Seq<char>) -> bool {
    exists|t: Seq<char>| path == #[trigger] secrets_dest(dir, t)
}

/// `r`, rendered from a plan with install directory `dir`, keeps that
/// directory, and when it fails for want of a digest, the file is one of
/// `named` or a secrets file, and has no digest indeed.
pub open spec fn reads_within(r: Rendered, f: &Facts, dir: Seq<char>, named: Seq<Seq<char>>) -> bool {
    match r {
        Ok((_, q)) => q.install_dir == dir,
        Err(ErrorView::Read { path }) => digest(f, path) is None && (named.contains(path) || is_secrets_file(dir, path)),
        Err(_) => true,
    }
}

pub open spec fn covers(big: Seq<Seq<char>>, small: Seq<Seq<char>>) -> bool {
    forall|x: Seq<char>| small.contains(x) ==> big.contains(x)
}

proof fn lemma_widen(r: Rendered, f: &Facts, dir: Seq<char>, small: Seq<Seq<char>>, big: Seq<Seq<char>>)
    requires
        reads_within(r, f, dir, small),
        covers(big, small),
    ensures
        reads_within(r, f, dir, big),
{
}

proof fn lemma_contains_concat(a: Seq<Seq<char>>, b: Seq<Seq<char>>)
    ensures
        covers(a + b, a),
        covers(a + b, b),
{
    assert forall|x: Seq<char>| a.contains(x) implies (a + b).contains(x) by {
        let i = choose|i: int| 0 <= i < a.len() && a[i] == x;
        assert((a + b)[i] == x);
    }
    assert forall|x: Seq<char>| b.contains(x) implies (a + b).contains(x) by {
        let i = choose|i: int| 0 <= i < b.len() && b[i] == x;
        assert((a + b)[a.len() + i] == x);
    }
}

pub open spec fn opt_file(o: Option<String>) -> Seq<Seq<char>> {
    match o {
        Some(i) => seq![i@],
        None => seq![],
    }
}

/// The files a linux entry reads.
pub open spec fn linux_files(s: &BootSpec) -> Seq<Seq<char>> {
    seq![s.kernel@] + opt_file(s.initrd)
}

proof fn lemma_copied(p: PlanView, f: &Facts, path: Seq<char>, target: Seq<char>)
    ensures
        reads_within(copied_uri(p, path, target, digest(f, path)), f, p.install_dir, seq![path]),
{
    assert(seq![path][0] == path);
}

proof fn lemma_linux(p: PlanView, f: &Facts, levels: nat, s: &BootSpec, label: Seq<char>, time: Seq<char>)
    ensures
        reads_within(linux_entry(p, f, levels, s, label, time), f, p.install_dir, linux_files(s)),
{
    let dir = p.install_dir;
    let named = linux_files(s);
    assert(named[0] == s.kernel@);
    if let Some(i) = s.initrd {
        assert(named[1] == i@);
    }
    lemma_copied(p, f, s.kernel@, kernels());
    match copied_uri(p, s.kernel@, kernels(), digest(f, s.kernel@)) {
        Err(_) => {},
        Ok((_, p1)) => {
            assert(p1.install_dir == dir);
            let initrd: Result<(Seq<Seq<char>>, PlanView), ErrorView> = match s.initrd {
                None => Ok((seq![], p1)),
                Some(i) => match copied_uri(p1, i@, kernels(), digest(f, i@)) {
                    Err(e) => Err(e),
                    Ok((u, q)) => Ok((seq!["module_path: "@ + u], q)),
                },
            };
            if let Some(i) = s.initrd {
                lemma_copied(p1, f, i@, kernels());
            }
            match initrd {
                Err(_) => {},
                Ok((_, p2)) => {
                    assert(p2.install_dir == dir);
                    match (s.initrd_secrets, crate::facts::secrets(f, s.toplevel@)) {
                        (Some(_), Some(c)) => {
                            let d = secrets_dest(dir, s.toplevel@);
                            assert(is_secrets_file(dir, d));
                            let p3 = crate::plan::with_action(p2, crate::plan::ActionView::Write { to: d, contents: c });
                            lemma_copied(p3, f, d, kernels());
                        },
                        _ => {},
                    }
                },
            }
        },
    }
}

proof fn lemma_xen_entry(p: PlanView, f: &Facts, levels: nat, s: &BootSpec, x: &Xen, generation: u32, time: Seq<char>, efi: bool)
    ensures
        reads_within(
            xen_entry(p, f, levels, s, x, generation, time, efi),
            f,
            p.install_dir,
            xen_files(Some(*x)) + linux_files(s),
        ),
{
    let dir = p.install_dir;
    let named = xen_files(Some(*x)) + linux_files(s);
    lemma_contains_concat(xen_files(Some(*x)), linux_files(s));
    match x.boot {
        None => {},
        Some(b) => {
            assert(xen_files(Some(*x))[0] == b.multiboot@);
            if efi {
                if let Some(e) = b.efi {
                    assert(xen_files(Some(*x))[1] == e@);
                    lemma_copied(p, f, e@, crate::entries::xen_target(generation));
                    assert(xen_efi_files(p, f, s, x, e@, generation) matches Ok((_, q)) ==> q.install_dir == dir);
                }
            } else {
                let target = crate::entries::xen_target(generation);
                lemma_copied(p, f, b.multiboot@, target);
                match copied_uri(p, b.multiboot@, target, digest(f, b.multiboot@)) {
                    Err(_) => {},
                    Ok((_, p1)) => {
                        assert(linux_files(s)[0] == s.kernel@);
                        lemma_copied(p1, f, s.kernel@, kernels());
                        match copied_uri(p1, s.kernel@, kernels(), digest(f, s.kernel@)) {
                            Err(_) => {},
                            Ok((_, p2)) => {
                                if let Some(i) = s.initrd {
                                    assert(linux_files(s)[1] == i@);
                                    lemma_copied(p2, f, i@, kernels());
                                }
                            },
                        }
                    },
                }
            }
        },
    }
}

proof fn lemma_xen_entries(p: PlanView, f: &Facts, s: &BootSpec, x: &Xen, generation: u32, time: Seq<char>, efi_support: bool)
    ensures
        reads_within(
            xen_entries(p, f, s, x, generation, time, efi_support),
            f,
            p.install_dir,
            xen_files(Some(*x)) + linux_files(s),
        ),
{
    lemma_xen_entry(p, f, 2, s, x, generation, time, true);
    let first: Rendered = if efi_support {
        xen_entry(p, f, 2, s, x, generation, time, true)
    } else {
        Ok((seq![], p))
    };
    if let Ok((_, p1)) = first {
        lemma_xen_entry(p1, f, 2, s, x, generation, time, false);
    }
}

/// The first `k` specialisations' own files are among their files.
proof fn lemma_specialisations(p: PlanView, f: &Facts, s: &BootSpec, depth: nat, time: Seq<char>, k: nat)
    ensures
        reads_within(specialisation_entries(p, f, s, depth, time, k), f, p.install_dir, specialisation_files(*s, k)),
    decreases k,
{
    if k == 0 || k > s.specialisations@.len() {
    } else {
        let km = (k - 1) as nat;
        lemma_specialisations(p, f, s, depth, time, km);
        let before = specialisation_files(*s, km);
        let t = s.specialisations@[k - 1].1;
        assert(specialisation_files(*s, k) == before + spec_files(t));
        lemma_contains_concat(before, spec_files(t));
        lemma_linux_in_spec(&t);
        match specialisation_entries(p, f, s, depth, time, km) {
            Err(_) => {
                lemma_widen(specialisation_entries(p, f, s, depth, time, km), f, p.install_dir, before, specialisation_files(*s, k));
            },
            Ok((_, q)) => {
                lemma_linux(q, f, depth, &t, s.specialisations@[k - 1].0@, time);
                lemma_widen(
                    linux_entry(q, f, depth, &t, s.specialisations@[k - 1].0@, time),
                    f,
                    p.install_dir,
                    linux_files(&t),
                    specialisation_files(*s, k),
                );
            },
        }
    }
}

/// A bootspec's kernel and initrd are among its files.
proof fn lemma_linux_in_spec(s: &BootSpec)
    ensures
        covers(spec_files(*s), linux_files(s)),
        covers(spec_files(*s), xen_files(s.xen)),
        covers(spec_files(*s), specialisation_files(*s, s.specialisations@.len())),
{
    let a = seq![s.kernel@] + opt_file(s.initrd);
    let b = xen_files(s.xen);
    let c = specialisation_files(*s, s.specialisations@.len());
    assert(spec_files(*s) == a + b + c);
    lemma_contains_concat(a, b);
    lemma_contains_concat(a + b, c);
}

proof fn lemma_generation(p: PlanView, f: &Facts, g: &Generation, efi_support: bool, expanded: bool)
    ensures
        reads_within(generation_entries(p, f, g, efi_support, expanded), f, p.install_dir, spec_files(g.spec)),
{
    reveal(generation_entries);
    let s = &g.spec;
    let all = spec_files(*s);
    lemma_linux_in_spec(s);
    let xen: Rendered = match s.xen {
        None => Ok((seq![], p)),
        Some(x) => xen_entries(p, f, s, &x, g.number, g.built_at@, efi_support),
    };
    if let Some(x) = s.xen {
        lemma_xen_entries(p, f, s, &x, g.number, g.built_at@, efi_support);
        lemma_contains_concat(xen_files(Some(x)), linux_files(s));
        assert(covers(all, xen_files(Some(x)) + linux_files(s)));
        lemma_widen(xen, f, p.install_dir, xen_files(Some(x)) + linux_files(s), all);
    }
    if let Ok((_, p0)) = xen {
        let n = crate::text::decimal(g.number as nat);
        if s.specialisations@.len() > 0 {
            lemma_linux(p0, f, 3, s, "Default"@, g.built_at@);
        } else {
            lemma_linux(p0, f, 2, s, "Generation "@ + n, g.built_at@);
        }
        lemma_widen(own_entry(p0, f, g, expanded), f, p.install_dir, linux_files(s), all);
        if let Ok((_, p1)) = own_entry(p0, f, g, expanded) {
            let depth: nat = if s.specialisations@.len() > 0 { 3 } else { 2 };
            lemma_specialisations(p1, f, s, depth, g.built_at@, s.specialisations@.len());
            lemma_widen(
                specialisation_entries(p1, f, s, depth, g.built_at@, s.specialisations@.len()),
                f,
                p.install_dir,
                specialisation_files(*s, s.specialisations@.len()),
                all,
            );
        }
    }
}

proof fn lemma_generations(p: PlanView, f: &Facts, prof: &Profile, efi_support: bool, k: nat)
    requires
        k <= prof.generations@.len(),
    ensures
        reads_within(
            generations_entries(p, f, prof, efi_support, k),
            f,
            p.install_dir,
            generation_files(prof.generations@.take(k as int)),
        ),
    decreases k,
{
    let gs = prof.generations@;
    if k > 0 {
        let km = (k - 1) as nat;
        lemma_generations(p, f, prof, efi_support, km);
        assert(gs.take(k as int).drop_last() == gs.take(km as int));
        let before = generation_files(gs.take(km as int));
        let all = generation_files(gs.take(k as int));
        assert(all == before + spec_files(gs[k - 1].spec));
        lemma_contains_concat(before, spec_files(gs[k - 1].spec));
        match generations_entries(p, f, prof, efi_support, km) {
            Err(_) => {
                lemma_widen(generations_entries(p, f, prof, efi_support, km), f, p.install_dir, before, all);
            },
            Ok((_, q)) => {
                lemma_generation(q, f, &gs[k - 1], efi_support, km == 0);
                lemma_widen(
                    generation_entries(q, f, &gs[k - 1], efi_support, km == 0),
                    f,
                    p.install_dir,
                    spec_files(gs[k - 1].spec),
                    all,
                );
            },
        }
    } else {
        assert(gs.take(0) == Seq::<Generation>::empty());
    }
}

proof fn lemma_groups(p: PlanView, f: &Facts, efi_support: bool, k: nat)
    requires
        k <= f.profiles@.len(),
    ensures
        reads_within(groups(p, f, efi_support, k), f, p.install_dir, profile_files(f.profiles@.take(k as int))),
    decreases k,
{
    let ps = f.profiles@;
    if k > 0 {
        let km = (k - 1) as nat;
        lemma_groups(p, f, efi_support, km);
        assert(ps.take(k as int).drop_last() == ps.take(km as int));
        let before = profile_files(ps.take(km as int));
        let all = profile_files(ps.take(k as int));
        let mine = generation_files(ps[k - 1].generations@);
        assert(all == before + mine);
        lemma_contains_concat(before, mine);
        match groups(p, f, efi_support, km) {
            Err(_) => {
                lemma_widen(groups(p, f, efi_support, km), f, p.install_dir, before, all);
            },
            Ok((_, q)) => {
                let prof = &ps[k - 1];
                lemma_generations(q, f, prof, efi_support, prof.generations@.len());
                assert(prof.generations@.take(prof.generations@.len() as int) == prof.generations@);
                lemma_widen(profile_group(q, f, prof, efi_support), f, p.install_dir, mine, all);
            },
        }
    } else {
        assert(ps.take(0) == Seq::<Profile>::empty());
    }
}

/// The wallpapers the values of a setting under `key` name.
pub open spec fn key_wallpapers(key: Seq<char>, vs: Seq<Scalar>) -> Seq<Seq<char>> {
    if key == wallpaper() {
        str_values(vs)
    } else {
        seq![]
    }
}

proof fn lemma_values(p: PlanView, f: &Facts, key: Seq<char>, vs: Seq<Scalar>, k: nat)
    requires
        k <= vs.len(),
    ensures
        reads_within(values_lines(p, f, key, vs, k), f, p.install_dir, key_wallpapers(key, vs.take(k as int))),
    decreases k,
{
    if k > 0 {
        let km = (k - 1) as nat;
        lemma_values(p, f, key, vs, km);
        assert(vs.take(k as int).drop_last() == vs.take(km as int));
        assert(vs.take(k as int).last() == vs[k - 1]);
        let before = key_wallpapers(key, vs.take(km as int));
        let all = key_wallpapers(key, vs.take(k as int));
        let v = vs[k - 1];
        let mine = if key == wallpaper() && scalar_str(&v) is Some { seq![scalar_str(&v)->0] } else { seq![] };
        assert(all == before + mine);
        lemma_contains_concat(before, mine);
        match values_lines(p, f, key, vs, km) {
            Err(_) => {
                lemma_widen(values_lines(p, f, key, vs, km), f, p.install_dir, before, all);
            },
            Ok((_, q)) => {
                if key == wallpaper() && scalar_str(&v) is Some {
                    lemma_copied(q, f, scalar_str(&v)->0, "wallpapers"@);
                }
                lemma_widen(value_line(q, f, key, &v), f, p.install_dir, mine, all);
            },
        }
    } else {
        assert(vs.take(0) == Seq::<Scalar>::empty());
    }
}

/// The wallpapers the first settings name, whatever their key's position.
pub open spec fn settings_wallpapers(settings: Seq<(String, Setting)>) -> Seq<Seq<char>>
    decreases settings.len(),
{
    if settings.len() == 0 {
        seq![]
    } else {
        settings_wallpapers(settings.drop_last()) + key_wallpapers(
            settings.last().0@,
            setting_values(&settings.last().1),
        )
    }
}

proof fn lemma_settings(p: PlanView, f: &Facts, settings: Seq<(String, Setting)>, k: nat)
    requires
        k <= settings.len(),
    ensures
        reads_within(settings_lines(p, f, settings, k), f, p.install_dir, settings_wallpapers(settings.take(k as int))),
    decreases k,
{
    if k > 0 {
        let km = (k - 1) as nat;
        lemma_settings(p, f, settings, km);
        assert(settings.take(k as int).drop_last() == settings.take(km as int));
        assert(settings.take(k as int).last() == settings[k - 1]);
        let before = settings_wallpapers(settings.take(km as int));
        let all = settings_wallpapers(settings.take(k as int));
        let vs = setting_values(&settings[k - 1].1);
        let mine = key_wallpapers(settings[k - 1].0@, vs);
        assert(all == before + mine);
        lemma_contains_concat(before, mine);
        match settings_lines(p, f, settings, km) {
            Err(_) => {
                lemma_widen(settings_lines(p, f, settings, km), f, p.install_dir, before, all);
            },
            Ok((_, q)) => {
                lemma_values(q, f, settings[k - 1].0@, vs, vs.len());
                assert(vs.take(vs.len() as int) == vs);
                lemma_widen(values_lines(q, f, settings[k - 1].0@, vs, vs.len()), f, p.install_dir, mine, all);
            },
        }
    } else {
        assert(settings.take(0) == Seq::<(String, Setting)>::empty());
    }
}

/// No two settings share a key, as in the attribute set they come from.
pub open spec fn keys_unique(settings: Seq<(String, Setting)>) -> bool {
    forall|i: int, j: int| 0 <= i < j < settings.len() ==> #[trigger] settings[i].0@ != #[trigger] settings[j].0@
}

proof fn lemma_settings_wallpapers(settings: Seq<(String, Setting)>)
    requires
        keys_unique(settings),
    ensures
        covers(wallpaper_files(settings), settings_wallpapers(settings)),
    decreases settings.len(),
{
    if settings.len() > 0 {
        let first = settings[0];
        let rest = settings.drop_first();
        assert(keys_unique(rest)) by {
            assert forall|i: int, j: int| 0 <= i < j < rest.len() implies #[trigger] rest[i].0@ != #[trigger] rest[j].0@ by {
                assert(rest[i] == settings[i + 1]);
                assert(rest[j] == settings[j + 1]);
            }
        }
        lemma_wallpapers_split(settings);
        if first.0@ == wallpaper() {
            // the only wallpaper setting: the rest name none
            lemma_no_wallpaper_key(rest);
            assert(settings_wallpapers(rest) == Seq::<Seq<char>>::empty());
            assert(setting_named(settings, wallpaper()) == Some(first.1));
            lemma_contains_concat(key_wallpapers(first.0@, setting_values(&first.1)), settings_wallpapers(rest));
            assert(covers(wallpaper_files(settings), settings_wallpapers(settings)));
        } else {
            assert(setting_named(settings, wallpaper()) == setting_named(rest, wallpaper()));
            lemma_settings_wallpapers(rest);
            assert(key_wallpapers(first.0@, setting_values(&first.1)) == Seq::<Seq<char>>::empty());
            assert(wallpaper_files(settings) == wallpaper_files(rest));
            assert(settings_wallpapers(settings) =~= settings_wallpapers(rest));
        }
    }
}

proof fn lemma_wallpapers_split(settings: Seq<(String, Setting)>)
    requires
        settings.len() > 0,
    ensures
        settings_wallpapers(settings) == key_wallpapers(settings[0].0@, setting_values(&settings[0].1))
            + settings_wallpapers(settings.drop_first()),
    decreases settings.len(),
{
    if settings.len() == 1 {
        assert(settings.drop_first() == Seq::<(String, Setting)>::empty());
        assert(settings.drop_last() == Seq::<(String, Setting)>::empty());
        assert(settings.last() == settings[0]);
        let k = key_wallpapers(settings[0].0@, setting_values(&settings[0].1));
        assert(settings_wallpapers(settings) == settings_wallpapers(Seq::<(String, Setting)>::empty()) + k);
        assert(Seq::<Seq<char>>::empty() + k =~= k);
        assert(settings_wallpapers(settings.drop_first()) == Seq::<Seq<char>>::empty());
        assert(k + Seq::<Seq<char>>::empty() =~= k);
    } else {
        lemma_wallpapers_split(settings.drop_last());
        assert(settings.drop_last().drop_first() == settings.drop_first().drop_last());
        assert(settings.drop_last()[0] == settings[0]);
        assert(settings.drop_first().last() == settings.last());
        let h = key_wallpapers(settings[0].0@, setting_values(&settings[0].1));
        let l = key_wallpapers(settings.last().0@, setting_values(&settings.last().1));
        let m = settings_wallpapers(settings.drop_first().drop_last());
        assert(settings_wallpapers(settings) == (h + m) + l);
        assert(settings_wallpapers(settings.drop_first()) == m + l);
        assert((h + m) + l =~= h + (m + l));
    }
}

proof fn lemma_no_wallpaper_key(settings: Seq<(String, Setting)>)
    requires
        forall|i: int| 0 <= i < settings.len() ==> #[trigger] settings[i].0@ != wallpaper(),
    ensures
        settings_wallpapers(settings) == Seq::<Seq<char>>::empty(),
    decreases settings.len(),
{
    if settings.len() > 0 {
        let init = settings.drop_last();
        assert forall|i: int| 0 <= i < init.len() implies #[trigger] init[i].0@ != wallpaper() by {
            assert(init[i] == settings[i]);
        }
        lemma_no_wallpaper_key(init);
        assert(settings.last() == settings[settings.len() - 1]);
    }
}

/// Rendering limine.conf needs a digest of nothing but the files
/// `gather::referenced` lists and the secrets it writes itself: when it
/// fails for want of one, the file is among those, and has none.
pub proof fn lemma_conf_reads_only_referenced(cfg: &LimineInstallConfig, f: &Facts)
    requires
        cfg.well_formed(),
    ensures
        conf(empty_plan(cfg), cfg, f) matches Err(ErrorView::Read { path }) ==> {
            &&& digest(f, path) is None
            &&& (referenced(cfg, f.profiles@).contains(path) || is_secrets_file(cfg.install_dir@, path))
        },
{
    let p = empty_plan(cfg);
    let dir = cfg.install_dir@;
    let all = referenced(cfg, f.profiles@);
    assert(keys_unique(cfg.settings@)) by {
        assert forall|i: int, j: int| 0 <= i < j < cfg.settings@.len() implies #[trigger] cfg.settings@[i].0@
            != #[trigger] cfg.settings@[j].0@ by {
            crate::text::lemma_lt_irreflexive(cfg.settings@[i].0@);
        }
    }
    lemma_contains_concat(profile_files(f.profiles@), wallpaper_files(cfg.settings@));
    if latest(f) is Some {
        lemma_settings(p, f, cfg.settings@, cfg.settings@.len());
        assert(cfg.settings@.take(cfg.settings@.len() as int) == cfg.settings@);
        lemma_settings_wallpapers(cfg.settings@);
        lemma_widen(
            settings_lines(p, f, cfg.settings@, cfg.settings@.len()),
            f,
            dir,
            settings_wallpapers(cfg.settings@),
            all,
        );
        if let Ok((_, p1)) = settings_lines(p, f, cfg.settings@, cfg.settings@.len()) {
            lemma_groups(p1, f, !(cfg.target is Bios), f.profiles@.len());
            assert(f.profiles@.take(f.profiles@.len() as int) == f.profiles@);
            lemma_widen(groups(p1, f, !(cfg.target is Bios), f.profiles@.len()), f, dir, profile_files(f.profiles@), all);
        }
    }
}

} // verus!
