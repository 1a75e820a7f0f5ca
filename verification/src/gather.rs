//! What has to be read off the machine before an install can be worked out,
//! decided from what has been read so far.

use vstd::prelude::*;
use crate::bootspec::{BootSpec, Xen};
use crate::config::{EfiDiscovery, LimineInstallConfig, efi_of};
use crate::facts::{Generation, Profile};
use crate::settings::{Scalar, Setting, scalar_str, setting_values};
use crate::text::{owned, str_eq, strs};

verus! {

/// The files a Xen extension boots, when it boots any.
pub open spec fn xen_files(x: Option<Xen>) -> Seq<Seq<char>> {
    match x {
        Some(x) => match x.boot {
            Some(b) => seq![b.multiboot@] + match b.efi {
                Some(e) => seq![e@],
                None => seq![],
            },
            None => seq![],
        },
        None => seq![],
    }
}

/// Every file a bootspec names for limine.conf: the kernel, the initrd,
/// what Xen boots, then the same for each specialisation, in name order.
pub open spec fn spec_files(s: BootSpec) -> Seq<Seq<char>>
    decreases s, 1nat, 0nat,
{
    seq![s.kernel@] + match s.initrd {
        Some(i) => seq![i@],
        None => seq![],
    } + xen_files(s.xen) + specialisation_files(s, s.specialisations@.len())
}

/// The files the first `k` specialisations of `s` name.
pub open spec fn specialisation_files(s: BootSpec, k: nat) -> Seq<Seq<char>>
    decreases s, 0nat, k,
{
    if k == 0 || k > s.specialisations@.len() {
        seq![]
    } else {
        proof {
            assert(decreases_to!(s => s.specialisations));
            assert(decreases_to!(s.specialisations => s.specialisations@));
            assert(decreases_to!(s.specialisations@ => s.specialisations@[k - 1]));
            assert(decreases_to!(s.specialisations@[k - 1] => s.specialisations@[k - 1].1));
        }
        specialisation_files(s, (k - 1) as nat) + spec_files(s.specialisations@[k - 1].1)
    }
}

/// The files the generations name, in order.
pub open spec fn generation_files(gs: Seq<Generation>) -> Seq<Seq<char>>
    decreases gs.len(),
{
    if gs.len() == 0 {
        seq![]
    } else {
        generation_files(gs.drop_last()) + spec_files(gs.last().spec)
    }
}

/// The files the generations of the profiles name, in order.
pub open spec fn profile_files(ps: Seq<Profile>) -> Seq<Seq<char>>
    decreases ps.len(),
{
    if ps.len() == 0 {
        seq![]
    } else {
        profile_files(ps.drop_last()) + generation_files(ps.last().generations@)
    }
}

/// The first setting under `key`.
pub open spec fn setting_named(settings: Seq<(String, Setting)>, key: Seq<char>) -> Option<Setting>
    decreases settings.len(),
{
    if settings.len() == 0 {
        None
    } else if settings[0].0@ == key {
        Some(settings[0].1)
    } else {
        setting_named(settings.drop_first(), key)
    }
}

/// The strings among some values, in order.
pub open spec fn str_values(vs: Seq<Scalar>) -> Seq<Seq<char>>
    decreases vs.len(),
{
    if vs.len() == 0 {
        seq![]
    } else {
        str_values(vs.drop_last()) + match scalar_str(&vs.last()) {
            Some(s) => seq![s],
            None => seq![],
        }
    }
}

/// The wallpapers the `wallpaper` setting names: each of its string
/// values, whether it holds one or a list.
pub open spec fn wallpaper_files(settings: Seq<(String, Setting)>) -> Seq<Seq<char>> {
    match setting_named(settings, "wallpaper"@) {
        Some(w) => str_values(setting_values(&w)),
        None => seq![],
    }
}

/// Every file limine.conf will name, which is every file that needs a
/// digest: decided by the generations alone, so it can be known before
/// anything is rendered.
pub open spec fn referenced(cfg: &LimineInstallConfig, ps: Seq<Profile>) -> Seq<Seq<char>> {
    profile_files(ps) + wallpaper_files(cfg.settings@)
}

fn push_opt(out: &mut Vec<String>, o: &Option<String>)
    ensures
        strs(final(out)@) == strs(old(out)@) + match o {
            Some(s) => seq![s@],
            None => seq![],
        },
{
    match o {
        Some(s) => {
            let ghost before = out@;
            out.push(s.clone());
            assert(strs(out@) =~= strs(before).push(s@));
        },
        None => {
            assert(strs(out@) =~= strs(out@) + Seq::<Seq<char>>::empty());
        },
    }
}

/// Appends the files a bootspec names.
fn collect_files(s: &BootSpec, out: &mut Vec<String>)
    ensures
        strs(final(out)@) == strs(old(out)@) + spec_files(*s),
    decreases s,
{
    let ghost start = strs(out@);
    let ghost before = out@;
    out.push(s.kernel.clone());
    assert(strs(out@) =~= strs(before).push(s.kernel@));
    push_opt(out, &s.initrd);
    match &s.xen {
        Some(x) => match &x.boot {
            Some(b) => {
                let ghost before = out@;
                out.push(b.multiboot.clone());
                assert(strs(out@) =~= strs(before).push(b.multiboot@));
                push_opt(out, &b.efi);
            },
            None => {},
        },
        None => {},
    }
    let ghost mid = strs(out@);
    assert(mid =~= start + (seq![s.kernel@] + match s.initrd {
        Some(i) => seq![i@],
        None => seq![],
    } + xen_files(s.xen)));
    let mut k: usize = 0;
    while k < s.specialisations.len()
        invariant
            k <= s.specialisations@.len(),
            strs(out@) == mid + specialisation_files(*s, k as nat),
        decreases s.specialisations@.len() - k,
    {
        proof {
            assert(decreases_to!(s => s.specialisations));
            assert(decreases_to!(s.specialisations => s.specialisations@));
            assert(decreases_to!(s.specialisations@ => s.specialisations@[k as int]));
            assert(decreases_to!(s.specialisations@[k as int] => s.specialisations@[k as int].1));
        }
        collect_files(&s.specialisations[k].1, out);
        assert(specialisation_files(*s, (k + 1) as nat) == specialisation_files(*s, k as nat) + spec_files(
            s.specialisations@[k as int].1,
        ));
        k = k + 1;
    }
    assert(strs(out@) =~= start + spec_files(*s));
}

fn setting_named_exec<'a>(settings: &'a Vec<(String, Setting)>, key: &str) -> (r: Option<&'a Setting>)
    ensures
        match r {
            Some(s) => setting_named(settings@, key@) == Some(*s),
            None => setting_named(settings@, key@) is None,
        },
{
    let mut i: usize = 0;
    assert(settings@.skip(0) == settings@);
    while i < settings.len()
        invariant
            i <= settings@.len(),
            setting_named(settings@, key@) == setting_named(settings@.skip(i as int), key@),
        decreases settings@.len() - i,
    {
        assert(settings@.skip(i as int).drop_first() == settings@.skip(i + 1));
        if str_eq(settings[i].0.as_str(), key) {
            return Some(&settings[i].1);
        }
        i = i + 1;
    }
    None
}

/// Every file limine.conf will name, in the order the generations and the
/// wallpapers name them; a file named twice is listed twice.
pub fn referenced_files(cfg: &LimineInstallConfig, profiles: &Vec<Profile>) -> (r: Vec<String>)
    ensures
        strs(r@) == referenced(cfg, profiles@),
{
    let mut out: Vec<String> = Vec::new();
    let mut i: usize = 0;
    assert(strs(out@) =~= profile_files(profiles@.take(0)));
    while i < profiles.len()
        invariant
            i <= profiles@.len(),
            strs(out@) == profile_files(profiles@.take(i as int)),
        decreases profiles@.len() - i,
    {
        let gs = &profiles[i].generations;
        let ghost start = strs(out@);
        let mut j: usize = 0;
        assert(start + generation_files(gs@.take(0)) =~= start);
        while j < gs.len()
            invariant
                j <= gs@.len(),
                strs(out@) == start + generation_files(gs@.take(j as int)),
            decreases gs@.len() - j,
        {
            collect_files(&gs[j].spec, &mut out);
            assert(gs@.take(j + 1).drop_last() == gs@.take(j as int));
            j = j + 1;
        }
        assert(gs@.take(j as int) == gs@);
        assert(profiles@.take(i + 1).drop_last() == profiles@.take(i as int));
        i = i + 1;
    }
    assert(profiles@.take(i as int) == profiles@);
    match setting_named_exec(&cfg.settings, "wallpaper") {
        Some(Setting::One(w)) => {
            let ghost before = out@;
            let ghost one = seq![*w];
            assert(one.drop_last() =~= Seq::<Scalar>::empty());
            assert(one.last() == *w);
            assert(str_values(Seq::<Scalar>::empty()) == Seq::<Seq<char>>::empty());
            match w.as_str() {
                Some(p) => {
                    out.push(p.clone());
                    assert(str_values(one) =~= seq![p@]);
                    assert(strs(out@) =~= strs(before) + str_values(one));
                },
                None => {
                    assert(str_values(one) =~= Seq::<Seq<char>>::empty());
                    assert(strs(out@) =~= strs(before) + str_values(one));
                },
            }
        },
        Some(Setting::Many(ws)) => {
            let ghost start = strs(out@);
            let mut k: usize = 0;
            assert(start + str_values(ws@.take(0)) =~= start);
            while k < ws.len()
                invariant
                    k <= ws@.len(),
                    strs(out@) == start + str_values(ws@.take(k as int)),
                decreases ws@.len() - k,
            {
                let ghost before = out@;
                assert(ws@.take(k + 1).drop_last() == ws@.take(k as int));
                match ws[k].as_str() {
                    Some(w) => {
                        out.push(w.clone());
                        assert(strs(out@) =~= strs(before).push(w@));
                    },
                    None => {},
                }
                k = k + 1;
            }
            assert(ws@.take(k as int) == ws@);
        },
        None => {
            assert(strs(out@) =~= strs(out@) + Seq::<Seq<char>>::empty());
        },
    }
    out
}

/// The secrets scripts to run, each with the toplevel of the generation it
/// belongs to: one for every generation that has one. Specialisations are
/// not asked.
pub open spec fn generation_scripts(gs: Seq<Generation>) -> Seq<(Seq<char>, Seq<char>)>
    decreases gs.len(),
{
    if gs.len() == 0 {
        seq![]
    } else {
        generation_scripts(gs.drop_last()) + match gs.last().spec.initrd_secrets {
            Some(script) => seq![(script@, gs.last().spec.toplevel@)],
            None => seq![],
        }
    }
}

pub open spec fn secrets_scripts(ps: Seq<Profile>) -> Seq<(Seq<char>, Seq<char>)>
    decreases ps.len(),
{
    if ps.len() == 0 {
        seq![]
    } else {
        secrets_scripts(ps.drop_last()) + generation_scripts(ps.last().generations@)
    }
}

pub open spec fn pair_views(v: Seq<(String, String)>) -> Seq<(Seq<char>, Seq<char>)> {
    v.map_values(|p: (String, String)| (p.0@, p.1@))
}

/// The initrd secrets scripts the generations carry, in order, each with
/// the toplevel its output is filed under.
pub fn scripts_to_run(profiles: &Vec<Profile>) -> (r: Vec<(String, String)>)
    ensures
        pair_views(r@) == secrets_scripts(profiles@),
{
    let mut out: Vec<(String, String)> = Vec::new();
    let mut i: usize = 0;
    assert(pair_views(out@) =~= secrets_scripts(profiles@.take(0)));
    while i < profiles.len()
        invariant
            i <= profiles@.len(),
            pair_views(out@) == secrets_scripts(profiles@.take(i as int)),
        decreases profiles@.len() - i,
    {
        let gs = &profiles[i].generations;
        let ghost start = pair_views(out@);
        let mut j: usize = 0;
        assert(start + generation_scripts(gs@.take(0)) =~= start);
        while j < gs.len()
            invariant
                j <= gs@.len(),
                pair_views(out@) == start + generation_scripts(gs@.take(j as int)),
            decreases gs@.len() - j,
        {
            let ghost before = out@;
            assert(gs@.take(j + 1).drop_last() == gs@.take(j as int));
            let spec = &gs[j].spec;
            match &spec.initrd_secrets {
                Some(script) => {
                    out.push((script.clone(), spec.toplevel.clone()));
                    assert(pair_views(out@) =~= pair_views(before).push((script@, spec.toplevel@)));
                },
                None => {
                    assert(pair_views(out@) =~= pair_views(before) + Seq::<(Seq<char>, Seq<char>)>::empty());
                },
            }
            j = j + 1;
        }
        assert(gs@.take(j as int) == gs@);
        assert(profiles@.take(i + 1).drop_last() == profiles@.take(i as int));
        i = i + 1;
    }
    assert(profiles@.take(i as int) == profiles@);
    out
}

/// Whether the install registers a firmware boot entry, which is the only
/// thing the ESP's partition has to be read for.
pub open spec fn registers_boot_entry(cfg: &LimineInstallConfig) -> bool {
    match efi_of(&cfg.target) {
        Some(e) => e.discovery == EfiDiscovery::Registered,
        None => false,
    }
}

impl LimineInstallConfig {
    pub fn registers_boot_entry(&self) -> (r: bool)
        ensures
            r == registers_boot_entry(self),
    {
        match self.target.here() {
            Some(e) => match e.discovery {
                EfiDiscovery::Registered => true,
                _ => false,
            },
            None => false,
        }
    }
}

} // verus!
