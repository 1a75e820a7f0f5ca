//! Where nix keeps the profiles and their generations, and reading the
//! generation numbers out of the names it gives them.

use vstd::prelude::*;
use crate::path::{join, path_join};
use vstd::relations::{sorted_by, total_ordering};
use crate::text::{
    ascending, chars_of, decimal, ends_with, owned, parse_u32, parse_u32_of, push_decimal,
    sort_strings, sort_u32, sorted, starts_with, str_eq, string_of, strs, push_range,
};

verus! {

/// Where nix keeps the system profile and its generations.
pub open spec fn system_profiles() -> Seq<char> {
    "/nix/var/nix/profiles"@
}

/// The profile directory the generations are read out of.
pub struct Profiles {
    root: String,
}

impl View for Profiles {
    type V = Seq<char>;

    closed spec fn view(&self) -> Seq<char> {
        self.root@
    }
}

/// The directory a profile and its generation links are in: the system
/// profile sits at the top, everything else under `system-profiles`.
pub open spec fn profile_dir(root: Seq<char>, profile: Seq<char>) -> Seq<char> {
    if profile == "system"@ {
        root
    } else {
        path_join(root, "system-profiles"@)
    }
}

/// The name of the symlink nix keeps for one generation.
pub open spec fn link_name(profile: Seq<char>, generation: u32) -> Seq<char> {
    profile + "-"@ + decimal(generation as nat) + "-link"@
}

/// The generation a name in a profile's directory is the link of, if any.
pub open spec fn generation_number(profile: Seq<char>, name: Seq<char>) -> Option<u32> {
    let prefix = profile + "-"@;
    if prefix.is_prefix_of(name) {
        let rest = name.skip(prefix.len() as int);
        if "-link"@.is_suffix_of(rest) {
            parse_u32(rest.take(rest.len() - "-link"@.len()))
        } else {
            None
        }
    } else {
        None
    }
}

/// Every generation number named in `names`, in the order of the names.
pub open spec fn generation_numbers(profile: Seq<char>, names: Seq<Seq<char>>) -> Seq<u32>
    decreases names.len(),
{
    if names.len() == 0 {
        seq![]
    } else {
        generation_numbers(profile, names.drop_last()) + match generation_number(profile, names.last()) {
            Some(n) => seq![n],
            None => seq![],
        }
    }
}

/// How many of `len` generations are dropped to keep the newest `max`.
pub open spec fn dropped(len: nat, max: Option<u32>) -> nat {
    match max {
        Some(m) => if len > m {
            (len - m) as nat
        } else {
            0
        },
        None => 0,
    }
}

/// The generation numbers `names` holds, oldest first.
pub open spec fn numbers_ascending(profile: Seq<char>, names: Seq<Seq<char>>) -> Seq<u32> {
    choose|s: Seq<u32>| ascending(s) && s.to_multiset() == generation_numbers(profile, names).to_multiset()
}

/// The generations of a profile the install keeps: the newest `max`, oldest
/// first, or all of them without a limit.
pub open spec fn kept_generations(profile: Seq<char>, names: Seq<Seq<char>>, max: Option<u32>) -> Seq<u32> {
    let all = numbers_ascending(profile, names);
    all.skip(dropped(all.len(), max) as int)
}

/// Two ascending sequences of the same numbers are the same sequence.
proof fn lemma_ascending_unique(a: Seq<u32>, b: Seq<u32>)
    requires
        ascending(a),
        ascending(b),
        a.to_multiset() == b.to_multiset(),
    ensures
        a == b,
{
    let leq = |x: u32, y: u32| x <= y;
    assert(sorted_by(a, leq)) by {
        assert forall|i: int, j: int| 0 <= i < j < a.len() implies #[trigger] leq(a[i], a[j]) by {
            assert(a[i] <= a[j]);
        }
    }
    assert(sorted_by(b, leq)) by {
        assert forall|i: int, j: int| 0 <= i < j < b.len() implies #[trigger] leq(b[i], b[j]) by {
            assert(b[i] <= b[j]);
        }
    }
    assert(total_ordering(leq));
    vstd::seq_lib::lemma_sorted_unique(a, b, leq);
}

/// With a limit of `m`, the generations kept are the newest `m` of those
/// kept without one, still oldest first.
pub proof fn lemma_max_keeps_newest(profile: Seq<char>, names: Seq<Seq<char>>, m: u32)
    ensures
        ({
            let all = kept_generations(profile, names, None);
            let keep = if m < all.len() { m as int } else { all.len() as int };
            kept_generations(profile, names, Some(m)) == all.skip(all.len() - keep)
        }),
{
    let all = numbers_ascending(profile, names);
    assert(all.skip(0) =~= all);
}

/// Whether a name in `system-profiles` is a profile rather than one of the
/// generation links beside it.
pub open spec fn is_profile_name(name: Seq<char>) -> bool {
    !"-link"@.is_suffix_of(name)
}

impl Profiles {
    pub fn new(root: &str) -> (r: Profiles)
        ensures
            r@ == root@,
    {
        Profiles { root: owned(root) }
    }

    pub fn system() -> (r: Profiles)
        ensures
            r@ == system_profiles(),
    {
        Profiles::new("/nix/var/nix/profiles")
    }

    pub fn dir(&self, profile: &str) -> (r: String)
        ensures
            r@ == profile_dir(self@, profile@),
    {
        if str_eq(profile, "system") {
            owned(self.root.as_str())
        } else {
            join(self.root.as_str(), "system-profiles")
        }
    }

    /// The directory every non-system profile is in.
    pub fn others_dir(&self) -> (r: String)
        ensures
            r@ == path_join(self@, "system-profiles"@),
    {
        join(self.root.as_str(), "system-profiles")
    }

    /// The symlink nix keeps for one generation of a profile.
    pub fn generation_path(&self, profile: &str, generation: u32) -> (r: String)
        ensures
            r@ == path_join(profile_dir(self@, profile@), link_name(profile@, generation)),
    {
        let mut name = owned(profile);
        name.append("-");
        push_decimal(&mut name, generation as u64);
        name.append("-link");
        join(self.dir(profile).as_str(), name.as_str())
    }

    /// Every non-system profile, in name order, given the names in
    /// `system-profiles`: the generation links are not profiles.
    pub fn list(&self, names: &Vec<String>) -> (r: Vec<String>)
        ensures
            sorted(strs(r@)),
            strs(r@).to_multiset() =~= strs(names@).filter(|n: Seq<char>| is_profile_name(n)).to_multiset(),
    {
        let mut picked: Vec<String> = Vec::new();
        let mut i: usize = 0;
        while i < names.len()
            invariant
                i <= names@.len(),
                strs(picked@) == strs(names@.take(i as int)).filter(|n: Seq<char>| is_profile_name(n)),
            decreases names@.len() - i,
        {
            let name = &names[i];
            let ghost before = picked@;
            proof {
                let pre = strs(names@.take(i as int));
                assert(strs(names@.take(i + 1)) =~= pre.push(name@));
                pre.lemma_filter_push(name@, |n: Seq<char>| is_profile_name(n));
            }
            if !ends_with(name.as_str(), "-link") {
                picked.push(name.clone());
                assert(strs(picked@) =~= strs(before).push(name@));
            }
            i = i + 1;
        }
        assert(names@.take(names@.len() as int) =~= names@);
        sort_strings(picked)
    }

    /// A profile's generation numbers, oldest first, trimmed to the newest
    /// `max`, given the names in its directory: exactly the
    /// `<profile>-<n>-link` symlinks nix keeps beside the profile.
    pub fn generations(&self, profile: &str, names: &Vec<String>, max: Option<u32>) -> (r: Vec<u32>)
        ensures
            r@ == kept_generations(profile@, strs(names@), max),
    {
        let mut found: Vec<u32> = Vec::new();
        let mut i: usize = 0;
        while i < names.len()
            invariant
                i <= names@.len(),
                found@ == generation_numbers(profile@, strs(names@.take(i as int))),
            decreases names@.len() - i,
        {
            let n = generation_number_of(profile, names[i].as_str());
            proof {
                let pre = strs(names@.take(i + 1));
                assert(pre.drop_last() =~= strs(names@.take(i as int)));
                assert(pre.last() == names@[i as int]@);
            }
            match n {
                Some(n) => found.push(n),
                None => {},
            }
            assert(found@ =~= generation_numbers(profile@, strs(names@.take(i + 1))));
            i = i + 1;
        }
        assert(names@.take(names@.len() as int) =~= names@);
        let all = sort_u32(found);
        let ghost all_seq = all@;
        let drop: usize = match max {
            Some(m) => if all.len() > m as usize {
                all.len() - m as usize
            } else {
                0
            },
            None => 0,
        };
        let mut r: Vec<u32> = Vec::new();
        let mut k = drop;
        while k < all.len()
            invariant
                drop <= k <= all@.len(),
                r@ == all@.subrange(drop as int, k as int),
            decreases all@.len() - k,
        {
            r.push(all[k]);
            assert(all@.subrange(drop as int, k + 1) == all@.subrange(drop as int, k as int).push(all@[k as int]));
            k = k + 1;
        }
        assert(r@ == all_seq.skip(dropped(all_seq.len(), max) as int));
        proof {
            let want = generation_numbers(profile@, strs(names@)).to_multiset();
            assert(ascending(all_seq) && all_seq.to_multiset() == want);
            let chosen = numbers_ascending(profile@, strs(names@));
            lemma_ascending_unique(chosen, all_seq);
        }
        r
    }
}

/// The generation a name is the link of, if any.
pub fn generation_number_of(profile: &str, name: &str) -> (r: Option<u32>)
    ensures
        r == generation_number(profile@, name@),
{
    let mut prefix = owned(profile);
    prefix.append("-");
    if !starts_with(name, prefix.as_str()) {
        return None;
    }
    let v = chars_of(name);
    let p = chars_of(prefix.as_str());
    let mut rest = String::new();
    push_range(&mut rest, &v, p.len(), v.len());
    assert(rest@ == name@.skip(prefix@.len() as int));
    if !ends_with(rest.as_str(), "-link") {
        return None;
    }
    let rv = chars_of(rest.as_str());
    let l = chars_of("-link");
    let mut digits = String::new();
    push_range(&mut digits, &rv, 0, rv.len() - l.len());
    assert(digits@ == rest@.take(rest@.len() - "-link"@.len()));
    parse_u32_of(digits.as_str())
}

} // verus!
