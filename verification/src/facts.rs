//! Everything the install needs to know about the machine, read once so
//! that deciding what to do is a function from data to data.

use vstd::prelude::*;
use crate::bootspec::{BootSpec, spec_well_formed};
use crate::path::{same_path, same_path_of};
use crate::text::{keyed, owned, push_char, str_eq};

verus! {

/// The partition the ESP lives on, as its firmware boot entry names it.
pub struct Partition {
    pub number: u32,
    pub start: u64,
    pub size: u64,
    /// The partition's unique GUID, as the 128-bit number it spells.
    pub guid: u128,
}

pub struct Generation {
    pub number: u32,
    pub spec: BootSpec,
    /// The profile link's modification time, as limine.conf shows it.
    pub built_at: String,
}

pub struct Profile {
    pub name: String,
    /// Newest first, already trimmed to `maxGenerations`.
    pub generations: Vec<Generation>,
}

/// What the machine looked like when the install started.
pub struct Facts {
    /// The system profile first, then the others in name order.
    pub profiles: Vec<Profile>,
    /// The digest of each file limine.conf names, when checksums are on,
    /// by the file's path.
    pub digests: Vec<(String, String)>,
    /// fwupd's EFI binaries, which are signed alongside limine's.
    pub fwupd: Vec<String>,
    /// What a generation's secrets script produced, by its toplevel.
    pub secrets: Vec<(String, Vec<u8>)>,
    pub sbctl_keys_exist: bool,
    /// Only read when a boot entry is going to be registered.
    pub esp: Option<Partition>,
}

/// The profile every machine has.
pub open spec fn system_name() -> Seq<char> {
    "system"@
}

pub open spec fn lookup_text(s: Seq<(String, String)>, key: Seq<char>) -> Option<Seq<char>>
    decreases s.len(),
{
    if s.len() == 0 {
        None
    } else if same_path(s[0].0@, key) {
        Some(s[0].1@)
    } else {
        lookup_text(s.drop_first(), key)
    }
}

pub open spec fn lookup_bytes(s: Seq<(String, Vec<u8>)>, key: Seq<char>) -> Option<Seq<u8>>
    decreases s.len(),
{
    if s.len() == 0 {
        None
    } else if same_path(s[0].0@, key) {
        Some(s[0].1@)
    } else {
        lookup_bytes(s.drop_first(), key)
    }
}

/// The digest of a file, if one was taken.
pub open spec fn digest(f: &Facts, path: Seq<char>) -> Option<Seq<char>> {
    lookup_text(f.digests@, path)
}

/// What the secrets script of the generation at `toplevel` produced.
pub open spec fn secrets(f: &Facts, toplevel: Seq<char>) -> Option<Seq<u8>> {
    lookup_bytes(f.secrets@, toplevel)
}

/// The first profile named "system", if any.
pub open spec fn system_profile(ps: Seq<Profile>) -> Option<Profile>
    decreases ps.len(),
{
    if ps.len() == 0 {
        None
    } else if ps[0].name@ == system_name() {
        Some(ps[0])
    } else {
        system_profile(ps.drop_first())
    }
}

/// The newest generation of the system profile, which the default entry
/// points at.
pub open spec fn latest(f: &Facts) -> Option<Generation> {
    match system_profile(f.profiles@) {
        Some(p) => if p.generations@.len() > 0 {
            Some(p.generations@[0])
        } else {
            None
        },
        None => None,
    }
}

/// How a profile's group is labelled in the menu.
pub open spec fn group(name: Seq<char>) -> Seq<char> {
    if name == system_name() {
        "default profile"@
    } else {
        "profile '"@ + name + "'"@
    }
}

impl Facts {
    /// The digests and the secrets come in key order, each path once, as
    /// the maps they were gathered into have them, and every generation's
    /// bootspec is well formed.
    pub open spec fn well_formed(&self) -> bool {
        &&& keyed(self.digests@)
        &&& keyed(self.secrets@)
        &&& forall|i: int, j: int|
            0 <= i < self.profiles@.len() && 0 <= j < self.profiles@[i].generations@.len() ==> spec_well_formed(
                #[trigger] self.profiles@[i].generations@[j].spec,
            )
    }

    pub fn digest(&self, path: &str) -> (r: Option<&String>)
        ensures
            crate::plan::opt_view(r) == digest(self, path@),
    {
        let mut i: usize = 0;
        assert(self.digests@.skip(0) == self.digests@);
        while i < self.digests.len()
            invariant
                i <= self.digests@.len(),
                digest(self, path@) == lookup_text(self.digests@.skip(i as int), path@),
            decreases self.digests@.len() - i,
        {
            assert(self.digests@.skip(i as int).drop_first() == self.digests@.skip(i + 1));
            if same_path_of(self.digests[i].0.as_str(), path) {
                return Some(&self.digests[i].1);
            }
            i = i + 1;
        }
        None
    }

    pub fn secrets(&self, toplevel: &str) -> (r: Option<&Vec<u8>>)
        ensures
            match (r, secrets(self, toplevel@)) {
                (Some(a), Some(b)) => a@ == b,
                (None, None) => true,
                _ => false,
            },
    {
        let mut i: usize = 0;
        assert(self.secrets@.skip(0) == self.secrets@);
        while i < self.secrets.len()
            invariant
                i <= self.secrets@.len(),
                secrets(self, toplevel@) == lookup_bytes(self.secrets@.skip(i as int), toplevel@),
            decreases self.secrets@.len() - i,
        {
            assert(self.secrets@.skip(i as int).drop_first() == self.secrets@.skip(i + 1));
            if same_path_of(self.secrets[i].0.as_str(), toplevel) {
                return Some(&self.secrets[i].1);
            }
            i = i + 1;
        }
        None
    }

    pub fn latest(&self) -> (r: Option<&Generation>)
        ensures
            match (r, latest(self)) {
                (Some(a), Some(b)) => *a == b,
                (None, None) => true,
                _ => false,
            },
    {
        let mut i: usize = 0;
        assert(self.profiles@.skip(0) == self.profiles@);
        while i < self.profiles.len()
            invariant
                i <= self.profiles@.len(),
                system_profile(self.profiles@) == system_profile(self.profiles@.skip(i as int)),
            decreases self.profiles@.len() - i,
        {
            assert(self.profiles@.skip(i as int).drop_first() == self.profiles@.skip(i + 1));
            if str_eq(self.profiles[i].name.as_str(), "system") {
                if self.profiles[i].generations.len() > 0 {
                    return Some(&self.profiles[i].generations[0]);
                }
                return None;
            }
            i = i + 1;
        }
        None
    }
}

impl Profile {
    pub fn group(&self) -> (r: String)
        ensures
            r@ == group(self.name@),
    {
        if str_eq(self.name.as_str(), "system") {
            owned("default profile")
        } else {
            let mut r = owned("profile '");
            r.append(self.name.as_str());
            r.append("'");
            r
        }
    }
}

proof fn lemma_lookup_by_path(s: Seq<(String, String)>, q: Seq<char>, i: int)
    requires
        0 <= i < s.len(),
        same_path(s[i].0@, q),
        forall|j: int| 0 <= j < s.len() && j != i ==> !same_path(#[trigger] s[j].0@, q),
    ensures
        lookup_text(s, q) == Some(s[i].1@),
    decreases s.len(),
{
    if i > 0 {
        assert(!same_path(s[0].0@, q));
        let t = s.drop_first();
        assert forall|j: int| 0 <= j < t.len() && j != i - 1 implies !same_path(#[trigger] t[j].0@, q) by {
            assert(t[j] == s[j + 1]);
        }
        lemma_lookup_by_path(t, q, i - 1);
    }
}

proof fn lemma_lookup_missing(s: Seq<(String, String)>, q: Seq<char>)
    requires
        forall|j: int| 0 <= j < s.len() ==> !same_path(#[trigger] s[j].0@, q),
    ensures
        lookup_text(s, q) is None,
    decreases s.len(),
{
    if s.len() > 0 {
        let t = s.drop_first();
        assert(!same_path(s[0].0@, q));
        assert forall|j: int| 0 <= j < t.len() implies !same_path(#[trigger] t[j].0@, q) by {
            assert(t[j] == s[j + 1]);
        }
        lemma_lookup_missing(t, q);
    }
}

/// A file's digest is the one recorded under its own path: the entry whose
/// path is the same path as the file's, when exactly one is, and none when
/// no entry names it. Two files that share a file name in different store
/// paths are different paths, so each gets its own digest.
pub proof fn lemma_digest_of_its_own_path(f: &Facts, q: Seq<char>)
    ensures
        forall|i: int|
            0 <= i < f.digests@.len() && same_path(#[trigger] f.digests@[i].0@, q) && (forall|j: int|
                0 <= j < f.digests@.len() && j != i ==> !same_path(#[trigger] f.digests@[j].0@, q))
                ==> digest(f, q) == Some(f.digests@[i].1@),
        (forall|j: int| 0 <= j < f.digests@.len() ==> !same_path(#[trigger] f.digests@[j].0@, q)) ==> digest(f, q)
            is None,
{
    assert forall|i: int|
        0 <= i < f.digests@.len() && same_path(#[trigger] f.digests@[i].0@, q) && (forall|j: int|
            0 <= j < f.digests@.len() && j != i ==> !same_path(#[trigger] f.digests@[j].0@, q))
        implies digest(f, q) == Some(f.digests@[i].1@) by {
        lemma_lookup_by_path(f.digests@, q, i);
    }
    if forall|j: int| 0 <= j < f.digests@.len() ==> !same_path(#[trigger] f.digests@[j].0@, q) {
        lemma_lookup_missing(f.digests@, q);
    }
}

proof fn lemma_system_profile_first(ps: Seq<Profile>, i: int)
    requires
        0 <= i < ps.len(),
        ps[i].name@ == system_name(),
        forall|j: int| 0 <= j < i ==> #[trigger] ps[j].name@ != system_name(),
    ensures
        system_profile(ps) == Some(ps[i]),
    decreases ps.len(),
{
    if i > 0 {
        let t = ps.drop_first();
        assert(ps[0].name@ != system_name());
        assert forall|j: int| 0 <= j < i - 1 implies #[trigger] t[j].name@ != system_name() by {
            assert(t[j] == ps[j + 1]);
        }
        lemma_system_profile_first(t, i - 1);
    }
}

/// The generation the default entry points at is the newest one of the
/// system profile: the first of its generations, which are listed newest
/// first, taken from the first profile named "system".
pub proof fn lemma_latest_is_newest_system_generation(f: &Facts, i: int)
    requires
        0 <= i < f.profiles@.len(),
        f.profiles@[i].name@ == "system"@,
        forall|j: int| 0 <= j < i ==> #[trigger] f.profiles@[j].name@ != "system"@,
    ensures
        f.profiles@[i].generations@.len() > 0 ==> latest(f) == Some(f.profiles@[i].generations@[0]),
        f.profiles@[i].generations@.len() == 0 ==> latest(f) is None,
{
    lemma_system_profile_first(f.profiles@, i);
}

} // verus!
