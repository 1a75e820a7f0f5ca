//! A generation's `boot.json`: the bootspec document, its specialisations
//! and the Xen extension, flattened into one value.

use vstd::prelude::*;
use crate::text::{join_strings, keyed, push_spaced, seq_lt, trimmed, join_with, spaced, strs, trim, str_eq};

verus! {

/// One generation, or one of its specialisations.
pub struct BootSpec {
    pub init: String,
    pub kernel: String,
    pub kernel_params: Vec<String>,
    pub label: String,
    pub toplevel: String,
    pub initrd: Option<String>,
    pub initrd_secrets: Option<String>,
    /// By name, in name order.
    pub specialisations: Vec<(String, BootSpec)>,
    pub xen: Option<Xen>,
}

/// The Xen dom0 extension, once it names a version to label its entries
/// with.
pub struct Xen {
    pub version: String,
    pub params: Vec<String>,
    /// `None` when the multiboot binary is missing. The entry is still
    /// listed, but with no protocol to boot it by.
    pub boot: Option<XenBoot>,
}

/// What the Xen entries load, under either protocol.
pub struct XenBoot {
    pub multiboot: String,
    /// Xen's own EFI binary, which the EFI entry chainloads instead.
    pub efi: Option<String>,
}

/// `init=... <kernel params>`, as both the linux and the multiboot
/// protocols want it.
pub open spec fn cmdline(s: &BootSpec) -> Seq<char> {
    trim("init="@ + s.init@ + spaced(strs(s.kernel_params@)))
}

/// The dom0 parameters as one command line, empty when there are none.
pub open spec fn xen_params(x: &Xen) -> Seq<char> {
    trim(join_with(strs(x.params@), " "@))
}

impl BootSpec {
    /// Whether this generation is rendered as a submenu holding its
    /// specialisations, rather than as a single entry.
    pub fn has_specialisations(&self) -> (r: bool)
        ensures
            r == (self.specialisations@.len() > 0),
    {
        self.specialisations.len() > 0
    }

    pub fn cmdline(&self) -> (r: String)
        ensures
            r@ == cmdline(self),
    {
        let mut s = String::new();
        s.append("init=");
        s.append(self.init.as_str());
        push_spaced(&mut s, &self.kernel_params);
        trimmed(s.as_str())
    }
}

impl Xen {
    pub fn params(&self) -> (r: String)
        ensures
            r@ == xen_params(self),
    {
        let joined = join_strings(&self.params, " ");
        trimmed(joined.as_str())
    }
}

/// `org.nixos.bootspec.v1`, narrowed to the fields limine.conf needs.
pub struct Document {
    pub init: String,
    pub kernel: String,
    pub kernel_params: Vec<String>,
    pub label: String,
    pub toplevel: String,
    pub initrd: Option<String>,
    pub initrd_secrets: Option<String>,
}

/// `org.xenproject.bootspec.v2`. Every field is optional: the extension
/// has grown over time, and a generation may carry only part of it.
pub struct RawXen {
    pub efi_path: Option<String>,
    pub multiboot_path: Option<String>,
    pub params: Vec<String>,
    pub version: Option<String>,
}

/// The `boot.json` nix writes.
pub struct RawBootSpec {
    pub document: Document,
    /// By name, in name order; empty on generations built before
    /// specialisations were written out.
    pub specialisations: Vec<(String, RawBootSpec)>,
    pub xen: Option<RawXen>,
}

pub open spec fn opt_eq(a: Option<String>, b: Option<String>) -> bool {
    match (a, b) {
        (Some(x), Some(y)) => x@ == y@,
        (None, None) => true,
        _ => false,
    }
}

/// Whether `path` is among the files that exist.
pub open spec fn exists_in(existing: Seq<Seq<char>>, path: Seq<char>) -> bool {
    existing.contains(path)
}

/// The Xen extension as it is used: `None` when it names no version, and
/// with no boot files unless the multiboot binary is named and exists.
pub open spec fn resolves_xen(r: &RawXen, x: Option<Xen>, existing: Seq<Seq<char>>) -> bool {
    match (r.version, x) {
        (None, None) => true,
        (Some(v), Some(x)) => {
            &&& x.version@ == v@
            &&& strs(x.params@) == strs(r.params@)
            &&& match (r.multiboot_path, x.boot) {
                (Some(m), Some(b)) => {
                    &&& m@.len() > 0
                    &&& exists_in(existing, m@)
                    &&& b.multiboot@ == m@
                    &&& opt_eq(b.efi, r.efi_path)
                },
                (Some(m), None) => m@.len() == 0 || !exists_in(existing, m@),
                (None, None) => true,
                (None, Some(_)) => false,
            }
        },
        _ => false,
    }
}

/// `b` is `r` flattened, with its specialisations flattened the same way.
pub open spec fn flattens(r: RawBootSpec, b: BootSpec, existing: Seq<Seq<char>>) -> bool
    decreases r, 1nat, 0nat,
{
    &&& b.init@ == r.document.init@
    &&& b.kernel@ == r.document.kernel@
    &&& strs(b.kernel_params@) == strs(r.document.kernel_params@)
    &&& b.label@ == r.document.label@
    &&& b.toplevel@ == r.document.toplevel@
    &&& opt_eq(b.initrd, r.document.initrd)
    &&& opt_eq(b.initrd_secrets, r.document.initrd_secrets)
    &&& b.specialisations@.len() == r.specialisations@.len()
    &&& flattens_specialisations(r, b, existing, r.specialisations@.len())
    &&& match r.xen {
        Some(x) => resolves_xen(&x, b.xen, existing),
        None => b.xen is None,
    }
}

/// The first `k` specialisations of `b` are those of `r`, flattened.
pub open spec fn flattens_specialisations(r: RawBootSpec, b: BootSpec, existing: Seq<Seq<char>>, k: nat) -> bool
    decreases r, 0nat, k,
{
    if k == 0 || k > r.specialisations@.len() || k > b.specialisations@.len() {
        true
    } else {
        proof {
            assert(decreases_to!(r => r.specialisations));
            assert(decreases_to!(r.specialisations => r.specialisations@));
            assert(decreases_to!(r.specialisations@ => r.specialisations@[k - 1]));
            assert(decreases_to!(r.specialisations@[k - 1] => r.specialisations@[k - 1].1));
        }
        &&& flattens_specialisations(r, b, existing, (k - 1) as nat)
        &&& b.specialisations@[k - 1].0@ == r.specialisations@[k - 1].0@
        &&& flattens(r.specialisations@[k - 1].1, b.specialisations@[k - 1].1, existing)
    }
}

/// A bootspec's specialisations come in name order, each named once, and
/// the same holds of each of them.
pub open spec fn spec_well_formed(b: BootSpec) -> bool
    decreases b, 1nat, 0nat,
{
    keyed(b.specialisations@) && specialisations_well_formed(b, b.specialisations@.len())
}

pub open spec fn specialisations_well_formed(b: BootSpec, k: nat) -> bool
    decreases b, 0nat, k,
{
    if k == 0 || k > b.specialisations@.len() {
        true
    } else {
        proof {
            assert(decreases_to!(b => b.specialisations));
            assert(decreases_to!(b.specialisations => b.specialisations@));
            assert(decreases_to!(b.specialisations@ => b.specialisations@[k - 1]));
            assert(decreases_to!(b.specialisations@[k - 1] => b.specialisations@[k - 1].1));
        }
        specialisations_well_formed(b, (k - 1) as nat) && spec_well_formed(b.specialisations@[k - 1].1)
    }
}

/// A `boot.json`'s specialisations come in name order, each named once, as
/// the JSON object they are read from has them, and so on down.
pub open spec fn raw_well_formed(r: RawBootSpec) -> bool
    decreases r, 1nat, 0nat,
{
    keyed(r.specialisations@) && raw_specialisations_well_formed(r, r.specialisations@.len())
}

pub open spec fn raw_specialisations_well_formed(r: RawBootSpec, k: nat) -> bool
    decreases r, 0nat, k,
{
    if k == 0 || k > r.specialisations@.len() {
        true
    } else {
        proof {
            assert(decreases_to!(r => r.specialisations));
            assert(decreases_to!(r.specialisations => r.specialisations@));
            assert(decreases_to!(r.specialisations@ => r.specialisations@[k - 1]));
            assert(decreases_to!(r.specialisations@[k - 1] => r.specialisations@[k - 1].1));
        }
        raw_specialisations_well_formed(r, (k - 1) as nat) && raw_well_formed(r.specialisations@[k - 1].1)
    }
}

proof fn lemma_raw_each_well_formed(r: RawBootSpec, k: nat, j: int)
    requires
        raw_specialisations_well_formed(r, k),
        0 <= j < k <= r.specialisations@.len(),
    ensures
        raw_well_formed(r.specialisations@[j].1),
    decreases k,
{
    if j < k - 1 {
        lemma_raw_each_well_formed(r, (k - 1) as nat, j);
    }
}

proof fn lemma_each_well_formed(b: BootSpec, k: nat)
    requires
        k <= b.specialisations@.len(),
        forall|j: int| 0 <= j < k ==> spec_well_formed(#[trigger] b.specialisations@[j].1),
    ensures
        specialisations_well_formed(b, k),
    decreases k,
{
    if k > 0 {
        lemma_each_well_formed(b, (k - 1) as nat);
    }
}

proof fn lemma_flattens_specialisations(r: RawBootSpec, b: BootSpec, existing: Seq<Seq<char>>, k: nat)
    requires
        k <= r.specialisations@.len(),
        k <= b.specialisations@.len(),
        forall|j: int| 0 <= j < k ==> {
            &&& #[trigger] b.specialisations@[j].0@ == r.specialisations@[j].0@
            &&& flattens(r.specialisations@[j].1, b.specialisations@[j].1, existing)
        },
    ensures
        flattens_specialisations(r, b, existing, k),
    decreases k,
{
    if k > 0 {
        lemma_flattens_specialisations(r, b, existing, (k - 1) as nat);
        assert(b.specialisations@[k - 1].0@ == r.specialisations@[k - 1].0@);
    }
}

fn clone_strings(v: &Vec<String>) -> (r: Vec<String>)
    ensures
        strs(r@) == strs(v@),
{
    let mut r: Vec<String> = Vec::new();
    let mut i: usize = 0;
    while i < v.len()
        invariant
            i <= v@.len(),
            strs(r@) == strs(v@.take(i as int)),
        decreases v@.len() - i,
    {
        r.push(v[i].clone());
        assert(strs(v@.take(i + 1)) =~= strs(v@.take(i as int)).push(v@[i as int]@));
        assert(strs(r@) =~= strs(v@.take(i as int)).push(v@[i as int]@));
        i = i + 1;
    }
    assert(v@.take(v@.len() as int) =~= v@);
    r
}

fn contains_path(existing: &Vec<String>, path: &String) -> (r: bool)
    ensures
        r == exists_in(strs(existing@), path@),
{
    let mut i: usize = 0;
    while i < existing.len()
        invariant
            i <= existing@.len(),
            forall|k: int| 0 <= k < i ==> existing@[k]@ != path@,
        decreases existing@.len() - i,
    {
        if existing[i] == *path {
            assert(strs(existing@)[i as int] == path@);
            return true;
        }
        i = i + 1;
    }
    assert forall|k: int| 0 <= k < strs(existing@).len() implies strs(existing@)[k] != path@ by {
        assert(strs(existing@)[k] == existing@[k]@);
    }
    false
}

/// `None` when the extension names no version, which is how a generation
/// is decided to have no Xen entries at all.
pub fn resolve_xen(r: RawXen, existing: &Vec<String>) -> (x: Option<Xen>)
    ensures
        resolves_xen(&r, x, strs(existing@)),
{
    let RawXen { efi_path, multiboot_path, params, version } = r;
    match version {
        None => None,
        Some(version) => {
            let boot = match multiboot_path {
                Some(m) => {
                    if !m.as_str().is_empty() && contains_path(existing, &m) {
                        Some(XenBoot { multiboot: m, efi: efi_path })
                    } else {
                        None
                    }
                },
                None => None,
            };
            Some(Xen { version, params, boot })
        },
    }
}

impl BootSpec {
    /// Flattens a `boot.json`; `existing` holds the files that are on disk,
    /// which decides whether a Xen entry has anything to boot.
    pub fn from_raw(r: RawBootSpec, existing: &Vec<String>) -> (b: BootSpec)
        requires
            raw_well_formed(r),
        ensures
            flattens(r, b, strs(existing@)),
            spec_well_formed(b),
        decreases r,
    {
        let ghost r0 = r;
        let RawBootSpec { document, specialisations, xen } = r;
        let mut out: Vec<(String, BootSpec)> = Vec::new();
        let mut rest = specialisations;
        let ghost all = rest@;
        let total = rest.len();
        let ghost n = rest@.len();
        assert(rest@.skip(0) == rest@);
        let mut i: usize = 0;
        while rest.len() > 0
            invariant
                i <= n,
                n == total,
                r0 == r,
                all == r0.specialisations@,
                n == all.len(),
                rest@ == all.skip(i as int),
                out@.len() == i,
                forall|k: int| 0 <= k < i ==> {
                    &&& #[trigger] out@[k].0@ == all[k].0@
                    &&& flattens(all[k].1, out@[k].1, strs(existing@))
                    &&& spec_well_formed(out@[k].1)
                },
                raw_well_formed(r0),
            decreases rest@.len(),
        {
            let (name, raw) = rest.remove(0);
            proof {
                assert(all.skip(i as int)[0] == all[i as int]);
                assert(rest@ =~= all.skip(i + 1));
                assert(decreases_to!(r0 => r0.specialisations));
                assert(decreases_to!(r0.specialisations => r0.specialisations@));
                assert(decreases_to!(r0.specialisations@ => r0.specialisations@[i as int]));
                assert(decreases_to!(r0.specialisations@[i as int] => r0.specialisations@[i as int].1));
                assert(raw == r0.specialisations@[i as int].1);
                assert(decreases_to!(r0 => raw));
                assert(decreases_to!(r => raw));
            }
            proof {
                lemma_raw_each_well_formed(r0, n, i as int);
            }
            let b = BootSpec::from_raw(raw, existing);
            out.push((name, b));
            i = i + 1;
        }
        let ghost outs = out@;
        assert(i == n);
        let b = BootSpec {
            init: document.init,
            kernel: document.kernel,
            kernel_params: document.kernel_params,
            label: document.label,
            toplevel: document.toplevel,
            initrd: document.initrd,
            initrd_secrets: document.initrd_secrets,
            specialisations: out,
            xen: match xen {
                Some(x) => resolve_xen(x, existing),
                None => None,
            },
        };
        proof {
            lemma_flattens_specialisations(r0, b, strs(existing@), n);
            assert forall|j: int| 0 <= j < n implies spec_well_formed(#[trigger] b.specialisations@[j].1) by {
                assert(b.specialisations@[j] == outs[j]);
                assert(outs[j].0@ == all[j].0@);
            }
            lemma_each_well_formed(b, n);
            assert(keyed(b.specialisations@)) by {
                assert forall|i: int, j: int| 0 <= i < j < b.specialisations@.len() implies seq_lt(
                    #[trigger] b.specialisations@[i].0@,
                    #[trigger] b.specialisations@[j].0@,
                ) by {
                    assert(b.specialisations@[i].0@ == all[i].0@);
                    assert(b.specialisations@[j].0@ == all[j].0@);
                }
            }
        }
        b
    }
}

} // verus!
