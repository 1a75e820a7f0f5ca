//! The validated install config, and its resolution from the JSON the
//! module's activation script hands over.

use vstd::prelude::*;
use crate::path::{is_absolute, join, path_join};
use crate::settings::Setting;
use crate::text::{decimal, keyed, owned, push_decimal, starts_with, str_eq};

verus! {

/// The CPU limine is being installed for. The wire format's
/// `family`/`bits`/`arch` triple can express far more than limine ships
/// binaries for, so it is narrowed during validation.
#[derive(Clone, Copy, Debug, PartialEq, Eq, Structural)]
pub enum Arch {
    I686,
    X86_64,
    Aarch64,
}

pub open spec fn efi_boot_file(a: Arch) -> Seq<char> {
    match a {
        Arch::I686 => "BOOTIA32.EFI"@,
        Arch::X86_64 => "BOOTX64.EFI"@,
        Arch::Aarch64 => "BOOTAA64.EFI"@,
    }
}

pub open spec fn arch_name(a: Arch) -> Seq<char> {
    match a {
        Arch::I686 => "i686"@,
        Arch::X86_64 => "x86_64"@,
        Arch::Aarch64 => "aarch64"@,
    }
}

impl Arch {
    /// The EFI binary limine ships for this architecture.
    pub fn efi_boot_file(self) -> (r: &'static str)
        ensures
            r@ == efi_boot_file(self),
    {
        match self {
            Arch::I686 => "BOOTIA32.EFI",
            Arch::X86_64 => "BOOTX64.EFI",
            Arch::Aarch64 => "BOOTAA64.EFI",
        }
    }

    /// Whether limine ships a BIOS stage 1 for this architecture.
    pub open spec fn supports_bios_spec(self) -> bool {
        self == Arch::I686 || self == Arch::X86_64
    }

    /// Limine's BIOS stage 1 exists only for x86.
    pub fn supports_bios(self) -> (r: bool)
        ensures
            r == self.supports_bios_spec(),
    {
        match self {
            Arch::I686 | Arch::X86_64 => true,
            Arch::Aarch64 => false,
        }
    }

    /// How the architecture is written in messages.
    pub fn name(self) -> (r: &'static str)
        ensures
            r@ == arch_name(self),
    {
        match self {
            Arch::I686 => "i686",
            Arch::X86_64 => "x86_64",
            Arch::Aarch64 => "aarch64",
        }
    }
}

/// How limine is made discoverable by EFI firmware.
#[derive(Clone, Copy, Debug, PartialEq, Eq, Structural)]
pub enum EfiDiscovery {
    /// Copied to the fallback path every firmware probes, so no NVRAM entry
    /// is needed.
    Removable,
    /// Installed under its own directory and registered in NVRAM.
    Registered,
    /// Installed under its own directory with no NVRAM entry: the user must
    /// add one themselves.
    Unregistered,
}

pub open spec fn discovery_directory(d: EfiDiscovery) -> Seq<char> {
    match d {
        EfiDiscovery::Removable => "boot"@,
        _ => "limine"@,
    }
}

impl EfiDiscovery {
    /// The directory under `/efi` the firmware will look in.
    pub fn directory(&self) -> (r: &'static str)
        ensures
            r@ == discovery_directory(*self),
    {
        match self {
            EfiDiscovery::Removable => "boot",
            EfiDiscovery::Registered | EfiDiscovery::Unregistered => "limine",
        }
    }
}

/// What to do when sbctl holds no keys yet.
pub enum KeyPolicy {
    /// Bail out and tell the user to generate them.
    Require,
    /// Generate them, then enrol them with these extra `sbctl` arguments if
    /// `Some`. Enrolment is unreachable without generation, which is why it
    /// is nested here rather than being a sibling flag.
    Generate { enroll: Option<Vec<String>> },
}

/// Signing the EFI binary with sbctl. Only reachable through [`EfiInstall`],
/// because secure boot without an ESP is meaningless.
pub enum SecureBoot {
    Disabled,
    Enabled {
        /// The `sbctl` binary itself, resolved out of its store path.
        sbctl: String,
        keys: KeyPolicy,
        /// fwupd's store path; its EFI binaries get signed too when present.
        fwupd: Option<String>,
    },
}

/// The EFI half of an install.
pub struct EfiInstall {
    pub discovery: EfiDiscovery,
    /// Hash limine.conf and hand it to `limine enroll-config`.
    pub enroll_config: bool,
    pub secure_boot: SecureBoot,
}

/// Where limine's EFI binary goes on the ESP.
pub open spec fn image_path(mount_point: Seq<char>, d: EfiDiscovery, boot_file: Seq<char>) -> Seq<char> {
    path_join(path_join(path_join(mount_point, "efi"@), discovery_directory(d)), boot_file)
}

impl EfiInstall {
    pub fn image_path(&self, mount_point: &str, boot_file: &str) -> (r: String)
        ensures
            r@ == image_path(mount_point@, self.discovery, boot_file@),
    {
        let efi = join(mount_point, "efi");
        let dir = join(efi.as_str(), self.discovery.directory());
        join(dir.as_str(), boot_file)
    }
}

/// Only a removable install puts limine where every firmware looks on its
/// own, the `/efi/boot` fallback directory; registered and unregistered
/// installs both put it in limine's own `/efi/limine`, and never in the
/// fallback directory.
pub proof fn lemma_only_removable_takes_the_fallback(mount_point: Seq<char>, d: EfiDiscovery, boot_file: Seq<char>)
    requires
        !is_absolute(boot_file),
    ensures
        (image_path(mount_point, d, boot_file) == image_path(mount_point, EfiDiscovery::Removable, boot_file))
            <==> d == EfiDiscovery::Removable,
        d != EfiDiscovery::Removable ==> image_path(mount_point, d, boot_file) == image_path(
            mount_point,
            EfiDiscovery::Registered,
            boot_file,
        ),
        (discovery_directory(d) == "boot"@) <==> d == EfiDiscovery::Removable,
        d != EfiDiscovery::Removable ==> discovery_directory(d) == "limine"@,
{
    reveal_strlit("boot");
    reveal_strlit("limine");
    reveal_strlit("efi");
    let efi = path_join(mount_point, "efi"@);
    assert(efi.len() > 0 && efi.last() != '/');
    let fallback = path_join(efi, "boot"@);
    let own = path_join(efi, "limine"@);
    assert(fallback.len() == efi.len() + 5);
    assert(own.len() == efi.len() + 7);
    assert(fallback.last() == 't' && own.last() == 'e');
    if d != EfiDiscovery::Removable {
        assert(path_join(own, boot_file).len() != path_join(fallback, boot_file).len());
        assert("limine"@ != "boot"@) by {
            assert("limine"@.len() != "boot"@.len());
        }
    }
}

/// Deploying limine's stage 1 to a disk. All three fields are only ever
/// `limine bios-install` arguments, so they live or die together.
pub struct Stage1 {
    pub device: String,
    /// 1-based index of the dedicated stage 2 partition, if any.
    pub partition_index: Option<u32>,
    /// Pass `--force`, overriding limine's own safety checks.
    pub force: bool,
}

/// The BIOS half of an install.
pub struct BiosConfig {
    /// `None` when `biosDevice` is `"nodev"`: stage 2 is copied into the
    /// install directory, but no stage 1 is written to any disk.
    pub stage1: Option<Stage1>,
}

/// EFI, BIOS, or both; never neither.
pub enum InstallTarget {
    Efi(EfiInstall),
    Bios(BiosConfig),
    Both(EfiInstall, BiosConfig),
}

impl InstallTarget {
    /// The EFI half, when there is one.
    pub fn here(&self) -> (r: Option<&EfiInstall>)
        ensures
            r is Some <==> !(self is Bios),
            match self {
                InstallTarget::Efi(e) => r == Some(e),
                InstallTarget::Both(e, _) => r == Some(e),
                InstallTarget::Bios(_) => r is None,
            },
    {
        match self {
            InstallTarget::Efi(e) => Some(e),
            InstallTarget::Both(e, _) => Some(e),
            InstallTarget::Bios(_) => None,
        }
    }

    /// The BIOS half, when there is one.
    pub fn there(&self) -> (r: Option<&BiosConfig>)
        ensures
            r is Some <==> !(self is Efi),
            match self {
                InstallTarget::Bios(b) => r == Some(b),
                InstallTarget::Both(_, b) => r == Some(b),
                InstallTarget::Efi(_) => r is None,
            },
    {
        match self {
            InstallTarget::Bios(b) => Some(b),
            InstallTarget::Both(_, b) => Some(b),
            InstallTarget::Efi(_) => None,
        }
    }
}

pub open spec fn efi_of(t: &InstallTarget) -> Option<&EfiInstall> {
    match t {
        InstallTarget::Efi(e) => Some(e),
        InstallTarget::Both(e, _) => Some(e),
        InstallTarget::Bios(_) => None,
    }
}

pub open spec fn bios_of(t: &InstallTarget) -> Option<&BiosConfig> {
    match t {
        InstallTarget::Bios(b) => Some(b),
        InstallTarget::Both(_, b) => Some(b),
        InstallTarget::Efi(_) => None,
    }
}

pub struct LimineInstallConfig {
    pub limine_path: String,
    pub arch: Arch,
    /// `efiMountPoint`; used unconditionally by the additional files.
    pub mount_point: String,
    /// Where limine.conf, the stage 2 binary and the copied kernels go: on
    /// the ESP when EFI is enabled, otherwise `/boot/limine`.
    pub install_dir: String,
    pub target: InstallTarget,
    /// Append a blake2b digest to every `boot():` URI.
    pub validate_checksums: bool,
    /// `None` = unlimited (wire value 0).
    pub max_generations: Option<u32>,
    /// limine.conf's global section, in key order.
    pub settings: Vec<(String, Setting)>,
    pub extra_entries: String,
    /// dest (relative to `mount_point`) and source path, in key order.
    pub additional_files: Vec<(String, String)>,
}

impl LimineInstallConfig {
    /// The settings and the additional files come in key order, each key
    /// once, as the attribute sets they are read from have them.
    pub open spec fn well_formed(&self) -> bool {
        keyed(self.settings@) && keyed(self.additional_files@)
    }

    /// limine's own tool, which deploys stage 1 and enrols the config hash.
    pub fn limine_binary(&self) -> (r: String)
        ensures
            r@ == path_join(self.limine_path@, "bin/limine"@),
    {
        join(self.limine_path.as_str(), "bin/limine")
    }

    /// The EFI binary limine ships for our architecture.
    pub fn efi_image(&self) -> (r: String)
        ensures
            r@ == path_join(path_join(self.limine_path@, "share/limine"@), efi_boot_file(self.arch)),
    {
        let share = join(self.limine_path.as_str(), "share/limine");
        join(share.as_str(), self.arch.efi_boot_file())
    }

    /// The BIOS stage 2, which is copied next to limine.conf.
    pub fn bios_stage2(&self) -> (r: String)
        ensures
            r@ == path_join(self.limine_path@, "share/limine/limine-bios.sys"@),
    {
        join(self.limine_path.as_str(), "share/limine/limine-bios.sys")
    }

    pub fn limine_conf(&self) -> (r: String)
        ensures
            r@ == path_join(self.install_dir@, "limine.conf"@),
    {
        join(self.install_dir.as_str(), "limine.conf")
    }

    pub fn efi_support(&self) -> (r: bool)
        ensures
            r == !(self.target is Bios),
    {
        self.target.here().is_some()
    }

    /// `None` when there is no ESP, or when signing was not asked for.
    pub fn secure_boot(&self) -> (r: Option<&SecureBoot>)
        ensures
            match efi_of(&self.target) {
                Some(e) => match e.secure_boot {
                    SecureBoot::Enabled { .. } => r == Some(&e.secure_boot),
                    SecureBoot::Disabled => r is None,
                },
                None => r is None,
            },
    {
        match self.target.here() {
            Some(efi) => match &efi.secure_boot {
                SecureBoot::Enabled { .. } => Some(&efi.secure_boot),
                SecureBoot::Disabled => None,
            },
            None => None,
        }
    }
}

} // verus!
