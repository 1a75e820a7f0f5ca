//! The JSON the module's activation script hands over, and its validation
//! into a [`LimineInstallConfig`]. Each decision the conversion makes has a
//! function of its own.

use vstd::prelude::*;
use crate::config::{
    Arch, BiosConfig, EfiDiscovery, EfiInstall, InstallTarget, KeyPolicy, LimineInstallConfig,
    SecureBoot, Stage1, arch_name,
};
use crate::path::{join, path_join};
use crate::settings::Setting;
use crate::text::{decimal, keyed, owned, push_decimal, starts_with, str_eq, strs};

verus! {

/// `pkgs.stdenv.hostPlatform.parsed.cpu`.
pub struct RawArch {
    pub family: String,
    pub bits: u32,
    pub arch: Option<String>,
}

/// An entry of the module's `fileSystems`; only ever consulted to find out
/// what `/boot` is formatted as.
pub struct FileSystem {
    pub fs_type: String,
}

pub struct RawAutoEnrollKeys {
    pub enable: bool,
    pub extra_args: Vec<String>,
}

/// The module's `secureBoot` submodule.
pub struct RawSecureBoot {
    pub enable: bool,
    pub auto_generate_keys: bool,
    pub auto_enroll_keys: RawAutoEnrollKeys,
    pub sbctl: String,
}

pub struct RawConfig {
    pub limine_path: String,
    pub host_architecture: RawArch,
    /// By mount point, in key order.
    pub file_systems: Vec<(String, FileSystem)>,
    pub efi_support: bool,
    pub efi_mount_point: String,
    pub efi_removable: bool,
    pub can_touch_efi_variables: bool,
    pub enroll_config: bool,
    pub secure_boot: RawSecureBoot,
    pub fwupd_efi_path: Option<String>,
    pub bios_support: bool,
    pub bios_device: String,
    pub partition_index: Option<u32>,
    pub force: bool,
    pub validate_checksums: bool,
    pub max_generations: u32,
    pub settings: Vec<(String, Setting)>,
    pub extra_entries: String,
    pub additional_files: Vec<(String, String)>,
}

impl RawConfig {
    /// The file systems, the settings and the additional files come in key
    /// order, each key once, as the JSON objects they are read from have
    /// them.
    pub open spec fn well_formed(&self) -> bool {
        keyed(self.file_systems@) && keyed(self.settings@) && keyed(self.additional_files@)
    }
}

/// Something in the install config is internally inconsistent.
pub enum ConfigError {
    /// Neither install target was requested, so there is nothing to do.
    NoInstallTarget,
    /// Without an ESP there is nowhere to put limine.conf and the kernels.
    NoBootFilesystem,
    /// `/boot` exists but limine cannot read it.
    UnsupportedBootFsType { fs_type: String },
    /// Limine ships no binary for this CPU.
    UnsupportedArch { family: String, bits: u32, arch: Option<String> },
    /// Limine's BIOS stage 1 is x86-only.
    BiosUnsupportedArch { arch: Arch },
    /// There would be no EFI binary to sign.
    SecureBootWithoutEfi,
}

pub enum ConfigErrorView {
    NoInstallTarget,
    NoBootFilesystem,
    UnsupportedBootFsType { fs_type: Seq<char> },
    UnsupportedArch { family: Seq<char>, bits: u32, arch: Option<Seq<char>> },
    BiosUnsupportedArch { arch: Arch },
    SecureBootWithoutEfi,
}

pub open spec fn opt_text(o: Option<String>) -> Option<Seq<char>> {
    match o {
        Some(s) => Some(s@),
        None => None,
    }
}

impl View for ConfigError {
    type V = ConfigErrorView;

    open spec fn view(&self) -> ConfigErrorView {
        match self {
            ConfigError::NoInstallTarget => ConfigErrorView::NoInstallTarget,
            ConfigError::NoBootFilesystem => ConfigErrorView::NoBootFilesystem,
            ConfigError::UnsupportedBootFsType { fs_type } => ConfigErrorView::UnsupportedBootFsType {
                fs_type: fs_type@,
            },
            ConfigError::UnsupportedArch { family, bits, arch } => ConfigErrorView::UnsupportedArch {
                family: family@,
                bits: *bits,
                arch: opt_text(*arch),
            },
            ConfigError::BiosUnsupportedArch { arch } => ConfigErrorView::BiosUnsupportedArch { arch: *arch },
            ConfigError::SecureBootWithoutEfi => ConfigErrorView::SecureBootWithoutEfi,
        }
    }
}

/// How each error is reported.
pub open spec fn config_message(e: ConfigErrorView) -> Seq<char> {
    match e {
        ConfigErrorView::NoInstallTarget => "neither efiSupport nor biosSupport is enabled"@,
        ConfigErrorView::NoBootFilesystem => "BIOS-only installs require a FAT filesystem mounted at /boot, but none is configured"@,
        ConfigErrorView::UnsupportedBootFsType { fs_type } => "BIOS-only installs require /boot to be a FAT filesystem; limine cannot read "@ + fs_type,
        ConfigErrorView::UnsupportedArch { family, bits, arch } => "unsupported CPU: "@ + family
            + " family, "@ + decimal(bits as nat) + "-bit, arch "@ + match arch {
            Some(a) => a,
            None => "unknown"@,
        },
        ConfigErrorView::BiosUnsupportedArch { arch } => "biosSupport is enabled, but limine has no BIOS stage 1 for "@ + arch_name(arch),
        ConfigErrorView::SecureBootWithoutEfi => "secureBoot.enable is true but efiSupport is false"@,
    }
}

impl ConfigError {
    pub fn message(&self) -> (r: String)
        ensures
            r@ == config_message(self@),
    {
        match self {
            ConfigError::NoInstallTarget => owned("neither efiSupport nor biosSupport is enabled"),
            ConfigError::NoBootFilesystem => owned(
                "BIOS-only installs require a FAT filesystem mounted at /boot, but none is configured",
            ),
            ConfigError::UnsupportedBootFsType { fs_type } => {
                let mut r = owned(
                    "BIOS-only installs require /boot to be a FAT filesystem; limine cannot read ",
                );
                r.append(fs_type.as_str());
                r
            },
            ConfigError::UnsupportedArch { family, bits, arch } => {
                let mut r = owned("unsupported CPU: ");
                r.append(family.as_str());
                r.append(" family, ");
                push_decimal(&mut r, *bits as u64);
                r.append("-bit, arch ");
                match arch {
                    Some(a) => r.append(a.as_str()),
                    None => r.append("unknown"),
                }
                r
            },
            ConfigError::BiosUnsupportedArch { arch } => {
                let mut r = owned("biosSupport is enabled, but limine has no BIOS stage 1 for ");
                r.append(arch.name());
                r
            },
            ConfigError::SecureBootWithoutEfi => owned(
                "secureBoot.enable is true but efiSupport is false",
            ),
        }
    }
}

/// Which limine binaries this CPU needs, if limine ships any.
pub open spec fn arch_of(r: &RawArch) -> Option<Arch> {
    if r.family@ == "x86"@ && r.bits == 32 {
        Some(Arch::I686)
    } else if r.family@ == "x86"@ && r.bits == 64 {
        Some(Arch::X86_64)
    } else if r.family@ == "arm"@ && r.bits == 64 && opt_text(r.arch) == Some("armv8-a"@) {
        Some(Arch::Aarch64)
    } else {
        None
    }
}

fn clone_opt(o: &Option<String>) -> (r: Option<String>)
    ensures
        opt_text(r) == opt_text(*o),
{
    match o {
        Some(s) => Some(s.clone()),
        None => None,
    }
}

/// Narrows the wire format's CPU description to one limine has binaries
/// for.
pub fn resolve_arch(r: &RawArch) -> (a: Result<Arch, ConfigError>)
    ensures
        match (a, arch_of(r)) {
            (Ok(x), Some(y)) => x == y,
            (Err(e), None) => e@ == (ConfigErrorView::UnsupportedArch {
                family: r.family@,
                bits: r.bits,
                arch: opt_text(r.arch),
            }),
            _ => false,
        },
{
    let x86 = str_eq(r.family.as_str(), "x86");
    let arm = str_eq(r.family.as_str(), "arm");
    let armv8 = match &r.arch {
        Some(a) => str_eq(a.as_str(), "armv8-a"),
        None => false,
    };
    if x86 && r.bits == 32 {
        Ok(Arch::I686)
    } else if x86 && r.bits == 64 {
        Ok(Arch::X86_64)
    } else if arm && r.bits == 64 && armv8 {
        Ok(Arch::Aarch64)
    } else {
        Err(ConfigError::UnsupportedArch { family: r.family.clone(), bits: r.bits, arch: clone_opt(&r.arch) })
    }
}

/// Whether limine can read this filesystem well enough to load limine.conf
/// and the kernels copied next to it: FAT, which the module calls `vfat`.
pub open spec fn limine_readable(fs: &FileSystem) -> bool {
    "vfat"@.is_prefix_of(fs.fs_type@)
}

impl FileSystem {
    pub fn is_limine_readable(&self) -> (r: bool)
        ensures
            r == limine_readable(self),
    {
        starts_with(self.fs_type.as_str(), "vfat")
    }
}

/// The key's entry, if the map has one.
pub open spec fn lookup_fs(s: Seq<(String, FileSystem)>, key: Seq<char>) -> Option<FileSystem>
    decreases s.len(),
{
    if s.len() == 0 {
        None
    } else if s[0].0@ == key {
        Some(s[0].1)
    } else {
        lookup_fs(s.drop_first(), key)
    }
}

/// How the secure boot flags collapse into the three states an install can
/// be in: off; on with keys that have to already exist; on with key
/// generation, which is the only path that can go on to enrol them.
pub open spec fn resolves_secure_boot(r: &RawSecureBoot, fwupd: Option<String>, s: &SecureBoot) -> bool {
    if !r.enable {
        s is Disabled
    } else {
        match s {
            SecureBoot::Enabled { sbctl, keys, fwupd: f } => {
                &&& sbctl@ == path_join(r.sbctl@, "bin/sbctl"@)
                &&& opt_text(*f) == opt_text(fwupd)
                &&& match keys {
                    KeyPolicy::Require => !r.auto_generate_keys,
                    KeyPolicy::Generate { enroll } => {
                        &&& r.auto_generate_keys
                        &&& match enroll {
                            Some(args) => r.auto_enroll_keys.enable && strs(args@) == strs(
                                r.auto_enroll_keys.extra_args@,
                            ),
                            None => !r.auto_enroll_keys.enable,
                        }
                    },
                }
            },
            SecureBoot::Disabled => false,
        }
    }
}

fn clone_strings(v: &Vec<String>) -> (r: Vec<String>)
    ensures
        strs(r@) == strs(v@),
{
    let mut r: Vec<String> = Vec::new();
    let mut i: usize = 0;
    while i < v.len()
        invariant
            i <= v@.len(),
            strs(r@) == strs(v@.take(i as int)),
        decreases v@.len() - i,
    {
        r.push(v[i].clone());
        assert(strs(v@.take(i + 1)) =~= strs(v@.take(i as int)).push(v@[i as int]@));
        assert(strs(r@) =~= strs(v@.take(i as int)).push(v@[i as int]@));
        i = i + 1;
    }
    assert(v@.take(v@.len() as int) =~= v@);
    r
}

pub fn resolve_secure_boot(r: &RawSecureBoot, fwupd: Option<String>) -> (s: SecureBoot)
    ensures
        resolves_secure_boot(r, fwupd, &s),
{
    if !r.enable {
        return SecureBoot::Disabled;
    }
    let keys = if r.auto_generate_keys {
        KeyPolicy::Generate {
            enroll: if r.auto_enroll_keys.enable {
                Some(clone_strings(&r.auto_enroll_keys.extra_args))
            } else {
                None
            },
        }
    } else {
        KeyPolicy::Require
    };
    SecureBoot::Enabled { sbctl: join(r.sbctl.as_str(), "bin/sbctl"), keys, fwupd }
}

/// How firmware is to find limine.
pub open spec fn discovery_of(r: &RawConfig) -> EfiDiscovery {
    if r.efi_removable {
        EfiDiscovery::Removable
    } else if r.can_touch_efi_variables {
        EfiDiscovery::Registered
    } else {
        EfiDiscovery::Unregistered
    }
}

/// The EFI half as `r` asks for it.
pub open spec fn resolves_efi(r: &RawConfig, e: &EfiInstall) -> bool {
    &&& e.discovery == discovery_of(r)
    &&& e.enroll_config == r.enroll_config
    &&& resolves_secure_boot(&r.secure_boot, r.fwupd_efi_path, &e.secure_boot)
}

/// `None` when `efiSupport` is off; otherwise how firmware is to find
/// limine, plus the features that only exist on an ESP.
pub fn resolve_efi(r: &RawConfig) -> (e: Result<Option<EfiInstall>, ConfigError>)
    ensures
        match e {
            Ok(Some(x)) => r.efi_support && resolves_efi(r, &x),
            Ok(None) => !r.efi_support && !r.secure_boot.enable,
            Err(err) => !r.efi_support && r.secure_boot.enable && err@ == ConfigErrorView::SecureBootWithoutEfi,
        },
{
    if !r.efi_support {
        if r.secure_boot.enable {
            return Err(ConfigError::SecureBootWithoutEfi);
        }
        return Ok(None);
    }
    let discovery = if r.efi_removable {
        EfiDiscovery::Removable
    } else if r.can_touch_efi_variables {
        EfiDiscovery::Registered
    } else {
        EfiDiscovery::Unregistered
    };
    Ok(
        Some(
            EfiInstall {
                discovery,
                enroll_config: r.enroll_config,
                secure_boot: resolve_secure_boot(&r.secure_boot, clone_opt(&r.fwupd_efi_path)),
            },
        ),
    )
}

/// The BIOS half as `r` asks for it: `nodev` installs stage 2 but writes
/// stage 1 nowhere, and takes the partition index and force with it; a
/// partition index of 0 is the wire encoding for "not set".
pub open spec fn resolves_bios(r: &RawConfig, b: &BiosConfig) -> bool {
    if r.bios_device@ == "nodev"@ {
        b.stage1 is None
    } else {
        match b.stage1 {
            Some(s) => {
                &&& s.device@ == r.bios_device@
                &&& s.partition_index == match r.partition_index {
                    Some(i) => if i != 0 { Some(i) } else { None },
                    None => None,
                }
                &&& s.force == r.force
            },
            None => false,
        }
    }
}

/// `None` when `biosSupport` is off.
pub fn resolve_bios(r: &RawConfig, arch: Arch) -> (b: Result<Option<BiosConfig>, ConfigError>)
    ensures
        match b {
            Ok(Some(x)) => r.bios_support && arch.supports_bios_spec() && resolves_bios(r, &x),
            Ok(None) => !r.bios_support,
            Err(err) => r.bios_support && !arch.supports_bios_spec() && err@ == (ConfigErrorView::BiosUnsupportedArch { arch }),
        },
{
    if !r.bios_support {
        return Ok(None);
    }
    if !arch.supports_bios() {
        return Err(ConfigError::BiosUnsupportedArch { arch });
    }
    let stage1 = if str_eq(r.bios_device.as_str(), "nodev") {
        None
    } else {
        Some(
            Stage1 {
                device: r.bios_device.clone(),
                partition_index: match r.partition_index {
                    Some(i) => if i != 0 {
                        Some(i)
                    } else {
                        None
                    },
                    None => None,
                },
                force: r.force,
            },
        )
    };
    Ok(Some(BiosConfig { stage1 }))
}

/// At least one of the two install targets has to be enabled.
pub fn resolve_target(efi: Option<EfiInstall>, bios: Option<BiosConfig>) -> (t: Result<InstallTarget, ConfigError>)
    ensures
        match (efi, bios, t) {
            (Some(e), Some(b), Ok(InstallTarget::Both(x, y))) => x == e && y == b,
            (Some(e), None, Ok(InstallTarget::Efi(x))) => x == e,
            (None, Some(b), Ok(InstallTarget::Bios(y))) => y == b,
            (None, None, Err(err)) => err@ == ConfigErrorView::NoInstallTarget,
            _ => false,
        },
{
    match (efi, bios) {
        (Some(e), Some(b)) => Ok(InstallTarget::Both(e, b)),
        (Some(e), None) => Ok(InstallTarget::Efi(e)),
        (None, Some(b)) => Ok(InstallTarget::Bios(b)),
        (None, None) => Err(ConfigError::NoInstallTarget),
    }
}

/// Where limine.conf, the stage 2 binary and the copied kernels go. With an
/// ESP it is on the ESP, which the EFI spec guarantees is FAT. Without one,
/// limine has to read `/boot` itself, so that has to be a filesystem it
/// understands.
pub open spec fn install_dir_of(r: &RawConfig) -> Result<Seq<char>, ConfigErrorView> {
    if r.efi_support {
        Ok(path_join(r.efi_mount_point@, "limine"@))
    } else {
        match lookup_fs(r.file_systems@, "/boot"@) {
            None => Err(ConfigErrorView::NoBootFilesystem),
            Some(fs) => if limine_readable(&fs) {
                Ok("/boot/limine"@)
            } else {
                Err(ConfigErrorView::UnsupportedBootFsType { fs_type: fs.fs_type@ })
            },
        }
    }
}

pub fn resolve_install_dir(r: &RawConfig) -> (d: Result<String, ConfigError>)
    ensures
        match (d, install_dir_of(r)) {
            (Ok(x), Ok(y)) => x@ == y,
            (Err(e), Err(f)) => e@ == f,
            _ => false,
        },
{
    if r.efi_support {
        return Ok(join(r.efi_mount_point.as_str(), "limine"));
    }
    let mut i: usize = 0;
    assert(r.file_systems@.skip(0) == r.file_systems@);
    while i < r.file_systems.len()
        invariant
            i <= r.file_systems@.len(),
            !r.efi_support,
            lookup_fs(r.file_systems@, "/boot"@) == lookup_fs(r.file_systems@.skip(i as int), "/boot"@),
        decreases r.file_systems@.len() - i,
    {
        assert(r.file_systems@.skip(i as int).drop_first() == r.file_systems@.skip(i + 1));
        if str_eq(r.file_systems[i].0.as_str(), "/boot") {
            let fs = &r.file_systems[i].1;
            if fs.is_limine_readable() {
                return Ok(owned("/boot/limine"));
            }
            return Err(ConfigError::UnsupportedBootFsType { fs_type: fs.fs_type.clone() });
        }
        i = i + 1;
    }
    Err(ConfigError::NoBootFilesystem)
}

/// The first thing wrong with `r`, in the order the checks run: the CPU,
/// then secure boot without EFI, then BIOS on a CPU without a stage 1, then
/// no target at all, then a BIOS-only `/boot` limine cannot read.
pub open spec fn config_error(r: &RawConfig) -> Option<ConfigErrorView> {
    match arch_of(&r.host_architecture) {
        None => Some(ConfigErrorView::UnsupportedArch {
            family: r.host_architecture.family@,
            bits: r.host_architecture.bits,
            arch: opt_text(r.host_architecture.arch),
        }),
        Some(a) => if !r.efi_support && r.secure_boot.enable {
            Some(ConfigErrorView::SecureBootWithoutEfi)
        } else if r.bios_support && !a.supports_bios_spec() {
            Some(ConfigErrorView::BiosUnsupportedArch { arch: a })
        } else if !r.efi_support && !r.bios_support {
            Some(ConfigErrorView::NoInstallTarget)
        } else {
            match install_dir_of(r) {
                Err(e) => Some(e),
                Ok(_) => None,
            }
        },
    }
}

/// `c` is the config `r` describes.
pub open spec fn resolves(r: &RawConfig, c: &LimineInstallConfig) -> bool {
    &&& Some(c.arch) == arch_of(&r.host_architecture)
    &&& c.limine_path == r.limine_path
    &&& c.mount_point == r.efi_mount_point
    &&& install_dir_of(r) == Ok::<Seq<char>, ConfigErrorView>(c.install_dir@)
    &&& match c.target {
        InstallTarget::Efi(e) => r.efi_support && !r.bios_support && resolves_efi(r, &e),
        InstallTarget::Bios(b) => !r.efi_support && r.bios_support && resolves_bios(r, &b),
        InstallTarget::Both(e, b) => r.efi_support && r.bios_support && resolves_efi(r, &e) && resolves_bios(r, &b),
    }
    &&& c.validate_checksums == r.validate_checksums
    &&& c.max_generations == if r.max_generations != 0 {
        Some(r.max_generations)
    } else {
        None
    }
    &&& c.settings == r.settings
    &&& c.extra_entries == r.extra_entries
    &&& c.additional_files == r.additional_files
}

/// Validates the install config, failing on the first thing that is
/// inconsistent.
pub fn resolve(r: RawConfig) -> (c: Result<LimineInstallConfig, ConfigError>)
    requires
        r.well_formed(),
    ensures
        match (c, config_error(&r)) {
            (Ok(c), None) => resolves(&r, &c) && c.well_formed(),
            (Err(e), Some(f)) => e@ == f,
            _ => false,
        },
{
    let arch = match resolve_arch(&r.host_architecture) {
        Ok(a) => a,
        Err(e) => return Err(e),
    };
    let efi = match resolve_efi(&r) {
        Ok(e) => e,
        Err(e) => return Err(e),
    };
    let bios = match resolve_bios(&r, arch) {
        Ok(b) => b,
        Err(e) => return Err(e),
    };
    let target = match resolve_target(efi, bios) {
        Ok(t) => t,
        Err(e) => return Err(e),
    };
    let install_dir = match resolve_install_dir(&r) {
        Ok(d) => d,
        Err(e) => return Err(e),
    };
    Ok(
        LimineInstallConfig {
            limine_path: r.limine_path,
            arch,
            mount_point: r.efi_mount_point,
            install_dir,
            target,
            validate_checksums: r.validate_checksums,
            max_generations: if r.max_generations != 0 {
                Some(r.max_generations)
            } else {
                None
            },
            settings: r.settings,
            extra_entries: r.extra_entries,
            additional_files: r.additional_files,
        },
    )
}

/// With EFI the install directory is on the ESP: `limine` under the mount
/// point the config keeps, so limine.conf and the kernels sit where the
/// firmware-loaded limine looks for them. Without EFI it is `/boot/limine`.
pub proof fn lemma_install_dir_on_the_esp(r: &RawConfig, c: &LimineInstallConfig)
    requires
        resolves(r, c),
    ensures
        r.efi_support ==> c.install_dir@ == path_join(c.mount_point@, "limine"@),
        !r.efi_support ==> c.install_dir@ == "/boot/limine"@,
        c.target is Bios <==> !r.efi_support,
{
}

} // verus!
