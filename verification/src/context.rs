//! The operating-system context: the platform tag the backend factory keys
//! on, and the classification of a Linux distribution from its os-release
//! identifiers. Probing the running system happens at the program edge.

use vstd::prelude::*;

use crate::strutil::{lower, contains_seq, eq_ci, contains_ci};

verus! {

/// Detected operating system type.
#[derive(Debug, Clone, PartialEq, Eq, Structural)]
pub enum OsType {
    /// Windows, any version.
    Windows,
    /// Linux, with the detected distribution family.
    Linux { distro: LinuxDistro },
    /// macOS.
    MacOS,
    /// Unknown or unsupported.
    Unknown,
}

/// Linux distribution families.
#[derive(Debug, Clone, PartialEq, Eq, Structural)]
pub enum LinuxDistro {
    /// Debian-based: Debian, Ubuntu, Mint and derivatives.
    Debian,
    /// Arch-based: Arch, Manjaro and derivatives.
    Arch,
    /// Fedora- and RHEL-based.
    Fedora,
    /// Unknown distribution.
    Unknown,
}

/// Operating system context.
#[derive(Debug, Clone)]
pub struct OsContext {
    /// The detected OS type.
    pub os_type: OsType,
    /// Raw OS name, if available.
    pub os_name: Option<String>,
    /// OS version, if available.
    pub os_version: Option<String>,
}

/// The distribution family for the given os-release `ID` and `ID_LIKE`
/// values, compared after ASCII case folding: a known `ID` decides; else a
/// family name occurring in `ID_LIKE` decides; else the family is unknown.
pub open spec fn classify_distro_spec(id: Seq<char>, id_like: Seq<char>) -> LinuxDistro {
    if lower(id) == lower("debian"@) || lower(id) == lower("ubuntu"@) || lower(id) == lower(
        "linuxmint"@,
    ) || lower(id) == lower("pop"@) {
        LinuxDistro::Debian
    } else if lower(id) == lower("arch"@) || lower(id) == lower("manjaro"@) || lower(id) == lower(
        "endeavouros"@,
    ) {
        LinuxDistro::Arch
    } else if lower(id) == lower("fedora"@) || lower(id) == lower("rhel"@) || lower(id) == lower(
        "centos"@,
    ) || lower(id) == lower("rocky"@) {
        LinuxDistro::Fedora
    } else if contains_seq(lower(id_like), lower("debian"@)) || contains_seq(
        lower(id_like),
        lower("ubuntu"@),
    ) {
        LinuxDistro::Debian
    } else if contains_seq(lower(id_like), lower("arch"@)) {
        LinuxDistro::Arch
    } else if contains_seq(lower(id_like), lower("fedora"@)) || contains_seq(
        lower(id_like),
        lower("rhel"@),
    ) {
        LinuxDistro::Fedora
    } else {
        LinuxDistro::Unknown
    }
}

/// Classify a Linux distribution from its os-release `ID` and `ID_LIKE`
/// values; pass an empty string for a missing field.
pub fn classify_distro(id: &str, id_like: &str) -> (d: LinuxDistro)
    ensures
        d == classify_distro_spec(id@, id_like@),
{
    if eq_ci(id, "debian") || eq_ci(id, "ubuntu") || eq_ci(id, "linuxmint") || eq_ci(id, "pop") {
        LinuxDistro::Debian
    } else if eq_ci(id, "arch") || eq_ci(id, "manjaro") || eq_ci(id, "endeavouros") {
        LinuxDistro::Arch
    } else if eq_ci(id, "fedora") || eq_ci(id, "rhel") || eq_ci(id, "centos") || eq_ci(
        id,
        "rocky",
    ) {
        LinuxDistro::Fedora
    } else if contains_ci(id_like, "debian") || contains_ci(id_like, "ubuntu") {
        LinuxDistro::Debian
    } else if contains_ci(id_like, "arch") {
        LinuxDistro::Arch
    } else if contains_ci(id_like, "fedora") || contains_ci(id_like, "rhel") {
        LinuxDistro::Fedora
    } else {
        LinuxDistro::Unknown
    }
}

} // verus!
