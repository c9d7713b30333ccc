//! The backend capability surface: one identity type per package-manager
//! family, the capability interface the program's adapters implement, and
//! the factory that maps a platform tag to the default backend. Running the
//! underlying tools and parsing their output happens at the program edge.

use vstd::prelude::*;
use vstd::string::StringExecFns;

use crate::context::{OsContext, OsType, LinuxDistro};
use crate::search::PackageResult;
use crate::strutil::{
    is_prefix_of, starts_with_plain, contains_char, lines_of, split_lines, trim, trim_spec,
    first_match, first_match_from, find_first,
};
use vstd::string::StrSliceExecFns;

verus! {

/// The fields an apt-cache search line yields: the text before the first
/// ` - ` separator, trimmed, as the name, and the text after it, trimmed,
/// as the description; a line without the separator yields nothing.
pub open spec fn apt_line_fields(line: Seq<char>) -> Option<(Seq<char>, Seq<char>)> {
    let m = first_match(line, " - "@);
    if m < 0 {
        None
    } else {
        Some(
            (
                trim_spec(line.subrange(0, m)),
                trim_spec(line.subrange(m + " - "@.len(), line.len() as int)),
            ),
        )
    }
}

/// The name and description fields of every line that holds the ` - `
/// separator, in line order.
pub open spec fn apt_fields(lines: Seq<Seq<char>>) -> Seq<(Seq<char>, Seq<char>)>
    decreases lines.len(),
{
    if lines.len() == 0 {
        Seq::<(Seq<char>, Seq<char>)>::empty()
    } else {
        apt_fields(lines.drop_last()) + (match apt_line_fields(lines.last()) {
            Some(p) => seq![p],
            None => Seq::<(Seq<char>, Seq<char>)>::empty(),
        })
    }
}

/// A found first match lies at or after the starting offset and fits inside
/// the text, where it matches the pattern.
proof fn lemma_first_match_props(s: Seq<char>, pat: Seq<char>, from: int)
    requires
        first_match_from(s, pat, from) >= 0,
    ensures
        from <= first_match_from(s, pat, from),
        first_match_from(s, pat, from) + pat.len() <= s.len(),
        s.subrange(
            first_match_from(s, pat, from),
            first_match_from(s, pat, from) + pat.len() as int,
        ) == pat,
    decreases s.len() - from,
{
    let m = first_match_from(s, pat, from);
    if from < 0 || from + pat.len() > s.len() {
    } else if pat.len() == 0 {
        assert(s.subrange(from, from) =~= pat);
    } else if s.subrange(from, from + pat.len() as int) == pat {
    } else {
        lemma_first_match_props(s, pat, from + 1);
    }
}

/// The capability every package-manager adapter offers: an availability
/// probe, a search returning uniform records with this backend's identifier
/// as their source, and install, update and uninstall whose success is the
/// underlying tool's exit status. A backend may refuse an operation as a
/// matter of policy by returning an error value.
pub trait Backend {
    /// The identifier of this backend.
    fn name(&self) -> &'static str;

    /// Whether the underlying tool is present; an existence probe only.
    fn is_available(&self) -> bool;

    /// Search the underlying tool; zero matches is an empty success.
    fn search(&self, query: &str) -> Result<Vec<PackageResult>, String>;

    /// Install a package.
    fn install(&self, package: &str) -> Result<(), String>;

    /// Update a package; some backends treat this as a reinstall.
    fn update(&self, package: &str) -> Result<(), String>;

    /// Uninstall a package; some backends refuse this as a matter of policy.
    fn uninstall(&self, package: &str) -> Result<(), String>;
}

/// The Windows package manager.
#[derive(Debug)]
pub struct WingetBackend;

impl WingetBackend {
    /// A winget identity.
    pub fn new() -> WingetBackend {
        WingetBackend
    }

    /// The identifier of this backend.
    pub fn name(&self) -> (r: &'static str)
        ensures
            r@ == "winget"@,
    {
        "winget"
    }
}

/// The APT package manager of Debian-based distributions.
#[derive(Debug)]
pub struct AptBackend;

impl AptBackend {
    /// An apt identity.
    pub fn new() -> AptBackend {
        AptBackend
    }

    /// The identifier of this backend.
    pub fn name(&self) -> (r: &'static str)
        ensures
            r@ == "apt"@,
    {
        "apt"
    }

    /// Parse apt-cache search output — `package-name - Description text`,
    /// one package per line — into uniform records with `apt` as their
    /// source; a line without the ` - ` separator yields no record.
    pub fn parse_search_output(&self, output: &str) -> (r: Vec<PackageResult>)
        ensures
            ({
                let fields = apt_fields(lines_of(output@));
                &&& r@.len() == fields.len()
                &&& forall|k: int|
                    0 <= k < r@.len() ==> {
                        &&& (#[trigger] r@[k]).name@ == fields[k].0
                        &&& r@[k].description is Some
                        &&& r@[k].description->Some_0@ == fields[k].1
                        &&& r@[k].version is None
                        &&& r@[k].source@ == "apt"@
                        &&& r@[k].score == 0
                    }
            }),
    {
        let lines = split_lines(output);
        let ghost ldv = lines.deep_view();
        let mut out: Vec<PackageResult> = Vec::new();
        let n = lines.len();
        let mut i: usize = 0;
        proof {
            assert(ldv.take(0) =~= Seq::<Seq<char>>::empty());
        }
        while i < n
            invariant
                n == lines@.len(),
                ldv == lines.deep_view(),
                ldv == lines_of(output@),
                i <= n,
                out@.len() == apt_fields(ldv.take(i as int)).len(),
                forall|k: int|
                    0 <= k < out@.len() ==> {
                        &&& (#[trigger] out@[k]).name@ == apt_fields(ldv.take(i as int))[k].0
                        &&& out@[k].description is Some
                        &&& out@[k].description->Some_0@ == apt_fields(ldv.take(i as int))[k].1
                        &&& out@[k].version is None
                        &&& out@[k].source@ == "apt"@
                        &&& out@[k].score == 0
                    },
            decreases n - i,
        {
            proof {
                assert(ldv.take(i + 1).drop_last() =~= ldv.take(i as int));
                assert(ldv.take(i + 1).last() == ldv[i as int]);
                assert(ldv[i as int] == lines@[i as int]@);
            }
            let line = &lines[i];
            let found = find_first(line.as_str(), " - ");
            match found {
                Some(m) => {
                    proof {
                        reveal_strlit(" - ");
                        lemma_first_match_props(line@, " - "@, 0);
                    }
                    let len = line.as_str().unicode_len();
                    let name = trim(line.as_str().substring_char(0, m));
                    let desc = trim(line.as_str().substring_char(m + 3, len));
                    let record = PackageResult::new(name, "apt".to_string()).with_description(
                        desc,
                    );
                    out.push(record);
                    proof {
                        assert(apt_fields(ldv.take(i + 1)) =~= apt_fields(ldv.take(i as int))
                            + seq![apt_line_fields(ldv[i as int])->Some_0]);
                    }
                },
                None => {
                    proof {
                        assert(apt_fields(ldv.take(i + 1)) =~= apt_fields(ldv.take(i as int)));
                    }
                },
            }
            i += 1;
        }
        proof {
            assert(ldv.take(n as int) =~= ldv);
        }
        out
    }
}

/// The Homebrew package manager.
#[derive(Debug)]
pub struct BrewBackend;

impl BrewBackend {
    /// A brew identity.
    pub fn new() -> BrewBackend {
        BrewBackend
    }

    /// The identifier of this backend.
    pub fn name(&self) -> (r: &'static str)
        ensures
            r@ == "brew"@,
    {
        "brew"
    }

    /// Parse brew search output — one package name per line — into uniform
    /// records with `brew` as their source; blank lines and `==>` section
    /// headings yield no record.
    pub fn parse_search_output(&self, output: &str) -> (r: Vec<PackageResult>)
        ensures
            ({
                let names = brew_names(lines_of(output@));
                &&& r@.len() == names.len()
                &&& forall|k: int|
                    0 <= k < r@.len() ==> {
                        &&& (#[trigger] r@[k]).name@ == names[k]
                        &&& r@[k].description is None
                        &&& r@[k].version is None
                        &&& r@[k].source@ == "brew"@
                        &&& r@[k].score == 0
                    }
            }),
    {
        let lines = split_lines(output);
        let ghost ldv = lines.deep_view();
        let mut out: Vec<PackageResult> = Vec::new();
        let n = lines.len();
        let mut i: usize = 0;
        proof {
            assert(ldv.take(0) =~= Seq::<Seq<char>>::empty());
        }
        while i < n
            invariant
                n == lines@.len(),
                ldv == lines.deep_view(),
                ldv == lines_of(output@),
                i <= n,
                out@.len() == brew_names(ldv.take(i as int)).len(),
                forall|k: int|
                    0 <= k < out@.len() ==> {
                        &&& (#[trigger] out@[k]).name@ == brew_names(ldv.take(i as int))[k]
                        &&& out@[k].description is None
                        &&& out@[k].version is None
                        &&& out@[k].source@ == "brew"@
                        &&& out@[k].score == 0
                    },
            decreases n - i,
        {
            proof {
                assert(ldv.take(i + 1).drop_last() =~= ldv.take(i as int));
                assert(ldv.take(i + 1).last() == ldv[i as int]);
                assert(ldv[i as int] == lines@[i as int]@);
            }
            let line = &lines[i];
            let trimmed = trim(line.as_str());
            if !trimmed.as_str().is_empty() && !starts_with_plain(line.as_str(), "==>") {
                out.push(PackageResult::new(trimmed, "brew".to_string()));
                proof {
                    assert(brew_names(ldv.take(i + 1)) =~= brew_names(ldv.take(i as int))
                        + seq![trim_spec(ldv[i as int])]);
                }
            } else {
                proof {
                    assert(brew_names(ldv.take(i + 1)) =~= brew_names(ldv.take(i as int)));
                }
            }
            i += 1;
        }
        proof {
            assert(ldv.take(n as int) =~= ldv);
        }
        out
    }
}

/// Whether a brew output line names a package: it is not blank and is not a
/// `==>` section heading.
pub open spec fn brew_line_keeps(line: Seq<char>) -> bool {
    trim_spec(line).len() > 0 && !is_prefix_of("==>"@, line)
}

/// The trimmed package names of the lines that name packages, in line order.
pub open spec fn brew_names(lines: Seq<Seq<char>>) -> Seq<Seq<char>>
    decreases lines.len(),
{
    if lines.len() == 0 {
        Seq::<Seq<char>>::empty()
    } else {
        brew_names(lines.drop_last()) + (if brew_line_keeps(lines.last()) {
            seq![trim_spec(lines.last())]
        } else {
            Seq::<Seq<char>>::empty()
        })
    }
}

/// The npm package manager for Node.js packages.
#[derive(Debug)]
pub struct NpmBackend;

impl NpmBackend {
    /// An npm identity.
    pub fn new() -> NpmBackend {
        NpmBackend
    }

    /// The identifier of this backend.
    pub fn name(&self) -> (r: &'static str)
        ensures
            r@ == "npm"@,
    {
        "npm"
    }
}

/// The pip package manager for Python packages; prefers pipx for global
/// installs when it is present.
#[derive(Debug)]
pub struct PipBackend {
    /// Whether pipx was found on the system.
    pub use_pipx: bool,
}

impl PipBackend {
    /// A pip identity; whether pipx is present is told later, by the
    /// availability probe at the program edge.
    pub fn new() -> (b: PipBackend)
        ensures
            !b.use_pipx,
    {
        PipBackend { use_pipx: false }
    }

    /// A pip identity with the pipx probe's result.
    pub fn with_pipx(use_pipx: bool) -> (b: PipBackend)
        ensures
            b.use_pipx == use_pipx,
    {
        PipBackend { use_pipx }
    }

    /// The identifier of this backend: `pipx` when pipx is used.
    pub fn name(&self) -> (r: &'static str)
        ensures
            self.use_pipx ==> r@ == "pipx"@,
            !self.use_pipx ==> r@ == "pip"@,
    {
        if self.use_pipx {
            "pipx"
        } else {
            "pip"
        }
    }
}

/// The pacman package manager of Arch-based distributions.
#[derive(Debug)]
pub struct PacmanBackend;

impl PacmanBackend {
    /// A pacman identity.
    pub fn new() -> PacmanBackend {
        PacmanBackend
    }

    /// The identifier of this backend.
    pub fn name(&self) -> (r: &'static str)
        ensures
            r@ == "pacman"@,
    {
        "pacman"
    }
}

/// The DNF package manager of Fedora- and RHEL-based distributions.
#[derive(Debug)]
pub struct DnfBackend;

impl DnfBackend {
    /// A dnf identity.
    pub fn new() -> DnfBackend {
        DnfBackend
    }

    /// The identifier of this backend.
    pub fn name(&self) -> (r: &'static str)
        ensures
            r@ == "dnf"@,
    {
        "dnf"
    }
}

/// The snap package manager.
#[derive(Debug)]
pub struct SnapBackend;

impl SnapBackend {
    /// A snap identity.
    pub fn new() -> SnapBackend {
        SnapBackend
    }

    /// The identifier of this backend.
    pub fn name(&self) -> (r: &'static str)
        ensures
            r@ == "snap"@,
    {
        "snap"
    }
}

/// The Flatpak package manager.
#[derive(Debug)]
pub struct FlatpakBackend;

impl FlatpakBackend {
    /// A flatpak identity.
    pub fn new() -> FlatpakBackend {
        FlatpakBackend
    }

    /// The identifier of this backend.
    pub fn name(&self) -> (r: &'static str)
        ensures
            r@ == "flatpak"@,
    {
        "flatpak"
    }
}

/// The cargo installer for Rust tools.
#[derive(Debug)]
pub struct CargoBackend;

impl CargoBackend {
    /// A cargo identity.
    pub fn new() -> CargoBackend {
        CargoBackend
    }

    /// The identifier of this backend.
    pub fn name(&self) -> (r: &'static str)
        ensures
            r@ == "cargo"@,
    {
        "cargo"
    }
}

/// The Go toolchain installer.
#[derive(Debug)]
pub struct GoBackend;

impl GoBackend {
    /// A go identity.
    pub fn new() -> GoBackend {
        GoBackend
    }

    /// The identifier of this backend.
    pub fn name(&self) -> (r: &'static str)
        ensures
            r@ == "go"@,
    {
        "go"
    }
}

/// The source-based backend: clone a repository and build it.
#[derive(Debug)]
pub struct GitBackend;

impl GitBackend {
    /// A git identity.
    pub fn new() -> GitBackend {
        GitBackend
    }

    /// The identifier of this backend.
    pub fn name(&self) -> (r: &'static str)
        ensures
            r@ == "git"@,
    {
        "git"
    }
}

/// The closed set of backend families the factory can hand out.
#[derive(Debug, Clone, Copy, PartialEq, Eq, Structural)]
pub enum BackendKind {
    /// The Windows package manager.
    Winget,
    /// The APT package manager.
    Apt,
    /// The Homebrew package manager.
    Brew,
    /// The npm package manager.
    Npm,
    /// The pip package manager.
    Pip,
}

/// Why no backend could be chosen for the platform.
#[derive(Debug, Clone, Copy, PartialEq, Eq, Structural)]
pub enum SelectError {
    /// An Arch-based system was detected, whose backend is not implemented.
    PacmanNotImplemented,
    /// A Fedora-based system was detected, whose backend is not implemented.
    DnfNotImplemented,
    /// No supported package manager could be found.
    NoSupportedManager,
    /// The operating system is unknown.
    UnknownOs,
}

/// The default backend for the detected platform: winget on Windows, apt on
/// Debian-based Linux, brew on macOS. An Arch- or Fedora-based system has no
/// implemented backend yet; an unknown distribution falls back to apt when
/// apt is available; an unknown operating system has no default.
pub fn get_backend_for_context(context: &OsContext, apt_available: bool) -> (r: Result<
    BackendKind,
    SelectError,
>)
    ensures
        context.os_type is Windows ==> r == Ok::<BackendKind, SelectError>(BackendKind::Winget),
        context.os_type == (OsType::Linux { distro: LinuxDistro::Debian }) ==> r == Ok::<
            BackendKind,
            SelectError,
        >(BackendKind::Apt),
        context.os_type == (OsType::Linux { distro: LinuxDistro::Arch }) ==> r == Err::<
            BackendKind,
            SelectError,
        >(SelectError::PacmanNotImplemented),
        context.os_type == (OsType::Linux { distro: LinuxDistro::Fedora }) ==> r == Err::<
            BackendKind,
            SelectError,
        >(SelectError::DnfNotImplemented),
        context.os_type == (OsType::Linux { distro: LinuxDistro::Unknown }) ==> r == (
        if apt_available {
            Ok::<BackendKind, SelectError>(BackendKind::Apt)
        } else {
            Err::<BackendKind, SelectError>(SelectError::NoSupportedManager)
        }),
        context.os_type is MacOS ==> r == Ok::<BackendKind, SelectError>(BackendKind::Brew),
        context.os_type is Unknown ==> r == Err::<BackendKind, SelectError>(SelectError::UnknownOs),
{
    match &context.os_type {
        OsType::Windows => Ok(BackendKind::Winget),
        OsType::Linux { distro } => {
            match distro {
                LinuxDistro::Debian => Ok(BackendKind::Apt),
                LinuxDistro::Arch => Err(SelectError::PacmanNotImplemented),
                LinuxDistro::Fedora => Err(SelectError::DnfNotImplemented),
                LinuxDistro::Unknown => {
                    if apt_available {
                        Ok(BackendKind::Apt)
                    } else {
                        Err(SelectError::NoSupportedManager)
                    }
                },
            }
        },
        OsType::MacOS => Ok(BackendKind::Brew),
        OsType::Unknown => Err(SelectError::UnknownOs),
    }
}

/// The candidate backends probed for availability, in their fixed order.
pub fn candidate_backends() -> (r: Vec<BackendKind>)
    ensures
        r@ == seq![
            BackendKind::Winget,
            BackendKind::Apt,
            BackendKind::Brew,
            BackendKind::Npm,
            BackendKind::Pip,
        ],
{
    let mut r: Vec<BackendKind> = Vec::new();
    r.push(BackendKind::Winget);
    r.push(BackendKind::Apt);
    r.push(BackendKind::Brew);
    r.push(BackendKind::Npm);
    r.push(BackendKind::Pip);
    proof {
        assert(r@ =~= seq![
            BackendKind::Winget,
            BackendKind::Apt,
            BackendKind::Brew,
            BackendKind::Npm,
            BackendKind::Pip,
        ]);
    }
    r
}

/// Whether the argument can be a repository location for the source-based
/// backend: an `http`-style URL or a `git@` remote.
pub fn git_url_acceptable(url: &str) -> (r: bool)
    ensures
        r == (is_prefix_of("http"@, url@) || is_prefix_of("git@"@, url@)),
{
    starts_with_plain(url, "http") || starts_with_plain(url, "git@")
}

/// The argument handed to `go install`: the package itself when it already
/// pins a version with `@`, otherwise the package at `latest`.
pub fn go_install_target(package: &str) -> (r: String)
    ensures
        package@.contains('@') ==> r@ == package@,
        !package@.contains('@') ==> r@ == package@ + "@latest"@,
{
    if contains_char(package, '@') {
        package.to_owned()
    } else {
        let mut r = package.to_owned();
        r.append("@latest");
        r
    }
}

} // verus!
