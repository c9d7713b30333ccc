use oneinstall::backends::{
    AptBackend, BrewBackend, CargoBackend, DnfBackend, FlatpakBackend, GitBackend, GoBackend,
    NpmBackend, PacmanBackend, PipBackend, SnapBackend, WingetBackend, BackendKind, SelectError,
    get_backend_for_context, candidate_backends, git_url_acceptable, go_install_target,
};
use oneinstall::context::{OsContext, OsType, LinuxDistro, classify_distro};

#[test]
fn test_apt_name() {
    let backend = AptBackend::new();
    assert_eq!(backend.name(), "apt");
}

#[test]
fn test_brew_name() {
    let backend = BrewBackend::new();
    assert_eq!(backend.name(), "brew");
}

#[test]
fn test_git_name() {
    let backend = GitBackend::new();
    assert_eq!(backend.name(), "git");
}

#[test]
fn test_npm_name() {
    let backend = NpmBackend::new();
    assert_eq!(backend.name(), "npm");
}

#[test]
fn test_pip_name() {
    let backend = PipBackend::new();
    // Name depends on pipx availability
    let name = backend.name();
    assert!(name == "pip" || name == "pipx");
}

#[test]
fn test_winget_name() {
    let backend = WingetBackend::new();
    assert_eq!(backend.name(), "winget");
}

#[test]
fn test_parse_search_output() {
    let backend = AptBackend::new();
    let output = "python3 - Interactive high-level OO language\npython3-pip - Python package installer";
    let results = backend.parse_search_output(output);

    assert_eq!(results.len(), 2);
    assert_eq!(results[0].name, "python3");
    assert_eq!(results[1].name, "python3-pip");
}

#[test]
fn test_parse_search_output_details() {
    let backend = AptBackend::new();
    let output = "jq - lightweight JSON processor\nnot a package line\n";
    let results = backend.parse_search_output(output);

    assert_eq!(results.len(), 1);
    assert_eq!(results[0].name, "jq");
    assert_eq!(results[0].description.as_deref(), Some("lightweight JSON processor"));
    assert_eq!(results[0].source, "apt");
    assert_eq!(results[0].version, None);
    assert_eq!(results[0].score, 0);
}

#[test]
fn test_parse_search_output_empty() {
    let backend = AptBackend::new();
    assert!(backend.parse_search_output("").is_empty());
}

#[test]
fn test_brew_parse_search_output() {
    let backend = BrewBackend::new();
    let output = "==> Formulae\njq\n  ripgrep  \n\n==> Casks\nsomething";
    let results = backend.parse_search_output(output);
    let names: Vec<&str> = results.iter().map(|r| r.name.as_str()).collect();
    assert_eq!(names, vec!["jq", "ripgrep", "something"]);
    assert_eq!(results[0].source, "brew");
}

#[test]
fn test_remaining_names() {
    assert_eq!(CargoBackend::new().name(), "cargo");
    assert_eq!(DnfBackend::new().name(), "dnf");
    assert_eq!(FlatpakBackend::new().name(), "flatpak");
    assert_eq!(GoBackend::new().name(), "go");
    assert_eq!(PacmanBackend::new().name(), "pacman");
    assert_eq!(SnapBackend::new().name(), "snap");
}

#[test]
fn test_pipx_switches_name() {
    assert_eq!(PipBackend::with_pipx(true).name(), "pipx");
    assert_eq!(PipBackend::with_pipx(false).name(), "pip");
}

fn ctx(os_type: OsType) -> OsContext {
    OsContext { os_type, os_name: None, os_version: None }
}

#[test]
fn test_factory_windows() {
    let r = get_backend_for_context(&ctx(OsType::Windows), false);
    assert_eq!(r, Ok(BackendKind::Winget));
}

#[test]
fn test_factory_debian() {
    let r = get_backend_for_context(&ctx(OsType::Linux { distro: LinuxDistro::Debian }), false);
    assert_eq!(r, Ok(BackendKind::Apt));
}

#[test]
fn test_factory_macos() {
    let r = get_backend_for_context(&ctx(OsType::MacOS), false);
    assert_eq!(r, Ok(BackendKind::Brew));
}

#[test]
fn test_factory_arch_and_fedora_unimplemented() {
    let arch = get_backend_for_context(&ctx(OsType::Linux { distro: LinuxDistro::Arch }), true);
    assert_eq!(arch, Err(SelectError::PacmanNotImplemented));
    let fedora =
        get_backend_for_context(&ctx(OsType::Linux { distro: LinuxDistro::Fedora }), true);
    assert_eq!(fedora, Err(SelectError::DnfNotImplemented));
}

#[test]
fn test_factory_unknown_distro_falls_back_to_apt() {
    let with_apt =
        get_backend_for_context(&ctx(OsType::Linux { distro: LinuxDistro::Unknown }), true);
    assert_eq!(with_apt, Ok(BackendKind::Apt));
    let without =
        get_backend_for_context(&ctx(OsType::Linux { distro: LinuxDistro::Unknown }), false);
    assert_eq!(without, Err(SelectError::NoSupportedManager));
}

#[test]
fn test_factory_unknown_os() {
    let r = get_backend_for_context(&ctx(OsType::Unknown), true);
    assert_eq!(r, Err(SelectError::UnknownOs));
}

#[test]
fn test_candidate_backends_order() {
    let c = candidate_backends();
    assert_eq!(
        c,
        vec![
            BackendKind::Winget,
            BackendKind::Apt,
            BackendKind::Brew,
            BackendKind::Npm,
            BackendKind::Pip,
        ]
    );
}

#[test]
fn test_classify_distro() {
    assert_eq!(classify_distro("ubuntu", ""), LinuxDistro::Debian);
    assert_eq!(classify_distro("pop", ""), LinuxDistro::Debian);
    assert_eq!(classify_distro("manjaro", ""), LinuxDistro::Arch);
    assert_eq!(classify_distro("rocky", ""), LinuxDistro::Fedora);
    assert_eq!(classify_distro("someos", "debian like"), LinuxDistro::Debian);
    assert_eq!(classify_distro("someos", "arch"), LinuxDistro::Arch);
    assert_eq!(classify_distro("someos", "rhel fedora"), LinuxDistro::Fedora);
    assert_eq!(classify_distro("gentoo", ""), LinuxDistro::Unknown);
    assert_eq!(classify_distro("UBUNTU", ""), LinuxDistro::Debian);
}

#[test]
fn test_git_url_acceptable() {
    assert!(git_url_acceptable("https://github.com/user/repo"));
    assert!(git_url_acceptable("git@github.com:user/repo.git"));
    assert!(!git_url_acceptable("user/repo"));
}

#[test]
fn test_go_install_target() {
    assert_eq!(go_install_target("golang.org/x/tools/gopls"), "golang.org/x/tools/gopls@latest");
    assert_eq!(go_install_target("golang.org/x/tools/gopls@v0.15"), "golang.org/x/tools/gopls@v0.15");
}
