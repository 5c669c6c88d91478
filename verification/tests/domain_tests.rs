use repoctl::domain::{
    CommandSpec, DependencySurface, DependencyTarget, OwnerHandle, ProjectDependency,
    ProjectRelativePath, RepoRelativePath, Toolchain,
};

#[test]
fn test_should_parse_argv_command() {
    let command = CommandSpec::parse("cargo check --workspace").expect("command parses");
    assert_eq!(command.program, "cargo");
    assert_eq!(command.args, ["check", "--workspace"]);
}

#[test]
fn test_should_reject_shell_syntax_in_command() {
    let error = CommandSpec::parse("cargo check && rm -rf target").expect_err("rejects shell");
    assert_eq!(error.code.as_str(), "manifest.command.shell_syntax");
}

#[test]
fn test_should_reject_invalid_owner() {
    let error = OwnerHandle::new("platform").expect_err("owner requires @");
    assert_eq!(error.code.as_str(), "manifest.owner.invalid");
}

#[test]
fn test_should_reject_path_traversal() {
    let error = RepoRelativePath::new("../outside").expect_err("rejects traversal");
    assert_eq!(error.code.as_str(), "manifest.path.traversal");
}

#[test]
fn test_should_allow_project_root_path() {
    let path = ProjectRelativePath::new(".").expect("root is valid");
    assert_eq!(path.as_str(), ".");
}

#[test]
fn test_should_parse_foundation_client_dependency() {
    let dependency =
        ProjectDependency::parse("foundations.identity.client").expect("dependency parses");
    assert_eq!(dependency.id, "foundations.identity.client");
}

#[test]
fn dependency_surfaces_follow_suffixes() {
    let client = ProjectDependency::parse("foundations.identity.client").expect("client");
    assert_eq!(client.surface, DependencySurface::FoundationPublicClient);
    match &client.target {
        DependencyTarget::Project(name) => assert_eq!(name.as_str(), "foundations.identity"),
        DependencyTarget::ProtoPackage(_) => panic!("expected a project"),
    }
    let internal = ProjectDependency::parse("frameworks.runtime.internal").expect("internal");
    assert_eq!(internal.surface, DependencySurface::FrameworkInternal);
    let facade = ProjectDependency::parse("frameworks.runtime.facade").expect("facade");
    assert_eq!(facade.surface, DependencySurface::FrameworkFacade);
    let proto = ProjectDependency::parse("protos.acme.identity.v1").expect("proto");
    assert!(matches!(proto.target, DependencyTarget::ProtoPackage(_)));
    assert_eq!(proto.surface, DependencySurface::Unspecified);
}

#[test]
fn commands_honour_quotes_and_escapes() {
    let command = CommandSpec::parse("echo 'a b' \"c d\" e\\ f").expect("parses");
    assert_eq!(command.program, "echo");
    assert_eq!(command.args, ["a b", "c d", "e f"]);
    let error = CommandSpec::parse("echo 'open").expect_err("unfinished quote");
    assert_eq!(error.code.as_str(), "manifest.command.invalid");
    let error = CommandSpec::parse("   ").expect_err("blank");
    assert_eq!(error.code.as_str(), "manifest.command.invalid");
}

#[test]
fn paths_are_normalized() {
    let path = RepoRelativePath::new("apps//catalog/./api/").expect("path");
    assert_eq!(path.as_str(), "apps/catalog/api");
    let error = RepoRelativePath::new("/etc").expect_err("absolute");
    assert_eq!(error.code.as_str(), "manifest.path.absolute");
    let error = RepoRelativePath::new(".").expect_err("root");
    assert_eq!(error.code.as_str(), "manifest.path.invalid");
    let base = RepoRelativePath::new("apps/catalog").expect("base");
    let child = ProjectRelativePath::new("api").expect("child");
    assert_eq!(base.join_project(&child).expect("joined").as_str(), "apps/catalog/api");
    assert!(RepoRelativePath::new("apps/catalog/api/src").expect("p").starts_with(&base));
    assert!(!RepoRelativePath::new("apps/catalogue").expect("p").starts_with(&base));
}

#[test]
fn toolchains_round_trip() {
    assert_eq!(Toolchain::parse("cargo").expect("cargo"), Toolchain::Cargo);
    let custom = Toolchain::parse("deno").expect("custom");
    assert_eq!(custom.as_str(), "deno");
    assert!(matches!(custom, Toolchain::Custom(_)));
    let error = Toolchain::parse("Bad Tool").expect_err("rejected");
    assert_eq!(error.code.as_str(), "manifest.workspace.toolchain");
}

#[test]
fn default_repo_path_is_the_root() {
    assert_eq!(RepoRelativePath::default(), RepoRelativePath::root());
    assert_eq!(RepoRelativePath::default().as_str(), ".");
}

#[test]
fn joined_paths_lie_below_their_base() {
    let base = RepoRelativePath::new("apps/catalog").expect("base");
    for child in [".", "api", "./api//src", "web/"] {
        let joined = base.join_project(&ProjectRelativePath::new(child).expect("child")).expect("joined");
        assert!(joined.starts_with(&base), "{child}");
    }
    let web = RepoRelativePath::new("apps/catalog-web").expect("web");
    assert!(!web.starts_with(&base));
    assert!(web.starts_with(&RepoRelativePath::new("apps").expect("apps")));
    assert!(base.starts_with(&base));
}
