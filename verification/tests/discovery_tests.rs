use std::collections::BTreeMap;

use repoctl::discovery::{assemble_projects, project_manifest_paths};
use repoctl::domain::{EdgeKind, OwnerHandle, ProjectManifest, RepoManifest, RepoRelativePath};
use repoctl::graph::build_graph;
use repoctl::manifest::{
    RawModulesSpec, RawProjectAiSpec, RawProjectManifest, RawProjectProtoSpec, RawRepoAi,
    RawRepoDefaults, RawRepoIac, RawRepoManifest, RawRepoPolicies, RawRepoProtos,
    YamlManifestParser,
};

fn repo_manifest(default_owner: Option<&str>) -> RepoManifest {
    let raw = RawRepoManifest {
        schema: "company.repo/v1".to_string(),
        name: "acme".to_string(),
        layout: "functional".to_string(),
        defaults: RawRepoDefaults { owner: default_owner.map(str::to_string) },
        protos: RawRepoProtos::defaults(),
        iac: RawRepoIac::defaults(),
        ai: RawRepoAi::defaults(".assistant/skills".to_string()),
        policies: RawRepoPolicies::default(),
    };
    YamlManifestParser.parse_repo_bytes("repo.yaml", b"schema: company.repo/v1\n", Ok(raw)).expect("repo")
}

fn project(name: &str, kind: &str, path: &str, source: &str, owners: &[&str], depends_on: &[&str]) -> ProjectManifest {
    let raw = RawProjectManifest {
        schema: "company.project/v1".to_string(),
        name: name.to_string(),
        kind: kind.to_string(),
        path: path.to_string(),
        owners: owners.iter().map(|o| o.to_string()).collect(),
        visibility: None,
        workspaces: Vec::new(),
        depends_on: depends_on.iter().map(|d| d.to_string()).collect(),
        tasks: Vec::new(),
        iac: None,
        deploy: None,
        protos: RawProjectProtoSpec::default(),
        ai: RawProjectAiSpec::default(),
        public_facades: Vec::new(),
        public_clients: Vec::new(),
        internal: Vec::new(),
        modules: RawModulesSpec::default(),
        policies: BTreeMap::new(),
    };
    YamlManifestParser.parse_project_bytes(source, b"schema: company.project/v1\n", Ok(raw)).expect("project")
}

fn codes(error: &repoctl::diagnostic::RepoctlError) -> Vec<String> {
    error.diagnostics().iter().map(|d| d.code.clone()).collect()
}

#[test]
fn test_should_discover_empty_repo() {
    let projects = assemble_projects(&repo_manifest(None), Vec::new()).expect("snapshot");
    assert!(projects.is_empty());
    let graph = build_graph(&projects, &Vec::new());
    assert!(graph.nodes.is_empty());
}

#[test]
fn test_should_build_graph_with_declared_edges() {
    let parsed = vec![
        Ok(project("apps.catalog", "app", "apps/catalog", "apps/catalog/project.yaml", &["@catalog"], &["frameworks.runtime", "foundations.identity.client"])),
        Ok(project("frameworks.runtime", "framework", "frameworks/runtime", "frameworks/runtime/project.yaml", &["@platform"], &[])),
        Ok(project("foundations.identity", "foundation-service", "foundations/identity", "foundations/identity/project.yaml", &["@identity"], &[])),
    ];
    let projects = assemble_projects(&repo_manifest(None), parsed).expect("snapshot");
    assert_eq!(projects.len(), 3);
    let names: Vec<&str> = projects.iter().map(|p| p.name.as_str()).collect();
    assert_eq!(names, ["apps.catalog", "foundations.identity", "frameworks.runtime"]);
    let graph = build_graph(&projects, &Vec::new());
    assert!(graph.edges.iter().any(|edge| edge.kind == EdgeKind::UsesFrameworkFacade));
    assert!(graph.edges.iter().any(|edge| edge.kind == EdgeKind::UsesFoundationClient));
}

#[test]
fn test_should_reject_project_path_mismatch() {
    let parsed = vec![Ok(project("apps.catalog", "app", "apps/wrong", "apps/catalog/project.yaml", &["@catalog"], &[]))];
    let error = assemble_projects(&repo_manifest(None), parsed).expect_err("path mismatch");
    assert!(codes(&error).iter().any(|code| code == "manifest.project.path_mismatch"));
}

#[test]
fn missing_owner_uses_repo_default_or_fails() {
    let parsed = vec![Ok(project("apps.catalog", "app", "apps/catalog", "apps/catalog/project.yaml", &[], &[]))];
    let projects = assemble_projects(&repo_manifest(Some("@platform")), parsed).expect("defaulted");
    assert_eq!(projects[0].owners.iter().map(OwnerHandle::as_str).collect::<Vec<_>>(), ["@platform"]);
    let parsed = vec![Ok(project("apps.catalog", "app", "apps/catalog", "apps/catalog/project.yaml", &[], &[]))];
    let error = assemble_projects(&repo_manifest(None), parsed).expect_err("owner");
    assert_eq!(codes(&error), ["manifest.project.owner_missing"]);
}

#[test]
fn duplicate_names_and_unknown_dependencies_are_reported_in_order() {
    let parse_failure = repoctl::diagnostic::RepoctlError::diagnostic(repoctl::diagnostic::Diagnostic::error("manifest.yaml", "bad"));
    let parsed = vec![
        Ok(project("apps.catalog", "app", "apps/catalog", "apps/catalog/project.yaml", &["@a"], &["apps.ghost"])),
        Err(parse_failure),
        Ok(project("apps.catalog", "app", "apps/catalog2", "apps/catalog2/project.yaml", &["@a"], &[])),
        Ok(project("tools.misc", "app", "tools/misc", "tools/misc/project.yaml", &["@a"], &[])),
    ];
    let error = assemble_projects(&repo_manifest(None), parsed).expect_err("errors");
    assert_eq!(
        codes(&error),
        [
            "manifest.yaml",
            "manifest.project.duplicate_name",
            "manifest.dependency.unknown_project",
            "manifest.project.path_convention",
        ]
    );
}

#[test]
fn manifest_paths_are_filtered_and_sorted() {
    let files: Vec<RepoRelativePath> = ["z/project.yaml", "a/src/lib.rs", "apps/b/project.yaml", "apps/a/project.yaml"]
        .iter()
        .map(|p| RepoRelativePath::new(p).expect("path"))
        .collect();
    let paths = project_manifest_paths(&files);
    let listed: Vec<&str> = paths.iter().map(RepoRelativePath::as_str).collect();
    assert_eq!(listed, ["apps/a/project.yaml", "apps/b/project.yaml", "z/project.yaml"]);
}
