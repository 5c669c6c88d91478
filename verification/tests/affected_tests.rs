use std::collections::BTreeMap;

use repoctl::affected::{ChangedFilesSource, changed_files_from_diff, changed_files_source, compute_affected};
use repoctl::domain::{
    CommandSpec, EdgeKind, GraphEdge, GeneratedCodePolicy, OwnerHandle, ProjectAiSpec,
    ProjectAreas, ProjectKind, ProjectManifest, ProjectName, ProjectProtoSpec,
    ProjectRelativePath, RepoGlob, RepoGraph, RepoLayout, RepoManifest, RepoName,
    RepoPolicySet, RepoRelativePath, RepoRoot, RepoSnapshot, SchemaId, TaskCommand, TaskName,
    Toolchain, Visibility, WorkspaceLanguage, WorkspaceName, WorkspaceSpec,
};

fn path(value: &str) -> RepoRelativePath {
    RepoRelativePath::new(value).expect("path")
}

fn repo_manifest() -> RepoManifest {
    RepoManifest {
        schema: SchemaId::new("company.repo/v1").expect("schema"),
        name: RepoName::new("acme").expect("repo"),
        layout: RepoLayout::Functional,
        default_owner: None,
        protos_root: path("protos"),
        core_infra_root: path("core-infra"),
        agent_skills_root: path(".agents/skills"),
        claude_skills_root: path(".assistant/skills"),
        context_output: path("target/repoctl/context"),
        generated_code_policy: GeneratedCodePolicy::ConsumerLocal,
        policies: RepoPolicySet::default(),
    }
}

fn workspace(name: &str, root: &str) -> WorkspaceSpec {
    WorkspaceSpec {
        name: WorkspaceName::new(name).expect("workspace"),
        language: WorkspaceLanguage::Rust,
        toolchain: Some(Toolchain::Cargo),
        root: ProjectRelativePath::new(root).expect("path"),
        manifest: ProjectRelativePath::new("Cargo.toml").expect("path"),
        lockfile: None,
        target_dir: Some(path("target/rust")),
        cache_dir: None,
    }
}

fn project(name: &str, dir: &str, workspaces: Vec<WorkspaceSpec>, owners: &[&str]) -> ProjectManifest {
    let tasks = vec![(
        TaskName::new("check").expect("task"),
        workspaces
            .iter()
            .map(|w| TaskCommand {
                workspace: WorkspaceName::new(w.name.as_str()).expect("workspace"),
                command: CommandSpec::parse("cargo check --workspace").expect("command"),
                depends_on: Vec::new(),
            })
            .collect::<Vec<_>>(),
    )];
    ProjectManifest {
        schema: SchemaId::new("company.project/v1").expect("schema"),
        name: ProjectName::new(name).expect("project"),
        kind: ProjectKind::App,
        path: path(dir),
        owners: owners.iter().map(|o| OwnerHandle::new(o).expect("owner")).collect(),
        visibility: Visibility::Internal,
        workspaces,
        depends_on: Vec::new(),
        tasks,
        iac: None,
        deploy: None,
        protos: ProjectProtoSpec::default(),
        ai: ProjectAiSpec::default(),
        areas: ProjectAreas::default(),
        policies: BTreeMap::new(),
        source: path(&format!("{dir}/project.yaml")),
    }
}

fn root() -> RepoRoot {
    RepoRoot::new("/tmp/repoctl-test").expect("root")
}

fn fixture_snapshot() -> RepoSnapshot {
    let catalog = project("apps.catalog", "apps/catalog", vec![workspace("api", ".")], &[]);
    RepoSnapshot::new(root(), repo_manifest(), vec![catalog], RepoGraph::default())
}

fn edge(from: &str, to: &str, kind: EdgeKind) -> GraphEdge {
    GraphEdge { from: from.to_string(), to: to.to_string(), kind, evidence: None }
}

fn layered_snapshot() -> RepoSnapshot {
    let runtime = project(
        "frameworks.runtime",
        "frameworks/runtime",
        vec![workspace("core", "core"), workspace("web", "web")],
        &["@platform"],
    );
    let identity = project("foundations.identity", "foundations/identity", vec![workspace("api", "api")], &["@identity"]);
    let mut catalog = project("apps.catalog", "apps/catalog", vec![workspace("api", "api")], &["@catalog"]);
    catalog.protos = ProjectProtoSpec {
        owns: Vec::new(),
        consumes: vec![RepoGlob::new("protos/acme/identity/**").expect("glob")],
    };
    let shop = project("apps.shop", "apps/shop", vec![workspace("api", "api")], &["@shop"]);
    let graph = RepoGraph {
        nodes: Vec::new(),
        edges: vec![
            edge("project:apps.catalog", "project:frameworks.runtime", EdgeKind::UsesFrameworkFacade),
            edge("project:apps.shop", "project:apps.catalog", EdgeKind::DependsOnProject),
            edge("project:foundations.identity", "project:frameworks.runtime", EdgeKind::UsesFrameworkInternal),
        ],
    };
    RepoSnapshot::new(root(), repo_manifest(), vec![runtime, identity, catalog, shop], graph)
}

fn names(values: &[ProjectName]) -> Vec<&str> {
    values.iter().map(ProjectName::as_str).collect()
}

#[test]
fn test_should_compute_affected_project_and_task_runner_inputs() {
    let snapshot = fixture_snapshot();
    let report = compute_affected(
        &snapshot,
        &vec![RepoRelativePath::new("apps/catalog/src/lib.rs").expect("path")],
        &vec![TaskName::new("check").expect("task")],
    );
    assert_eq!(report.directly_affected[0].as_str(), "apps.catalog");
    assert!(report.tasks.iter().any(|task| task == "apps.catalog:api:check"));
}

#[test]
fn change_spreads_through_reverse_dependencies() {
    let snapshot = layered_snapshot();
    let report = compute_affected(&snapshot, &vec![path("frameworks/runtime/core/src/lib.rs")], &Vec::new());
    assert_eq!(names(&report.directly_affected), ["frameworks.runtime"]);
    assert_eq!(names(&report.transitively_affected), ["apps.catalog", "apps.shop"]);
    assert_eq!(
        report.workspaces,
        ["frameworks.runtime:core", "apps.catalog:api", "apps.shop:api"]
    );
    assert_eq!(
        report.tasks,
        ["apps.catalog:api:check", "apps.shop:api:check", "frameworks.runtime:core:check"]
    );
    let propagated: Vec<(&str, &str, &str)> = report
        .reasons
        .iter()
        .map(|r| (r.source.as_str(), r.target.as_str(), r.reason.as_str()))
        .collect();
    assert_eq!(
        propagated,
        [
            ("frameworks/runtime/core/src/lib.rs", "frameworks.runtime", "project file changed"),
            ("frameworks.runtime", "apps.catalog", "reverse dependency propagation"),
            ("apps.catalog", "apps.shop", "reverse dependency propagation"),
        ]
    );
    assert_eq!(
        report.suggested_reviewers.iter().map(OwnerHandle::as_str).collect::<Vec<_>>(),
        ["@platform"]
    );
    assert!(report.risk_flags.is_empty());
    assert!(report.diagnostics.is_empty());
}

#[test]
fn internal_edges_do_not_spread() {
    let snapshot = layered_snapshot();
    let report = compute_affected(&snapshot, &vec![path("frameworks/runtime/web/index.ts")], &Vec::new());
    assert!(!names(&report.transitively_affected).contains(&"foundations.identity"));
}

#[test]
fn repo_wide_change_affects_every_project() {
    let snapshot = layered_snapshot();
    let report = compute_affected(&snapshot, &vec![path("repo.yaml")], &Vec::new());
    assert_eq!(
        names(&report.directly_affected),
        ["apps.catalog", "apps.shop", "foundations.identity", "frameworks.runtime"]
    );
    assert!(report.transitively_affected.is_empty());
    assert!(report.reasons.iter().all(|r| r.reason == "repo-wide change"));
    assert!(report.suggested_reviewers.is_empty());
    let skills = compute_affected(&snapshot, &vec![path(".assistant/skills/lint/SKILL.md")], &Vec::new());
    assert_eq!(skills.directly_affected.len(), 4);
}

#[test]
fn proto_changes_reach_consumers_and_raise_flags() {
    let snapshot = layered_snapshot();
    let report = compute_affected(
        &snapshot,
        &vec![
            path("protos/acme/identity/v1/identity.proto"),
            path("core-infra/network/main.tf"),
            path("apps/shop/iac/stacks/prod.yaml"),
        ],
        &vec![TaskName::new("check").expect("task")],
    );
    assert_eq!(names(&report.directly_affected), ["apps.catalog", "apps.shop"]);
    assert_eq!(names(&report.transitively_affected), Vec::<&str>::new());
    assert_eq!(report.risk_flags, ["core-infra", "prod-iac"]);
    assert_eq!(
        report.suggested_reviewers.iter().map(OwnerHandle::as_str).collect::<Vec<_>>(),
        ["@catalog", "@shop"]
    );
    assert_eq!(report.reasons[0].reason, "proto ownership or consumption");
}

#[test]
fn unrequested_tasks_are_left_out() {
    let snapshot = fixture_snapshot();
    let report = compute_affected(
        &snapshot,
        &vec![path("apps/catalog/src/lib.rs")],
        &vec![TaskName::new("test").expect("task")],
    );
    assert!(report.tasks.is_empty());
    assert_eq!(report.workspaces, ["apps.catalog:api"]);
}

#[test]
fn diff_output_lists_changed_paths() {
    let files = changed_files_from_diff("apps/catalog/src/lib.rs\r\n\n  \nprotos/acme/v1/a.proto\n").expect("paths");
    let listed: Vec<&str> = files.iter().map(RepoRelativePath::as_str).collect();
    assert_eq!(listed, ["apps/catalog/src/lib.rs", "protos/acme/v1/a.proto"]);
    assert!(changed_files_from_diff("").expect("empty").is_empty());
}

#[test]
fn diff_output_with_traversal_is_rejected() {
    let error = changed_files_from_diff("apps/a.rs\n../etc/passwd\n/abs\n").expect_err("traversal");
    assert_eq!(error.diagnostics()[0].code, "manifest.path.traversal");
}

#[test]
fn explicit_files_take_precedence_over_refs() {
    assert_eq!(changed_files_source(&vec![path("a.rs")], Some("main"), Some("HEAD")), ChangedFilesSource::Explicit);
    assert_eq!(
        changed_files_source(&Vec::new(), Some("main"), Some("HEAD")),
        ChangedFilesSource::GitDiff { base: "main".to_string(), head: "HEAD".to_string() }
    );
    assert_eq!(changed_files_source(&Vec::new(), Some("main"), None), ChangedFilesSource::Nothing);
}
