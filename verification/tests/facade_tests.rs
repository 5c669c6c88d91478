use std::collections::BTreeMap;

use repoctl::adapters::{
    RootCandidate, choose_repo_root, classify_core_infra_module, classify_path_dependency, finish_walk,
    is_excluded_path, rust_dependency_edges,
};
use repoctl::diagnostic::{RepoctlError, Severity};
use repoctl::domain::{
    CommandSpec, DependencySurface, EdgeKind, GeneratedCodePolicy, GraphEdge, IacProvider, IacSpec, OwnerHandle,
    ProjectAiSpec, ProjectAreas, ProjectKind, ProjectManifest, ProjectName, ProjectProtoSpec, ProjectRelativePath,
    RepoGlob, RepoGraph, RepoLayout, RepoManifest, RepoName, RepoPolicySet, RepoRelativePath, RepoRoot,
    RepoSnapshot, SchemaId, TaskCommand, TaskName, Visibility, WorkspaceLanguage, WorkspaceName, WorkspaceSpec,
};
use repoctl::facade::{
    CiMatrixScope, IacTarget, ProtoMatchKind, buf_check_commands, ci_matrix_entries, ci_matrix_scope,
    ci_matrix_task_request, codegen_check_report, context_project, generated_code_findings, iac_plan_command,
    iac_plan_report, iac_risk_flags, iac_targets, normalize_proto_selector, project_dependency_edges,
    proto_projects, proto_report, required_selector, task_run_report,
};
use repoctl::requests::{
    CiFallback, CiMatrixRequest, IacFacadeRequest, ProcessCommand, ProcessOutput, ProtoFacadeRequest,
    ProtoOperation,
};

fn path(value: &str) -> RepoRelativePath {
    RepoRelativePath::new(value).expect("path")
}

fn rel(value: &str) -> ProjectRelativePath {
    ProjectRelativePath::new(value).expect("path")
}

fn name(value: &str) -> ProjectName {
    ProjectName::new(value).expect("project")
}

fn repo_manifest() -> RepoManifest {
    RepoManifest {
        schema: SchemaId::new("company.repo/v1").expect("schema"),
        name: RepoName::new("acme").expect("repo"),
        layout: RepoLayout::Functional,
        default_owner: None,
        protos_root: path("protos"),
        core_infra_root: path("core-infra"),
        agent_skills_root: path(".agents/skills"),
        claude_skills_root: path(".assistant/skills"),
        context_output: path("target/repoctl/context"),
        generated_code_policy: GeneratedCodePolicy::ConsumerLocal,
        policies: RepoPolicySet::default(),
    }
}

fn workspace(name: &str, root: &str) -> WorkspaceSpec {
    WorkspaceSpec {
        name: WorkspaceName::new(name).expect("workspace"),
        language: WorkspaceLanguage::Rust,
        toolchain: None,
        root: rel(root),
        manifest: rel("Cargo.toml"),
        lockfile: None,
        target_dir: None,
        cache_dir: None,
    }
}

fn project(project_name: &str, dir: &str, kind: ProjectKind) -> ProjectManifest {
    ProjectManifest {
        schema: SchemaId::new("company.project/v1").expect("schema"),
        name: name(project_name),
        kind,
        path: path(dir),
        owners: vec![OwnerHandle::new("@platform").expect("owner")],
        visibility: Visibility::Internal,
        workspaces: vec![workspace("api", ".")],
        depends_on: Vec::new(),
        tasks: vec![(
            TaskName::new("check").expect("task"),
            vec![TaskCommand {
                workspace: WorkspaceName::new("api").expect("workspace"),
                command: CommandSpec::parse("cargo check").expect("command"),
                depends_on: Vec::new(),
            }],
        )],
        iac: None,
        deploy: None,
        protos: ProjectProtoSpec::default(),
        ai: ProjectAiSpec::default(),
        areas: ProjectAreas::default(),
        policies: BTreeMap::new(),
        source: path(&format!("{dir}/project.yaml")),
    }
}

fn root() -> RepoRoot {
    RepoRoot::new("/tmp/repoctl-test").expect("root")
}

fn snapshot() -> RepoSnapshot {
    let mut catalog = project("apps.catalog", "apps/catalog", ProjectKind::App);
    catalog.protos = ProjectProtoSpec {
        owns: vec![RepoGlob::new("protos/acme/catalog/**").expect("glob")],
        consumes: vec![RepoGlob::new("protos/acme/identity/**").expect("glob")],
    };
    catalog.iac = Some(IacSpec { root: rel("iac"), provider: IacProvider::Terraform, stacks: vec!["dev".into(), "prod".into()] });
    let mut identity = project("foundations.identity", "foundations/identity", ProjectKind::FoundationService);
    identity.protos = ProjectProtoSpec {
        owns: vec![RepoGlob::new("protos/acme/identity/**").expect("glob")],
        consumes: Vec::new(),
    };
    identity.iac = Some(IacSpec { root: rel("infra"), provider: IacProvider::Pulumi, stacks: Vec::new() });
    identity.areas.public_clients = vec![("rust".to_string(), vec![rel("clients/rust")])];
    let mut runtime = project("frameworks.runtime", "frameworks/runtime", ProjectKind::Framework);
    runtime.areas.public_facades = vec![("rust".to_string(), vec![rel("facade")])];
    let mut core = project("core-infra", "core-infra", ProjectKind::CoreInfra);
    core.areas.public_modules = vec![rel("modules/network")];
    core.areas.internal_modules = vec![rel("internal")];
    let mut shop = project("apps.shop", "apps/shop", ProjectKind::App);
    shop.protos = ProjectProtoSpec {
        owns: Vec::new(),
        consumes: vec![RepoGlob::new("protos/acme/identity/v1/*.proto").expect("glob")],
    };
    let graph = RepoGraph {
        nodes: Vec::new(),
        edges: vec![
            GraphEdge {
                from: "project:apps.catalog".into(),
                to: "project:frameworks.runtime".into(),
                kind: EdgeKind::UsesFrameworkFacade,
                evidence: None,
            },
            GraphEdge {
                from: "project:apps.shop".into(),
                to: "project:apps.catalog".into(),
                kind: EdgeKind::DependsOnProject,
                evidence: None,
            },
            GraphEdge {
                from: "project:apps.catalog".into(),
                to: "project:foundations.identity".into(),
                kind: EdgeKind::UsesFoundationClient,
                evidence: Some("foundations/identity/clients/rust".into()),
            },
        ],
    };
    RepoSnapshot::new(root(), repo_manifest(), vec![catalog, identity, runtime, core, shop], graph)
}

fn command(project: Option<&str>, workspace: Option<&str>, task: Option<&str>) -> ProcessCommand {
    ProcessCommand {
        project: project.map(name),
        workspace: workspace.map(|w| WorkspaceName::new(w).expect("workspace")),
        task: task.map(|t| TaskName::new(t).expect("task")),
        cwd: path("apps/catalog"),
        absolute_cwd: None,
        program: "cargo".into(),
        args: vec!["check".into()],
        env: BTreeMap::new(),
    }
}

fn codes(error: &RepoctlError) -> Vec<String> {
    error.diagnostics().iter().map(|d| d.code.clone()).collect()
}

// CI matrix -------------------------------------------------------------

#[test]
fn ci_matrix_scope_follows_changed_files_and_fallback() {
    let mut request = CiMatrixRequest::default();
    assert_eq!(ci_matrix_scope(&request).expect("scope"), CiMatrixScope::Nothing);
    request.fallback = CiFallback::All;
    assert_eq!(ci_matrix_scope(&request).expect("scope"), CiMatrixScope::All);
    request.fallback = CiFallback::Error;
    let error = ci_matrix_scope(&request).expect_err("no signal");
    assert_eq!(codes(&error), ["ci.matrix.no_changed_files"]);
    request.base = Some("main".into());
    assert_eq!(ci_matrix_scope(&request).expect("scope"), CiMatrixScope::Affected);
    let mut request = CiMatrixRequest::default();
    request.changed_files = vec![path("apps/catalog/src/lib.rs")];
    request.fallback = CiFallback::Error;
    assert_eq!(ci_matrix_scope(&request).expect("scope"), CiMatrixScope::Affected);
}

#[test]
fn ci_matrix_task_request_is_a_dry_run() {
    let request = CiMatrixRequest {
        repo: None,
        tasks: vec![TaskName::new("check").expect("task")],
        changed_files: vec![path("apps/catalog/src/lib.rs")],
        base: Some("main".into()),
        head: Some("HEAD".into()),
        fallback: CiFallback::Nothing,
    };
    let affected = ci_matrix_task_request(&request, true);
    assert!(affected.affected && affected.dry_run);
    assert_eq!(affected.changed_files.len(), 1);
    assert_eq!(affected.base.as_deref(), Some("main"));
    assert_eq!(affected.tasks[0].as_str(), "check");
    let all = ci_matrix_task_request(&request, false);
    assert!(!all.affected && all.dry_run);
    assert!(all.changed_files.is_empty() && all.base.is_none() && all.head.is_none());
    assert!(all.concurrency.is_none());
}

#[test]
fn ci_matrix_entries_keep_first_occurrences() {
    let commands = vec![
        command(Some("apps.catalog"), Some("api"), Some("check")),
        command(Some("apps.shop"), Some("api"), Some("check")),
        command(Some("apps.catalog"), Some("api"), Some("check")),
        command(None, None, None),
        command(None, None, None),
    ];
    let entries = ci_matrix_entries(&commands);
    assert_eq!(
        entries,
        [
            ("apps.catalog".to_string(), "api".to_string(), "check".to_string()),
            ("apps.shop".to_string(), "api".to_string(), "check".to_string()),
            (String::new(), String::new(), String::new()),
        ]
    );
    assert!(ci_matrix_entries(&Vec::new()).is_empty());
}

// Proto --------------------------------------------------------------------

#[test]
fn proto_selector_becomes_a_path() {
    assert_eq!(normalize_proto_selector("protos/acme/x.proto").expect("path"), "protos/acme/x.proto");
    assert_eq!(normalize_proto_selector("acme.identity.v1").expect("package"), "protos/acme/identity/v1");
    let error = normalize_proto_selector("acme identity").expect_err("invalid");
    assert_eq!(codes(&error), ["proto.selector.invalid"]);
    let error = normalize_proto_selector("../etc").expect_err("invalid");
    assert_eq!(codes(&error), ["proto.selector.invalid"]);
}

#[test]
fn proto_lookup_requires_a_selector() {
    let request = ProtoFacadeRequest { operation: ProtoOperation::Owners, ..ProtoFacadeRequest::default() };
    let error = required_selector(&request).expect_err("missing");
    assert_eq!(codes(&error), ["proto.selector.required"]);
    let request = ProtoFacadeRequest { selector: Some("acme.identity".into()), ..request };
    assert_eq!(required_selector(&request).expect("selector"), "acme.identity");
}

#[test]
fn proto_projects_are_sorted_by_name() {
    let snapshot = snapshot();
    let owners = proto_projects(&snapshot, "acme.identity.v1", ProtoMatchKind::Owner).expect("owners");
    assert_eq!(owners.iter().map(ProjectName::as_str).collect::<Vec<_>>(), ["foundations.identity"]);
    let consumers =
        proto_projects(&snapshot, "protos/acme/identity/v1/user.proto", ProtoMatchKind::Consumer).expect("consumers");
    assert_eq!(consumers.iter().map(ProjectName::as_str).collect::<Vec<_>>(), ["apps.catalog", "apps.shop"]);
    let none = proto_projects(&snapshot, "acme.billing", ProtoMatchKind::Consumer).expect("none");
    assert!(none.is_empty());
}

#[test]
fn proto_report_answers_each_operation() {
    let snapshot = snapshot();
    let owners = proto_report(
        &snapshot,
        &ProtoFacadeRequest {
            operation: ProtoOperation::Owners,
            selector: Some("acme.catalog.v1".into()),
            ..ProtoFacadeRequest::default()
        },
        &Vec::new(),
        false,
    )
    .expect("owners");
    assert_eq!(owners.owners.iter().map(ProjectName::as_str).collect::<Vec<_>>(), ["apps.catalog"]);
    assert!(owners.consumers.is_empty() && owners.commands.is_empty());
    let check = proto_report(&snapshot, &ProtoFacadeRequest::default(), &Vec::new(), true).expect("check");
    assert_eq!(check.commands.len(), 1);
    assert_eq!(check.commands[0].program, "buf");
    assert_eq!(check.commands[0].args, ["lint"]);
    assert_eq!(check.commands[0].cwd.as_str(), "protos");
    let missing = proto_report(
        &snapshot,
        &ProtoFacadeRequest { operation: ProtoOperation::Consumers, ..ProtoFacadeRequest::default() },
        &Vec::new(),
        true,
    )
    .expect_err("selector");
    assert_eq!(codes(&missing), ["proto.selector.required"]);
}

#[test]
fn buf_lint_runs_only_with_a_buf_manifest() {
    let snapshot = snapshot();
    assert!(buf_check_commands(&snapshot, false).is_empty());
    let commands = buf_check_commands(&snapshot, true);
    assert_eq!(commands.len(), 1);
    assert!(commands[0].project.is_none() && commands[0].env.is_empty());
    assert_eq!(commands[0].absolute_cwd.as_deref(), Some(std::path::Path::new("/tmp/repoctl-test/protos")));
}

// Generated code --------------------------------------------------------------

#[test]
fn codegen_check_keeps_generated_code_findings() {
    let snapshot = snapshot();
    let report = codegen_check_report(
        &snapshot,
        &vec![path("apps/catalog/generated/client.rs"), path("apps/catalog/src/lib.rs")],
    )
    .expect("report");
    assert!(report.diagnostics.iter().all(|d| d.code == "policy.generated_code_readonly"));
    assert_eq!(report.diagnostics.len(), 1);
    let mixed = vec![
        repoctl::diagnostic::Diagnostic::error("policy.generated_code_readonly", "generated"),
        repoctl::diagnostic::Diagnostic::warning("policy.high_risk_iac", "risk"),
    ];
    let kept = generated_code_findings(&mixed);
    assert_eq!(kept.len(), 1);
    assert_eq!(kept[0].message, "generated");
}

// IaC -------------------------------------------------------------------------

#[test]
fn iac_targets_cover_declared_stacks() {
    let snapshot = snapshot();
    let targets = iac_targets(&snapshot, &IacFacadeRequest::default(), &Vec::new()).expect("targets");
    let stacks: Vec<_> = targets
        .iter()
        .map(|t| (t.project.as_ref().map(|p| p.as_str().to_string()), t.root.as_str().to_string(), t.stack.clone()))
        .collect();
    assert_eq!(
        stacks,
        [
            (Some("apps.catalog".into()), "apps/catalog/iac".into(), "dev".into()),
            (Some("apps.catalog".into()), "apps/catalog/iac".into(), "prod".into()),
            (Some("foundations.identity".into()), "foundations/identity/infra".into(), "default".into()),
        ]
    );
    let request = IacFacadeRequest { env: Some("staging".into()), project: Some(name("apps.catalog")), ..IacFacadeRequest::default() };
    let targets = iac_targets(&snapshot, &request, &Vec::new()).expect("targets");
    assert_eq!(targets.len(), 1);
    assert_eq!(targets[0].stack, "staging");
}

#[test]
fn iac_targets_of_core_and_missing_projects() {
    let snapshot = snapshot();
    let core = iac_targets(&snapshot, &IacFacadeRequest { core: true, ..IacFacadeRequest::default() }, &Vec::new())
        .expect("core");
    assert_eq!(core.len(), 1);
    assert!(core[0].core && core[0].project.is_none());
    assert_eq!(core[0].stack, "dev");
    assert_eq!(core[0].root.as_str(), "core-infra");
    let request = IacFacadeRequest { project: Some(name("apps.shop")), ..IacFacadeRequest::default() };
    let error = iac_targets(&snapshot, &request, &Vec::new()).expect_err("no iac");
    assert_eq!(codes(&error), ["iac.target.not_found"]);
    let affected = IacFacadeRequest { affected: true, ..IacFacadeRequest::default() };
    let targets = iac_targets(&snapshot, &affected, &vec![path("foundations/identity/infra/main.ts")]).expect("targets");
    assert_eq!(targets.len(), 1);
    assert_eq!(targets[0].provider, IacProvider::Pulumi);
}

#[test]
fn iac_plan_commands_per_provider() {
    let snapshot = snapshot();
    let target = IacTarget {
        project: Some(name("apps.catalog")),
        root: path("apps/catalog/iac"),
        provider: IacProvider::Terraform,
        stack: "prod".into(),
        core: false,
    };
    let terraform = iac_plan_command(&snapshot, &target);
    assert_eq!(terraform.program, "terraform");
    assert_eq!(terraform.args, ["plan", "-var", "env=prod"]);
    assert_eq!(terraform.project.as_ref().map(ProjectName::as_str), Some("apps.catalog"));
    let pulumi = iac_plan_command(&snapshot, &IacTarget { provider: IacProvider::Pulumi, ..target.clone() });
    assert_eq!(pulumi.program, "pulumi");
    assert_eq!(pulumi.args, ["preview", "--stack", "prod"]);
    let tofu = iac_plan_command(&snapshot, &IacTarget { provider: IacProvider::OpenTofu, ..target });
    assert_eq!(tofu.program, "tofu");
    assert_eq!(tofu.args, ["plan", "-var", "env=prod"]);
}

#[test]
fn iac_risk_flags_are_sorted_and_distinct() {
    let core = IacTarget {
        project: None,
        root: path("core-infra"),
        provider: IacProvider::Pulumi,
        stack: "dev".into(),
        core: true,
    };
    assert_eq!(iac_risk_flags(&vec![core.clone()], &Vec::new()), ["core-infra"]);
    assert_eq!(
        iac_risk_flags(&Vec::new(), &vec![path("apps/catalog/iac/stacks/prod.yaml"), path("core-infra/main.ts")]),
        ["core-infra", "prod-iac"]
    );
    assert!(iac_risk_flags(&Vec::new(), &vec![path("apps/catalog/src/lib.rs")]).is_empty());
}

#[test]
fn iac_plan_report_plans_every_target() {
    let snapshot = snapshot();
    let report = iac_plan_report(&snapshot, &IacFacadeRequest::default(), &Vec::new()).expect("report");
    assert_eq!(report.commands.len(), 3);
    assert_eq!(report.commands[2].program, "pulumi");
    assert_eq!(report.risk_flags, ["prod-iac"]);
    assert!(report.diagnostics.is_empty());
}

// Task runs -------------------------------------------------------------------

#[test]
fn task_run_report_records_failures_and_outputs() {
    let planned = vec![command(Some("apps.catalog"), Some("api"), Some("check"))];
    let results = vec![
        (
            command(Some("apps.catalog"), Some("api"), Some("check")),
            ProcessOutput { status: 2, stdout: String::new(), stderr: "boom".into() },
        ),
        (command(None, None, None), ProcessOutput { status: 0, stdout: "ok".into(), stderr: String::new() }),
        (command(None, None, None), ProcessOutput { status: -1, stdout: String::new(), stderr: String::new() }),
    ];
    let report = task_run_report(planned, results);
    assert_eq!(report.commands.len(), 1);
    assert_eq!(report.outputs.len(), 1);
    assert_eq!(report.outputs[0].output.status, 2);
    assert_eq!(report.diagnostics.len(), 2);
    assert_eq!(report.diagnostics[0].message, "task `check` failed with status 2");
    assert_eq!(report.diagnostics[0].severity, Severity::Error);
    assert_eq!(report.diagnostics[1].message, "task `<unknown>` failed with status -1");
    assert_eq!(report.diagnostics[0].code, "task.failed");
}

// Project context -------------------------------------------------------------

#[test]
fn context_project_is_found_by_name() {
    let snapshot = snapshot();
    let project = context_project(&snapshot, &name("apps.shop")).expect("project");
    assert_eq!(project.path.as_str(), "apps/shop");
    let error = context_project(&snapshot, &name("apps.missing")).expect_err("missing");
    let diagnostics = error.diagnostics();
    assert_eq!(diagnostics[0].code, "context.project.not_found");
    assert_eq!(diagnostics[0].message, "project `apps.missing` was not found");
    assert_eq!(diagnostics[0].project.as_deref(), Some("apps.missing"));
}

#[test]
fn project_dependency_edges_leave_the_project() {
    let snapshot = snapshot();
    let catalog = context_project(&snapshot, &name("apps.catalog")).expect("project");
    let edges = project_dependency_edges(&snapshot, catalog);
    assert_eq!(edges.iter().map(|e| e.to.as_str()).collect::<Vec<_>>(), ["project:frameworks.runtime", "project:foundations.identity"]);
}

// Workspace adapters ----------------------------------------------------------

#[test]
fn excluded_paths_are_build_and_vcs_output() {
    assert!(is_excluded_path(&path("target/debug/app")));
    assert!(is_excluded_path(&path(".git/config")));
    assert!(is_excluded_path(&path(".repoctl/cache/index")));
    assert!(!is_excluded_path(&path("apps/target/src/lib.rs")));
    assert!(!is_excluded_path(&path(".github/workflows/ci.yml")));
}

#[test]
fn path_dependencies_are_classified_by_target_kind() {
    let snapshot = snapshot();
    let catalog = &snapshot.projects[0];
    let ws = &catalog.workspaces[0];
    let facade = classify_path_dependency(&snapshot.projects, catalog, ws, &path("frameworks/runtime/facade/rust")).expect("edge");
    assert_eq!(facade.kind, EdgeKind::UsesFrameworkFacade);
    assert_eq!(facade.to_project, "frameworks.runtime");
    assert_eq!(facade.evidence.as_deref(), Some("frameworks/runtime/facade/rust"));
    let internal = classify_path_dependency(&snapshot.projects, catalog, ws, &path("frameworks/runtime/src")).expect("edge");
    assert_eq!(internal.kind, EdgeKind::UsesFrameworkInternal);
    let client = classify_path_dependency(&snapshot.projects, catalog, ws, &path("foundations/identity/clients/rust")).expect("edge");
    assert_eq!(client.kind, EdgeKind::UsesFoundationClient);
    let module = classify_path_dependency(&snapshot.projects, catalog, ws, &path("core-infra/modules/network")).expect("edge");
    assert_eq!(module.kind, EdgeKind::UsesCoreInfraModule);
    let app = classify_path_dependency(&snapshot.projects, catalog, ws, &path("apps/shop/lib")).expect("edge");
    assert_eq!(app.kind, EdgeKind::DependsOnProject);
    assert!(classify_path_dependency(&snapshot.projects, catalog, ws, &path("apps/catalog/crates/x")).is_none());
    assert!(classify_path_dependency(&snapshot.projects, catalog, ws, &path("vendor/x")).is_none());
    assert_eq!(classify_core_infra_module(&path("core-infra/internal/x"), &snapshot.projects[3]), DependencySurface::CoreInfraInternalModule);
    assert_eq!(classify_core_infra_module(&path("core-infra/other"), &snapshot.projects[3]), DependencySurface::Unspecified);
}

#[test]
fn rust_dependency_edges_are_sorted_and_distinct() {
    let snapshot = snapshot();
    let catalog = &snapshot.projects[0];
    let edges = rust_dependency_edges(
        &snapshot.projects,
        catalog,
        &catalog.workspaces[0],
        &vec![
            path("frameworks/runtime/src"),
            path("apps/shop/lib"),
            path("frameworks/runtime/facade"),
            path("apps/shop/lib"),
            path("vendor/x"),
        ],
    );
    let seen: Vec<_> = edges.iter().map(|e| (e.to_project.as_str(), e.kind)).collect();
    assert_eq!(
        seen,
        [
            ("apps.shop", EdgeKind::DependsOnProject),
            ("frameworks.runtime", EdgeKind::UsesFrameworkFacade),
            ("frameworks.runtime", EdgeKind::UsesFrameworkInternal),
        ]
    );
}

#[test]
fn walks_are_sorted_filtered_and_bounded() {
    let walked = vec![path("b.txt"), path("target/x"), path("a.txt"), path("b.txt"), path(".git/HEAD")];
    let files = finish_walk(&walked, 10).expect("walk");
    assert_eq!(files.iter().map(RepoRelativePath::as_str).collect::<Vec<_>>(), ["a.txt", "b.txt"]);
    let error = finish_walk(&walked, 2).expect_err("limit");
    assert_eq!(error.diagnostics()[0].message, "repository walk exceeded 2 files");
}

#[test]
fn repo_root_prefers_the_manifest_then_git() {
    let candidate = |path: &str, manifest: bool, git: bool| RootCandidate { path: path.into(), has_repo_manifest: manifest, has_git: git };
    let root = choose_repo_root(&vec![
        candidate("/work/repo/apps", false, false),
        candidate("/work/repo", false, true),
        candidate("/work", true, false),
    ])
    .expect("root");
    assert_eq!(root.absolute, "/work");
    let root = choose_repo_root(&vec![candidate("/work/repo/apps", false, true), candidate("/work/repo", false, true)])
        .expect("root");
    assert_eq!(root.absolute, "/work/repo/apps");
    let error = choose_repo_root(&vec![candidate("/work", false, false)]).expect_err("none");
    let diagnostics = error.diagnostics();
    assert_eq!(diagnostics[0].code, "repo.root.not_found");
    assert_eq!(diagnostics[0].help.as_deref(), Some("pass --repo with the repository root"));
}

fn fixture_snapshot() -> RepoSnapshot {
    let mut protos = project("protos.shared", "protos", ProjectKind::ProtoRoot);
    protos.workspaces = Vec::new();
    protos.tasks = Vec::new();
    let mut catalog = project("apps.catalog", "apps/catalog", ProjectKind::App);
    catalog.workspaces = vec![workspace("api", "api")];
    catalog.protos = ProjectProtoSpec {
        owns: Vec::new(),
        consumes: vec![RepoGlob::new("protos/acme/identity/v1/**").expect("glob")],
    };
    catalog.iac = Some(IacSpec { root: rel("iac"), provider: IacProvider::Pulumi, stacks: vec!["dev".into(), "prod".into()] });
    catalog.ai = ProjectAiSpec {
        editable: vec![RepoGlob::new("api/**").expect("glob"), RepoGlob::new("iac/**").expect("glob")],
        do_not_edit: vec![RepoGlob::new("**/generated/**").expect("glob")],
        docs: vec![rel("README.md")],
    };
    let mut identity = project("foundations.identity", "foundations/identity", ProjectKind::FoundationService);
    identity.workspaces = Vec::new();
    identity.tasks = Vec::new();
    identity.protos = ProjectProtoSpec {
        owns: vec![RepoGlob::new("protos/acme/identity/v1/**").expect("glob")],
        consumes: Vec::new(),
    };
    let projects = vec![catalog, identity, protos];
    let graph = repoctl::graph::build_graph(&projects, &Vec::new());
    RepoSnapshot::new(root(), repo_manifest(), projects, graph)
}

#[test]
fn test_should_resolve_proto_through_facade() {
    let snapshot = fixture_snapshot();
    let request = ProtoFacadeRequest {
        repo: None,
        operation: ProtoOperation::Owners,
        selector: Some("protos/acme/identity/v1/identity.proto".to_string()),
        base: None,
        head: None,
        changed_files: Vec::new(),
    };
    let report = proto_report(&snapshot, &request, &Vec::new(), false).expect("proto owners");
    assert!(report.owners.iter().any(|owner| owner.as_str() == "foundations.identity"));
}

#[test]
fn test_should_plan_iac_through_facade() {
    let snapshot = fixture_snapshot();
    let request = IacFacadeRequest {
        repo: None,
        affected: false,
        project: Some(name("apps.catalog")),
        env: Some("dev".to_string()),
        core: false,
        base: None,
        head: None,
        changed_files: Vec::new(),
        dry_run: true,
    };
    let report = iac_plan_report(&snapshot, &request, &Vec::new()).expect("iac plan");
    assert_eq!(report.commands[0].program, "pulumi");
    assert_eq!(report.commands[0].cwd.as_str(), "apps/catalog/iac");
}

#[test]
fn codegen_check_reports_direct_edits_of_generated_code() {
    let snapshot = fixture_snapshot();
    let codegen =
        codegen_check_report(&snapshot, &vec![path("apps/catalog/api/generated/client.rs")]).expect("codegen check");
    assert!(codegen.diagnostics.iter().any(|diagnostic| diagnostic.code == "policy.generated_code_readonly"));
}

#[test]
fn test_should_report_policy_violations_and_risk() {
    let mut manifest = repo_manifest();
    manifest.default_owner = Some(OwnerHandle::new("@platform").expect("owner"));
    manifest.policies.prod_change_required_owners =
        vec![OwnerHandle::new("@platform").expect("owner"), OwnerHandle::new("@security").expect("owner")];
    let mut catalog = project("apps.catalog", "apps/catalog", ProjectKind::App);
    catalog.owners = vec![OwnerHandle::new("@catalog").expect("owner")];
    catalog.depends_on = vec![
        repoctl::domain::ProjectDependency::parse("apps.other").expect("dependency"),
        repoctl::domain::ProjectDependency::parse("frameworks.runtime.internal").expect("dependency"),
    ];
    catalog.ai.do_not_edit = vec![RepoGlob::new("**/generated/**").expect("glob")];
    let mut other = project("apps.other", "apps/other", ProjectKind::App);
    other.owners = vec![OwnerHandle::new("@other").expect("owner")];
    let runtime = project("frameworks.runtime", "frameworks/runtime", ProjectKind::Framework);
    let projects = vec![catalog, other, runtime];
    let graph = repoctl::graph::build_graph(&projects, &Vec::new());
    let snapshot = RepoSnapshot::new(root(), manifest, projects, graph);
    let changed_files = vec![path("apps/catalog/api/generated/client.rs"), path("apps/catalog/iac/stacks/prod.yaml")];
    let diagnostics = repoctl::policy::PolicyEngine.evaluate(&snapshot, &changed_files).expect("policies");
    assert!(diagnostics.iter().any(|diagnostic| diagnostic.code == "policy.cross_app_dependency"));
    assert!(diagnostics.iter().any(|diagnostic| diagnostic.code == "policy.framework_internal_dependency"));
    assert!(diagnostics.iter().any(|diagnostic| diagnostic.code == "policy.generated_code_readonly"));
    assert!(diagnostics.iter().any(|diagnostic| diagnostic.code == "policy.high_risk_iac"));
}
