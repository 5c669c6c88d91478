use std::collections::BTreeMap;

use repoctl::affected::compute_affected;
use repoctl::domain::{
    CommandSpec, GeneratedCodePolicy, ProjectAiSpec, ProjectAreas, ProjectKind, ProjectManifest,
    ProjectName, ProjectProtoSpec, ProjectRelativePath, RepoGraph, RepoLayout, RepoManifest,
    RepoName, RepoPolicySet, RepoRelativePath, RepoRoot, RepoSnapshot, SchemaId, TaskCommand,
    TaskDependency, TaskName, Toolchain, Visibility, WorkspaceLanguage, WorkspaceName,
    WorkspaceSpec,
};
use repoctl::requests::{AffectedReport, TaskRunRequest};
use repoctl::graph::{DefaultGraphBuilder, build_graph};
use repoctl::ports::{GraphBuildInput, GraphBuilder};
use repoctl::runner::{NpmToolchainAdapter, RustToolchainAdapter, ToolchainAdapter};
use repoctl::tasks::{no_task_plan_diagnostics, plan_task_commands, plan_task_steps, task_run_plan, toolchain_env};

fn path(value: &str) -> RepoRelativePath {
    RepoRelativePath::new(value).expect("path")
}

fn repo_manifest() -> RepoManifest {
    RepoManifest {
        schema: SchemaId::new("company.repo/v1").expect("schema"),
        name: RepoName::new("acme").expect("repo"),
        layout: RepoLayout::Functional,
        default_owner: None,
        protos_root: path("protos"),
        core_infra_root: path("core-infra"),
        agent_skills_root: path(".agents/skills"),
        claude_skills_root: path(".assistant/skills"),
        context_output: path("target/repoctl/context"),
        generated_code_policy: GeneratedCodePolicy::ConsumerLocal,
        policies: RepoPolicySet::default(),
    }
}

fn workspace(name: &str, root: &str, toolchain: Option<Toolchain>) -> WorkspaceSpec {
    WorkspaceSpec {
        name: WorkspaceName::new(name).expect("workspace"),
        language: WorkspaceLanguage::Rust,
        toolchain,
        root: ProjectRelativePath::new(root).expect("path"),
        manifest: ProjectRelativePath::new("Cargo.toml").expect("path"),
        lockfile: None,
        target_dir: Some(path("target/rust")),
        cache_dir: None,
    }
}

fn dependency(project: &str, workspace: &str, task: &str) -> TaskDependency {
    TaskDependency {
        project: ProjectName::new(project).expect("project"),
        workspace: WorkspaceName::new(workspace).expect("workspace"),
        task: TaskName::new(task).expect("task"),
    }
}

fn command(workspace: &str, line: &str, depends_on: Vec<TaskDependency>) -> TaskCommand {
    TaskCommand {
        workspace: WorkspaceName::new(workspace).expect("workspace"),
        command: CommandSpec::parse(line).expect("command"),
        depends_on,
    }
}

fn project(name: &str, dir: &str, workspaces: Vec<WorkspaceSpec>, tasks: Vec<(&str, Vec<TaskCommand>)>) -> ProjectManifest {
    ProjectManifest {
        schema: SchemaId::new("company.project/v1").expect("schema"),
        name: ProjectName::new(name).expect("project"),
        kind: ProjectKind::App,
        path: path(dir),
        owners: Vec::new(),
        visibility: Visibility::Internal,
        workspaces,
        depends_on: Vec::new(),
        tasks: tasks.into_iter().map(|(t, cs)| (TaskName::new(t).expect("task"), cs)).collect(),
        iac: None,
        deploy: None,
        protos: ProjectProtoSpec::default(),
        ai: ProjectAiSpec::default(),
        areas: ProjectAreas::default(),
        policies: BTreeMap::new(),
        source: path(&format!("{dir}/project.yaml")),
    }
}

fn snapshot(projects: Vec<ProjectManifest>) -> RepoSnapshot {
    RepoSnapshot::new(RepoRoot::new("/tmp/repoctl-test").expect("root"), repo_manifest(), projects, RepoGraph::default())
}

fn request(tasks: &[&str]) -> TaskRunRequest {
    TaskRunRequest {
        tasks: tasks.iter().map(|t| TaskName::new(t).expect("task")).collect(),
        ..TaskRunRequest::default()
    }
}

fn labels(commands: &[repoctl::requests::ProcessCommand]) -> Vec<String> {
    commands
        .iter()
        .map(|c| {
            format!(
                "{}:{}:{}",
                c.project.as_ref().map(ProjectName::as_str).unwrap_or(""),
                c.workspace.as_ref().map(WorkspaceName::as_str).unwrap_or(""),
                c.task.as_ref().map(TaskName::as_str).unwrap_or("")
            )
        })
        .collect()
}

fn no_adapters() -> Vec<Box<dyn ToolchainAdapter>> {
    Vec::new()
}

#[test]
fn prerequisites_are_planned_first_and_once() {
    let runtime = project(
        "frameworks.runtime",
        "frameworks/runtime",
        vec![workspace("core", "core", None)],
        vec![("build", vec![command("core", "cargo build", Vec::new())])],
    );
    let catalog = project(
        "apps.catalog",
        "apps/catalog",
        vec![workspace("api", "api", None)],
        vec![
            ("build", vec![command("api", "cargo build", vec![dependency("frameworks.runtime", "core", "build")])]),
            (
                "check",
                vec![command(
                    "api",
                    "cargo check --workspace",
                    vec![dependency("apps.catalog", "api", "build"), dependency("frameworks.runtime", "core", "build")],
                )],
            ),
        ],
    );
    let snap = snapshot(vec![catalog, runtime]);
    let commands = plan_task_commands(&snap, &request(&["check"]), None, &no_adapters()).expect("plan");
    assert_eq!(
        labels(&commands),
        ["frameworks.runtime:core:build", "apps.catalog:api:build", "apps.catalog:api:check"]
    );
    assert_eq!(commands[2].cwd.as_str(), "apps/catalog/api");
    assert_eq!(commands[2].program, "cargo");
    assert_eq!(commands[2].args, ["check", "--workspace"]);
    assert!(commands[2].absolute_cwd.is_some());
    assert!(commands[2].env.is_empty());
    let all = plan_task_commands(&snap, &TaskRunRequest::default(), None, &no_adapters()).expect("plan");
    assert_eq!(all.len(), 3);
}

#[test]
fn prerequisite_cycle_is_reported() {
    let catalog = project(
        "apps.catalog",
        "apps/catalog",
        vec![workspace("api", ".", None)],
        vec![
            ("build", vec![command("api", "cargo build", vec![dependency("apps.catalog", "api", "check")])]),
            ("check", vec![command("api", "cargo check", vec![dependency("apps.catalog", "api", "build")])]),
        ],
    );
    let snap = snapshot(vec![catalog]);
    let steps = plan_task_steps(&snap, &request(&["check"]), None);
    assert_eq!(steps.len(), 3);
    assert_eq!(steps[0].as_ref().expect_err("cycle").code, "task.dependency_cycle");
    let error = plan_task_commands(&snap, &request(&["check"]), None, &no_adapters()).expect_err("cycle");
    assert_eq!(error.diagnostics()[0].code, "task.dependency_cycle");
}

#[test]
fn dangling_prerequisites_are_reported() {
    let catalog = project(
        "apps.catalog",
        "apps/catalog",
        vec![workspace("api", ".", None)],
        vec![(
            "check",
            vec![command(
                "api",
                "cargo check",
                vec![dependency("apps.missing", "api", "build"), dependency("apps.catalog", "api", "lint"), dependency("apps.catalog", "web", "check")],
            )],
        )],
    );
    let snap = snapshot(vec![catalog]);
    let steps = plan_task_steps(&snap, &request(&["check"]), None);
    let codes: Vec<String> = steps
        .iter()
        .map(|s| s.as_ref().err().map(|d| d.code.clone()).unwrap_or_else(|| "ok".to_string()))
        .collect();
    assert_eq!(
        codes,
        ["task.dependency_project_missing", "task.dependency_task_missing", "task.dependency_workspace_missing", "ok"]
    );
}

#[test]
fn missing_workspace_fails_the_command() {
    let catalog = project(
        "apps.catalog",
        "apps/catalog",
        vec![workspace("api", ".", None)],
        vec![("check", vec![command("web", "npm test", Vec::new())])],
    );
    let snap = snapshot(vec![catalog]);
    let error = plan_task_commands(&snap, &request(&["check"]), None, &no_adapters()).expect_err("workspace");
    let diagnostic = &error.diagnostics()[0];
    assert_eq!(diagnostic.code, "task.workspace_missing");
    assert_eq!(diagnostic.message, "task `check` references missing workspace `web`");
    assert_eq!(diagnostic.project.as_deref(), Some("apps.catalog"));
}

#[test]
fn toolchain_adapters_fill_the_environment() {
    let catalog = project(
        "apps.catalog",
        "apps/catalog",
        vec![workspace("api", ".", Some(Toolchain::Cargo))],
        vec![("check", vec![command("api", "cargo check", Vec::new())])],
    );
    let snap = snapshot(vec![catalog]);
    let adapters: Vec<Box<dyn ToolchainAdapter>> = vec![Box::new(RustToolchainAdapter)];
    let commands = plan_task_commands(&snap, &request(&["check"]), None, &adapters).expect("plan");
    assert_eq!(commands[0].env.get("CARGO_TARGET_DIR").map(String::as_str), Some("target/rust"));
}

#[test]
fn affected_runs_plan_only_affected_workspaces() {
    let runtime = project(
        "frameworks.runtime",
        "frameworks/runtime",
        vec![workspace("core", "core", None)],
        vec![("check", vec![command("core", "cargo check", Vec::new())])],
    );
    let catalog = project(
        "apps.catalog",
        "apps/catalog",
        vec![workspace("api", "api", None)],
        vec![("check", vec![command("api", "cargo check", Vec::new())])],
    );
    let snap = snapshot(vec![catalog, runtime]);
    let report = compute_affected(&snap, &vec![path("apps/catalog/api/src/lib.rs")], &Vec::new());
    let mut req = request(&["check"]);
    req.affected = true;
    let commands = plan_task_commands(&snap, &req, Some(&report), &no_adapters()).expect("plan");
    assert_eq!(labels(&commands), ["apps.catalog:api:check"]);
}

#[test]
fn zero_concurrency_is_refused() {
    let snap = snapshot(Vec::new());
    let mut req = request(&["check"]);
    req.concurrency = Some(0);
    let error = task_run_plan(&snap, &req, None, &no_adapters()).expect_err("zero");
    assert_eq!(error.diagnostics()[0].code, "repoctl.internal");
    req.concurrency = Some(4);
    assert_eq!(task_run_plan(&snap, &req, None, &no_adapters()).expect("plan").concurrency, 4);
    req.concurrency = None;
    assert_eq!(task_run_plan(&snap, &req, None, &no_adapters()).expect("plan").concurrency, 1);
}

#[test]
fn empty_plans_are_explained() {
    let mut req = request(&["check"]);
    let none = no_task_plan_diagnostics(&req, &Vec::new(), &AffectedReport::default());
    assert_eq!(none[0].message, "no project or workspace declares the requested task");
    req.affected = true;
    let refs = no_task_plan_diagnostics(&req, &Vec::new(), &AffectedReport::default());
    assert_eq!(refs[0].code, "task.plan.no_base_head");
    req.base = Some("main".to_string());
    req.head = Some("HEAD".to_string());
    let nothing = no_task_plan_diagnostics(&req, &Vec::new(), &AffectedReport::default());
    assert_eq!(nothing[0].code, "task.plan.no_changed_files");
    let unmatched = no_task_plan_diagnostics(&req, &vec![path("docs/readme.md")], &AffectedReport::default());
    assert_eq!(unmatched[0].code, "task.plan.no_affected_projects");
}

#[test]
fn toolchain_env_merges_only_matching_adapters() {
    let adapters: Vec<Box<dyn ToolchainAdapter>> =
        vec![Box::new(RustToolchainAdapter), Box::new(NpmToolchainAdapter)];
    let plain = workspace("api", ".", None);
    assert!(toolchain_env(&plain, &adapters).expect("env").is_empty());
    let cargo = workspace("api", ".", Some(Toolchain::Cargo));
    let env = toolchain_env(&cargo, &adapters).expect("env");
    assert_eq!(env.len(), 1);
    assert_eq!(env.get("CARGO_TARGET_DIR").map(String::as_str), Some("target/rust"));
    let mut npm = workspace("web", ".", Some(Toolchain::Npm));
    npm.cache_dir = Some(path("target/npm"));
    let env = toolchain_env(&npm, &adapters).expect("env");
    assert_eq!(env.len(), 1);
    assert_eq!(env.get("NPM_CONFIG_CACHE").map(String::as_str), Some("target/npm"));
}

#[test]
fn graph_builder_without_inspectors_builds_declared_graph() {
    let runtime = project(
        "frameworks.runtime",
        "frameworks/runtime",
        vec![workspace("core", "core", None)],
        vec![("build", vec![command("core", "cargo build", Vec::new())])],
    );
    let projects = vec![runtime];
    let builder = DefaultGraphBuilder::new(Vec::new());
    let graph = builder
        .build(GraphBuildInput {
            root: RepoRoot::new("/tmp/repoctl-test").expect("root"),
            repo_manifest: repo_manifest(),
            projects: projects.clone(),
        })
        .expect("graph");
    assert_eq!(graph, build_graph(&projects, &Vec::new()));
    assert!(!graph.nodes.is_empty());
}
