use std::collections::BTreeMap;

use repoctl::adoption::{
    AdoptedSource, HygieneStep, PlacementDecision, adopted_source, adoption_verification_plan, check_apply_request,
    default_owner, hygiene_step, infer_placement, is_adopted_cargo_dependency, is_adopted_node_dependency,
    is_primary_manifest, kind_from_destination, low_confidence_diagnostic, manifest_entry, node_toolchain,
    node_workspace_name, plan_dependency_rewrites, project_name_for_destination, relative_dependency_path,
    requires_protoc, script_tools, source_skipped, synthesize_iac, synthesize_project_manifest, synthesize_tasks,
    synthesize_workspaces,
};
use repoctl::diagnostic::{RepoctlError, Severity};
use repoctl::domain::{
    EdgeKind, GeneratedCodePolicy, GraphEdge, GraphNode, GraphNodeKind, IacProvider, IacSpec, OwnerHandle,
    ProjectAiSpec, ProjectAreas, ProjectKind, ProjectManifest, ProjectName, ProjectProtoSpec, ProjectRelativePath,
    RepoGraph, RepoLayout, RepoManifest, RepoName, RepoPolicySet, RepoRelativePath, RepoRoot, RepoSnapshot, SchemaId,
    Visibility, WorkspaceLanguage, WorkspaceName, WorkspaceSpec,
};
use repoctl::facade::{diagnostics_from_error, explain_report, is_doctor_actionable_hygiene_diagnostic};
use repoctl::requests::{AdoptionApplyRequest, SourceInventory, ValidationMode};
use repoctl::workflow::{WorkflowJobs, ci_workflow_report, render_github_actions_workflow};

fn path(value: &str) -> RepoRelativePath {
    RepoRelativePath::new(value).expect("path")
}

fn strings(values: &[&str]) -> Vec<String> {
    values.iter().map(|v| v.to_string()).collect()
}

fn inventory(manifests: &[&str], dirs: &[&str], deps: &[&str]) -> SourceInventory {
    SourceInventory {
        name: "source".into(),
        has_vcs: false,
        readme_summary: None,
        manifests: strings(manifests),
        top_level_dirs: strings(dirs),
        dependency_references: strings(deps),
        generated_artifacts: Vec::new(),
        required_tools: Vec::new(),
    }
}

fn codes(error: &RepoctlError) -> Vec<String> {
    error.diagnostics().iter().map(|d| d.code.clone()).collect()
}

// Placement ------------------------------------------------------------------

#[test]
fn placement_follows_indicators() {
    let tool = infer_placement("skills", &inventory(&[], &[], &[]), None, None);
    assert_eq!(tool.destination.as_str(), "tools/skills");
    assert_eq!(tool.kind, ProjectKind::Tool);
    assert_eq!(tool.confidence_percent, 88);
    assert_eq!(tool.reasons, ["developer tooling indicators"]);
    assert!(!tool.override_applied);
    let infra = infer_placement("membrane", &inventory(&["Pulumi.yaml"], &[], &[]), None, None);
    assert_eq!(infra.destination.as_str(), "core-infra/membrane");
    assert_eq!(infra.kind, ProjectKind::CoreInfraComponent);
    let framework = infer_placement("operon", &inventory(&[], &[], &[]), None, None);
    assert_eq!(framework.destination.as_str(), "frameworks/operon");
    assert_eq!(framework.confidence_percent, 90);
    let mut readme = inventory(&[], &[], &[]);
    readme.readme_summary = Some("Identity Broker".into());
    let foundation = infer_placement("broker", &readme, None, None);
    assert_eq!(foundation.kind, ProjectKind::FoundationService);
    assert_eq!(foundation.confidence_percent, 84);
    let app = infer_placement("shop", &inventory(&["Cargo.toml"], &["src"], &[]), None, Some(ProjectKind::Framework));
    assert_eq!(app.destination.as_str(), "apps/shop");
    assert_eq!(app.kind, ProjectKind::Framework);
    assert_eq!(app.confidence_percent, 78);
}

#[test]
fn placement_override_wins() {
    let placed = infer_placement("shop", &inventory(&[], &[], &[]), Some(path("foundations/shop")), None);
    assert_eq!(placed.destination.as_str(), "foundations/shop");
    assert_eq!(placed.kind, ProjectKind::FoundationService);
    assert_eq!(placed.confidence_percent, 100);
    assert!(placed.override_applied);
    assert_eq!(kind_from_destination(&path("tools/x")), ProjectKind::Tool);
    assert_eq!(kind_from_destination(&path("core-infra/x")), ProjectKind::CoreInfraComponent);
    assert_eq!(kind_from_destination(&path("misc/x")), ProjectKind::App);
}

#[test]
fn destination_project_names() {
    assert_eq!(project_name_for_destination(&path("apps/shop"), ProjectKind::App).expect("name").as_str(), "apps.shop");
    assert_eq!(
        project_name_for_destination(&path("x/y/runtime"), ProjectKind::Framework).expect("name").as_str(),
        "frameworks.runtime"
    );
    assert_eq!(project_name_for_destination(&path("protos"), ProjectKind::ProtoRoot).expect("name").as_str(), "protos.shared");
    let error = project_name_for_destination(&path("apps/Bad_Name"), ProjectKind::App).expect_err("invalid");
    assert!(!codes(&error).is_empty());
}

// Manifest synthesis -----------------------------------------------------------

#[test]
fn node_workspaces_are_named_by_root() {
    assert_eq!(node_workspace_name("infra"), "infra");
    assert_eq!(node_workspace_name("."), "frontend");
    assert_eq!(node_workspace_name("packages/client-web"), "client-ts");
    assert_eq!(node_workspace_name("packages/web"), "packages-web");
    let inv = inventory(&["web/package.json", "web/yarn.lock", "package.json", "bun.lock"], &[], &[]);
    assert_eq!(
        node_toolchain(&inv, "web"),
        ("yarn".to_string(), "    lockfile: web/yarn.lock\n".to_string(), "target/yarn".to_string())
    );
    assert_eq!(
        node_toolchain(&inv, "."),
        ("bun".to_string(), "    lockfile: bun.lock\n".to_string(), "target/bun".to_string())
    );
    assert_eq!(node_toolchain(&inventory(&[], &[], &[]), "x").0, "npm");
}

#[test]
fn workspaces_tasks_and_iac_are_synthesized() {
    let inv = inventory(&["Cargo.toml", "Cargo.lock", "infra/package.json", "infra/Pulumi.yaml", "infra/Pulumi.prod.yaml"], &["docs"], &[]);
    let workspaces = synthesize_workspaces(&inv);
    assert_eq!(workspaces.len(), 2);
    assert_eq!(
        workspaces[0],
        "  - name: service\n    language: rust\n    toolchain: cargo\n    root: .\n    manifest: Cargo.toml\n    lockfile: Cargo.lock\n    target_dir: \"{repo_root}/target/rust\"\n"
    );
    assert_eq!(
        workspaces[1],
        "  - name: infra\n    language: typescript\n    toolchain: npm\n    root: infra\n    manifest: infra/package.json\n    lockfile: infra/package-lock.json\n    cache_dir: \"{repo_root}/target/npm\"\n"
    );
    let tasks = synthesize_tasks(&inv, &workspaces);
    assert!(tasks.starts_with("  check:\n    - workspace: service\n      command: cargo check\n"));
    assert!(tasks.ends_with("  build:\n    - workspace: infra\n      command: npm run build\n"));
    assert_eq!(synthesize_iac(&inv).expect("iac"), "iac:\n  root: infra\n  provider: pulumi\n  stacks:\n    - prod\n");
    assert!(synthesize_iac(&inventory(&["Cargo.toml"], &[], &[])).is_none());
    assert_eq!(synthesize_iac(&inventory(&["Pulumi.yaml"], &[], &[])).expect("iac"), "iac:\n  root: .\n  provider: pulumi\n");
}

#[test]
fn project_manifest_is_synthesized() {
    let inv = inventory(&["Cargo.toml"], &["docs", "src"], &[]);
    let placement = infer_placement("catalog", &inv, None, None);
    let owner = OwnerHandle::new("@catalog").expect("owner");
    let manifest = synthesize_project_manifest(&placement, &inv, Some(&owner)).expect("manifest");
    assert!(manifest.starts_with(
        "schema: company.project/v1\nname: apps.catalog\nkind: app\npath: apps/catalog\nowners:\n  - \"@catalog\"\n\nworkspaces:\n"
    ));
    assert!(manifest.contains("\ntasks:\n  check:\n"));
    assert!(manifest.ends_with("\nai:\n  docs:\n    - docs\n"));
    let tool = infer_placement("skills", &inventory(&[], &[], &[]), None, None);
    let text = synthesize_project_manifest(&tool, &inventory(&[], &[], &[]), None).expect("manifest");
    assert_eq!(
        text,
        "schema: company.project/v1\nname: tools.skills\nkind: tool\npath: tools/skills\nowners:\n  - \"@platform\"\n\n# docs/spec-only tool; tasks intentionally omitted\n"
    );
}

// Sources ----------------------------------------------------------------------

#[test]
fn sources_are_selected_and_owned() {
    assert!(!source_skipped(&Vec::new(), &Vec::new(), "a"));
    assert!(source_skipped(&strings(&["b"]), &Vec::new(), "a"));
    assert!(source_skipped(&Vec::new(), &strings(&["a"]), "a"));
    assert!(!source_skipped(&strings(&["a"]), &strings(&["b"]), "a"));
    assert_eq!(default_owner("catalog").expect("owner").as_str(), "@catalog");
    assert!(default_owner("Bad Name").is_none());
}

#[test]
fn low_confidence_placements_need_a_map() {
    let placement = PlacementDecision {
        destination: path("apps/x"),
        kind: ProjectKind::App,
        confidence_percent: 60,
        reasons: Vec::new(),
        override_applied: false,
    };
    let d = low_confidence_diagnostic("x", &placement).expect("diagnostic");
    assert_eq!(d.code, "adoption.placement.low_confidence");
    assert_eq!(d.message, "source `x` placement confidence 0.60 requires --map");
    assert_eq!(d.help.as_deref(), Some("pass --map x=<lane>/x and optionally --kind x=<kind>"));
    let sure = PlacementDecision { confidence_percent: 75, ..placement.clone() };
    assert!(low_confidence_diagnostic("x", &sure).is_none());
    let reviewed = PlacementDecision { override_applied: true, ..placement };
    assert!(low_confidence_diagnostic("x", &reviewed).is_none());
}

#[test]
fn manifest_entries_name_the_write() {
    let placement = infer_placement("catalog", &inventory(&[], &[], &[]), None, None);
    let (id, manifest_path, synthesis) = manifest_entry("catalog", &placement, "body".into()).expect("entry");
    assert_eq!(id, "adoption.manifest.catalog");
    assert_eq!(manifest_path.as_str(), "apps/catalog/project.yaml");
    assert_eq!(synthesis.project.as_str(), "apps.catalog");
    assert_eq!(synthesis.content, "body");
}

fn source(name: &str, dest: &str, kind: ProjectKind, manifests: &[&str], deps: &[&str], tools: &[&str]) -> AdoptedSource {
    let mut inv = inventory(manifests, &[], deps);
    inv.required_tools = strings(tools);
    let placement = PlacementDecision {
        destination: path(dest),
        kind,
        confidence_percent: 90,
        reasons: Vec::new(),
        override_applied: false,
    };
    adopted_source(name.into(), format!("/src/{name}"), placement, inv, false)
}

#[test]
fn relative_dependency_paths() {
    assert_eq!(relative_dependency_path(&path("apps/shop/Cargo.toml"), &path("frameworks/operon")), "../../frameworks/operon");
    assert_eq!(relative_dependency_path(&path("apps/shop/Cargo.toml"), &path("apps/shop")), ".");
    assert_eq!(relative_dependency_path(&path("apps/shop/web/package.json"), &path("apps/shop/lib")), "../lib");
    assert_eq!(relative_dependency_path(&path("Cargo.toml"), &path("crates/a")), "crates/a");
}

#[test]
fn dependency_rewrites_are_sorted_and_distinct() {
    let shop = source("shop", "apps/shop", ProjectKind::App, &["Cargo.toml", "web/package.json"], &["operon", "@cellis/ui"], &[]);
    let rust = vec![("operon".to_string(), path("frameworks/operon"))];
    let node = vec![("@cellis/ui".to_string(), path("frameworks/ui")), ("@cellis/ui".to_string(), path("frameworks/ui2"))];
    let rewrites = plan_dependency_rewrites(&vec![shop], &rust, &node).expect("rewrites");
    let seen: Vec<_> = rewrites.iter().map(|r| (r.file.as_str(), r.package.as_str(), r.to.as_str())).collect();
    assert_eq!(
        seen,
        [
            ("apps/shop/Cargo.toml", "operon", "../../frameworks/operon"),
            ("apps/shop/web/package.json", "@cellis/ui", "file:../../../frameworks/ui2"),
        ]
    );
    assert!(rewrites.iter().all(|r| r.from == "registry/git" && r.owner_project.as_str() == "apps.shop"));
    let mut skipped = source("lib", "apps/lib", ProjectKind::App, &["Cargo.toml"], &["operon"], &[]);
    skipped.skipped = true;
    assert!(plan_dependency_rewrites(&vec![skipped], &rust, &node).expect("none").is_empty());
}

#[test]
fn verification_plan_lists_tools_and_checks() {
    let a = source("a", "apps/a", ProjectKind::App, &["Cargo.toml"], &[], &["protoc", "node"]);
    let b = source("b", "apps/b", ProjectKind::App, &["web/package.json"], &[], &["node"]);
    let plan = adoption_verification_plan("/dest", ValidationMode::Full, &vec![a, b]);
    let tools: Vec<_> = plan.prerequisites.iter().map(|p| (p.tool.as_str(), p.reason.as_str())).collect();
    assert_eq!(tools, [("node", "required by adopted source `b`"), ("protoc", "required by adopted source `a`")]);
    let commands: Vec<_> = plan.commands.iter().map(|c| (c.cwd.as_str().to_string(), c.program.clone(), c.args.join(" "))).collect();
    assert_eq!(
        commands,
        [
            (".".to_string(), "repoctl".to_string(), "graph validate --mode structural".to_string()),
            (".".to_string(), "repoctl".to_string(), "hygiene check".to_string()),
            (".".to_string(), "repoctl".to_string(), "graph validate --mode metadata".to_string()),
            ("apps/a".to_string(), "cargo".to_string(), "check --workspace --all-features".to_string()),
            ("apps/b".to_string(), "npm".to_string(), "run build".to_string()),
        ]
    );
    let structural = adoption_verification_plan("/dest", ValidationMode::StructureOnly, &Vec::new());
    assert_eq!(structural.commands.len(), 2);
    assert!(structural.prerequisites.is_empty());
}

#[test]
fn inventory_rules() {
    assert!(is_primary_manifest("Cargo.lock"));
    assert!(is_primary_manifest("project.yml"));
    assert!(!is_primary_manifest("README.md"));
    assert!(is_adopted_cargo_dependency("operon", "\"1\""));
    assert!(is_adopted_cargo_dependency("cell", "{ git = \"chromatin\" }"));
    assert!(!is_adopted_cargo_dependency("serde", "\"1\""));
    assert!(is_adopted_node_dependency("@cellis/ui"));
    assert!(!is_adopted_node_dependency("@cellisx"));
    assert_eq!(script_tools("pulumi up && buf lint"), ["pulumi", "buf"]);
    assert!(script_tools("tsc").is_empty());
    assert!(requires_protoc("fn main() { prost_build::compile_protos() }", true));
    assert!(requires_protoc("[build-dependencies]\nprost-build = \"0.12\"", false));
    assert!(!requires_protoc("prost_build", false));
}

#[test]
fn apply_refuses_refresh() {
    let request = AdoptionApplyRequest { plan: "plan.json".into(), refresh: true };
    assert_eq!(codes(&check_apply_request(&request).expect_err("refresh")), ["adoption.refresh.unsupported"]);
    let request = AdoptionApplyRequest { refresh: false, ..request };
    assert!(check_apply_request(&request).is_ok());
}

#[test]
fn hygiene_steps_by_entry() {
    assert!(matches!(hygiene_step(".git", ".git", true, true).expect("step"), HygieneStep::Skip));
    assert!(matches!(hygiene_step(".github", ".github", true, true).expect("step"), HygieneStep::Descend));
    assert!(matches!(hygiene_step("src", "src", true, true).expect("step"), HygieneStep::Descend));
    assert!(matches!(hygiene_step("main.rs", "src/main.rs", false, true).expect("step"), HygieneStep::Skip));
    match hygiene_step("target", "crates/a/target", true, true).expect("step") {
        HygieneStep::Report { diagnostic, operation } => {
            assert_eq!(diagnostic.severity, Severity::Warning);
            assert_eq!(diagnostic.message, "generated or repository metadata directory `crates/a/target` is present");
            let operation = operation.expect("cleanup");
            assert_eq!(operation.path.as_str(), "crates/a/target");
            assert_eq!(operation.operation, "remove-generated");
        }
        _ => panic!("expected a report"),
    }
    match hygiene_step(".git", "vendor/x/.git", true, true).expect("step") {
        HygieneStep::Report { operation, .. } => assert!(operation.is_none()),
        _ => panic!("expected a report"),
    }
    match hygiene_step("node_modules", "web/node_modules", true, false).expect("step") {
        HygieneStep::Report { operation, .. } => assert!(operation.is_none()),
        _ => panic!("expected a report"),
    }
}

// Health checks ----------------------------------------------------------------

#[test]
fn doctor_helpers() {
    let d = diagnostics_from_error(RepoctlError::io("repo.yaml", "missing"));
    assert_eq!(d[0].code, "doctor.section.io");
    assert_eq!(d[0].message, "I/O error at repo.yaml: missing");
    let d = diagnostics_from_error(RepoctlError::Environment("no git".into()));
    assert_eq!(d[0].code, "doctor.section.environment");
    let finding = repoctl::diagnostic::Diagnostic::warning("adoption.hygiene.generated_artifact", "x").with_path("apps/a/target");
    assert!(!is_doctor_actionable_hygiene_diagnostic(&finding));
    let git = repoctl::diagnostic::Diagnostic::warning("adoption.hygiene.generated_artifact", "x").with_path("apps/a/.git");
    assert!(is_doctor_actionable_hygiene_diagnostic(&git));
    assert!(is_doctor_actionable_hygiene_diagnostic(&repoctl::diagnostic::Diagnostic::error("other", "x")));
}

// Workflow and explain -------------------------------------------------------

fn snapshot(language: WorkspaceLanguage, iac: bool) -> RepoSnapshot {
    let manifest = RepoManifest {
        schema: SchemaId::new("company.repo/v1").expect("schema"),
        name: RepoName::new("acme").expect("repo"),
        layout: RepoLayout::Functional,
        default_owner: None,
        protos_root: path("protos"),
        core_infra_root: path("core-infra"),
        agent_skills_root: path(".agents/skills"),
        claude_skills_root: path(".assistant/skills"),
        context_output: path("target/repoctl/context"),
        generated_code_policy: GeneratedCodePolicy::ConsumerLocal,
        policies: RepoPolicySet::default(),
    };
    let project = ProjectManifest {
        schema: SchemaId::new("company.project/v1").expect("schema"),
        name: ProjectName::new("apps.shop").expect("name"),
        kind: ProjectKind::App,
        path: path("apps/shop"),
        owners: Vec::new(),
        visibility: Visibility::Internal,
        workspaces: vec![WorkspaceSpec {
            name: WorkspaceName::new("web").expect("workspace"),
            language,
            toolchain: None,
            root: ProjectRelativePath::new(".").expect("root"),
            manifest: ProjectRelativePath::new("package.json").expect("manifest"),
            lockfile: None,
            target_dir: None,
            cache_dir: None,
        }],
        depends_on: Vec::new(),
        tasks: Vec::new(),
        iac: if iac {
            Some(IacSpec { root: ProjectRelativePath::new("iac").expect("iac"), provider: IacProvider::Pulumi, stacks: Vec::new() })
        } else {
            None
        },
        deploy: None,
        protos: ProjectProtoSpec::default(),
        ai: ProjectAiSpec::default(),
        areas: ProjectAreas::default(),
        policies: BTreeMap::new(),
        source: path("apps/shop/project.yaml"),
    };
    let graph = RepoGraph {
        nodes: vec![
            GraphNode {
                id: "project:apps.shop".into(),
                kind: GraphNodeKind::Project,
                label: "apps.shop".into(),
                project: Some(ProjectName::new("apps.shop").expect("name")),
                workspace: None,
            },
            GraphNode { id: "proto:x".into(), kind: GraphNodeKind::ProtoPackage, label: "x".into(), project: None, workspace: None },
        ],
        edges: vec![
            GraphEdge { from: "project:apps.shop".into(), to: "proto:x".into(), kind: EdgeKind::ConsumesProto, evidence: None },
            GraphEdge { from: "proto:y".into(), to: "proto:x".into(), kind: EdgeKind::ConsumesProto, evidence: None },
        ],
    };
    RepoSnapshot::new(RepoRoot::new("/repo").expect("root"), manifest, vec![project], graph)
}

#[test]
fn workflow_jobs_follow_workspaces() {
    let node = snapshot(WorkspaceLanguage::TypeScript, true);
    assert_eq!(WorkflowJobs::from_snapshot(&node), WorkflowJobs { has_rust: false, has_node: true, has_iac: true });
    let text = render_github_actions_workflow(&node);
    assert!(text.starts_with("# Generated by repoctl."));
    assert!(text.contains("\n  node:\n"));
    assert!(!text.contains("\n  rust:\n"));
    assert!(text.contains("needs: [graph, node, iac]"));
    assert!(text.ends_with("          fi\n\n"));
    let rust = snapshot(WorkspaceLanguage::Rust, false);
    let report = ci_workflow_report(&rust, true).expect("report");
    assert_eq!(report.path.as_str(), ".github/workflows/repoctl.yml");
    assert_eq!(report.operations[0].operation, "write-file");
    assert_eq!(report.operations[0].content.as_deref(), Some(report.content.as_str()));
    assert!(report.content.contains("needs: [graph, rust]"));
    assert_eq!(ci_workflow_report(&rust, false).expect("report").operations[0].operation, "plan-file");
}

#[test]
fn explain_finds_nodes_and_edges() {
    let snap = snapshot(WorkspaceLanguage::Rust, false);
    let report = explain_report(&snap, "apps.shop".into());
    assert_eq!(report.nodes.len(), 1);
    assert_eq!(report.edges.len(), 1);
    assert!(report.diagnostics.is_empty());
    let proto = explain_report(&snap, "proto:x".into());
    assert_eq!(proto.edges.len(), 2);
    let missing = explain_report(&snap, "nope".into());
    assert!(missing.nodes.is_empty() && missing.edges.is_empty());
    assert_eq!(missing.diagnostics[0].message, "no graph node matched `nope`");
}

#[test]
fn lane_follows_lowered_indicator_text() {
    let none: Vec<String> = Vec::new();
    assert_eq!(repoctl::adoption::infer_lane("catalog  runtime sdk ", "catalog", &none).0, "frameworks");
    assert_eq!(repoctl::adoption::infer_lane("billing service", "pay", &none).1, repoctl::domain::ProjectKind::FoundationService);
    assert_eq!(repoctl::adoption::infer_lane("shop", "shop", &none), ("apps", repoctl::domain::ProjectKind::App, 78, "default product application lane"));
    let pulumi = vec!["Pulumi.yaml".to_string()];
    assert_eq!(repoctl::adoption::infer_lane("stack", "stack", &pulumi).0, "core-infra");
    assert_eq!(repoctl::adoption::infer_lane("a Tool", "x", &none).0, "apps");
}
