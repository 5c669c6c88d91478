use std::collections::BTreeMap;

use repoctl::domain::{
    GeneratedCodePolicy, IacProvider, IacSpec, ProjectAiSpec, ProjectAreas, ProjectKind, ProjectManifest, ProjectName,
    ProjectProtoSpec, ProjectRelativePath, RepoGraph, RepoLayout, RepoManifest, RepoName, RepoPolicySet,
    RepoRelativePath, RepoRoot, RepoSnapshot, SchemaId, Visibility,
};
use repoctl::journal::{
    add_command, add_note, render_journal_status, render_session_summary, session_matches, start_session,
};
use repoctl::ops::{
    IacPreview, OpsPlan, ProbeSpec, ops_iac_previews, ops_plan_diagnostics, plan_environments, render_ops_plan, required_env,
};
use repoctl::pr::{PrCdnSurface, PrDnsSurface, PrProviderSurface};
use repoctl::requests::{AffectedReport, ProcessCommand, TaskRunReport};

fn preview_command() -> ProcessCommand {
    ProcessCommand {
        project: None,
        workspace: None,
        task: None,
        cwd: RepoRelativePath::new("infra/core").expect("path"),
        absolute_cwd: None,
        program: "pulumi".into(),
        args: vec!["preview".into(), "--stack".into(), "staging".into()],
        env: BTreeMap::new(),
    }
}

fn sample_plan() -> OpsPlan {
    OpsPlan {
        id: "ops-plan-1".into(),
        environments: vec!["staging".into()],
        affected: AffectedReport {
            directly_affected: vec![ProjectName::new("apps.shop").expect("name")],
            transitively_affected: vec![ProjectName::new("apps.web").expect("name")],
            ..AffectedReport::default()
        },
        task_plan: TaskRunReport::default(),
        iac: vec![IacPreview {
            project: None,
            workspace: "core".into(),
            stack: "staging".into(),
            preview_command: preview_command(),
        }],
        dns: vec![PrDnsSurface {
            record: "shop.example.com".into(),
            provider: "cloudflare".into(),
            expected_target: "lb.example.com".into(),
            expected_proxied: None,
        }],
        cdn: vec![PrCdnSurface {
            provider: "cloudfront".into(),
            alias: "cdn.example.com".into(),
            expected_response_headers: vec!["x-cache".into(), "etag".into()],
        }],
        provider_capabilities: vec![PrProviderSurface {
            package: "aws".into(),
            version: "6.0".into(),
            workspace: "core".into(),
            status: "ok".into(),
            field: "tags".into(),
        }],
        probes: vec![ProbeSpec { name: "health".into(), method: "GET".into(), url: "https://shop/health".into() }],
        required_env: vec!["AWS_PROFILE".into()],
        production_gaps: Vec::new(),
        diagnostics: Vec::new(),
    }
}

#[test]
fn ops_plan_text_lists_every_section() {
    let text = render_ops_plan(&sample_plan());
    let expected = "Operations plan\n---------------\n\nId: ops-plan-1\n\
\nEnvironments (1)\n  staging\n\
\nAffected projects (2)\n  apps.shop\n  apps.web\n\
\nTask dry-run (0)\n  (none)\n\
\nIaC previews (1)\nProject     Workspace  Stack    Command\n\
----------  ---------  -------  ------------------------------\n\
core-infra  core       staging  pulumi preview --stack staging\n\
\nDNS (1)\nRecord            Target          Proxied\n\
----------------  --------------  -------\n\
shop.example.com  lb.example.com  unknown\n\
\nCDN (1)\nProvider    Alias            Headers\n\
----------  ---------------  -------------\n\
cloudfront  cdn.example.com  x-cache, etag\n\
\nProvider capabilities (1)\nWorkspace  Package  Version  Status\n\
---------  -------  -------  ------\n\
core       aws      6.0      ok\n\
\nProbes (1)\nName    Method  URL\n\
------  ------  -------------------\n\
health  GET     https://shop/health\n\
\nRequired env (1)\n  AWS_PROFILE\n\
\nProduction gaps (0)\n  (none)\n";
    assert_eq!(text, expected);
}

#[test]
fn ops_plan_shows_shared_infra_and_proxying() {
    let mut plan = sample_plan();
    plan.iac[0].project = Some(ProjectName::new("apps.shop").expect("name"));
    plan.dns[0].expected_proxied = Some(true);
    let text = render_ops_plan(&plan);
    assert!(text.contains("apps.shop  core       staging"));
    assert!(!text.contains("core-infra"));
    assert!(text.contains("lb.example.com  true"));
}

#[test]
fn journal_records_redacted_commands_and_notes() {
    let mut journal = start_session("session-1".into(), "deploy slides!", Some("ops-plan-1".into()));
    assert_eq!(journal.name, "deploy-slides-");
    assert!(session_matches(&journal, "deploy-slides-"));
    assert!(session_matches(&journal, "session-1"));
    assert!(!session_matches(&journal, "deploy slides!"));
    add_command(&mut journal, "curl --token abc https://x", Some(-2), 1700000000);
    add_note(&mut journal, "decision", "rotate secret=xyz later", 1700000060);
    assert_eq!(journal.entries.len(), 2);
    assert_eq!(journal.entries[0].command.as_deref(), Some("curl [REDACTED] [REDACTED] https://x"));
    assert_eq!(journal.entries[0].plan_id.as_deref(), Some("ops-plan-1"));
    assert_eq!(journal.entries[1].message.as_deref(), Some("rotate [REDACTED] later"));
    let summary = render_session_summary(&journal);
    assert_eq!(
        summary,
        "# Operations Session: deploy-slides-\n\nPlan: `ops-plan-1`\n\n## Evidence\n\
- `command` at 1700000000 status=-2: curl [REDACTED] [REDACTED] https://x\n\
- `decision` at 1700000060: rotate [REDACTED] later\n"
    );
}

#[test]
fn journal_summary_without_plan_or_entries() {
    let journal = start_session("s".into(), "ok_name-1", None);
    assert_eq!(render_session_summary(&journal), "# Operations Session: ok_name-1\n\n## Evidence\n");
}

#[test]
fn journal_status_names_path_session_and_entries() {
    let mut journal = start_session("session-9".into(), "night", None);
    add_note(&mut journal, "note", "all good", 5);
    assert_eq!(
        render_journal_status("/repo/target/repoctl/sessions/session-9.json", &journal),
        "Operations journal\n------------------\n\nPath: /repo/target/repoctl/sessions/session-9.json\n\
Session: night (session-9)\nEntries: 1\n"
    );
}

fn repo_path(value: &str) -> RepoRelativePath {
    RepoRelativePath::new(value).expect("path")
}

fn ops_project(name: &str, kind: ProjectKind, path: &str, iac: Option<(&str, IacProvider)>) -> ProjectManifest {
    ProjectManifest {
        schema: SchemaId::new("company.project/v1").expect("schema"),
        name: ProjectName::new(name).expect("name"),
        kind,
        path: repo_path(path),
        owners: Vec::new(),
        visibility: Visibility::Internal,
        workspaces: Vec::new(),
        depends_on: Vec::new(),
        tasks: Vec::new(),
        iac: iac.map(|(root, provider)| IacSpec {
            root: ProjectRelativePath::new(root).expect("root"),
            provider,
            stacks: Vec::new(),
        }),
        deploy: None,
        protos: ProjectProtoSpec::default(),
        ai: ProjectAiSpec::default(),
        areas: ProjectAreas::default(),
        policies: BTreeMap::new(),
        source: repo_path(&format!("{path}/project.yaml")),
    }
}

fn ops_snapshot() -> RepoSnapshot {
    let manifest = RepoManifest {
        schema: SchemaId::new("company.repo/v1").expect("schema"),
        name: RepoName::new("acme").expect("repo"),
        layout: RepoLayout::Functional,
        default_owner: None,
        protos_root: repo_path("protos"),
        core_infra_root: repo_path("core-infra"),
        agent_skills_root: repo_path(".agents/skills"),
        claude_skills_root: repo_path(".assistant/skills"),
        context_output: repo_path("target/repoctl/context"),
        generated_code_policy: GeneratedCodePolicy::ConsumerLocal,
        policies: RepoPolicySet::default(),
    };
    let projects = vec![
        ops_project("apps.shop", ProjectKind::App, "apps/shop", Some(("iac", IacProvider::Pulumi))),
        ops_project("apps.web", ProjectKind::App, "apps/web", None),
        ops_project("frameworks.operon", ProjectKind::Framework, "frameworks/operon", Some(("infra", IacProvider::Terraform))),
        ops_project("apps.idle", ProjectKind::App, "apps/idle", Some(("iac", IacProvider::Pulumi))),
    ];
    RepoSnapshot::new(RepoRoot::new("/repo").expect("root"), manifest, projects, RepoGraph { nodes: Vec::new(), edges: Vec::new() })
}

fn ops_affected() -> AffectedReport {
    AffectedReport {
        directly_affected: vec![ProjectName::new("apps.shop").expect("name"), ProjectName::new("apps.web").expect("name")],
        transitively_affected: vec![ProjectName::new("frameworks.operon").expect("name")],
        ..AffectedReport::default()
    }
}

#[test]
fn iac_previews_put_core_then_ranked_projects() {
    let snapshot = ops_snapshot();
    let envs = vec!["staging".to_string(), "prod".to_string()];
    let previews =
        ops_iac_previews(&snapshot, &ops_affected(), &vec![repo_path("core-infra/index.ts")], &envs).expect("previews");
    let summary: Vec<(Option<String>, String, String, String)> = previews
        .iter()
        .map(|p| (p.project.as_ref().map(|n| n.as_str().to_string()), p.workspace.clone(), p.stack.clone(), p.preview_command.program.clone()))
        .collect();
    assert_eq!(
        summary,
        vec![
            (None, "core-infra".to_string(), "staging".to_string(), "pulumi".to_string()),
            (None, "core-infra".to_string(), "prod".to_string(), "pulumi".to_string()),
            (Some("frameworks.operon".to_string()), "frameworks/operon/infra".to_string(), "staging".to_string(), "terraform".to_string()),
            (Some("frameworks.operon".to_string()), "frameworks/operon/infra".to_string(), "prod".to_string(), "terraform".to_string()),
            (Some("apps.shop".to_string()), "apps/shop/iac".to_string(), "staging".to_string(), "pulumi".to_string()),
            (Some("apps.shop".to_string()), "apps/shop/iac".to_string(), "prod".to_string(), "pulumi".to_string()),
        ]
    );
    assert_eq!(previews[0].preview_command.args, vec!["preview".to_string(), "--stack".to_string(), "staging".to_string()]);
    assert_eq!(previews[3].preview_command.args, vec!["plan".to_string(), "-var".to_string(), "env=prod".to_string()]);

    let without_core = ops_iac_previews(&snapshot, &ops_affected(), &vec![repo_path("apps/shop/src/a.ts")], &envs).expect("previews");
    assert_eq!(without_core.len(), 4);
    assert_eq!(without_core[0].project.as_ref().map(|n| n.as_str()), Some("frameworks.operon"));
}

#[test]
fn plan_parts_default_and_warn() {
    assert_eq!(plan_environments(Vec::new()), vec!["staging".to_string()]);
    assert_eq!(plan_environments(vec!["prod".to_string()]), vec!["prod".to_string()]);
    assert_eq!(
        required_env(),
        vec!["AWS_PROFILE", "AWS_REGION", "AWS_DEFAULT_REGION", "CLOUDFLARE_API_TOKEN", "CLOUDFLARE_ZONE_ID"]
    );
    let task_plan = TaskRunReport::default();
    let none = ops_plan_diagnostics(0, &Vec::new(), &None, &None, &AffectedReport::default(), &task_plan, &Vec::new(), &Vec::new(), &Vec::new());
    let codes: Vec<&str> = none.iter().map(|d| d.code.as_str()).collect();
    assert_eq!(codes, vec!["ops.plan.no_base_head", "ops.plan.no_affected_projects"]);
    let dns = vec![PrDnsSurface {
        record: "a.example.com".into(),
        provider: "cloudflare".into(),
        expected_target: "lb".into(),
        expected_proxied: Some(true),
    }];
    let some = ops_plan_diagnostics(
        0,
        &Vec::new(),
        &Some("main".into()),
        &Some("HEAD".into()),
        &ops_affected(),
        &task_plan,
        &dns,
        &Vec::new(),
        &Vec::new(),
    );
    let codes: Vec<&str> = some.iter().map(|d| d.code.as_str()).collect();
    assert_eq!(codes, vec!["ops.plan.dns_review_required"]);
}
