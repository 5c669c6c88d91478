use repoctl::cli::{
    OutputFormat, adoption_output_format, parse_kind_overrides, parse_owner_overrides,
    parse_path_overrides,
};
use repoctl::diagnostic::{Diagnostic, ValidationReport};
use repoctl::domain::{ProjectKind, ProjectName, RepoRelativePath, TaskName, WorkspaceName};
use repoctl::render::{
    render_affected, render_ci_workflow, render_init_plan, render_task_report,
    render_validation_report,
};
use repoctl::requests::{
    AdoptionOutputFormat, AffectedReason, AffectedReport, CiWorkflowReport, FileOperation,
    InitPlan, ProcessOutput, TaskCommandOutput, TaskRunReport,
};

#[test]
fn affected_summary_lists_every_section() {
    let report = AffectedReport {
        directly_affected: vec![ProjectName::new("apps.catalog").expect("name")],
        transitively_affected: Vec::new(),
        workspaces: vec!["apps.catalog:api".to_string()],
        tasks: Vec::new(),
        risk_flags: Vec::new(),
        reasons: vec![AffectedReason {
            source: "apps/catalog/a.rs".to_string(),
            target: "apps.catalog".to_string(),
            reason: "project file changed".to_string(),
        }],
        suggested_reviewers: Vec::new(),
        diagnostics: Vec::new(),
    };
    let text = render_affected(&report);
    let expected = "Affected summary\n----------------\n\n\
Direct projects (1)\n  apps.catalog\n\
\nTransitive projects (0)\n  (none)\n\
\nWorkspaces (1)\n  apps.catalog:api\n\
\nTasks (0)\n  (none)\n\
\nRisk flags (0)\n  (none)\n\
\nSuggested approvers (0)\n  (none)\n\
\nReasons (1)\n\
Source             Target        Reason\n\
-----------------  ------------  --------------------\n\
apps/catalog/a.rs  apps.catalog  project file changed\n";
    assert_eq!(text, expected);
}

#[test]
fn task_report_shows_failures() {
    let report = TaskRunReport {
        commands: Vec::new(),
        outputs: vec![
            TaskCommandOutput {
                project: ProjectName::new("apps.catalog").expect("name"),
                workspace: WorkspaceName::new("api").expect("ws"),
                task: TaskName::new("check").expect("task"),
                output: ProcessOutput { status: -2, stdout: "line one\r\nline two\n".to_string(), stderr: "  \n".to_string() },
            },
            TaskCommandOutput {
                project: ProjectName::new("apps.web").expect("name"),
                workspace: WorkspaceName::new("ui").expect("ws"),
                task: TaskName::new("check").expect("task"),
                output: ProcessOutput { status: 0, stdout: "fine".to_string(), stderr: String::new() },
            },
        ],
        diagnostics: Vec::new(),
    };
    let text = render_task_report(&report);
    assert!(text.contains("apps.catalog  api        check  -2\n"));
    assert!(text.ends_with("\nFailure output (1)\napps.catalog:api:check\n  stdout:\n    line one\n    line two\n"));
}

#[test]
fn validation_report_prints_success_or_diagnostics() {
    let ok = ValidationReport { diagnostics: Vec::new() };
    assert_eq!(render_validation_report(&ok, "Graph is valid."), "Graph is valid.\n");
    let bad = ValidationReport { diagnostics: vec![Diagnostic::error("graph.cycle", "cycle found")] };
    assert_eq!(render_validation_report(&bad, "Graph is valid."), "error: cycle found\n  code: graph.cycle\n");
}

#[test]
fn ci_workflow_mentions_write_flag_for_planned_files() {
    let report = CiWorkflowReport {
        path: RepoRelativePath::new(".github/workflows/ci.yml").expect("path"),
        content: "on: push\n".to_string(),
        operations: vec![FileOperation {
            path: RepoRelativePath::new(".github/workflows/ci.yml").expect("path"),
            operation: "plan-file".to_string(),
            content: None,
        }],
        diagnostics: Vec::new(),
    };
    let text = render_ci_workflow(&report);
    assert!(text.starts_with("CI workflow\n-----------\n\nPath: .github/workflows/ci.yml\nBytes: 9\n"));
    assert!(text.ends_with("\nWrite it with:\n  repoctl ci workflow --provider github-actions --write\n"));
}

#[test]
fn init_plan_numbers_next_steps() {
    let plan = InitPlan {
        operations: Vec::new(),
        warnings: Vec::new(),
        next_steps: vec!["cd acme".to_string(), "repoctl graph validate".to_string()],
    };
    let text = render_init_plan(&plan);
    assert!(text.ends_with("\nNext steps\n  1. cd acme\n  2. repoctl graph validate\n"));
}

#[test]
fn adoption_overrides_are_read_in_order() {
    let paths = parse_path_overrides(&vec!["operon=frameworks/operon".to_string()]).expect("paths");
    assert_eq!(paths[0].0, "operon");
    assert_eq!(paths[0].1.as_str(), "frameworks/operon");
    let kinds = parse_kind_overrides(&vec!["skills=tool".to_string()]).expect("kinds");
    assert_eq!(kinds[0].1, ProjectKind::Tool);
    let error = parse_owner_overrides(&vec!["operon=@platform".to_string(), "bad".to_string()]).expect_err("owner");
    assert_eq!(error.diagnostics()[0].code, "adoption.owner.invalid");
    let error = parse_path_overrides(&vec!["x=../up".to_string()]).expect_err("path");
    assert_eq!(error.diagnostics()[0].code, "manifest.path.traversal");
    assert_eq!(adoption_output_format(OutputFormat::GithubActions), AdoptionOutputFormat::GitHubActions);
}
