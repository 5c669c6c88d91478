use repoctl::code_size::{
    CodeSizeRule, CodeSizeRuleKind, RuleEvaluation, ScanResult, SyntaxSpan, SyntaxSpanKind, evaluate_rules, file_limit,
    filter_candidates, scan_skip,
    sort_findings, summarize_scans,
};
use repoctl::diagnostic::Diagnostic;
use repoctl::domain::{
    GeneratedCodePolicy, ProjectAiSpec, ProjectAreas, ProjectKind, ProjectManifest, ProjectName, ProjectProtoSpec,
    RepoGraph, RepoLayout, RepoManifest, RepoName, RepoPolicySet, RepoRelativePath, RepoRoot, RepoSnapshot, SchemaId,
    Visibility,
};

fn rule(max_lines: u32) -> CodeSizeRule {
    CodeSizeRule { enabled: true, max_lines, include_tests: false, severity: "warning".to_string() }
}

fn span(kind: SyntaxSpanKind, symbol: Option<&str>, start_line: u32, end_line: u32, start_byte: usize, end_byte: usize) -> SyntaxSpan {
    SyntaxSpan {
        kind,
        node_kind: "function_item".to_string(),
        symbol: symbol.map(str::to_string),
        start_line,
        end_line,
        start_byte,
        end_byte,
    }
}

fn evaluation(spans: Vec<SyntaxSpan>) -> RuleEvaluation {
    let bytes = b"fn a() {\n  // note\n  x();\n  y();\n}\n".to_vec();
    RuleEvaluation {
        requested: Vec::new(),
        file_rule: rule(3),
        function_rule: rule(2),
        block_rule: rule(10),
        path: RepoRelativePath::new("apps/catalog/src/lib.rs").expect("path"),
        project: Some(ProjectName::new("apps.catalog").expect("project")),
        language: "rust".to_string(),
        bytes,
        physical_lines: 5,
        test_path: false,
        has_error: false,
        spans,
    }
}

#[test]
fn file_and_function_over_their_limits_are_reported() {
    let spans = vec![
        span(SyntaxSpanKind::Function, Some("a"), 1, 5, 0, 36),
        span(SyntaxSpanKind::Comment, None, 2, 2, 11, 18),
    ];
    let findings = evaluate_rules(&evaluation(spans));
    assert_eq!(findings.len(), 2);
    assert_eq!(findings[0].rule, CodeSizeRuleKind::File);
    assert_eq!(findings[0].measured_lines, 4);
    assert_eq!(findings[0].message, "file has 4 effective LOC, limit 3");
    assert_eq!(findings[0].physical_lines, Some(5));
    assert_eq!(findings[1].rule, CodeSizeRuleKind::Function);
    assert_eq!(findings[1].measured_lines, 5);
    assert_eq!(findings[1].message, "function a spans 5 lines, limit 2");
}

#[test]
fn parse_errors_keep_only_the_file_finding_and_tests_are_skipped() {
    let mut e = evaluation(vec![span(SyntaxSpanKind::Function, None, 1, 5, 0, 36)]);
    e.has_error = true;
    let findings = evaluate_rules(&e);
    assert_eq!(findings.len(), 1);
    assert_eq!(findings[0].message, "file has 5 effective LOC, limit 3");

    let mut e = evaluation(vec![
        span(SyntaxSpanKind::Test, None, 1, 5, 0, 36),
        span(SyntaxSpanKind::Function, None, 1, 5, 0, 36),
    ]);
    e.requested = vec![CodeSizeRuleKind::Function];
    assert!(evaluate_rules(&e).is_empty());
    e.function_rule.include_tests = true;
    let findings = evaluate_rules(&e);
    assert_eq!(findings.len(), 1);
    assert_eq!(findings[0].message, "function-like `function_item` spans 5 lines, limit 2");
}

#[test]
fn scan_skips_large_and_binary_files() {
    assert_eq!(scan_skip(10, 5, &b"text".to_vec()).as_deref(), Some("file_too_large_to_scan"));
    assert_eq!(scan_skip(4, 5, &vec![b'a', 0, b'b']).as_deref(), Some("binary_file_skipped"));
    assert_eq!(scan_skip(4, 5, &b"text".to_vec()), None);
}

#[test]
fn summary_counts_results_and_sorts_findings() {
    let spans = vec![span(SyntaxSpanKind::Function, Some("a"), 1, 5, 0, 36)];
    let mut later = evaluation(spans.clone());
    later.path = RepoRelativePath::new("apps/zeta/src/lib.rs").expect("path");
    let early = evaluation(spans);
    let results = vec![
        ScanResult::Scanned { findings: evaluate_rules(&later), diagnostics: Vec::new() },
        ScanResult::Skipped { reason: "binary_file_skipped".to_string() },
        ScanResult::Errored {
            diagnostic: Diagnostic::warning("inspect.code_size.file_read", "failed to read file"),
            reason: "read_error".to_string(),
        },
        ScanResult::Scanned { findings: evaluate_rules(&early), diagnostics: Vec::new() },
        ScanResult::Skipped { reason: "binary_file_skipped".to_string() },
    ];
    let skipped = vec![("excluded_by_config".to_string(), 2u64)];
    let summary = summarize_scans(7, skipped, Vec::new(), results).expect("summary");
    assert_eq!(summary.files_considered, 7);
    assert_eq!(summary.files_scanned, 2);
    assert_eq!(summary.files_errored, 1);
    assert_eq!(summary.files_skipped, 5);
    assert_eq!(
        summary.skipped,
        vec![
            ("binary_file_skipped".to_string(), 2),
            ("excluded_by_config".to_string(), 2),
            ("read_error".to_string(), 1)
        ]
    );
    assert_eq!(summary.finding_count, 4);
    assert_eq!(summary.files_with_findings, 2);
    assert_eq!(summary.findings[0].path.as_str(), "apps/catalog/src/lib.rs");
    assert_eq!(summary.findings[0].rule, CodeSizeRuleKind::File);
    assert_eq!(summary.findings[1].rule, CodeSizeRuleKind::Function);
    assert_eq!(summary.findings[2].path.as_str(), "apps/zeta/src/lib.rs");
    assert_eq!(summary.diagnostics.len(), 1);
    let again = sort_findings(summary.findings.clone());
    assert_eq!(again.len(), 4);
    assert_eq!(again[3].path.as_str(), "apps/zeta/src/lib.rs");
}

fn repo_path(value: &str) -> RepoRelativePath {
    RepoRelativePath::new(value).expect("path")
}

fn scan_snapshot() -> RepoSnapshot {
    let manifest = RepoManifest {
        schema: SchemaId::new("company.repo/v1").expect("schema"),
        name: RepoName::new("acme").expect("repo"),
        layout: RepoLayout::Functional,
        default_owner: None,
        protos_root: repo_path("protos"),
        core_infra_root: repo_path("core-infra"),
        agent_skills_root: repo_path(".agents/skills"),
        claude_skills_root: repo_path(".assistant/skills"),
        context_output: repo_path("target/repoctl/context"),
        generated_code_policy: GeneratedCodePolicy::ConsumerLocal,
        policies: RepoPolicySet::default(),
    };
    let project = ProjectManifest {
        schema: SchemaId::new("company.project/v1").expect("schema"),
        name: ProjectName::new("apps.shop").expect("name"),
        kind: ProjectKind::App,
        path: repo_path("apps/shop"),
        owners: Vec::new(),
        visibility: Visibility::Internal,
        workspaces: Vec::new(),
        depends_on: Vec::new(),
        tasks: Vec::new(),
        iac: None,
        deploy: None,
        protos: ProjectProtoSpec::default(),
        ai: ProjectAiSpec { do_not_edit: vec![repoctl::domain::RepoGlob::new("gen/**").expect("glob")], ..ProjectAiSpec::default() },
        areas: ProjectAreas::default(),
        policies: std::collections::BTreeMap::new(),
        source: repo_path("apps/shop/project.yaml"),
    };
    let graph = RepoGraph { nodes: Vec::new(), edges: Vec::new() };
    RepoSnapshot::new(RepoRoot::new("/repo").expect("root"), manifest, vec![project], graph)
}

#[test]
fn candidates_leave_out_excluded_and_generated_files() {
    let snapshot = scan_snapshot();
    let files = vec![
        repo_path("apps/shop/src/lib.rs"),
        repo_path("apps/shop/vendor/big.rs"),
        repo_path("apps/shop/gen/model.rs"),
        repo_path("apps/api/src/api.pb.rs"),
    ];
    let excludes = vec![repoctl::domain::RepoGlob::new("**/vendor/**").expect("glob")];
    let mut skipped = Vec::new();
    let kept = filter_candidates(&snapshot, &files, &excludes, true, &mut skipped).expect("kept");
    assert_eq!(kept, vec![repo_path("apps/shop/src/lib.rs")]);
    assert_eq!(skipped, vec![("excluded_by_config".to_string(), 1), ("generated_code".to_string(), 2)]);

    let mut skipped = Vec::new();
    let kept = filter_candidates(&snapshot, &files, &excludes, false, &mut skipped).expect("kept");
    assert_eq!(kept.len(), 3);
    assert_eq!(skipped, vec![("excluded_by_config".to_string(), 1)]);
}

#[test]
fn file_limit_reports_too_many_files() {
    assert!(file_limit(3, 3).is_none());
    let d = file_limit(4, 3).expect("over the limit");
    assert_eq!(d.code, "inspect.code_size.too_many_files");
    assert_eq!(d.message, "code-size inspection selected 4 files, limit 3");
}
