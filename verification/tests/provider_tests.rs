use repoctl::domain::RepoRelativePath;
use repoctl::provider::{
    capability_reports, provider_major_changed, provider_surfaces, render_provider_capabilities,
    version_supports_invoked_via_function_url, workspace_capability, workspace_selected,
};

fn path(value: &str) -> RepoRelativePath {
    RepoRelativePath::new(value).expect("path")
}

#[test]
fn function_url_support_starts_at_major_seven() {
    assert!(version_supports_invoked_via_function_url("^7.0.0"));
    assert!(version_supports_invoked_via_function_url("7"));
    assert!(version_supports_invoked_via_function_url("~12.3.1"));
    assert!(!version_supports_invoked_via_function_url("^6.66.2"));
    assert!(!version_supports_invoked_via_function_url("latest"));
    assert!(!version_supports_invoked_via_function_url(""));
    assert!(!version_supports_invoked_via_function_url("99999999999999999999999"));
}

#[test]
fn package_files_mark_a_provider_change() {
    assert!(provider_major_changed(&[path("apps/a/package.json")]));
    assert!(provider_major_changed(&[path("src/x.ts"), path("pnpm-lock.yaml")]));
    assert!(!provider_major_changed(&[path("apps/a/src/index.ts")]));
    assert!(!provider_major_changed(&[]));
}

#[test]
fn workspaces_are_selected_by_id_or_root() {
    assert!(workspace_selected(None, "apps.a:infra", "apps/a/infra"));
    assert!(workspace_selected(Some("apps.a:infra"), "apps.a:infra", "apps/a/infra"));
    assert!(workspace_selected(Some("apps/a/infra"), "apps.a:infra", "apps/a/infra"));
    assert!(!workspace_selected(Some("apps.b:infra"), "apps.a:infra", "apps/a/infra"));
}

#[test]
fn missing_field_outranks_review() {
    let missing = workspace_capability("apps.a:infra", "^6.0.0", true, true).expect("finding");
    assert_eq!(missing.status, "missing");
    assert_eq!(missing.field, "invokedViaFunctionUrl");
    assert_eq!(missing.resource, "aws.lambda.Permission");
    assert_eq!(missing.diagnostics[0].code, "provider.capability.missing");
    let review = workspace_capability("apps.a:infra", "^7.0.0", true, true).expect("finding");
    assert_eq!(review.status, "review");
    assert_eq!(review.field, "major-version");
    assert_eq!(review.diagnostics[0].code, "provider.capability.major_upgrade_review");
    assert!(workspace_capability("apps.a:infra", "^7.0.0", true, false).is_none());
    assert!(workspace_capability("apps.a:infra", "^6.0.0", false, false).is_none());
}

#[test]
fn reports_follow_the_probes_in_order() {
    let probes = vec![
        ("apps.a:infra".to_string(), Some("^6.1.0".to_string()), true),
        ("apps.b:infra".to_string(), None, true),
        ("apps.c:infra".to_string(), Some("^7.0.0".to_string()), false),
    ];
    let reports = capability_reports(&probes, &[path("apps/c/package.json")]);
    assert_eq!(reports.len(), 2);
    assert_eq!(reports[0].workspace, "apps.a:infra");
    assert_eq!(reports[0].status, "missing");
    assert_eq!(reports[1].workspace, "apps.c:infra");
    assert_eq!(reports[1].status, "review");
    let surfaces = provider_surfaces(&reports);
    assert_eq!(surfaces[1].version, "^7.0.0");
    assert_eq!(surfaces[1].field, "major-version");
    assert!(capability_reports(&probes[2..].to_vec(), &[]).is_empty());
}

#[test]
fn capability_text_lists_reports_and_warnings() {
    let probes = vec![("apps.a:infra".to_string(), Some("6".to_string()), true)];
    let text = render_provider_capabilities(&capability_reports(&probes, &[]));
    assert!(text.starts_with("Provider capabilities\n---------------------\n\nReports (1)\n"));
    assert!(text.contains("apps.a:infra  @pulumi/aws  6        invokedViaFunctionUrl  missing"));
    assert!(text.contains("Diagnostics (1)\n"));
    assert!(text.contains("provider.capability.missing"));
    let empty = render_provider_capabilities(&Vec::new());
    assert_eq!(empty, "Provider capabilities\n---------------------\n\nReports (0)\n  (none)\n");
}
