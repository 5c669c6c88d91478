use repoctl::diagnostic::Diagnostic;
use repoctl::domain::{OwnerHandle, ProjectName, RepoRelativePath};
use repoctl::pr::{PrCdnSurface, PrDnsSurface, PrOperationalContext, PrProviderSurface, render_pr_summary};
use repoctl::requests::AffectedReport;

fn affected() -> AffectedReport {
    AffectedReport {
        directly_affected: vec![ProjectName::new("apps.catalog").expect("project")],
        transitively_affected: vec![ProjectName::new("apps.web").expect("project")],
        tasks: vec!["apps.catalog:api:check".to_string()],
        risk_flags: vec!["prod-iac".to_string()],
        suggested_reviewers: vec![OwnerHandle::new("@catalog").expect("owner")],
        ..AffectedReport::default()
    }
}

#[test]
fn pr_summary_lists_every_section_in_order() {
    let files = vec![RepoRelativePath::new("apps/catalog/src/lib.rs").expect("path")];
    let markdown = render_pr_summary(&files, &affected(), &Vec::new(), &PrOperationalContext::default());
    let expected = "# PR Impact Summary\n\n## Changed Files\n- `apps/catalog/src/lib.rs`\n\n## Affected Projects\n- `apps.catalog`\n- `apps.web`\n\n## Affected Tasks\n- `apps.catalog:api:check`\n\n## Risk Flags\n- `prod-iac`\n\n## Deploy Surface\n- No declared DNS, CDN, or provider-capability surface found.\n\n## Suggested Approvers\n- `@catalog`\n\n## Suggested Commands\n- `repoctl graph validate`\n- `repoctl affected --tasks check,test,build`\n- `repoctl run check --affected --dry-run`\n- `repoctl ops plan --env staging --tasks check,test,build --format json`\n- `repoctl ops verify --plan target/repoctl/ops-plan.json`\n- `repoctl provider capabilities`\n";
    assert_eq!(markdown, expected);
}

#[test]
fn pr_summary_renders_deploy_surface_and_gaps() {
    let operations = PrOperationalContext {
        dns: vec![PrDnsSurface {
            record: "shop.example.com".to_string(),
            provider: "cloudflare".to_string(),
            expected_target: "lb.example.net".to_string(),
            expected_proxied: Some(true),
        }],
        cdn: vec![PrCdnSurface {
            provider: "cloudfront".to_string(),
            alias: "cdn.example.com".to_string(),
            expected_response_headers: vec!["x-cache".to_string(), "age".to_string()],
        }],
        provider_capabilities: vec![PrProviderSurface {
            package: "@pulumi/aws".to_string(),
            version: "6.0.0".to_string(),
            workspace: "iac".to_string(),
            status: "supported".to_string(),
            field: "invokedViaFunctionUrl".to_string(),
        }],
        production_gaps: vec!["no rollback plan".to_string()],
    };
    let diagnostics = vec![Diagnostic::error("policy.high_risk_iac", "needs review")];
    let markdown = render_pr_summary(&Vec::new(), &AffectedReport::default(), &diagnostics, &operations);
    assert!(markdown.contains("\n## Deploy Surface\n- DNS `shop.example.com` via `cloudflare` target `lb.example.net` proxied `true`\n- CDN `cloudfront` serves `cdn.example.com` with headers `x-cache, age`\n- Provider `@pulumi/aws` `6.0.0` in `iac`: `supported` `invokedViaFunctionUrl`\n- `policy.high_risk_iac`: needs review\n\n## Suggested Approvers\n"));
    assert!(markdown.ends_with("- `repoctl provider capabilities`\n\n## Unresolved Gaps\n- no rollback plan\n"));
    assert!(!markdown.contains("No declared DNS"));
}
