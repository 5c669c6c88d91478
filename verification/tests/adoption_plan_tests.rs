use repoctl::adoption::AdoptedSource;
use repoctl::adoption_plan::{AdoptionFileOperation, AdoptionPlan, render_adoption_plan};
use repoctl::domain::{ProjectKind, RepoRelativePath};
use repoctl::requests::{SourceInventory, VerificationPlan};

fn source(name: &str, destination: &str, skipped: bool, override_applied: bool) -> AdoptedSource {
    AdoptedSource {
        name: name.to_string(),
        source_path: format!("/src/{name}"),
        destination_path: RepoRelativePath::new(destination).expect("path"),
        inferred_kind: ProjectKind::App,
        confidence_percent: 85,
        reasons: vec!["has Cargo.toml".to_string(), "has src".to_string()],
        inventory: SourceInventory::default(),
        skipped,
        override_applied,
    }
}

#[test]
fn adoption_plan_text_counts_and_tables() {
    let plan = AdoptionPlan {
        source_root: "/src".to_string(),
        dest_root: "/dest".to_string(),
        sources: vec![source("catalog", "apps/catalog", false, false), source("legacy", "apps/legacy", true, true)],
        operations: vec![AdoptionFileOperation {
            id: "copy-1".to_string(),
            operation: "copy".to_string(),
            source_path: Some("/src/catalog/Cargo.toml".to_string()),
            destination_path: RepoRelativePath::new("apps/catalog/Cargo.toml").expect("path"),
            content: None,
            checksum: None,
        }],
        dependency_rewrites: Vec::new(),
        manifest_syntheses: Vec::new(),
        ci_operations: Vec::new(),
        verification: VerificationPlan::default(),
        diagnostics: Vec::new(),
    };
    let text = render_adoption_plan(&plan);
    assert!(text.starts_with("Adoption plan\n-------------\n\n2 source repos, 1 selected, 1 skipped\n"));
    assert!(text.contains("catalog"));
    assert!(text.contains("apps/catalog"));
    assert!(text.contains("0.85"));
    assert!(text.contains("has Cargo.toml; has src"));
    assert!(text.contains("skipped"));
    assert!(text.contains("override"));
    assert!(text.contains("apps/catalog/Cargo.toml"));
    assert!(!text.contains("Prerequisites"));
    assert!(text.ends_with("  repoctl adopt verify --plan target/repoctl/adopt-plan.json\n"));
}
