use std::collections::BTreeMap;

use repoctl::domain::{DependencyTarget, ProjectKind};
use repoctl::manifest::{
    RawModulesSpec, RawProjectAiSpec, RawProjectManifest, RawProjectProtoSpec, RawRepoAi,
    RawRepoDefaults, RawRepoIac, RawRepoManifest, RawRepoPolicies, RawRepoProtos,
    RawTaskCommand, RawTemplateFile, RawTemplateInput, RawTemplateManifest,
    RawTemplatePostRender, RawWorkspaceSpec, YamlManifestParser,
};

const REPO: &str = r#"
schema: company.repo/v1
name: acme
layout: functional
defaults:
  owner: "@platform"
protos:
  root: protos
  generated_code_policy: consumer-local
"#;

const PROJECT: &str = r#"
schema: company.project/v1
name: apps.catalog
kind: app
path: apps/catalog
owners:
  - "@catalog"
workspaces:
  - name: api
    language: rust
    root: api
    manifest: api/Cargo.toml
depends_on:
  - frameworks.service-runtime
  - foundations.identity.client
tasks:
  check:
    - workspace: api
      command: cargo check --workspace
"#;

const TEMPLATE: &str = r#"
schema: repoctl.template/v1
name: app-fullstack
kind: app
engine: minijinja
inputs:
  - name: app_name
    type: string
    required: true
files:
  - source: files/project.yaml.j2
    target: "{{ app.path }}/project.yaml"
post_render:
  validate:
    - repoctl graph validate
"#;

fn repo_document() -> RawRepoManifest {
    RawRepoManifest {
        schema: "company.repo/v1".to_string(),
        name: "acme".to_string(),
        layout: "functional".to_string(),
        defaults: RawRepoDefaults { owner: Some("@platform".to_string()) },
        protos: RawRepoProtos {
            root: "protos".to_string(),
            generated_code_policy: "consumer-local".to_string(),
        },
        iac: RawRepoIac { core_infra_root: "core-infra".to_string() },
        ai: RawRepoAi {
            agent_skills_root: ".agents/skills".to_string(),
            claude_skills_root: ".assistant/skills".to_string(),
            context_output: "target/repoctl/context-packs".to_string(),
        },
        policies: RawRepoPolicies::default(),
    }
}

fn project_document(schema: &str) -> RawProjectManifest {
    RawProjectManifest {
        schema: schema.to_string(),
        name: "apps.catalog".to_string(),
        kind: "app".to_string(),
        path: "apps/catalog".to_string(),
        owners: vec!["@catalog".to_string()],
        visibility: None,
        workspaces: vec![RawWorkspaceSpec {
            name: "api".to_string(),
            language: "rust".to_string(),
            toolchain: None,
            root: "api".to_string(),
            manifest: "api/Cargo.toml".to_string(),
            lockfile: None,
            target_dir: None,
            cache_dir: None,
        }],
        depends_on: vec![
            "frameworks.service-runtime".to_string(),
            "foundations.identity.client".to_string(),
        ],
        tasks: vec![(
            "check".to_string(),
            vec![RawTaskCommand {
                workspace: "api".to_string(),
                command: "cargo check --workspace".to_string(),
            }],
        )],
        iac: None,
        deploy: None,
        protos: RawProjectProtoSpec::default(),
        ai: RawProjectAiSpec::default(),
        public_facades: Vec::new(),
        public_clients: Vec::new(),
        internal: Vec::new(),
        modules: RawModulesSpec::default(),
        policies: BTreeMap::new(),
    }
}

fn template_document() -> RawTemplateManifest {
    RawTemplateManifest {
        schema: "repoctl.template/v1".to_string(),
        name: "app-fullstack".to_string(),
        kind: "app".to_string(),
        engine: "minijinja".to_string(),
        inputs: vec![RawTemplateInput {
            name: "app_name".to_string(),
            input_type: "string".to_string(),
            required: true,
            default: None,
        }],
        files: vec![RawTemplateFile {
            source: "files/project.yaml.j2".to_string(),
            target: "{{ app.path }}/project.yaml".to_string(),
            mode: "managed".to_string(),
            when: None,
        }],
        post_render: RawTemplatePostRender { validate: vec!["repoctl graph validate".to_string()] },
    }
}

#[test]
fn test_should_parse_valid_repo_manifest() {
    let manifest = YamlManifestParser
        .parse_repo_bytes("repo.yaml", REPO.as_bytes(), Ok(repo_document()))
        .expect("repo parses");
    assert_eq!(manifest.name.as_str(), "acme");
}

#[test]
fn test_should_parse_valid_project_manifest() {
    let manifest = YamlManifestParser
        .parse_project_bytes(
            "apps/catalog/project.yaml",
            PROJECT.as_bytes(),
            Ok(project_document("company.project/v1")),
        )
        .expect("project parses");
    assert_eq!(manifest.kind, ProjectKind::App);
    assert_eq!(manifest.tasks.len(), 1);
    match &manifest.depends_on[1].target {
        DependencyTarget::Project(name) => assert_eq!(name.as_str(), "foundations.identity"),
        DependencyTarget::ProtoPackage(_) => panic!("expected project dependency"),
    }
}

#[test]
fn test_should_reject_unknown_project_schema() {
    let yaml = PROJECT.replace("company.project/v1", "company.project/v9");
    let error = YamlManifestParser
        .parse_project_bytes(
            "apps/catalog/project.yaml",
            yaml.as_bytes(),
            Ok(project_document("company.project/v9")),
        )
        .expect_err("schema is rejected");
    assert_eq!(error.diagnostics()[0].code.as_str(), "manifest.schema.unsupported");
}

#[test]
fn test_should_parse_valid_template_manifest() {
    let manifest = YamlManifestParser
        .parse_template_bytes("templates/app/template.yaml", TEMPLATE.as_bytes(), Ok(template_document()))
        .expect("template parses");
    assert_eq!(manifest.files.len(), 1);
}

#[test]
fn oversized_manifest_is_rejected_before_decoding() {
    let bytes = vec![b'a'; 262_145];
    let error = YamlManifestParser
        .parse_repo_bytes("repo.yaml", &bytes, Ok(repo_document()))
        .expect_err("too large");
    assert_eq!(error.diagnostics()[0].code.as_str(), "manifest.too_large");
}

#[test]
fn non_utf8_manifest_is_rejected() {
    let bytes = [0xff_u8, 0xfe, 0x00];
    let error = YamlManifestParser
        .parse_repo_bytes("repo.yaml", &bytes, Ok(repo_document()))
        .expect_err("not utf8");
    let diagnostics = error.diagnostics();
    assert_eq!(diagnostics[0].code.as_str(), "manifest.utf8");
    assert!(diagnostics[0].message.starts_with("manifest is not UTF-8: "));
    assert!(diagnostics[0].message.len() > "manifest is not UTF-8: ".len());
}

#[test]
fn decoder_failure_is_reported_as_yaml_error() {
    let error = YamlManifestParser
        .parse_repo_bytes("repo.yaml", REPO.as_bytes(), Err("bad indentation".to_string()))
        .expect_err("yaml error");
    let diagnostics = error.diagnostics();
    assert_eq!(diagnostics[0].code.as_str(), "manifest.yaml");
    assert_eq!(diagnostics[0].message, "failed to parse YAML: bad indentation");
}

#[test]
fn unknown_repo_schema_is_rejected_with_path() {
    let mut document = repo_document();
    document.schema = "company.repo/v2".to_string();
    let error = YamlManifestParser
        .parse_repo_bytes("repo.yaml", REPO.as_bytes(), Ok(document))
        .expect_err("schema");
    let diagnostics = error.diagnostics();
    assert_eq!(diagnostics[0].code.as_str(), "manifest.schema.unsupported");
    assert_eq!(diagnostics[0].source.as_ref().map(|s| s.path.as_str()), Some("repo.yaml"));
}

#[test]
fn project_with_invalid_owner_is_rejected() {
    let mut document = project_document("company.project/v1");
    document.owners = vec!["catalog".to_string()];
    let error = YamlManifestParser
        .parse_project_bytes("apps/catalog/project.yaml", PROJECT.as_bytes(), Ok(document))
        .expect_err("owner");
    assert_eq!(error.diagnostics()[0].code.as_str(), "manifest.owner.invalid");
}
