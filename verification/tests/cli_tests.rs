use std::path::PathBuf;

use repoctl::cli::{append_diagnostic, format_template_list_human, init_repo_root, normalize_new_project_path};
use repoctl::cli::{TemplateInputValue, diagnostics_exit_code, error_exit_code, parse_template_input_value, parse_template_inputs};
use repoctl::diagnostic::{Diagnostic, RepoctlError};
use repoctl::domain::{ProjectKind, RepoName};
use repoctl::requests::{TemplateListReport, TemplateSummary};

#[test]
fn test_should_initialize_named_repo_under_parent_directory() -> Result<(), Diagnostic> {
    let name = RepoName::new("universe")?;
    let root = init_repo_root(None, &name);

    assert_eq!(PathBuf::from(root), PathBuf::from("universe"));
    Ok(())
}

#[test]
fn test_should_use_explicit_init_repo_root_when_provided() -> Result<(), Diagnostic> {
    let name = RepoName::new("universe")?;
    let root = init_repo_root(Some("."), &name);

    assert_eq!(PathBuf::from(root), PathBuf::from("."));
    Ok(())
}

#[test]
fn test_should_render_template_list_as_readable_table() {
    let report = TemplateListReport {
        templates: vec![TemplateSummary {
            source: "builtin:app".to_string(),
            name: "app".to_string(),
            kind: "scaffold".to_string(),
        }],
        diagnostics: Vec::new(),
    };

    let output = format_template_list_human(&report);

    assert!(output.contains("Available templates"));
    assert!(output.contains("Source       Kind      Name"));
    assert!(output.contains("builtin:app  scaffold  app"));
    assert!(!output.contains('\t'));
    assert!(output.contains("repoctl template render <source> --input name=<name>"));
}

#[test]
fn test_should_render_diagnostics_with_actionable_fields() {
    let diagnostic = Diagnostic::error("template.source.invalid", "invalid source")
        .with_path("templates/app/template.yaml")
        .with_help("use builtin:<name> or local:<path>");
    let mut output = String::new();

    append_diagnostic(&mut output, &diagnostic);

    assert!(output.contains("error: invalid source"));
    assert!(output.contains("code: template.source.invalid"));
    assert!(output.contains("path: templates/app/template.yaml"));
    assert!(output.contains("help: use builtin:<name> or local:<path>"));
}

#[test]
fn test_should_place_bare_framework_name_under_frameworks_root() -> Result<(), Diagnostic> {
    let path = normalize_new_project_path(ProjectKind::Framework, Some("core"))?;

    assert_eq!(path.as_str(), "frameworks/core");
    Ok(())
}

#[test]
fn test_should_keep_explicit_framework_path() -> Result<(), Diagnostic> {
    let path = normalize_new_project_path(ProjectKind::Framework, Some("frameworks/core"))?;

    assert_eq!(path.as_str(), "frameworks/core");
    Ok(())
}

#[test]
fn test_should_reject_framework_path_under_app_root() {
    let error = normalize_new_project_path(ProjectKind::Framework, Some("apps/core"))
        .expect_err("kind mismatch");

    assert_eq!(error.code.as_str(), "new.path.kind_mismatch");
}

#[test]
fn test_should_require_project_name_below_kind_root() {
    let error = normalize_new_project_path(ProjectKind::Framework, Some("frameworks"))
        .expect_err("missing slug");

    assert_eq!(error.code.as_str(), "new.path.missing_slug");
}

#[test]
fn test_should_reject_separator_only_project_path() {
    let error = normalize_new_project_path(ProjectKind::Framework, Some("/"))
        .expect_err("missing path");

    assert_eq!(error.code.as_str(), "new.path.required");
}

#[test]
fn template_input_values_are_typed() {
    assert_eq!(parse_template_input_value("true"), TemplateInputValue::Bool(true));
    assert_eq!(parse_template_input_value("false"), TemplateInputValue::Bool(false));
    assert_eq!(parse_template_input_value("42"), TemplateInputValue::Integer(42));
    assert_eq!(parse_template_input_value("-7"), TemplateInputValue::Integer(-7));
    assert_eq!(parse_template_input_value("+7"), TemplateInputValue::Integer(7));
    assert_eq!(parse_template_input_value("-9223372036854775808"), TemplateInputValue::Integer(i64::MIN));
    assert_eq!(parse_template_input_value("9223372036854775807"), TemplateInputValue::Integer(i64::MAX));
    assert_eq!(
        parse_template_input_value("9223372036854775808"),
        TemplateInputValue::Text("9223372036854775808".into())
    );
    assert_eq!(parse_template_input_value("-"), TemplateInputValue::Text("-".into()));
    assert_eq!(parse_template_input_value(""), TemplateInputValue::Text(String::new()));
    assert_eq!(parse_template_input_value("True"), TemplateInputValue::Text("True".into()));
    assert_eq!(parse_template_input_value("1.5"), TemplateInputValue::Text("1.5".into()));
}

#[test]
fn template_inputs_are_read_in_order() {
    let inputs = parse_template_inputs(&vec!["name=catalog".into(), "port=8080".into(), "public=true".into()])
        .expect("inputs");
    assert_eq!(
        inputs,
        [
            ("name".to_string(), TemplateInputValue::Text("catalog".into())),
            ("port".to_string(), TemplateInputValue::Integer(8080)),
            ("public".to_string(), TemplateInputValue::Bool(true)),
        ]
    );
    let error = parse_template_inputs(&vec!["name=ok".into(), "novalue".into(), "bad key=1".into()]).expect_err("syntax");
    assert_eq!(error.diagnostics()[0].code, "template.input.invalid");
    let error = parse_template_inputs(&vec!["bad-key=1".into()]).expect_err("key");
    assert_eq!(error.diagnostics()[0].code, "template.input.invalid_key");
}

#[test]
fn exit_codes_follow_error_kind_and_severity() {
    assert_eq!(error_exit_code(&RepoctlError::Internal("x".into())), 4);
    assert_eq!(error_exit_code(&RepoctlError::Environment("x".into())), 3);
    assert_eq!(error_exit_code(&RepoctlError::io("a", "b")), 3);
    assert_eq!(error_exit_code(&RepoctlError::diagnostic(Diagnostic::error("a", "b"))), 1);
    assert_eq!(diagnostics_exit_code(&vec![Diagnostic::warning("a", "b")]), 0);
    assert_eq!(diagnostics_exit_code(&vec![Diagnostic::warning("a", "b"), Diagnostic::error("c", "d")]), 1);
    assert_eq!(diagnostics_exit_code(&Vec::new()), 0);
}
