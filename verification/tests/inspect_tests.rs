use std::collections::BTreeMap;

use repoctl::domain::{
    ProjectAiSpec, ProjectAreas, ProjectKind, ProjectManifest, ProjectName, ProjectProtoSpec, RepoGlob,
    RepoRelativePath, SchemaId, Visibility,
};
use repoctl::inspect::{
    LineIndex, effective_lines, is_binary, is_heavy_path, normalized_ranges, project_generated_pattern,
};

fn project_with_do_not_edit(path: &str, glob: &str) -> ProjectManifest {
    ProjectManifest {
        schema: SchemaId::new("company.project/v1").expect("schema"),
        name: ProjectName::new("apps.catalog").expect("project"),
        kind: ProjectKind::App,
        path: RepoRelativePath::new(path).expect("path"),
        owners: Vec::new(),
        visibility: Visibility::Internal,
        workspaces: Vec::new(),
        depends_on: Vec::new(),
        tasks: Vec::new(),
        iac: None,
        deploy: None,
        protos: ProjectProtoSpec::default(),
        ai: ProjectAiSpec {
            editable: Vec::new(),
            do_not_edit: vec![RepoGlob::new(glob).expect("glob")],
            docs: Vec::new(),
        },
        areas: ProjectAreas::default(),
        policies: BTreeMap::new(),
        source: RepoRelativePath::new("apps/catalog/project.yaml").expect("source"),
    }
}

#[test]
fn test_should_count_effective_lines_without_comments() {
    let bytes = b"fn main() {\n  // comment\n  println!(\"hi\");\n}\n".to_vec();
    let effective = effective_lines(&bytes, &vec![(14, 24)]);
    assert_eq!(effective, Some(3));
}

#[test]
fn test_should_merge_excluded_ranges_for_effective_lines() {
    let bytes = b"alpha\nbeta\ngamma\n".to_vec();
    let effective = effective_lines(&bytes, &vec![(0, 3), (2, 7), (11, 16)]);
    assert_eq!(effective, Some(1));
}

#[test]
fn test_should_count_single_line_without_final_newline() {
    let index = LineIndex::new(&b"let a = 1;".to_vec());
    assert!(index.is_ok());
    assert_eq!(index.ok().map(|value| value.physical_lines), Some(1));
}

#[test]
fn test_should_detect_binary_prefix() {
    assert!(is_binary(&b"abc\0def".to_vec()));
    assert!(!is_binary(&b"abc\ndef".to_vec()));
}

#[test]
fn test_should_prefix_project_local_generated_globs() {
    let project = project_with_do_not_edit("apps/catalog", "deploy/prod/**");
    assert_eq!(project_generated_pattern(&project, &project.ai.do_not_edit[0]), "apps/catalog/deploy/prod/**");
}

#[test]
fn test_should_keep_global_generated_globs() {
    let project = project_with_do_not_edit("apps/catalog", "**/generated/**");
    assert_eq!(project_generated_pattern(&project, &project.ai.do_not_edit[0]), "**/generated/**");
}

#[test]
fn line_numbers_count_line_starts() {
    let index = LineIndex::new(&b"a\nbb\n\nccc\n".to_vec()).expect("index");
    assert_eq!(index.starts, [0, 2, 5, 6]);
    assert_eq!(index.physical_lines, 4);
    assert_eq!(index.line_for_byte(0), 1);
    assert_eq!(index.line_for_byte(1), 1);
    assert_eq!(index.line_for_byte(2), 2);
    assert_eq!(index.line_for_byte(6), 4);
    assert_eq!(index.line_for_byte(100), 4);
    assert_eq!(index.line_for_start(5), 3);
    assert_eq!(index.line_for_end(0), 1);
    assert_eq!(index.line_for_end(5), 2);
    let empty = LineIndex::new(&Vec::new()).expect("index");
    assert_eq!(empty.physical_lines, 0);
    assert_eq!(empty.starts, [0]);
}

#[test]
fn ranges_are_clipped_sorted_and_merged() {
    assert_eq!(normalized_ranges(&vec![(5, 9), (0, 2), (2, 3), (8, 20), (30, 40), (4, 4)], 12), [(0, 3), (5, 12)]);
    assert!(normalized_ranges(&vec![(7, 3)], 10).is_empty());
    assert!(normalized_ranges(&Vec::new(), 10).is_empty());
}

#[test]
fn effective_lines_skip_blank_and_excluded() {
    assert_eq!(effective_lines(&Vec::new(), &Vec::new()), Some(0));
    assert_eq!(effective_lines(&b"a\n\n  \t\nb".to_vec(), &Vec::new()), Some(2));
    assert_eq!(effective_lines(&b"a\r\n\x0c\n".to_vec(), &Vec::new()), Some(1));
    assert_eq!(effective_lines(&b"x\ny\n".to_vec(), &vec![(0, 100)]), Some(0));
}

#[test]
fn heavy_paths_pass_through_build_output() {
    assert!(is_heavy_path(&RepoRelativePath::new("apps/web/node_modules/x/index.js").expect("path")));
    assert!(is_heavy_path(&RepoRelativePath::new("target/debug/app").expect("path")));
    assert!(!is_heavy_path(&RepoRelativePath::new("apps/web/src/targets.ts").expect("path")));
}
