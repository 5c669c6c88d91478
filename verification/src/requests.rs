//! Requests and reports exchanged between the command line and the engine.
use vstd::prelude::*;

use std::collections::BTreeMap;
use std::path::PathBuf;

use crate::diagnostic::Diagnostic;
use crate::domain::{
    DependencySurface, GraphEdge, GraphNode, IacProvider, OwnerHandle, ProjectKind, ProjectName,
    ProtoPackageName, RepoLayout, RepoName, RepoRelativePath, TaskName, WorkspaceName,
};

verus! {

/// Request to discover a repository.
#[derive(Clone, Debug, Default)]
pub struct DiscoverRequest {
    /// Optional starting path or explicit repo root.
    pub repo: Option<PathBuf>,
}

/// Request to validate a graph and boundary policies.
#[derive(Clone, Debug)]
pub struct GraphValidateRequest {
    /// Optional starting path or explicit repo root.
    pub repo: Option<PathBuf>,
    /// Changed files used by path-based policy rules.
    pub changed_files: Vec<RepoRelativePath>,
    /// Validation depth.
    pub mode: ValidationMode,
}

/// Graph validation mode.
#[derive(Clone, Copy, Debug, Default, PartialEq, Eq, Structural)]
pub enum ValidationMode {
    /// Structural manifest and policy checks only.
    #[default]
    StructureOnly,
    /// Structural checks plus offline metadata checks when available.
    Metadata,
    /// Metadata checks plus full task-planning/environment checks.
    Full,
}

/// Request to print a graph.
#[derive(Clone, Debug, Default)]
pub struct GraphPrintRequest {
    /// Optional starting path or explicit repo root.
    pub repo: Option<PathBuf>,
}

/// Report for printing the repository graph.
#[derive(Debug)]
pub struct GraphPrintReport {
    /// Repository snapshot.
    pub snapshot: crate::domain::RepoSnapshot,
}

/// Request to explain a selector.
#[derive(Clone, Debug)]
pub struct ExplainRequest {
    /// Optional starting path or explicit repo root.
    pub repo: Option<PathBuf>,
    /// Project name or graph node id.
    pub selector: String,
}

/// Explanation report for a graph selector.
#[derive(Clone, Debug)]
pub struct ExplainReport {
    /// Requested selector.
    pub selector: String,
    /// Matching graph nodes.
    pub nodes: Vec<GraphNode>,
    /// Edges touching the matching nodes.
    pub edges: Vec<GraphEdge>,
    /// Diagnostics produced while explaining.
    pub diagnostics: Vec<Diagnostic>,
}

/// Request to lint boundaries.
#[derive(Clone, Debug, Default)]
pub struct BoundaryLintRequest {
    /// Optional starting path or explicit repo root.
    pub repo: Option<PathBuf>,
    /// Changed files used by path-based policy rules.
    pub changed_files: Vec<RepoRelativePath>,
}

/// Boundary lint report.
#[derive(Clone, Debug, Default)]
pub struct BoundaryLintReport {
    /// Boundary diagnostics.
    pub diagnostics: Vec<Diagnostic>,
}

/// Init profile.
#[derive(Clone, Copy, Debug, PartialEq, Eq, Structural)]
pub enum InitProfile {
    /// Startup profile.
    Startup,
    /// Enterprise profile.
    Enterprise,
}

/// Request for repository initialization.
#[derive(Clone, Debug)]
pub struct InitRequest {
    /// Target repo root.
    pub repo_root: PathBuf,
    /// Repository name.
    pub name: RepoName,
    /// Initialization profile.
    pub profile: InitProfile,
    /// Repository layout.
    pub layout: RepoLayout,
    /// Whether to only plan writes.
    pub dry_run: bool,
}

/// Planned file operation.
#[derive(Clone, Debug, PartialEq, Eq)]
pub struct FileOperation {
    /// Target path.
    pub path: RepoRelativePath,
    /// Operation kind.
    pub operation: String,
    /// UTF-8 content to write for file operations.
    pub content: Option<String>,
}

/// Repository initialization plan.
#[derive(Clone, Debug, Default)]
pub struct InitPlan {
    /// Planned operations.
    pub operations: Vec<FileOperation>,
    /// Warnings.
    pub warnings: Vec<Diagnostic>,
    /// Recommended next steps.
    pub next_steps: Vec<String>,
}

/// Request to create a new project.
#[derive(Clone, Debug)]
pub struct NewProjectRequest {
    /// Optional starting path or explicit repo root.
    pub repo: Option<PathBuf>,
    /// Project kind.
    pub kind: ProjectKind,
    /// Project path.
    pub path: RepoRelativePath,
    /// Requested stack entries such as `rust-api`, `bun-web`, and `uv-jobs`.
    pub stack: Vec<String>,
    /// Requested languages for framework/foundation generation.
    pub languages: Vec<String>,
    /// Requested public clients for foundation generation.
    pub clients: Vec<String>,
    /// Whether framework generation should include facade/internal areas.
    pub facade: bool,
    /// Optional `IaC` provider.
    pub iac: Option<IacProvider>,
    /// Optional proto package.
    pub proto: Option<ProtoPackageName>,
    /// Optional owner handle.
    pub owner: Option<OwnerHandle>,
    /// Whether to only plan writes.
    pub dry_run: bool,
}

/// Render plan returned by project and template operations.
#[derive(Clone, Debug, Default)]
pub struct RenderPlan {
    /// Planned file operations.
    pub operations: Vec<FileOperation>,
    /// Diagnostics.
    pub diagnostics: Vec<Diagnostic>,
}

/// Template listing request.
#[derive(Clone, Debug, Default)]
pub struct TemplateListRequest {
    /// Optional starting path or explicit repo root.
    pub repo: Option<PathBuf>,
}

/// Template summary.
#[derive(Clone, Debug, PartialEq, Eq)]
pub struct TemplateSummary {
    /// Template source label.
    pub source: String,
    /// Template name.
    pub name: String,
    /// Template kind.
    pub kind: String,
}

/// Template listing report.
#[derive(Clone, Debug, Default)]
pub struct TemplateListReport {
    /// Available templates.
    pub templates: Vec<TemplateSummary>,
    /// Diagnostics.
    pub diagnostics: Vec<Diagnostic>,
}

/// Request for affected analysis.
#[derive(Clone, Debug, Default)]
pub struct AffectedRequest {
    /// Optional starting path or explicit repo root.
    pub repo: Option<PathBuf>,
    /// Optional base git ref.
    pub base: Option<String>,
    /// Optional head git ref.
    pub head: Option<String>,
    /// Changed files.
    pub changed_files: Vec<RepoRelativePath>,
    /// Requested task names for affected reports.
    pub tasks: Vec<TaskName>,
}

/// Affected analysis report.
#[derive(Clone, Debug, Default)]
pub struct AffectedReport {
    /// Directly affected project ids.
    pub directly_affected: Vec<ProjectName>,
    /// Transitively affected project ids.
    pub transitively_affected: Vec<ProjectName>,
    /// Affected workspaces in `project:workspace` form.
    pub workspaces: Vec<String>,
    /// Affected task ids in `project:workspace:task` form.
    pub tasks: Vec<String>,
    /// Risk flags emitted by affected analysis.
    pub risk_flags: Vec<String>,
    /// Explainable reasons.
    pub reasons: Vec<AffectedReason>,
    /// Owners suggested to approve the change.
    pub suggested_reviewers: Vec<OwnerHandle>,
    /// Diagnostics.
    pub diagnostics: Vec<Diagnostic>,
}

/// Reason attached to an affected result.
#[derive(Clone, Debug, PartialEq, Eq)]
pub struct AffectedReason {
    /// Changed or propagated source.
    pub source: String,
    /// Affected target.
    pub target: String,
    /// Human-readable explanation.
    pub reason: String,
}

/// Request to run repo tasks.
#[derive(Clone, Debug, Default)]
pub struct TaskRunRequest {
    /// Optional starting path or explicit repo root.
    pub repo: Option<PathBuf>,
    /// Requested task names.
    pub tasks: Vec<TaskName>,
    /// Optional project filter.
    pub projects: Vec<ProjectName>,
    /// Optional workspace filter in `project:workspace` form.
    pub workspaces: Vec<String>,
    /// Run only affected tasks.
    pub affected: bool,
    /// Changed files used when `affected` is true.
    pub changed_files: Vec<RepoRelativePath>,
    /// Optional base git ref used when `affected` is true.
    pub base: Option<String>,
    /// Optional head git ref used when `affected` is true.
    pub head: Option<String>,
    /// Maximum task concurrency; when present it is at least 1.
    pub concurrency: Option<u32>,
    /// Plan tasks without executing them.
    pub dry_run: bool,
}

/// Task run plan.
#[derive(Clone, Debug)]
pub struct TaskRunPlan {
    /// Planned process commands.
    pub commands: Vec<ProcessCommand>,
    /// Maximum concurrency, at least 1.
    pub concurrency: usize,
}

/// Task run report.
#[derive(Clone, Debug, Default)]
pub struct TaskRunReport {
    /// Planned task commands.
    pub commands: Vec<ProcessCommand>,
    /// Command outputs.
    pub outputs: Vec<TaskCommandOutput>,
    /// Diagnostics.
    pub diagnostics: Vec<Diagnostic>,
}

/// Output from one task command.
#[derive(Clone, Debug)]
pub struct TaskCommandOutput {
    /// Project id.
    pub project: ProjectName,
    /// Workspace id.
    pub workspace: WorkspaceName,
    /// Task id.
    pub task: TaskName,
    /// Process output.
    pub output: ProcessOutput,
}

/// Process command passed to a runner.
#[derive(Clone, Debug)]
pub struct ProcessCommand {
    /// Project id.
    pub project: Option<ProjectName>,
    /// Workspace id.
    pub workspace: Option<WorkspaceName>,
    /// Task id.
    pub task: Option<TaskName>,
    /// Working directory.
    pub cwd: RepoRelativePath,
    /// Absolute working directory for local execution.
    pub absolute_cwd: Option<PathBuf>,
    /// Program.
    pub program: String,
    /// Arguments.
    pub args: Vec<String>,
    /// Environment overlay.
    pub env: BTreeMap<String, String>,
}

/// Process output from a runner.
#[derive(Clone, Debug, Default, PartialEq, Eq)]
pub struct ProcessOutput {
    /// Exit status code.
    pub status: i32,
    /// Captured stdout.
    pub stdout: String,
    /// Captured stderr.
    pub stderr: String,
}

/// Request for CI matrix generation.
#[derive(Clone, Debug, Default)]
pub struct CiMatrixRequest {
    /// Optional starting path or explicit repo root.
    pub repo: Option<PathBuf>,
    /// Requested task names.
    pub tasks: Vec<TaskName>,
    /// Changed files used for affected CI matrix generation.
    pub changed_files: Vec<RepoRelativePath>,
    /// Optional base git ref.
    pub base: Option<String>,
    /// Optional head git ref.
    pub head: Option<String>,
    /// Behavior when affected-file detection cannot select entries.
    pub fallback: CiFallback,
}

/// CI fallback behavior.
#[derive(Clone, Copy, Debug, Default, PartialEq, Eq, Structural)]
pub enum CiFallback {
    /// Include all projects with requested tasks.
    All,
    /// Include no projects.
    #[default]
    Nothing,
    /// Fail when no changed-file signal is available.
    Error,
}

/// Supported CI workflow provider.
#[derive(Clone, Copy, Debug, Default, PartialEq, Eq, Structural)]
pub enum CiProvider {
    /// GitHub Actions.
    #[default]
    GitHubActions,
}

/// Request to render a CI workflow.
#[derive(Clone, Debug, Default)]
pub struct CiWorkflowRequest {
    /// Optional starting path or explicit repo root.
    pub repo: Option<PathBuf>,
    /// Workflow provider.
    pub provider: CiProvider,
    /// Write the generated workflow file.
    pub write: bool,
}

/// Rendered CI workflow.
#[derive(Clone, Debug)]
pub struct CiWorkflowReport {
    /// Workflow file path.
    pub path: RepoRelativePath,
    /// Workflow content.
    pub content: String,
    /// Planned or applied operations.
    pub operations: Vec<FileOperation>,
    /// Diagnostics.
    pub diagnostics: Vec<Diagnostic>,
}

/// Hygiene request.
#[derive(Clone, Debug, Default)]
pub struct HygieneCheckRequest {
    /// Optional starting path or explicit repo root.
    pub repo: Option<PathBuf>,
}

/// Hygiene clean request.
#[derive(Clone, Debug, Default)]
pub struct HygieneCleanRequest {
    /// Optional starting path or explicit repo root.
    pub repo: Option<PathBuf>,
    /// Plan without deleting files.
    pub dry_run: bool,
}

/// Hygiene report.
#[derive(Clone, Debug, Default)]
pub struct HygieneReport {
    /// Hygiene diagnostics.
    pub diagnostics: Vec<Diagnostic>,
    /// Cleanable generated-artifact operations.
    pub operations: Vec<FileOperation>,
}

/// Dependency rewrite mode for adoption planning.
#[derive(Clone, Copy, Debug, Default, PartialEq, Eq, Structural)]
pub enum DependencyRewriteMode {
    /// Rewrite supported dependencies automatically.
    #[default]
    Auto,
    /// Do not inspect or rewrite dependencies.
    Off,
    /// Report rewrite candidates without changing copied files.
    ReportOnly,
}

/// CI behavior for adoption planning.
#[derive(Clone, Copy, Debug, Default, PartialEq, Eq, Structural)]
pub enum AdoptionCiMode {
    /// Update generated CI files.
    #[default]
    Update,
    /// Do not generate CI changes.
    Off,
    /// Report CI changes without applying them.
    ReportOnly,
}

/// Adoption output format.
#[derive(Clone, Copy, Debug, Default, PartialEq, Eq, Structural)]
pub enum AdoptionOutputFormat {
    /// Human-readable report.
    #[default]
    Human,
    /// JSON report.
    Json,
    /// GitHub Actions format.
    GitHubActions,
}

/// Request to create an adoption plan.
#[derive(Clone, Debug)]
pub struct AdoptionPlanRequest {
    /// Directory containing source repositories or a single source repository.
    pub source: PathBuf,
    /// Destination initialized monorepo.
    pub dest: PathBuf,
    /// Source names to take in.
    pub included: Vec<String>,
    /// Source names to exclude.
    pub exclude: Vec<String>,
    /// Placement overrides keyed by source name.
    pub map: BTreeMap<String, RepoRelativePath>,
    /// Project-kind overrides keyed by source name.
    pub kind: BTreeMap<String, ProjectKind>,
    /// Owner overrides keyed by source name.
    pub owner: BTreeMap<String, OwnerHandle>,
    /// Dependency rewrite mode.
    pub rewrite_deps: DependencyRewriteMode,
    /// CI generation behavior.
    pub ci: AdoptionCiMode,
    /// Verification mode.
    pub verification: ValidationMode,
    /// Requested output format.
    pub format: AdoptionOutputFormat,
}

/// Request to apply a reviewed adoption plan.
#[derive(Clone, Debug)]
pub struct AdoptionApplyRequest {
    /// Plan JSON file.
    pub plan: PathBuf,
    /// Recompute inference before applying.
    pub refresh: bool,
}

/// Request to verify a reviewed adoption plan.
#[derive(Clone, Debug)]
pub struct AdoptionVerifyRequest {
    /// Plan JSON file.
    pub plan: PathBuf,
}

/// Source inventory collected before planning.
#[derive(Clone, Debug, Default, PartialEq, Eq)]
pub struct SourceInventory {
    /// Repository name.
    pub name: String,
    /// Whether a VCS marker exists.
    pub has_vcs: bool,
    /// README first heading or summary.
    pub readme_summary: Option<String>,
    /// Primary manifest paths.
    pub manifests: Vec<String>,
    /// Top-level directories.
    pub top_level_dirs: Vec<String>,
    /// Dependency package names referenced by source manifests.
    pub dependency_references: Vec<String>,
    /// Generated artifact paths found in the source.
    pub generated_artifacts: Vec<String>,
    /// Required local tools inferred from manifests and build scripts.
    pub required_tools: Vec<String>,
}

/// Dependency rewrite record.
#[derive(Clone, Debug)]
pub struct DependencyRewrite {
    /// File being rewritten.
    pub file: RepoRelativePath,
    /// Package or crate dependency name.
    pub package: String,
    /// Original dependency value.
    pub from: String,
    /// Replacement dependency value.
    pub to: String,
    /// Dependency surface.
    pub surface: DependencySurface,
    /// Owning project.
    pub owner_project: ProjectName,
}

/// Synthesized project manifest record.
#[derive(Clone, Debug)]
pub struct ProjectManifestSynthesis {
    /// Source repository name.
    pub source: String,
    /// Project name.
    pub project: ProjectName,
    /// Manifest path.
    pub manifest_path: RepoRelativePath,
    /// Synthesized YAML.
    pub content: String,
}

/// Verification plan generated for adoption.
#[derive(Clone, Debug, Default)]
pub struct VerificationPlan {
    /// Tool prerequisites.
    pub prerequisites: Vec<ToolPrerequisite>,
    /// Ordered commands.
    pub commands: Vec<ProcessCommand>,
}

/// Required local tool.
#[derive(Clone, Debug, PartialEq, Eq)]
pub struct ToolPrerequisite {
    /// Tool name.
    pub tool: String,
    /// Why it is needed.
    pub reason: String,
}

/// Request for PR summary.
#[derive(Clone, Debug, Default)]
pub struct PrSummaryRequest {
    /// Optional starting path or explicit repo root.
    pub repo: Option<PathBuf>,
    /// Optional base git ref.
    pub base: Option<String>,
    /// Optional head git ref.
    pub head: Option<String>,
    /// Explicit changed files.
    pub changed_files: Vec<RepoRelativePath>,
}

/// Request for AI context.
#[derive(Clone, Debug)]
pub struct AiContextRequest {
    /// Optional starting path or explicit repo root.
    pub repo: Option<PathBuf>,
    /// Project to build context for.
    pub project: ProjectName,
    /// Context audience.
    pub audience: String,
}

/// Generated-code check request.
#[derive(Clone, Debug, Default)]
pub struct CodegenCheckRequest {
    /// Optional starting path or explicit repo root.
    pub repo: Option<PathBuf>,
    /// Optional base git ref.
    pub base: Option<String>,
    /// Optional head git ref.
    pub head: Option<String>,
    /// Explicit changed files.
    pub changed_files: Vec<RepoRelativePath>,
}

/// Generated-code check report.
#[derive(Clone, Debug, Default)]
pub struct CodegenCheckReport {
    /// Diagnostics.
    pub diagnostics: Vec<Diagnostic>,
}

/// Proto facade request.
#[derive(Clone, Debug, Default)]
pub struct ProtoFacadeRequest {
    /// Optional starting path or explicit repo root.
    pub repo: Option<PathBuf>,
    /// Proto operation.
    pub operation: ProtoOperation,
    /// Proto path or package selector.
    pub selector: Option<String>,
    /// Optional base git ref for changed-file checks.
    pub base: Option<String>,
    /// Optional head git ref for changed-file checks.
    pub head: Option<String>,
    /// Explicit changed files for generated-code policy checks.
    pub changed_files: Vec<RepoRelativePath>,
}

/// Proto operation.
#[derive(Clone, Copy, Debug, Default, PartialEq, Eq, Structural)]
pub enum ProtoOperation {
    /// Check proto toolchain and generated-code policy.
    #[default]
    Check,
    /// Find owners for a proto path.
    Owners,
    /// Find consumers for a proto path or package.
    Consumers,
}

/// Proto facade report.
#[derive(Clone, Debug, Default)]
pub struct ProtoFacadeReport {
    /// Matching owner projects.
    pub owners: Vec<ProjectName>,
    /// Matching consumer projects.
    pub consumers: Vec<ProjectName>,
    /// Commands planned or executed by proto toolchains.
    pub commands: Vec<ProcessCommand>,
    /// Diagnostics.
    pub diagnostics: Vec<Diagnostic>,
}

/// `IaC` facade request.
#[derive(Clone, Debug, Default)]
pub struct IacFacadeRequest {
    /// Optional starting path or explicit repo root.
    pub repo: Option<PathBuf>,
    /// Plan only affected `IaC` targets.
    pub affected: bool,
    /// Explicit project selector.
    pub project: Option<ProjectName>,
    /// Environment or stack name.
    pub env: Option<String>,
    /// Plan core infrastructure.
    pub core: bool,
    /// Optional base git ref for affected selection.
    pub base: Option<String>,
    /// Optional head git ref for affected selection.
    pub head: Option<String>,
    /// Explicit changed files for affected selection and risk classification.
    pub changed_files: Vec<RepoRelativePath>,
    /// Plan without executing provider commands.
    pub dry_run: bool,
}

/// `IaC` facade report.
#[derive(Clone, Debug, Default)]
pub struct IacFacadeReport {
    /// Provider plan commands.
    pub commands: Vec<ProcessCommand>,
    /// Risk flags.
    pub risk_flags: Vec<String>,
    /// Diagnostics.
    pub diagnostics: Vec<Diagnostic>,
}

/// Skills facade request.
#[derive(Clone, Debug, Default)]
pub struct SkillsFacadeRequest {
    /// Optional starting path or explicit repo root.
    pub repo: Option<PathBuf>,
    /// Whether to write missing or stale skills.
    pub sync: bool,
    /// Whether to only plan writes.
    pub dry_run: bool,
}

/// Skills facade report.
#[derive(Clone, Debug, Default)]
pub struct SkillsFacadeReport {
    /// Diagnostics.
    pub diagnostics: Vec<Diagnostic>,
}

} // verus!
