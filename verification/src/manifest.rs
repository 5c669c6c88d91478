//! Manifest validation: decoded manifest documents to the domain model.
//!
//! A manifest document is decoded from YAML into the `Raw*` types (with the
//! defaults below filled in for absent keys); everything after that is
//! checked here, field by field and in a fixed order, so that the first
//! problem found is the one reported.
use vstd::prelude::*;

use std::collections::BTreeMap;

use crate::check::normalized_path;
use crate::diagnostic::{Diagnostic, DiagnosticModel, RepoctlError, error_model, with_path_model};
use crate::domain::{
    GeneratedCodePolicy, IacProvider, OwnerHandle, PolicyMode, ProjectDependency,
    ProjectKind, ProjectRelativePath, RepoGlob, RepoLayout, RepoManifest, RepoName,
    RepoPolicySet, RepoRelativePath, SchemaId, Visibility, WorkspaceLanguage,
    dependency_meaning, dependency_parse, glob_parse, glob_result, owner_problem, schema_problem,
};
use crate::check::ident_problem;
use crate::text::{chars_of, concat2, decimal, decimal_exec, owned, push_chars, push_str, str_eq, strs};

verus! {

/// Largest manifest accepted, in bytes.
pub const MANIFEST_MAX_BYTES: usize = 262144;

/// Most owners in one list.
pub const OWNER_LIMIT: usize = 32;

/// Most workspaces in one project.
pub const WORKSPACE_LIMIT: usize = 64;

/// Most tasks in one project.
pub const TASK_LIMIT: usize = 128;

/// Most commands in one task.
pub const TASK_COMMAND_LIMIT: usize = 64;

/// Most dependencies in one project.
pub const DEPENDENCY_LIMIT: usize = 256;

/// Most patterns or paths in one list.
pub const PATTERN_LIMIT: usize = 256;

/// Most inputs in one template.
pub const TEMPLATE_INPUT_LIMIT: usize = 64;

/// Most files in one template.
pub const TEMPLATE_FILE_LIMIT: usize = 512;

// ---------------------------------------------------------------------------
// Decoded documents
// ---------------------------------------------------------------------------

/// Decoded repo manifest.
#[derive(Clone, Debug)]
pub struct RawRepoManifest {
    pub schema: String,
    pub name: String,
    pub layout: String,
    pub defaults: RawRepoDefaults,
    pub protos: RawRepoProtos,
    pub iac: RawRepoIac,
    pub ai: RawRepoAi,
    pub policies: RawRepoPolicies,
}

/// Decoded repo defaults.
#[derive(Clone, Debug, Default)]
pub struct RawRepoDefaults {
    pub owner: Option<String>,
}

/// Decoded repo proto settings.
#[derive(Clone, Debug)]
pub struct RawRepoProtos {
    pub root: String,
    pub generated_code_policy: String,
}

/// Decoded repo infrastructure settings.
#[derive(Clone, Debug)]
pub struct RawRepoIac {
    pub core_infra_root: String,
}

/// Decoded repo AI settings.
#[derive(Clone, Debug)]
pub struct RawRepoAi {
    pub agent_skills_root: String,
    pub claude_skills_root: String,
    pub context_output: String,
}

/// Decoded repo policies.
#[derive(Clone, Debug, Default)]
pub struct RawRepoPolicies {
    pub cross_app_dependency: Option<RawModePolicy>,
    pub framework_internal_dependency: Option<RawModePolicy>,
    pub generated_code: Option<RawGeneratedPolicy>,
    pub prod_change: Option<RawProdChangePolicy>,
}

/// Decoded policy with a mode.
#[derive(Clone, Debug)]
pub struct RawModePolicy {
    pub mode: String,
}

/// Decoded generated-code policy.
#[derive(Clone, Debug)]
pub struct RawGeneratedPolicy {
    pub direct_edit: String,
}

/// Decoded production-change policy.
#[derive(Clone, Debug, Default)]
pub struct RawProdChangePolicy {
    pub required_owners: Vec<String>,
}

// ---------------------------------------------------------------------------
// Defaults for absent keys
// ---------------------------------------------------------------------------

/// Default proto root.
pub fn default_protos_root() -> (s: String)
    ensures
        s@ == "protos"@,
{
    owned("protos")
}

/// Default generated-code policy.
pub fn default_generated_policy() -> (s: String)
    ensures
        s@ == "consumer-local"@,
{
    owned("consumer-local")
}

/// Default core infrastructure root.
pub fn default_core_infra_root() -> (s: String)
    ensures
        s@ == "core-infra"@,
{
    owned("core-infra")
}

/// Default agent skills root.
pub fn default_agent_skills_root() -> (s: String)
    ensures
        s@ == ".agents/skills"@,
{
    owned(".agents/skills")
}

/// Default context output root.
pub fn default_context_output() -> (s: String)
    ensures
        s@ == "target/repoctl/context-packs"@,
{
    owned("target/repoctl/context-packs")
}

/// Default template file mode.
pub fn default_template_mode() -> (s: String)
    ensures
        s@ == "managed"@,
{
    owned("managed")
}

impl RawRepoProtos {
    /// Proto settings with every key absent.
    pub fn defaults() -> (r: Self)
        ensures
            r.root@ == "protos"@,
            r.generated_code_policy@ == "consumer-local"@,
    {
        RawRepoProtos { root: default_protos_root(), generated_code_policy: default_generated_policy() }
    }
}

impl RawRepoIac {
    /// Infrastructure settings with every key absent.
    pub fn defaults() -> (r: Self)
        ensures
            r.core_infra_root@ == "core-infra"@,
    {
        RawRepoIac { core_infra_root: default_core_infra_root() }
    }
}

impl RawRepoAi {
    /// AI settings with every key absent but the second skills root, which
    /// the decoder always supplies.
    pub fn defaults(second_skills_root: String) -> (r: Self)
        ensures
            r.agent_skills_root@ == ".agents/skills"@,
            r.claude_skills_root@ == second_skills_root@,
            r.context_output@ == "target/repoctl/context-packs"@,
    {
        RawRepoAi {
            agent_skills_root: default_agent_skills_root(),
            claude_skills_root: second_skills_root,
            context_output: default_context_output(),
        }
    }
}

// ---------------------------------------------------------------------------
// Ordering of checks
// ---------------------------------------------------------------------------

/// `a` when it holds a problem, else `b`: the earlier check wins.
pub open spec fn either(a: Option<DiagnosticModel>, b: Option<DiagnosticModel>) -> Option<DiagnosticModel> {
    if a is Some {
        a
    } else {
        b
    }
}

/// The first problem in `ps` at or after index `i`.
pub open spec fn first_err(ps: Seq<Option<DiagnosticModel>>, i: int) -> Option<DiagnosticModel>
    decreases ps.len() - i,
{
    if i < 0 || i >= ps.len() {
        None
    } else if ps[i] is Some {
        ps[i]
    } else {
        first_err(ps, i + 1)
    }
}

/// A problem when `cond` holds.
pub open spec fn when(cond: bool, d: DiagnosticModel) -> Option<DiagnosticModel> {
    if cond {
        Some(d)
    } else {
        None
    }
}

/// Error for a list longer than its limit.
pub open spec fn limit_error(code: Seq<char>, limit: nat) -> DiagnosticModel {
    error_model(code, "collection exceeds limit of "@ + decimal(limit))
}

/// Error for a map longer than its limit.
pub open spec fn map_limit_error(code: Seq<char>, limit: nat) -> DiagnosticModel {
    error_model(code, "map exceeds limit of "@ + decimal(limit))
}

/// The limit check, then the first item problem.
pub open spec fn list_problem(len: nat, limit: nat, code: Seq<char>, ps: Seq<Option<DiagnosticModel>>) -> Option<DiagnosticModel> {
    if len > limit {
        Some(limit_error(code, limit))
    } else {
        first_err(ps, 0)
    }
}

fn limit_error_exec(code: &str, limit: usize) -> (d: Diagnostic)
    ensures
        d@ == limit_error(code@, limit as nat),
{
    let mut msg = owned("collection exceeds limit of ");
    push_chars(&mut msg, &decimal_exec(limit));
    Diagnostic::error(code, msg.as_str())
}

fn map_limit_error_exec(code: &str, limit: usize) -> (d: Diagnostic)
    ensures
        d@ == map_limit_error(code@, limit as nat),
{
    let mut msg = owned("map exceeds limit of ");
    push_chars(&mut msg, &decimal_exec(limit));
    Diagnostic::error(code, msg.as_str())
}

// ---------------------------------------------------------------------------
// Item lists
// ---------------------------------------------------------------------------

/// Problems of owner handles, item by item.
pub open spec fn owner_problems(vs: Seq<Seq<char>>) -> Seq<Option<DiagnosticModel>> {
    vs.map_values(|s: Seq<char>| owner_problem(s))
}

/// Problem of a relative path, if any.
pub open spec fn rel_problem(s: Seq<char>, allow_root: bool) -> Option<DiagnosticModel> {
    match normalized_path(s, allow_root) {
        Ok(_) => None,
        Err(d) => Some(d),
    }
}

/// Problems of project-relative paths, item by item.
pub open spec fn project_path_problems(vs: Seq<Seq<char>>) -> Seq<Option<DiagnosticModel>> {
    vs.map_values(|s: Seq<char>| rel_problem(s, true))
}

/// Problem of a glob, if any.
pub open spec fn glob_problem(s: Seq<char>) -> Option<DiagnosticModel> {
    match glob_result(s, glob_parse(s)) {
        Ok(_) => None,
        Err(d) => Some(d),
    }
}

/// Problems of globs, item by item.
pub open spec fn glob_problems(vs: Seq<Seq<char>>) -> Seq<Option<DiagnosticModel>> {
    vs.map_values(|s: Seq<char>| glob_problem(s))
}

/// Problem of a dependency declaration, if any.
pub open spec fn dependency_problem(s: Seq<char>) -> Option<DiagnosticModel> {
    match dependency_parse(s) {
        Ok(_) => None,
        Err(d) => Some(d),
    }
}

/// Problems of dependency declarations, item by item.
pub open spec fn dependency_problems(vs: Seq<Seq<char>>) -> Seq<Option<DiagnosticModel>> {
    vs.map_values(|s: Seq<char>| dependency_problem(s))
}

/// Validates a bounded list of owner handles.
pub fn owners_from(values: &Vec<String>, limit: usize, code: &str) -> (r: Result<Vec<OwnerHandle>, Diagnostic>)
    ensures
        match r {
            Ok(v) => list_problem(values@.len(), limit as nat, code@, owner_problems(strs(values@))) is None
                && v@.len() == values@.len()
                && forall|k: int| 0 <= k < v@.len() ==> (#[trigger] v@[k])@ == values@[k]@,
            Err(d) => list_problem(values@.len(), limit as nat, code@, owner_problems(strs(values@))) == Some(d@),
        },
{
    if values.len() > limit {
        return Err(limit_error_exec(code, limit));
    }
    let ghost ps = owner_problems(strs(values@));
    let mut out: Vec<OwnerHandle> = Vec::new();
    let mut i: usize = 0;
    while i < values.len()
        invariant
            i <= values.len(),
            values@.len() <= limit,
            ps == owner_problems(strs(values@)),
            first_err(ps, 0) == first_err(ps, i as int),
            out@.len() == i,
            forall|k: int| 0 <= k < i ==> (#[trigger] out@[k])@ == values@[k]@,
        decreases values.len() - i,
    {
        match OwnerHandle::new(values[i].as_str()) {
            Ok(o) => {
                out.push(o);
            },
            Err(d) => {
                assert(strs(values@)[i as int] == values@[i as int]@);
                assert(ps[i as int] == Some(d@));
                return Err(d);
            },
        }
        assert(strs(values@)[i as int] == values@[i as int]@);
        i = i + 1;
    }
    Ok(out)
}

/// Validates a bounded list of project-relative paths.
pub fn project_paths_from(values: &Vec<String>, limit: usize, code: &str) -> (r: Result<Vec<ProjectRelativePath>, Diagnostic>)
    ensures
        match r {
            Ok(v) => list_problem(values@.len(), limit as nat, code@, project_path_problems(strs(values@))) is None
                && v@.len() == values@.len()
                && forall|k: int| 0 <= k < v@.len() ==> normalized_path(values@[k]@, true) == Ok::<Seq<char>, DiagnosticModel>((#[trigger] v@[k])@),
            Err(d) => list_problem(values@.len(), limit as nat, code@, project_path_problems(strs(values@))) == Some(d@),
        },
{
    if values.len() > limit {
        return Err(limit_error_exec(code, limit));
    }
    let ghost ps = project_path_problems(strs(values@));
    let mut out: Vec<ProjectRelativePath> = Vec::new();
    let mut i: usize = 0;
    while i < values.len()
        invariant
            i <= values.len(),
            values@.len() <= limit,
            ps == project_path_problems(strs(values@)),
            first_err(ps, 0) == first_err(ps, i as int),
            out@.len() == i,
            forall|k: int| 0 <= k < i ==> normalized_path(values@[k]@, true) == Ok::<Seq<char>, DiagnosticModel>((#[trigger] out@[k])@),
        decreases values.len() - i,
    {
        match ProjectRelativePath::new(values[i].as_str()) {
            Ok(p) => {
                out.push(p);
            },
            Err(d) => {
                assert(strs(values@)[i as int] == values@[i as int]@);
                assert(ps[i as int] == Some(d@));
                return Err(d);
            },
        }
        assert(strs(values@)[i as int] == values@[i as int]@);
        i = i + 1;
    }
    Ok(out)
}

/// Validates a bounded list of globs.
pub fn globs_from(values: &Vec<String>, limit: usize, code: &str) -> (r: Result<Vec<RepoGlob>, Diagnostic>)
    ensures
        match r {
            Ok(v) => list_problem(values@.len(), limit as nat, code@, glob_problems(strs(values@))) is None
                && v@.len() == values@.len()
                && forall|k: int| 0 <= k < v@.len() ==> (#[trigger] v@[k])@ == values@[k]@,
            Err(d) => list_problem(values@.len(), limit as nat, code@, glob_problems(strs(values@))) == Some(d@),
        },
{
    if values.len() > limit {
        return Err(limit_error_exec(code, limit));
    }
    let ghost ps = glob_problems(strs(values@));
    let mut out: Vec<RepoGlob> = Vec::new();
    let mut i: usize = 0;
    while i < values.len()
        invariant
            i <= values.len(),
            values@.len() <= limit,
            ps == glob_problems(strs(values@)),
            first_err(ps, 0) == first_err(ps, i as int),
            out@.len() == i,
            forall|k: int| 0 <= k < i ==> (#[trigger] out@[k])@ == values@[k]@,
        decreases values.len() - i,
    {
        match RepoGlob::new(values[i].as_str()) {
            Ok(g) => {
                out.push(g);
            },
            Err(d) => {
                assert(strs(values@)[i as int] == values@[i as int]@);
                assert(ps[i as int] == Some(d@));
                return Err(d);
            },
        }
        assert(strs(values@)[i as int] == values@[i as int]@);
        i = i + 1;
    }
    Ok(out)
}

/// Validates a bounded list of dependency declarations.
pub fn dependencies_from(values: &Vec<String>, limit: usize, code: &str) -> (r: Result<Vec<ProjectDependency>, Diagnostic>)
    ensures
        match r {
            Ok(v) => list_problem(values@.len(), limit as nat, code@, dependency_problems(strs(values@))) is None
                && v@.len() == values@.len()
                && forall|k: int| 0 <= k < v@.len() ==> (#[trigger] v@[k]).id@ == values@[k]@
                    && dependency_parse(values@[k]@) == Ok::<crate::domain::DependencyMeaning, DiagnosticModel>(dependency_meaning(v@[k])),
            Err(d) => list_problem(values@.len(), limit as nat, code@, dependency_problems(strs(values@))) == Some(d@),
        },
{
    if values.len() > limit {
        return Err(limit_error_exec(code, limit));
    }
    let ghost ps = dependency_problems(strs(values@));
    let mut out: Vec<ProjectDependency> = Vec::new();
    let mut i: usize = 0;
    while i < values.len()
        invariant
            i <= values.len(),
            values@.len() <= limit,
            ps == dependency_problems(strs(values@)),
            first_err(ps, 0) == first_err(ps, i as int),
            out@.len() == i,
            forall|k: int| 0 <= k < i ==> (#[trigger] out@[k]).id@ == values@[k]@
                && dependency_parse(values@[k]@) == Ok::<crate::domain::DependencyMeaning, DiagnosticModel>(dependency_meaning(out@[k])),
        decreases values.len() - i,
    {
        match ProjectDependency::parse(values[i].as_str()) {
            Ok(dep) => {
                out.push(dep);
            },
            Err(d) => {
                assert(strs(values@)[i as int] == values@[i as int]@);
                assert(ps[i as int] == Some(d@));
                return Err(d);
            },
        }
        assert(strs(values@)[i as int] == values@[i as int]@);
        i = i + 1;
    }
    Ok(out)
}

// ---------------------------------------------------------------------------
// Enumerated values
// ---------------------------------------------------------------------------

/// Result of reading a repository layout.
pub open spec fn repo_layout_parse(v: Seq<char>) -> Result<RepoLayout, DiagnosticModel> {
    if v == "functional"@ {
        Ok(RepoLayout::Functional)
    } else {
        Err(error_model("manifest.repo.layout"@, "layout must be functional for v0.2"@))
    }
}

/// Reads a repository layout.
pub fn parse_repo_layout(value: &str) -> (r: Result<RepoLayout, Diagnostic>)
    ensures
        match r {
            Ok(x) => repo_layout_parse(value@) == Ok::<RepoLayout, DiagnosticModel>(x),
            Err(d) => repo_layout_parse(value@) == Err::<RepoLayout, DiagnosticModel>(d@),
        },
{
    if str_eq(value, "functional") {
        Ok(RepoLayout::Functional)
    } else {
        Err(Diagnostic::error("manifest.repo.layout", "layout must be functional for v0.2"))
    }
}

/// Result of reading a policy mode.
pub open spec fn policy_mode_parse(v: Seq<char>) -> Result<PolicyMode, DiagnosticModel> {
    if v == "deny"@ {
        Ok(PolicyMode::Deny)
    } else if v == "warn"@ {
        Ok(PolicyMode::Warn)
    } else if v == "allow"@ {
        Ok(PolicyMode::Allow)
    } else {
        Err(error_model("manifest.policy.mode"@, "unsupported policy mode `"@ + v + "`"@))
    }
}

/// Reads a policy mode.
pub fn parse_policy_mode(value: &str) -> (r: Result<PolicyMode, Diagnostic>)
    ensures
        match r {
            Ok(x) => policy_mode_parse(value@) == Ok::<PolicyMode, DiagnosticModel>(x),
            Err(d) => policy_mode_parse(value@) == Err::<PolicyMode, DiagnosticModel>(d@),
        },
{
    if str_eq(value, "deny") {
        Ok(PolicyMode::Deny)
    } else if str_eq(value, "warn") {
        Ok(PolicyMode::Warn)
    } else if str_eq(value, "allow") {
        Ok(PolicyMode::Allow)
    } else {
        let mut msg = concat2("unsupported policy mode `", value);
        push_str(&mut msg, "`");
        Err(Diagnostic::error("manifest.policy.mode", msg.as_str()))
    }
}

/// Result of reading a generated-code policy.
pub open spec fn generated_policy_parse(v: Seq<char>) -> Result<GeneratedCodePolicy, DiagnosticModel> {
    if v == "consumer-local"@ {
        Ok(GeneratedCodePolicy::ConsumerLocal)
    } else {
        Err(error_model("manifest.repo.generated_policy"@, "generated_code_policy must be consumer-local for v0.2"@))
    }
}

/// Reads a generated-code policy.
pub fn parse_generated_policy(value: &str) -> (r: Result<GeneratedCodePolicy, Diagnostic>)
    ensures
        match r {
            Ok(x) => generated_policy_parse(value@) == Ok::<GeneratedCodePolicy, DiagnosticModel>(x),
            Err(d) => generated_policy_parse(value@) == Err::<GeneratedCodePolicy, DiagnosticModel>(d@),
        },
{
    if str_eq(value, "consumer-local") {
        Ok(GeneratedCodePolicy::ConsumerLocal)
    } else {
        Err(Diagnostic::error("manifest.repo.generated_policy", "generated_code_policy must be consumer-local for v0.2"))
    }
}

/// Result of reading a project kind. Only the five kinds that manifests
/// may declare are accepted.
pub open spec fn project_kind_parse(v: Seq<char>) -> Result<ProjectKind, DiagnosticModel> {
    if v == "app"@ {
        Ok(ProjectKind::App)
    } else if v == "framework"@ {
        Ok(ProjectKind::Framework)
    } else if v == "foundation-service"@ {
        Ok(ProjectKind::FoundationService)
    } else if v == "proto-root"@ {
        Ok(ProjectKind::ProtoRoot)
    } else if v == "core-infra"@ {
        Ok(ProjectKind::CoreInfra)
    } else {
        Err(error_model("manifest.project.kind"@, "unsupported project kind `"@ + v + "`"@))
    }
}

/// Reads a project kind.
pub fn parse_project_kind(value: &str) -> (r: Result<ProjectKind, Diagnostic>)
    ensures
        match r {
            Ok(x) => project_kind_parse(value@) == Ok::<ProjectKind, DiagnosticModel>(x),
            Err(d) => project_kind_parse(value@) == Err::<ProjectKind, DiagnosticModel>(d@),
        },
{
    if str_eq(value, "app") {
        Ok(ProjectKind::App)
    } else if str_eq(value, "framework") {
        Ok(ProjectKind::Framework)
    } else if str_eq(value, "foundation-service") {
        Ok(ProjectKind::FoundationService)
    } else if str_eq(value, "proto-root") {
        Ok(ProjectKind::ProtoRoot)
    } else if str_eq(value, "core-infra") {
        Ok(ProjectKind::CoreInfra)
    } else {
        let mut msg = concat2("unsupported project kind `", value);
        push_str(&mut msg, "`");
        Err(Diagnostic::error("manifest.project.kind", msg.as_str()))
    }
}

/// Result of reading a visibility.
pub open spec fn visibility_parse(v: Seq<char>) -> Result<Visibility, DiagnosticModel> {
    if v == "internal"@ {
        Ok(Visibility::Internal)
    } else if v == "public"@ {
        Ok(Visibility::Public)
    } else {
        Err(error_model("manifest.project.visibility"@, "unsupported visibility `"@ + v + "`"@))
    }
}

/// Reads a visibility.
pub fn parse_visibility(value: &str) -> (r: Result<Visibility, Diagnostic>)
    ensures
        match r {
            Ok(x) => visibility_parse(value@) == Ok::<Visibility, DiagnosticModel>(x),
            Err(d) => visibility_parse(value@) == Err::<Visibility, DiagnosticModel>(d@),
        },
{
    if str_eq(value, "internal") {
        Ok(Visibility::Internal)
    } else if str_eq(value, "public") {
        Ok(Visibility::Public)
    } else {
        let mut msg = concat2("unsupported visibility `", value);
        push_str(&mut msg, "`");
        Err(Diagnostic::error("manifest.project.visibility", msg.as_str()))
    }
}

/// Result of reading a workspace language.
pub open spec fn workspace_language_parse(v: Seq<char>) -> Result<WorkspaceLanguage, DiagnosticModel> {
    if v == "rust"@ {
        Ok(WorkspaceLanguage::Rust)
    } else if v == "typescript"@ {
        Ok(WorkspaceLanguage::TypeScript)
    } else if v == "python"@ {
        Ok(WorkspaceLanguage::Python)
    } else if v == "proto"@ {
        Ok(WorkspaceLanguage::Proto)
    } else if v == "iac"@ {
        Ok(WorkspaceLanguage::Iac)
    } else {
        Err(error_model("manifest.workspace.language"@, "unsupported workspace language `"@ + v + "`"@))
    }
}

/// Reads a workspace language.
pub fn parse_workspace_language(value: &str) -> (r: Result<WorkspaceLanguage, Diagnostic>)
    ensures
        match r {
            Ok(x) => workspace_language_parse(value@) == Ok::<WorkspaceLanguage, DiagnosticModel>(x),
            Err(d) => workspace_language_parse(value@) == Err::<WorkspaceLanguage, DiagnosticModel>(d@),
        },
{
    if str_eq(value, "rust") {
        Ok(WorkspaceLanguage::Rust)
    } else if str_eq(value, "typescript") {
        Ok(WorkspaceLanguage::TypeScript)
    } else if str_eq(value, "python") {
        Ok(WorkspaceLanguage::Python)
    } else if str_eq(value, "proto") {
        Ok(WorkspaceLanguage::Proto)
    } else if str_eq(value, "iac") {
        Ok(WorkspaceLanguage::Iac)
    } else {
        let mut msg = concat2("unsupported workspace language `", value);
        push_str(&mut msg, "`");
        Err(Diagnostic::error("manifest.workspace.language", msg.as_str()))
    }
}

/// Result of reading an infrastructure provider.
pub open spec fn iac_provider_parse(v: Seq<char>) -> Result<IacProvider, DiagnosticModel> {
    if v == "pulumi"@ {
        Ok(IacProvider::Pulumi)
    } else if v == "terraform"@ {
        Ok(IacProvider::Terraform)
    } else if v == "opentofu"@ {
        Ok(IacProvider::OpenTofu)
    } else {
        Err(error_model("manifest.iac.provider"@, "unsupported IaC provider `"@ + v + "`"@))
    }
}

/// Reads an infrastructure provider.
pub fn parse_iac_provider(value: &str) -> (r: Result<IacProvider, Diagnostic>)
    ensures
        match r {
            Ok(x) => iac_provider_parse(value@) == Ok::<IacProvider, DiagnosticModel>(x),
            Err(d) => iac_provider_parse(value@) == Err::<IacProvider, DiagnosticModel>(d@),
        },
{
    if str_eq(value, "pulumi") {
        Ok(IacProvider::Pulumi)
    } else if str_eq(value, "terraform") {
        Ok(IacProvider::Terraform)
    } else if str_eq(value, "opentofu") {
        Ok(IacProvider::OpenTofu)
    } else {
        let mut msg = concat2("unsupported IaC provider `", value);
        push_str(&mut msg, "`");
        Err(Diagnostic::error("manifest.iac.provider", msg.as_str()))
    }
}

/// The problem half of a parse result.
pub open spec fn err_of<T>(r: Result<T, DiagnosticModel>) -> Option<DiagnosticModel> {
    match r {
        Ok(_) => None,
        Err(d) => Some(d),
    }
}

// ---------------------------------------------------------------------------
// Repo manifest
// ---------------------------------------------------------------------------

/// Problem of an optional mode policy.
pub open spec fn mode_policy_problem(p: Option<RawModePolicy>) -> Option<DiagnosticModel> {
    match p {
        None => None,
        Some(x) => err_of(policy_mode_parse(x.mode@)),
    }
}

/// Mode of an optional mode policy: deny when absent.
pub open spec fn mode_policy_value(p: Option<RawModePolicy>) -> PolicyMode {
    match p {
        None => PolicyMode::Deny,
        Some(x) => match policy_mode_parse(x.mode@) {
            Ok(m) => m,
            Err(_) => PolicyMode::Deny,
        },
    }
}

/// Problem of an optional generated-code policy.
pub open spec fn generated_code_problem(p: Option<RawGeneratedPolicy>) -> Option<DiagnosticModel> {
    match p {
        None => None,
        Some(x) => err_of(policy_mode_parse(x.direct_edit@)),
    }
}

/// Direct-edit mode of an optional generated-code policy: deny when absent.
pub open spec fn generated_code_value(p: Option<RawGeneratedPolicy>) -> PolicyMode {
    match p {
        None => PolicyMode::Deny,
        Some(x) => match policy_mode_parse(x.direct_edit@) {
            Ok(m) => m,
            Err(_) => PolicyMode::Deny,
        },
    }
}

/// Required owners of a production-change policy: none when absent.
pub open spec fn prod_owners(p: Option<RawProdChangePolicy>) -> Seq<Seq<char>> {
    match p {
        None => Seq::empty(),
        Some(x) => strs(x.required_owners@),
    }
}

/// Problem of an optional owner handle.
pub open spec fn opt_owner_problem(o: Option<String>) -> Option<DiagnosticModel> {
    match o {
        None => None,
        Some(s) => owner_problem(s@),
    }
}

/// First problem among the schema, layout and default owner.
pub open spec fn repo_header_problem(raw: RawRepoManifest) -> Option<DiagnosticModel> {
    either(schema_problem(raw.schema@),
    either(when(raw.schema@ != "company.repo/v1"@,
        error_model("manifest.schema.unsupported"@, "repo manifest schema must be company.repo/v1"@)),
    either(err_of(repo_layout_parse(raw.layout@)),
    opt_owner_problem(raw.defaults.owner))))
}

/// First problem among the repo policies.
pub open spec fn repo_policy_problem(p: RawRepoPolicies) -> Option<DiagnosticModel> {
    either(mode_policy_problem(p.cross_app_dependency),
    either(mode_policy_problem(p.framework_internal_dependency),
    either(generated_code_problem(p.generated_code),
    list_problem(prod_owners(p.prod_change).len(), 32, "manifest.owner.too_many"@,
        owner_problems(prod_owners(p.prod_change))))))
}

/// First problem among the name, the roots and the generated-code policy.
pub open spec fn repo_roots_problem(raw: RawRepoManifest) -> Option<DiagnosticModel> {
    either(ident_problem("repo name"@, raw.name@, 128, false),
    either(rel_problem(raw.protos.root@, false),
    either(rel_problem(raw.iac.core_infra_root@, false),
    either(rel_problem(raw.ai.agent_skills_root@, false),
    either(rel_problem(raw.ai.claude_skills_root@, false),
    either(rel_problem(raw.ai.context_output@, false),
    err_of(generated_policy_parse(raw.protos.generated_code_policy@))))))))
}

/// The first problem of a decoded repo manifest, in the order the fields
/// are checked.
pub open spec fn repo_manifest_problem(raw: RawRepoManifest) -> Option<DiagnosticModel> {
    either(repo_header_problem(raw), either(repo_policy_problem(raw.policies), repo_roots_problem(raw)))
}

/// Whether a validated repo manifest carries exactly the decoded values.
pub open spec fn repo_manifest_matches(raw: RawRepoManifest, m: RepoManifest) -> bool {
    &&& m.schema@ == raw.schema@
    &&& m.name@ == raw.name@
    &&& m.layout == RepoLayout::Functional
    &&& match (raw.defaults.owner, m.default_owner) {
        (Some(s), Some(o)) => o@ == s@,
        (None, None) => true,
        _ => false,
    }
    &&& normalized_path(raw.protos.root@, false) == Ok::<Seq<char>, DiagnosticModel>(m.protos_root@)
    &&& normalized_path(raw.iac.core_infra_root@, false) == Ok::<Seq<char>, DiagnosticModel>(m.core_infra_root@)
    &&& normalized_path(raw.ai.agent_skills_root@, false) == Ok::<Seq<char>, DiagnosticModel>(m.agent_skills_root@)
    &&& normalized_path(raw.ai.claude_skills_root@, false) == Ok::<Seq<char>, DiagnosticModel>(m.claude_skills_root@)
    &&& normalized_path(raw.ai.context_output@, false) == Ok::<Seq<char>, DiagnosticModel>(m.context_output@)
    &&& m.generated_code_policy == GeneratedCodePolicy::ConsumerLocal
    &&& m.policies.cross_app_dependency == mode_policy_value(raw.policies.cross_app_dependency)
    &&& m.policies.framework_internal_dependency == mode_policy_value(raw.policies.framework_internal_dependency)
    &&& m.policies.generated_code_direct_edit == generated_code_value(raw.policies.generated_code)
    &&& m.policies.prod_change_required_owners@.len() == prod_owners(raw.policies.prod_change).len()
    &&& forall|k: int| 0 <= k < m.policies.prod_change_required_owners@.len()
        ==> (#[trigger] m.policies.prod_change_required_owners@[k])@ == prod_owners(raw.policies.prod_change)[k]
}

fn mode_policy_from(p: &Option<RawModePolicy>) -> (r: Result<PolicyMode, Diagnostic>)
    ensures
        match r {
            Ok(m) => mode_policy_problem(*p) is None && m == mode_policy_value(*p),
            Err(d) => mode_policy_problem(*p) == Some(d@),
        },
{
    match p {
        None => Ok(PolicyMode::Deny),
        Some(x) => parse_policy_mode(x.mode.as_str()),
    }
}

fn generated_code_from(p: &Option<RawGeneratedPolicy>) -> (r: Result<PolicyMode, Diagnostic>)
    ensures
        match r {
            Ok(m) => generated_code_problem(*p) is None && m == generated_code_value(*p),
            Err(d) => generated_code_problem(*p) == Some(d@),
        },
{
    match p {
        None => Ok(PolicyMode::Deny),
        Some(x) => parse_policy_mode(x.direct_edit.as_str()),
    }
}

fn prod_owners_from(p: &Option<RawProdChangePolicy>) -> (r: Result<Vec<OwnerHandle>, Diagnostic>)
    ensures
        match r {
            Ok(v) => list_problem(prod_owners(*p).len(), 32, "manifest.owner.too_many"@, owner_problems(prod_owners(*p))) is None
                && v@.len() == prod_owners(*p).len()
                && forall|k: int| 0 <= k < v@.len() ==> (#[trigger] v@[k])@ == prod_owners(*p)[k],
            Err(d) => list_problem(prod_owners(*p).len(), 32, "manifest.owner.too_many"@, owner_problems(prod_owners(*p))) == Some(d@),
        },
{
    match p {
        None => {
            let v: Vec<OwnerHandle> = Vec::new();
            assert(owner_problems(prod_owners(*p)) =~= Seq::<Option<DiagnosticModel>>::empty());
            Ok(v)
        },
        Some(x) => owners_from(&x.required_owners, OWNER_LIMIT, "manifest.owner.too_many"),
    }
}

impl RawRepoManifest {
    /// Validates a decoded repo manifest.
    pub fn into_domain(&self) -> (r: Result<RepoManifest, Diagnostic>)
        ensures
            match r {
                Ok(m) => repo_manifest_problem(*self) is None && repo_manifest_matches(*self, m),
                Err(d) => repo_manifest_problem(*self) == Some(d@),
            },
    {
        let schema = SchemaId::new(self.schema.as_str())?;
        if !str_eq(schema.as_str(), "company.repo/v1") {
            return Err(Diagnostic::error("manifest.schema.unsupported", "repo manifest schema must be company.repo/v1"));
        }
        let layout = parse_repo_layout(self.layout.as_str())?;
        let default_owner = match &self.defaults.owner {
            Some(o) => Some(OwnerHandle::new(o.as_str())?),
            None => None,
        };
        let cross_app_dependency = mode_policy_from(&self.policies.cross_app_dependency)?;
        let framework_internal_dependency = mode_policy_from(&self.policies.framework_internal_dependency)?;
        let generated_code_direct_edit = generated_code_from(&self.policies.generated_code)?;
        let prod_change_required_owners = prod_owners_from(&self.policies.prod_change)?;
        let policies = RepoPolicySet {
            cross_app_dependency,
            framework_internal_dependency,
            generated_code_direct_edit,
            prod_change_required_owners,
        };
        let name = RepoName::new(self.name.as_str())?;
        let protos_root = RepoRelativePath::new(self.protos.root.as_str())?;
        let core_infra_root = RepoRelativePath::new(self.iac.core_infra_root.as_str())?;
        let agent_skills_root = RepoRelativePath::new(self.ai.agent_skills_root.as_str())?;
        let claude_skills_root = RepoRelativePath::new(self.ai.claude_skills_root.as_str())?;
        let context_output = RepoRelativePath::new(self.ai.context_output.as_str())?;
        let generated_code_policy = parse_generated_policy(self.protos.generated_code_policy.as_str())?;
        Ok(RepoManifest {
            schema,
            name,
            layout,
            default_owner,
            protos_root,
            core_infra_root,
            agent_skills_root,
            claude_skills_root,
            context_output,
            generated_code_policy,
            policies,
        })
    }
}

// ---------------------------------------------------------------------------
// Workspaces
// ---------------------------------------------------------------------------

/// Decoded workspace declaration.
#[derive(Clone, Debug)]
pub struct RawWorkspaceSpec {
    pub name: String,
    pub language: String,
    pub toolchain: Option<String>,
    pub root: String,
    pub manifest: String,
    pub lockfile: Option<String>,
    pub target_dir: Option<String>,
    pub cache_dir: Option<String>,
}

/// A normalized path, or the empty sequence when it is rejected.
pub open spec fn norm_or_empty(v: Seq<char>, allow_root: bool) -> Seq<char> {
    match normalized_path(v, allow_root) {
        Ok(p) => p,
        Err(_) => Seq::empty(),
    }
}

/// `v` without a leading `{repo_root}/`.
pub open spec fn template_stripped(v: Seq<char>) -> Seq<char> {
    if crate::text::has_prefix(v, "{repo_root}/"@) {
        v.subrange(12, v.len() as int)
    } else {
        v
    }
}

/// Result of reading a repo path that may start with `{repo_root}/`.
pub open spec fn template_path(v: Seq<char>) -> Result<Seq<char>, DiagnosticModel> {
    normalized_path(template_stripped(v), false)
}

/// Reads a repo path that may start with `{repo_root}/`.
pub fn repo_path_from_template(value: &str) -> (r: Result<RepoRelativePath, Diagnostic>)
    ensures
        match r {
            Ok(p) => template_path(value@) == Ok::<Seq<char>, DiagnosticModel>(p@),
            Err(d) => template_path(value@) == Err::<Seq<char>, DiagnosticModel>(d@),
        },
{
    let v = chars_of(value);
    let prefix = chars_of("{repo_root}/");
    proof {
        reveal_strlit("{repo_root}/");
    }
    if crate::text::starts_with(&v, &prefix) {
        let rest = crate::text::slice_chars(&v, prefix.len(), v.len());
        let text = crate::text::string_of(&rest);
        RepoRelativePath::new(text.as_str())
    } else {
        RepoRelativePath::new(value)
    }
}

/// Problem of an optional project-relative path.
pub open spec fn opt_rel_problem(o: Option<String>) -> Option<DiagnosticModel> {
    match o {
        None => None,
        Some(s) => rel_problem(s@, true),
    }
}

/// Problem of an optional templated repo path.
pub open spec fn opt_template_problem(o: Option<String>) -> Option<DiagnosticModel> {
    match o {
        None => None,
        Some(s) => err_of(template_path(s@)),
    }
}

/// Problem of an optional toolchain.
pub open spec fn opt_toolchain_problem(o: Option<String>) -> Option<DiagnosticModel> {
    match o {
        None => None,
        Some(s) => crate::domain::toolchain_problem(s@),
    }
}

/// Problem of a manifest that is not under its workspace root.
pub open spec fn outside_root_problem(root: Seq<char>, manifest: Seq<char>) -> Option<DiagnosticModel> {
    when(
        root != seq!['.'] && !crate::text::has_prefix(manifest, root.push('/')),
        error_model("manifest.workspace.manifest_outside_root"@, "workspace manifest must live under the workspace root"@),
    )
}

/// First problem among a workspace's root, manifest and name.
pub open spec fn workspace_head_problem(w: RawWorkspaceSpec) -> Option<DiagnosticModel> {
    either(rel_problem(w.root@, true),
    either(rel_problem(w.manifest@, true),
    either(outside_root_problem(norm_or_empty(w.root@, true), norm_or_empty(w.manifest@, true)),
    ident_problem("workspace name"@, w.name@, 128, false))))
}

/// First problem among a workspace's language, toolchain and paths.
pub open spec fn workspace_tail_problem(w: RawWorkspaceSpec) -> Option<DiagnosticModel> {
    either(err_of(workspace_language_parse(w.language@)),
    either(opt_toolchain_problem(w.toolchain),
    either(opt_rel_problem(w.lockfile),
    either(opt_template_problem(w.target_dir),
    opt_template_problem(w.cache_dir)))))
}

/// First problem of a decoded workspace.
pub open spec fn workspace_problem(w: RawWorkspaceSpec) -> Option<DiagnosticModel> {
    either(workspace_head_problem(w), workspace_tail_problem(w))
}

/// An optional project-relative path matches its decoded text.
pub open spec fn opt_rel_matches(raw: Option<String>, v: Option<ProjectRelativePath>) -> bool {
    match (raw, v) {
        (None, None) => true,
        (Some(s), Some(p)) => normalized_path(s@, true) == Ok::<Seq<char>, DiagnosticModel>(p@),
        _ => false,
    }
}

/// An optional repo path matches its decoded, possibly templated text.
pub open spec fn opt_template_matches(raw: Option<String>, v: Option<RepoRelativePath>) -> bool {
    match (raw, v) {
        (None, None) => true,
        (Some(s), Some(p)) => template_path(s@) == Ok::<Seq<char>, DiagnosticModel>(p@),
        _ => false,
    }
}

/// A validated workspace carries exactly the decoded values.
pub open spec fn workspace_matches(raw: RawWorkspaceSpec, w: crate::domain::WorkspaceSpec) -> bool {
    &&& w.name@ == raw.name@
    &&& workspace_language_parse(raw.language@) == Ok::<WorkspaceLanguage, DiagnosticModel>(w.language)
    &&& match (raw.toolchain, w.toolchain) {
        (None, None) => true,
        (Some(s), Some(t)) => crate::domain::toolchain_text(t) == s@,
        _ => false,
    }
    &&& normalized_path(raw.root@, true) == Ok::<Seq<char>, DiagnosticModel>(w.root@)
    &&& normalized_path(raw.manifest@, true) == Ok::<Seq<char>, DiagnosticModel>(w.manifest@)
    &&& opt_rel_matches(raw.lockfile, w.lockfile)
    &&& opt_template_matches(raw.target_dir, w.target_dir)
    &&& opt_template_matches(raw.cache_dir, w.cache_dir)
}

fn opt_project_path(o: &Option<String>) -> (r: Result<Option<ProjectRelativePath>, Diagnostic>)
    ensures
        match r {
            Ok(v) => opt_rel_problem(*o) is None && opt_rel_matches(*o, v),
            Err(d) => opt_rel_problem(*o) == Some(d@),
        },
{
    match o {
        None => Ok(None),
        Some(s) => Ok(Some(ProjectRelativePath::new(s.as_str())?)),
    }
}

fn opt_template_path(o: &Option<String>) -> (r: Result<Option<RepoRelativePath>, Diagnostic>)
    ensures
        match r {
            Ok(v) => opt_template_problem(*o) is None && opt_template_matches(*o, v),
            Err(d) => opt_template_problem(*o) == Some(d@),
        },
{
    match o {
        None => Ok(None),
        Some(s) => Ok(Some(repo_path_from_template(s.as_str())?)),
    }
}

impl RawWorkspaceSpec {
    /// Validates a decoded workspace.
    pub fn into_domain(&self) -> (r: Result<crate::domain::WorkspaceSpec, Diagnostic>)
        ensures
            match r {
                Ok(w) => workspace_problem(*self) is None && workspace_matches(*self, w),
                Err(d) => workspace_problem(*self) == Some(d@),
            },
    {
        let root = ProjectRelativePath::new(self.root.as_str())?;
        let manifest = ProjectRelativePath::new(self.manifest.as_str())?;
        let r = chars_of(root.as_str());
        let m = chars_of(manifest.as_str());
        let is_dot = r.len() == 1 && r[0] == '.';
        if is_dot {
            assert(root@ =~= seq!['.']);
        } else {
            assert(root@ != seq!['.']) by {
                if root@ == seq!['.'] {
                    assert(root@.len() == 1);
                }
            }
        }
        let mut under = crate::check::copy_chars(&r);
        under.push('/');
        if !is_dot && !crate::text::starts_with(&m, &under) {
            return Err(Diagnostic::error(
                "manifest.workspace.manifest_outside_root",
                "workspace manifest must live under the workspace root",
            ));
        }
        let name = crate::domain::WorkspaceName::new(self.name.as_str())?;
        let language = parse_workspace_language(self.language.as_str())?;
        let toolchain = match &self.toolchain {
            None => None,
            Some(t) => Some(crate::domain::Toolchain::parse(t.as_str())?),
        };
        let lockfile = opt_project_path(&self.lockfile)?;
        let target_dir = opt_template_path(&self.target_dir)?;
        let cache_dir = opt_template_path(&self.cache_dir)?;
        Ok(crate::domain::WorkspaceSpec { name, language, toolchain, root, manifest, lockfile, target_dir, cache_dir })
    }
}

/// First problem of a decoded workspace list.
pub open spec fn workspaces_problem(raws: Seq<RawWorkspaceSpec>) -> Option<DiagnosticModel> {
    list_problem(raws.len(), 64, "manifest.workspace.too_many"@, raws.map_values(|w: RawWorkspaceSpec| workspace_problem(w)))
}

/// Validates a bounded list of decoded workspaces.
pub fn workspaces_from(raws: &Vec<RawWorkspaceSpec>) -> (r: Result<Vec<crate::domain::WorkspaceSpec>, Diagnostic>)
    ensures
        match r {
            Ok(v) => workspaces_problem(raws@) is None && v@.len() == raws@.len()
                && forall|k: int| 0 <= k < v@.len() ==> workspace_matches(raws@[k], #[trigger] v@[k]),
            Err(d) => workspaces_problem(raws@) == Some(d@),
        },
{
    if raws.len() > WORKSPACE_LIMIT {
        return Err(limit_error_exec("manifest.workspace.too_many", WORKSPACE_LIMIT));
    }
    let ghost ps = raws@.map_values(|w: RawWorkspaceSpec| workspace_problem(w));
    let mut out: Vec<crate::domain::WorkspaceSpec> = Vec::new();
    let mut i: usize = 0;
    while i < raws.len()
        invariant
            i <= raws.len(),
            raws@.len() <= 64,
            ps == raws@.map_values(|w: RawWorkspaceSpec| workspace_problem(w)),
            first_err(ps, 0) == first_err(ps, i as int),
            out@.len() == i,
            forall|k: int| 0 <= k < i ==> workspace_matches(raws@[k], #[trigger] out@[k]),
        decreases raws.len() - i,
    {
        match raws[i].into_domain() {
            Ok(w) => {
                out.push(w);
            },
            Err(d) => {
                assert(ps[i as int] == Some(d@));
                return Err(d);
            },
        }
        i = i + 1;
    }
    Ok(out)
}

/// Error for a workspace name declared twice.
pub open spec fn duplicate_workspace_error(name: Seq<char>) -> DiagnosticModel {
    error_model("manifest.workspace.duplicate_name"@, "duplicate workspace name `"@ + name + "`"@)
}

/// Some earlier name equals the one at `j`.
pub open spec fn repeats_earlier(names: Seq<Seq<char>>, j: int) -> bool {
    exists|i: int| 0 <= i < j && #[trigger] names[i] == names[j]
}

/// The first name repeated from earlier in the list, as a problem.
pub open spec fn duplicate_name_problem(names: Seq<Seq<char>>) -> Option<DiagnosticModel> {
    first_err(Seq::new(names.len(), |j: int| when(repeats_earlier(names, j), duplicate_workspace_error(names[j]))), 0)
}

/// Names of validated workspaces.
pub open spec fn workspace_names(ws: Seq<crate::domain::WorkspaceSpec>) -> Seq<Seq<char>> {
    ws.map_values(|w: crate::domain::WorkspaceSpec| w.name@)
}

/// Rejects a workspace name that occurs twice.
pub fn validate_unique_workspace_names(workspaces: &Vec<crate::domain::WorkspaceSpec>) -> (r: Result<(), Diagnostic>)
    ensures
        match r {
            Ok(()) => duplicate_name_problem(workspace_names(workspaces@)) is None,
            Err(d) => duplicate_name_problem(workspace_names(workspaces@)) == Some(d@),
        },
{
    let ghost names = workspace_names(workspaces@);
    let ghost ps = Seq::new(names.len(), |j: int| when(repeats_earlier(names, j), duplicate_workspace_error(names[j])));
    let mut j: usize = 0;
    while j < workspaces.len()
        invariant
            j <= workspaces.len(),
            names == workspace_names(workspaces@),
            ps == Seq::new(names.len(), |j: int| when(repeats_earlier(names, j), duplicate_workspace_error(names[j]))),
            first_err(ps, 0) == first_err(ps, j as int),
        decreases workspaces.len() - j,
    {
        let mut i: usize = 0;
        while i < j
            invariant
                i <= j < workspaces.len(),
                names == workspace_names(workspaces@),
                ps == Seq::new(names.len(), |j: int| when(repeats_earlier(names, j), duplicate_workspace_error(names[j]))),
                first_err(ps, 0) == first_err(ps, j as int),
                forall|k: int| 0 <= k < i ==> names[k] != names[j as int],
            decreases j - i,
        {
            if workspaces[i].name.same(&workspaces[j].name) {
                assert(names[i as int] == names[j as int]);
                assert(names[j as int] == workspaces@[j as int].name@);
                assert(repeats_earlier(names, j as int));
                let mut msg = concat2("duplicate workspace name `", workspaces[j].name.as_str());
                push_str(&mut msg, "`");
                let d = Diagnostic::error("manifest.workspace.duplicate_name", msg.as_str());
                assert(ps[j as int] == Some(d@));
                return Err(d);
            }
            i = i + 1;
        }
        assert(!repeats_earlier(names, j as int));
        j = j + 1;
    }
    Ok(())
}

// ---------------------------------------------------------------------------
// Tasks
// ---------------------------------------------------------------------------

/// Decoded task command.
#[derive(Clone, Debug)]
pub struct RawTaskCommand {
    pub workspace: String,
    pub command: String,
}

/// First problem of a decoded task command.
pub open spec fn task_command_problem(c: RawTaskCommand) -> Option<DiagnosticModel> {
    either(ident_problem("workspace name"@, c.workspace@, 128, false), err_of(crate::domain::command_parse(c.command@)))
}

/// A validated task command carries exactly the decoded values.
pub open spec fn task_command_matches(raw: RawTaskCommand, t: crate::domain::TaskCommand) -> bool {
    &&& t.workspace@ == raw.workspace@
    &&& crate::domain::command_parse(raw.command@)
        == Ok::<(Seq<char>, Seq<Seq<char>>), DiagnosticModel>((t.command.program@, strs(t.command.args@)))
    &&& t.depends_on@.len() == 0
}

impl RawTaskCommand {
    /// Validates a decoded task command.
    pub fn into_domain(&self) -> (r: Result<crate::domain::TaskCommand, Diagnostic>)
        ensures
            match r {
                Ok(t) => task_command_problem(*self) is None && task_command_matches(*self, t),
                Err(d) => task_command_problem(*self) == Some(d@),
            },
    {
        let workspace = crate::domain::WorkspaceName::new(self.workspace.as_str())?;
        let command = crate::domain::CommandSpec::parse(self.command.as_str())?;
        Ok(crate::domain::TaskCommand { workspace, command, depends_on: Vec::new() })
    }
}

/// Error for a task command naming a workspace the project lacks.
pub open spec fn unknown_workspace_problem(task: Seq<char>, c: RawTaskCommand, names: Seq<Seq<char>>) -> Option<DiagnosticModel> {
    when(
        !names.contains(c.workspace@),
        error_model(
            "manifest.task.unknown_workspace"@,
            "task `"@ + task + "` references unknown workspace `"@ + c.workspace@ + "`"@,
        ),
    )
}

/// First problem of one decoded task: its name, its commands, then the
/// workspaces they name.
pub open spec fn task_entry_problem(task: Seq<char>, cmds: Seq<RawTaskCommand>, names: Seq<Seq<char>>) -> Option<DiagnosticModel> {
    either(ident_problem("task name"@, task, 64, false),
    either(list_problem(cmds.len(), 64, "manifest.task_command.too_many"@, cmds.map_values(|c: RawTaskCommand| task_command_problem(c))),
    first_err(cmds.map_values(|c: RawTaskCommand| unknown_workspace_problem(task, c, names)), 0)))
}

/// First problem of the decoded task table.
pub open spec fn tasks_problem(entries: Seq<(String, Vec<RawTaskCommand>)>, names: Seq<Seq<char>>) -> Option<DiagnosticModel> {
    if entries.len() > 128 {
        Some(map_limit_error("manifest.task.too_many"@, 128))
    } else {
        first_err(entries.map_values(|e: (String, Vec<RawTaskCommand>)| task_entry_problem(e.0@, e.1@, names)), 0)
    }
}

/// Validated commands carry exactly the decoded values.
pub open spec fn task_commands_match(raws: Seq<RawTaskCommand>, ts: Seq<crate::domain::TaskCommand>) -> bool {
    &&& ts.len() == raws.len()
    &&& forall|m: int| 0 <= m < ts.len() ==> task_command_matches(raws[m], #[trigger] ts[m])
}

/// The validated task table carries exactly the decoded entries, in order.
pub open spec fn tasks_match(entries: Seq<(String, Vec<RawTaskCommand>)>, out: Seq<(crate::domain::TaskName, Vec<crate::domain::TaskCommand>)>) -> bool {
    &&& out.len() == entries.len()
    &&& forall|k: int| 0 <= k < out.len() ==> (#[trigger] out[k]).0@ == entries[k].0@ && task_commands_match(entries[k].1@, out[k].1@)
}

fn has_workspace(workspaces: &Vec<crate::domain::WorkspaceSpec>, name: &str) -> (r: bool)
    ensures
        r == workspace_names(workspaces@).contains(name@),
{
    let ghost names = workspace_names(workspaces@);
    let mut i: usize = 0;
    while i < workspaces.len()
        invariant
            i <= workspaces.len(),
            names == workspace_names(workspaces@),
            forall|k: int| 0 <= k < i ==> names[k] != name@,
        decreases workspaces.len() - i,
    {
        if str_eq(workspaces[i].name.as_str(), name) {
            assert(names[i as int] == name@);
            return true;
        }
        i = i + 1;
    }
    false
}

#[verifier::loop_isolation(false)]
fn task_entry_from(task: &String, cmds: &Vec<RawTaskCommand>, workspaces: &Vec<crate::domain::WorkspaceSpec>)
    -> (r: Result<(crate::domain::TaskName, Vec<crate::domain::TaskCommand>), Diagnostic>)
    ensures
        match r {
            Ok(e) => task_entry_problem(task@, cmds@, workspace_names(workspaces@)) is None
                && e.0@ == task@ && task_commands_match(cmds@, e.1@),
            Err(d) => task_entry_problem(task@, cmds@, workspace_names(workspaces@)) == Some(d@),
        },
{
    let name = crate::domain::TaskName::new(task.as_str())?;
    if cmds.len() > TASK_COMMAND_LIMIT {
        return Err(limit_error_exec("manifest.task_command.too_many", TASK_COMMAND_LIMIT));
    }
    let ghost ps = cmds@.map_values(|c: RawTaskCommand| task_command_problem(c));
    let mut out: Vec<crate::domain::TaskCommand> = Vec::new();
    let mut i: usize = 0;
    while i < cmds.len()
        invariant
            i <= cmds.len(),
            cmds@.len() <= 64,
            ps == cmds@.map_values(|c: RawTaskCommand| task_command_problem(c)),
            first_err(ps, 0) == first_err(ps, i as int),
            out@.len() == i,
            forall|k: int| 0 <= k < i ==> task_command_matches(cmds@[k], #[trigger] out@[k]),
        decreases cmds.len() - i,
    {
        match cmds[i].into_domain() {
            Ok(t) => {
                out.push(t);
            },
            Err(d) => {
                assert(ps[i as int] == Some(d@));
                return Err(d);
            },
        }
        i = i + 1;
    }
    let ghost names = workspace_names(workspaces@);
    let ghost qs = cmds@.map_values(|c: RawTaskCommand| unknown_workspace_problem(task@, c, names));
    let mut j: usize = 0;
    while j < cmds.len()
        invariant
            j <= cmds.len(),
            names == workspace_names(workspaces@),
            qs == cmds@.map_values(|c: RawTaskCommand| unknown_workspace_problem(task@, c, names)),
            first_err(qs, 0) == first_err(qs, j as int),
        decreases cmds.len() - j,
    {
        if !has_workspace(workspaces, cmds[j].workspace.as_str()) {
            let mut msg = concat2("task `", task.as_str());
            push_str(&mut msg, "` references unknown workspace `");
            push_str(&mut msg, cmds[j].workspace.as_str());
            push_str(&mut msg, "`");
            let d = Diagnostic::error("manifest.task.unknown_workspace", msg.as_str());
            assert(qs[j as int] == Some(d@));
            return Err(d);
        }
        j = j + 1;
    }
    Ok((name, out))
}

/// Validates the decoded task table against the validated workspaces.
pub fn tasks_from(entries: &Vec<(String, Vec<RawTaskCommand>)>, workspaces: &Vec<crate::domain::WorkspaceSpec>)
    -> (r: Result<Vec<(crate::domain::TaskName, Vec<crate::domain::TaskCommand>)>, Diagnostic>)
    ensures
        match r {
            Ok(v) => tasks_problem(entries@, workspace_names(workspaces@)) is None && tasks_match(entries@, v@),
            Err(d) => tasks_problem(entries@, workspace_names(workspaces@)) == Some(d@),
        },
{
    if entries.len() > TASK_LIMIT {
        return Err(map_limit_error_exec("manifest.task.too_many", TASK_LIMIT));
    }
    let ghost names = workspace_names(workspaces@);
    let ghost ps = entries@.map_values(|e: (String, Vec<RawTaskCommand>)| task_entry_problem(e.0@, e.1@, names));
    let mut out: Vec<(crate::domain::TaskName, Vec<crate::domain::TaskCommand>)> = Vec::new();
    let mut i: usize = 0;
    while i < entries.len()
        invariant
            i <= entries.len(),
            entries@.len() <= 128,
            names == workspace_names(workspaces@),
            ps == entries@.map_values(|e: (String, Vec<RawTaskCommand>)| task_entry_problem(e.0@, e.1@, names)),
            first_err(ps, 0) == first_err(ps, i as int),
            out@.len() == i,
            forall|k: int| 0 <= k < i ==> (#[trigger] out@[k]).0@ == entries@[k].0@ && task_commands_match(entries@[k].1@, out@[k].1@),
        decreases entries.len() - i,
    {
        let entry = &entries[i];
        match task_entry_from(&entry.0, &entry.1, workspaces) {
            Ok(e) => {
                out.push(e);
            },
            Err(d) => {
                assert(ps[i as int] == Some(d@));
                return Err(d);
            },
        }
        i = i + 1;
    }
    Ok(out)
}

// ---------------------------------------------------------------------------
// Areas and optional specs
// ---------------------------------------------------------------------------

/// First problem of one decoded area entry.
pub open spec fn area_entry_problem(e: (String, Vec<String>)) -> Option<DiagnosticModel> {
    list_problem(e.1@.len(), 256, "manifest.area.too_many"@, project_path_problems(strs(e.1@)))
}

/// First problem of a decoded area map.
pub open spec fn area_map_problem(entries: Seq<(String, Vec<String>)>) -> Option<DiagnosticModel> {
    first_err(entries.map_values(|e: (String, Vec<String>)| area_entry_problem(e)), 0)
}

/// Validated paths carry exactly the decoded, normalized paths.
pub open spec fn project_paths_match(raws: Seq<String>, ps: Seq<ProjectRelativePath>) -> bool {
    &&& ps.len() == raws.len()
    &&& forall|m: int| 0 <= m < ps.len() ==> normalized_path(raws[m]@, true) == Ok::<Seq<char>, DiagnosticModel>((#[trigger] ps[m])@)
}

/// The validated area map carries exactly the decoded entries, in order.
pub open spec fn area_map_matches(entries: Seq<(String, Vec<String>)>, out: Seq<(String, Vec<ProjectRelativePath>)>) -> bool {
    &&& out.len() == entries.len()
    &&& forall|k: int| 0 <= k < out.len() ==> (#[trigger] out[k]).0@ == entries[k].0@ && project_paths_match(entries[k].1@, out[k].1@)
}

/// Validates a decoded area map: each language's paths, in order.
pub fn parse_area_map(entries: &Vec<(String, Vec<String>)>) -> (r: Result<Vec<(String, Vec<ProjectRelativePath>)>, Diagnostic>)
    ensures
        match r {
            Ok(v) => area_map_problem(entries@) is None && area_map_matches(entries@, v@),
            Err(d) => area_map_problem(entries@) == Some(d@),
        },
{
    let ghost ps = entries@.map_values(|e: (String, Vec<String>)| area_entry_problem(e));
    let mut out: Vec<(String, Vec<ProjectRelativePath>)> = Vec::new();
    let mut i: usize = 0;
    while i < entries.len()
        invariant
            i <= entries.len(),
            ps == entries@.map_values(|e: (String, Vec<String>)| area_entry_problem(e)),
            first_err(ps, 0) == first_err(ps, i as int),
            out@.len() == i,
            forall|k: int| 0 <= k < i ==> (#[trigger] out@[k]).0@ == entries@[k].0@ && project_paths_match(entries@[k].1@, out@[k].1@),
        decreases entries.len() - i,
    {
        let entry = &entries[i];
        match project_paths_from(&entry.1, PATTERN_LIMIT, "manifest.area.too_many") {
            Ok(paths) => {
                out.push((entry.0.clone(), paths));
            },
            Err(d) => {
                assert(ps[i as int] == Some(d@));
                return Err(d);
            },
        }
        i = i + 1;
    }
    Ok(out)
}

/// Decoded infrastructure spec.
#[derive(Clone, Debug)]
pub struct RawIacSpec {
    pub root: String,
    pub provider: String,
    pub stacks: Vec<String>,
}

/// First problem of a decoded infrastructure spec.
pub open spec fn iac_problem(raw: RawIacSpec) -> Option<DiagnosticModel> {
    either(rel_problem(raw.root@, true), err_of(iac_provider_parse(raw.provider@)))
}

/// A validated infrastructure spec carries exactly the decoded values.
pub open spec fn iac_matches(raw: RawIacSpec, v: crate::domain::IacSpec) -> bool {
    &&& normalized_path(raw.root@, true) == Ok::<Seq<char>, DiagnosticModel>(v.root@)
    &&& iac_provider_parse(raw.provider@) == Ok::<IacProvider, DiagnosticModel>(v.provider)
    &&& v.stacks == raw.stacks
}

impl RawIacSpec {
    /// Validates a decoded infrastructure spec.
    pub fn into_domain(self) -> (r: Result<crate::domain::IacSpec, Diagnostic>)
        ensures
            match r {
                Ok(v) => iac_problem(self) is None && iac_matches(self, v),
                Err(d) => iac_problem(self) == Some(d@),
            },
    {
        let root = ProjectRelativePath::new(self.root.as_str())?;
        let provider = parse_iac_provider(self.provider.as_str())?;
        Ok(crate::domain::IacSpec { root, provider, stacks: self.stacks })
    }
}

/// Decoded deployment spec.
#[derive(Clone, Debug)]
pub struct RawDeploySpec {
    pub root: String,
    pub environments: Vec<String>,
}

impl RawDeploySpec {
    /// Validates a decoded deployment spec.
    pub fn into_domain(self) -> (r: Result<crate::domain::DeploySpec, Diagnostic>)
        ensures
            match r {
                Ok(v) => rel_problem(self.root@, true) is None
                    && normalized_path(self.root@, true) == Ok::<Seq<char>, DiagnosticModel>(v.root@)
                    && v.environments == self.environments,
                Err(d) => rel_problem(self.root@, true) == Some(d@),
            },
    {
        let root = ProjectRelativePath::new(self.root.as_str())?;
        Ok(crate::domain::DeploySpec { root, environments: self.environments })
    }
}

/// Decoded proto ownership spec.
#[derive(Clone, Debug, Default)]
pub struct RawProjectProtoSpec {
    pub owns: Vec<String>,
    pub consumes: Vec<String>,
}

/// Validated globs carry exactly the decoded patterns.
pub open spec fn globs_match(raws: Seq<String>, gs: Seq<RepoGlob>) -> bool {
    &&& gs.len() == raws.len()
    &&& forall|m: int| 0 <= m < gs.len() ==> (#[trigger] gs[m])@ == raws[m]@
}

/// First problem of a decoded proto spec.
pub open spec fn protos_problem(raw: RawProjectProtoSpec) -> Option<DiagnosticModel> {
    either(
        list_problem(raw.owns@.len(), 256, "manifest.proto.too_many"@, glob_problems(strs(raw.owns@))),
        list_problem(raw.consumes@.len(), 256, "manifest.proto.too_many"@, glob_problems(strs(raw.consumes@))),
    )
}

impl RawProjectProtoSpec {
    /// Validates a decoded proto spec.
    pub fn into_domain(&self) -> (r: Result<crate::domain::ProjectProtoSpec, Diagnostic>)
        ensures
            match r {
                Ok(v) => protos_problem(*self) is None && globs_match(self.owns@, v.owns@) && globs_match(self.consumes@, v.consumes@),
                Err(d) => protos_problem(*self) == Some(d@),
            },
    {
        let owns = globs_from(&self.owns, PATTERN_LIMIT, "manifest.proto.too_many")?;
        let consumes = globs_from(&self.consumes, PATTERN_LIMIT, "manifest.proto.too_many")?;
        Ok(crate::domain::ProjectProtoSpec { owns, consumes })
    }
}

/// Decoded AI edit policy.
#[derive(Clone, Debug, Default)]
pub struct RawProjectAiSpec {
    pub editable: Vec<String>,
    pub do_not_edit: Vec<String>,
    pub docs: Vec<String>,
}

/// First problem of a decoded AI edit policy.
pub open spec fn ai_problem(raw: RawProjectAiSpec) -> Option<DiagnosticModel> {
    either(list_problem(raw.editable@.len(), 256, "manifest.ai.too_many"@, glob_problems(strs(raw.editable@))),
    either(list_problem(raw.do_not_edit@.len(), 256, "manifest.ai.too_many"@, glob_problems(strs(raw.do_not_edit@))),
    list_problem(raw.docs@.len(), 256, "manifest.ai.too_many"@, project_path_problems(strs(raw.docs@)))))
}

impl RawProjectAiSpec {
    /// Validates a decoded AI edit policy.
    pub fn into_domain(&self) -> (r: Result<crate::domain::ProjectAiSpec, Diagnostic>)
        ensures
            match r {
                Ok(v) => ai_problem(*self) is None && globs_match(self.editable@, v.editable@)
                    && globs_match(self.do_not_edit@, v.do_not_edit@) && project_paths_match(self.docs@, v.docs@),
                Err(d) => ai_problem(*self) == Some(d@),
            },
    {
        let editable = globs_from(&self.editable, PATTERN_LIMIT, "manifest.ai.too_many")?;
        let do_not_edit = globs_from(&self.do_not_edit, PATTERN_LIMIT, "manifest.ai.too_many")?;
        let docs = project_paths_from(&self.docs, PATTERN_LIMIT, "manifest.ai.too_many")?;
        Ok(crate::domain::ProjectAiSpec { editable, do_not_edit, docs })
    }
}

/// Decoded core infrastructure module lists.
#[derive(Clone, Debug, Default)]
pub struct RawModulesSpec {
    pub public: Vec<String>,
    pub internal: Vec<String>,
}

// ---------------------------------------------------------------------------
// Project manifest
// ---------------------------------------------------------------------------

/// Decoded project manifest. Task and area maps are lists of entries in
/// key order.
#[derive(Clone, Debug)]
pub struct RawProjectManifest {
    pub schema: String,
    pub name: String,
    pub kind: String,
    pub path: String,
    pub owners: Vec<String>,
    pub visibility: Option<String>,
    pub workspaces: Vec<RawWorkspaceSpec>,
    pub depends_on: Vec<String>,
    pub tasks: Vec<(String, Vec<RawTaskCommand>)>,
    pub iac: Option<RawIacSpec>,
    pub deploy: Option<RawDeploySpec>,
    pub protos: RawProjectProtoSpec,
    pub ai: RawProjectAiSpec,
    pub public_facades: Vec<(String, Vec<String>)>,
    pub public_clients: Vec<(String, Vec<String>)>,
    pub internal: Vec<(String, Vec<String>)>,
    pub modules: RawModulesSpec,
    pub policies: BTreeMap<String, serde_json::Value>,
}

/// Names of decoded workspaces.
pub open spec fn raw_workspace_names(ws: Seq<RawWorkspaceSpec>) -> Seq<Seq<char>> {
    ws.map_values(|w: RawWorkspaceSpec| w.name@)
}

/// First problem among the schema, the workspaces and the tasks.
pub open spec fn project_head_problem(raw: RawProjectManifest) -> Option<DiagnosticModel> {
    either(schema_problem(raw.schema@),
    either(when(raw.schema@ != "company.project/v1"@,
        error_model("manifest.schema.unsupported"@, "project manifest schema must be company.project/v1"@)),
    either(workspaces_problem(raw.workspaces@),
    either(duplicate_name_problem(raw_workspace_names(raw.workspaces@)),
    tasks_problem(raw.tasks@, raw_workspace_names(raw.workspaces@))))))
}

/// First problem among the name, kind, path, owners, visibility and
/// dependencies.
pub open spec fn project_body_problem(raw: RawProjectManifest) -> Option<DiagnosticModel> {
    either(ident_problem("project name"@, raw.name@, 128, true),
    either(err_of(project_kind_parse(raw.kind@)),
    either(rel_problem(raw.path@, false),
    either(list_problem(raw.owners@.len(), 32, "manifest.owner.too_many"@, owner_problems(strs(raw.owners@))),
    either(match raw.visibility {
        None => None,
        Some(v) => err_of(visibility_parse(v@)),
    },
    list_problem(raw.depends_on@.len(), 256, "manifest.dependency.too_many"@, dependency_problems(strs(raw.depends_on@))))))))
}

/// First problem among the infrastructure, deployment, proto and AI specs.
pub open spec fn project_specs_problem(raw: RawProjectManifest) -> Option<DiagnosticModel> {
    either(match raw.iac {
        None => None,
        Some(x) => iac_problem(x),
    },
    either(match raw.deploy {
        None => None,
        Some(x) => rel_problem(x.root@, true),
    },
    either(protos_problem(raw.protos), ai_problem(raw.ai))))
}

/// First problem among the areas and modules.
pub open spec fn project_areas_problem(raw: RawProjectManifest) -> Option<DiagnosticModel> {
    either(area_map_problem(raw.public_facades@),
    either(area_map_problem(raw.public_clients@),
    either(area_map_problem(raw.internal@),
    either(list_problem(raw.modules.public@.len(), 256, "manifest.module.too_many"@, project_path_problems(strs(raw.modules.public@))),
    list_problem(raw.modules.internal@.len(), 256, "manifest.module.too_many"@, project_path_problems(strs(raw.modules.internal@)))))))
}

/// The first problem of a decoded project manifest, in the order the
/// fields are checked.
pub open spec fn project_manifest_problem(raw: RawProjectManifest) -> Option<DiagnosticModel> {
    either(project_head_problem(raw),
    either(project_body_problem(raw),
    either(project_specs_problem(raw), project_areas_problem(raw))))
}

/// The validated identity fields carry exactly the decoded values.
pub open spec fn project_identity_matches(raw: RawProjectManifest, m: crate::domain::ProjectManifest) -> bool {
    &&& m.schema@ == raw.schema@
    &&& m.name@ == raw.name@
    &&& project_kind_parse(raw.kind@) == Ok::<ProjectKind, DiagnosticModel>(m.kind)
    &&& normalized_path(raw.path@, false) == Ok::<Seq<char>, DiagnosticModel>(m.path@)
    &&& m.owners@.len() == raw.owners@.len()
    &&& (forall|k: int| 0 <= k < m.owners@.len() ==> (#[trigger] m.owners@[k])@ == raw.owners@[k]@)
    &&& match raw.visibility {
        None => m.visibility == Visibility::Internal,
        Some(v) => visibility_parse(v@) == Ok::<Visibility, DiagnosticModel>(m.visibility),
    }
}

/// The validated workspaces, dependencies and tasks carry exactly the
/// decoded values.
pub open spec fn project_graph_matches(raw: RawProjectManifest, m: crate::domain::ProjectManifest) -> bool {
    &&& m.workspaces@.len() == raw.workspaces@.len()
    &&& (forall|k: int| 0 <= k < m.workspaces@.len() ==> workspace_matches(raw.workspaces@[k], #[trigger] m.workspaces@[k]))
    &&& m.depends_on@.len() == raw.depends_on@.len()
    &&& (forall|k: int| 0 <= k < m.depends_on@.len() ==> (#[trigger] m.depends_on@[k]).id@ == raw.depends_on@[k]@
        && dependency_parse(raw.depends_on@[k]@) == Ok::<crate::domain::DependencyMeaning, DiagnosticModel>(dependency_meaning(m.depends_on@[k])))
    &&& tasks_match(raw.tasks@, m.tasks@)
}

/// The validated specs, areas and policies carry exactly the decoded values.
pub open spec fn project_specs_match(raw: RawProjectManifest, m: crate::domain::ProjectManifest) -> bool {
    &&& match (raw.iac, m.iac) {
        (None, None) => true,
        (Some(x), Some(v)) => iac_matches(x, v),
        _ => false,
    }
    &&& match (raw.deploy, m.deploy) {
        (None, None) => true,
        (Some(x), Some(v)) => normalized_path(x.root@, true) == Ok::<Seq<char>, DiagnosticModel>(v.root@) && v.environments == x.environments,
        _ => false,
    }
    &&& globs_match(raw.protos.owns@, m.protos.owns@)
    &&& globs_match(raw.protos.consumes@, m.protos.consumes@)
    &&& globs_match(raw.ai.editable@, m.ai.editable@)
    &&& globs_match(raw.ai.do_not_edit@, m.ai.do_not_edit@)
    &&& project_paths_match(raw.ai.docs@, m.ai.docs@)
    &&& area_map_matches(raw.public_facades@, m.areas.public_facades@)
    &&& area_map_matches(raw.public_clients@, m.areas.public_clients@)
    &&& area_map_matches(raw.internal@, m.areas.internal@)
    &&& project_paths_match(raw.modules.public@, m.areas.public_modules@)
    &&& project_paths_match(raw.modules.internal@, m.areas.internal_modules@)
    &&& m.policies == raw.policies
}

fn visibility_from(o: &Option<String>) -> (r: Result<Visibility, Diagnostic>)
    ensures
        match r {
            Ok(v) => match *o {
                None => v == Visibility::Internal,
                Some(s) => visibility_parse(s@) == Ok::<Visibility, DiagnosticModel>(v),
            },
            Err(d) => match *o {
                None => false,
                Some(s) => visibility_parse(s@) == Err::<Visibility, DiagnosticModel>(d@),
            },
        },
{
    match o {
        None => Ok(Visibility::Internal),
        Some(s) => parse_visibility(s.as_str()),
    }
}

impl RawProjectManifest {
    /// Validates a decoded project manifest read from `source`.
    #[verifier::rlimit(40)]
    pub fn into_domain(self, source: RepoRelativePath) -> (r: Result<crate::domain::ProjectManifest, Diagnostic>)
        ensures
            match r {
                Ok(m) => project_manifest_problem(self) is None
                    && project_identity_matches(self, m)
                    && project_graph_matches(self, m)
                    && project_specs_match(self, m)
                    && m.source == source,
                Err(d) => project_manifest_problem(self) == Some(d@),
            },
    {
        let ghost raw = self;
        let schema = SchemaId::new(self.schema.as_str())?;
        if !str_eq(schema.as_str(), "company.project/v1") {
            return Err(Diagnostic::error("manifest.schema.unsupported", "project manifest schema must be company.project/v1"));
        }
        let workspaces = workspaces_from(&self.workspaces)?;
        assert(workspace_names(workspaces@) =~= raw_workspace_names(raw.workspaces@));
        validate_unique_workspace_names(&workspaces)?;
        let tasks = tasks_from(&self.tasks, &workspaces)?;
        let name = crate::domain::ProjectName::new(self.name.as_str())?;
        let kind = parse_project_kind(self.kind.as_str())?;
        let path = RepoRelativePath::new(self.path.as_str())?;
        let owners = owners_from(&self.owners, OWNER_LIMIT, "manifest.owner.too_many")?;
        let visibility = visibility_from(&self.visibility)?;
        let depends_on = dependencies_from(&self.depends_on, DEPENDENCY_LIMIT, "manifest.dependency.too_many")?;
        let iac = match self.iac {
            None => None,
            Some(x) => Some(x.into_domain()?),
        };
        let deploy = match self.deploy {
            None => None,
            Some(x) => Some(x.into_domain()?),
        };
        let protos = self.protos.into_domain()?;
        let ai = self.ai.into_domain()?;
        let public_facades = parse_area_map(&self.public_facades)?;
        let public_clients = parse_area_map(&self.public_clients)?;
        let internal = parse_area_map(&self.internal)?;
        let public_modules = project_paths_from(&self.modules.public, PATTERN_LIMIT, "manifest.module.too_many")?;
        let internal_modules = project_paths_from(&self.modules.internal, PATTERN_LIMIT, "manifest.module.too_many")?;
        let areas = crate::domain::ProjectAreas { public_facades, public_clients, internal, public_modules, internal_modules };
        Ok(crate::domain::ProjectManifest {
            schema,
            name,
            kind,
            path,
            owners,
            visibility,
            workspaces,
            depends_on,
            tasks,
            iac,
            deploy,
            protos,
            ai,
            areas,
            policies: self.policies,
            source,
        })
    }
}

// ---------------------------------------------------------------------------
// Template manifest
// ---------------------------------------------------------------------------

/// Decoded template manifest.
#[derive(Clone, Debug)]
pub struct RawTemplateManifest {
    pub schema: String,
    pub name: String,
    pub kind: String,
    pub engine: String,
    pub inputs: Vec<RawTemplateInput>,
    pub files: Vec<RawTemplateFile>,
    pub post_render: RawTemplatePostRender,
}

/// Decoded template input.
#[derive(Clone, Debug)]
pub struct RawTemplateInput {
    pub name: String,
    pub input_type: String,
    pub required: bool,
    pub default: Option<serde_json::Value>,
}

/// Decoded template file.
#[derive(Clone, Debug)]
pub struct RawTemplateFile {
    pub source: String,
    pub target: String,
    pub mode: String,
    pub when: Option<String>,
}

/// Decoded post-render settings.
#[derive(Clone, Debug, Default)]
pub struct RawTemplatePostRender {
    pub validate: Vec<String>,
}

/// Character allowed in template input names.
pub open spec fn snake_char(c: char) -> bool {
    crate::text::is_lower(c) || crate::text::is_digit(c) || c == '_'
}

/// Problem of a template input name: 1 to 64 bytes of lowercase letters,
/// digits and `_`.
pub open spec fn template_identifier_problem(v: Seq<char>) -> Option<DiagnosticModel> {
    when(
        v.len() == 0 || crate::check::byte_len(v) > 64 || exists|i: int| 0 <= i < v.len() && !snake_char(#[trigger] v[i]),
        error_model("manifest.template.input_name"@, "template input names must use lowercase snake_case"@),
    )
}

/// Checks a template input name.
#[verifier::loop_isolation(false)]
pub fn validate_template_identifier(value: &str) -> (r: Result<(), Diagnostic>)
    ensures
        match r {
            Ok(()) => template_identifier_problem(value@) is None,
            Err(d) => template_identifier_problem(value@) == Some(d@),
        },
{
    let cs = chars_of(value);
    let mut bad = cs.len() == 0 || crate::check::byte_len_exceeds(&cs, 64);
    let mut i: usize = 0;
    while i < cs.len() && !bad
        invariant
            i <= cs.len(),
            cs@ == value@,
            !bad ==> forall|k: int| 0 <= k < i ==> snake_char(cs@[k]),
            !bad ==> cs@.len() != 0 && crate::check::byte_len(cs@) <= 64,
            bad ==> (cs@.len() == 0 || crate::check::byte_len(cs@) > 64 || exists|k: int| 0 <= k < cs@.len() && !snake_char(#[trigger] cs@[k])),
        decreases cs.len() - i,
    {
        let c = cs[i];
        if !(('a' <= c && c <= 'z') || ('0' <= c && c <= '9') || c == '_') {
            assert(!snake_char(cs@[i as int]));
            bad = true;
        }
        i = i + 1;
    }
    if bad {
        return Err(Diagnostic::error("manifest.template.input_name", "template input names must use lowercase snake_case"));
    }
    Ok(())
}

/// First problem of the decoded template inputs.
pub open spec fn template_inputs_problem(raws: Seq<RawTemplateInput>) -> Option<DiagnosticModel> {
    list_problem(raws.len(), 64, "manifest.template.input_too_many"@,
        raws.map_values(|x: RawTemplateInput| template_identifier_problem(x.name@)))
}

/// First problem of the decoded template files.
pub open spec fn template_files_problem(raws: Seq<RawTemplateFile>) -> Option<DiagnosticModel> {
    list_problem(raws.len(), 512, "manifest.template.file_too_many"@,
        raws.map_values(|x: RawTemplateFile| rel_problem(x.source@, true)))
}

/// Problem of one post-render command: it must parse and call `repoctl`.
pub open spec fn post_render_problem(v: Seq<char>) -> Option<DiagnosticModel> {
    match crate::domain::command_parse(v) {
        Err(d) => Some(d),
        Ok(c) => when(c.0 != "repoctl"@,
            error_model("manifest.template.post_render"@, "post-render validate commands must call repoctl"@)),
    }
}

/// The first problem of a decoded template manifest.
pub open spec fn template_manifest_problem(raw: RawTemplateManifest) -> Option<DiagnosticModel> {
    either(schema_problem(raw.schema@),
    either(when(raw.schema@ != "repoctl.template/v1"@,
        error_model("manifest.schema.unsupported"@, "template manifest schema must be repoctl.template/v1"@)),
    either(template_inputs_problem(raw.inputs@),
    either(template_files_problem(raw.files@),
    first_err(strs(raw.post_render.validate@).map_values(|v: Seq<char>| post_render_problem(v)), 0)))))
}

/// A validated template manifest carries exactly the decoded values.
pub open spec fn template_manifest_matches(raw: RawTemplateManifest, m: crate::domain::TemplateManifest) -> bool {
    &&& m.schema@ == raw.schema@
    &&& m.name == raw.name
    &&& m.kind == raw.kind
    &&& m.engine == raw.engine
    &&& m.inputs@.len() == raw.inputs@.len()
    &&& (forall|k: int| 0 <= k < m.inputs@.len() ==> {
        let x = raw.inputs@[k];
        let y = #[trigger] m.inputs@[k];
        y.name == x.name && y.input_type == x.input_type && y.required == x.required && y.default == x.default
    })
    &&& m.files@.len() == raw.files@.len()
    &&& (forall|k: int| 0 <= k < m.files@.len() ==> {
        let x = raw.files@[k];
        let y = #[trigger] m.files@[k];
        normalized_path(x.source@, true) == Ok::<Seq<char>, DiagnosticModel>(y.source@)
            && y.target == x.target && y.mode == x.mode && y.when == x.when
    })
    &&& m.post_render_validate@.len() == raw.post_render.validate@.len()
    &&& (forall|k: int| 0 <= k < m.post_render_validate@.len() ==>
        crate::domain::command_parse(raw.post_render.validate@[k]@) == Ok::<(Seq<char>, Seq<Seq<char>>), DiagnosticModel>(
            ((#[trigger] m.post_render_validate@[k]).program@, strs(m.post_render_validate@[k].args@))))
}

#[verifier::loop_isolation(false)]
fn template_inputs_from(raws: Vec<RawTemplateInput>) -> (r: Result<Vec<crate::domain::TemplateInput>, Diagnostic>)
    ensures
        match r {
            Ok(v) => template_inputs_problem(raws@) is None && v@.len() == raws@.len()
                && forall|k: int| 0 <= k < v@.len() ==> {
                    let x = raws@[k];
                    let y = #[trigger] v@[k];
                    y.name == x.name && y.input_type == x.input_type && y.required == x.required && y.default == x.default
                },
            Err(d) => template_inputs_problem(raws@) == Some(d@),
        },
{
    if raws.len() > TEMPLATE_INPUT_LIMIT {
        return Err(limit_error_exec("manifest.template.input_too_many", TEMPLATE_INPUT_LIMIT));
    }
    let ghost all = raws@;
    let ghost ps = all.map_values(|x: RawTemplateInput| template_identifier_problem(x.name@));
    let mut rest = raws;
    let mut out: Vec<crate::domain::TemplateInput> = Vec::new();
    let mut i: usize = 0;
    while rest.len() > 0
        invariant
            all.len() <= 64,
            i + rest@.len() == all.len(),
            rest@ == all.subrange(i as int, all.len() as int),
            ps == all.map_values(|x: RawTemplateInput| template_identifier_problem(x.name@)),
            first_err(ps, 0) == first_err(ps, i as int),
            out@.len() == i,
            forall|k: int| 0 <= k < i ==> {
                let x = all[k];
                let y = #[trigger] out@[k];
                y.name == x.name && y.input_type == x.input_type && y.required == x.required && y.default == x.default
            },
        decreases rest.len(),
    {
        let x = rest.remove(0);
        assert(x == all[i as int]);
        match validate_template_identifier(x.name.as_str()) {
            Ok(()) => {},
            Err(d) => {
                assert(ps[i as int] == Some(d@));
                return Err(d);
            },
        }
        out.push(crate::domain::TemplateInput { name: x.name, input_type: x.input_type, required: x.required, default: x.default });
        i = i + 1;
        assert(rest@ =~= all.subrange(i as int, all.len() as int));
    }
    Ok(out)
}

#[verifier::loop_isolation(false)]
fn template_files_from(raws: Vec<RawTemplateFile>) -> (r: Result<Vec<crate::domain::TemplateFile>, Diagnostic>)
    ensures
        match r {
            Ok(v) => template_files_problem(raws@) is None && v@.len() == raws@.len()
                && forall|k: int| 0 <= k < v@.len() ==> {
                    let x = raws@[k];
                    let y = #[trigger] v@[k];
                    normalized_path(x.source@, true) == Ok::<Seq<char>, DiagnosticModel>(y.source@)
                        && y.target == x.target && y.mode == x.mode && y.when == x.when
                },
            Err(d) => template_files_problem(raws@) == Some(d@),
        },
{
    if raws.len() > TEMPLATE_FILE_LIMIT {
        return Err(limit_error_exec("manifest.template.file_too_many", TEMPLATE_FILE_LIMIT));
    }
    let ghost all = raws@;
    let ghost ps = all.map_values(|x: RawTemplateFile| rel_problem(x.source@, true));
    let mut rest = raws;
    let mut out: Vec<crate::domain::TemplateFile> = Vec::new();
    let mut i: usize = 0;
    while rest.len() > 0
        invariant
            all.len() <= 512,
            i + rest@.len() == all.len(),
            rest@ == all.subrange(i as int, all.len() as int),
            ps == all.map_values(|x: RawTemplateFile| rel_problem(x.source@, true)),
            first_err(ps, 0) == first_err(ps, i as int),
            out@.len() == i,
            forall|k: int| 0 <= k < i ==> {
                let x = all[k];
                let y = #[trigger] out@[k];
                normalized_path(x.source@, true) == Ok::<Seq<char>, DiagnosticModel>(y.source@)
                    && y.target == x.target && y.mode == x.mode && y.when == x.when
            },
        decreases rest.len(),
    {
        let x = rest.remove(0);
        assert(x == all[i as int]);
        let source = match ProjectRelativePath::new(x.source.as_str()) {
            Ok(p) => p,
            Err(d) => {
                assert(ps[i as int] == Some(d@));
                return Err(d);
            },
        };
        out.push(crate::domain::TemplateFile { source, target: x.target, mode: x.mode, when: x.when });
        i = i + 1;
        assert(rest@ =~= all.subrange(i as int, all.len() as int));
    }
    Ok(out)
}

fn post_render_from(values: &Vec<String>) -> (r: Result<Vec<crate::domain::CommandSpec>, Diagnostic>)
    ensures
        match r {
            Ok(v) => first_err(strs(values@).map_values(|x: Seq<char>| post_render_problem(x)), 0) is None
                && v@.len() == values@.len()
                && forall|k: int| 0 <= k < v@.len() ==>
                    crate::domain::command_parse(values@[k]@) == Ok::<(Seq<char>, Seq<Seq<char>>), DiagnosticModel>(
                        ((#[trigger] v@[k]).program@, strs(v@[k].args@))),
            Err(d) => first_err(strs(values@).map_values(|x: Seq<char>| post_render_problem(x)), 0) == Some(d@),
        },
{
    let ghost ps = strs(values@).map_values(|x: Seq<char>| post_render_problem(x));
    let mut out: Vec<crate::domain::CommandSpec> = Vec::new();
    let mut i: usize = 0;
    while i < values.len()
        invariant
            i <= values.len(),
            ps == strs(values@).map_values(|x: Seq<char>| post_render_problem(x)),
            first_err(ps, 0) == first_err(ps, i as int),
            out@.len() == i,
            forall|k: int| 0 <= k < i ==>
                crate::domain::command_parse(values@[k]@) == Ok::<(Seq<char>, Seq<Seq<char>>), DiagnosticModel>(
                    ((#[trigger] out@[k]).program@, strs(out@[k].args@))),
        decreases values.len() - i,
    {
        assert(strs(values@)[i as int] == values@[i as int]@);
        let spec = match crate::domain::CommandSpec::parse(values[i].as_str()) {
            Ok(c) => c,
            Err(d) => {
                assert(ps[i as int] == Some(d@));
                return Err(d);
            },
        };
        if !str_eq(spec.program.as_str(), "repoctl") {
            let d = Diagnostic::error("manifest.template.post_render", "post-render validate commands must call repoctl");
            assert(ps[i as int] == Some(d@));
            return Err(d);
        }
        out.push(spec);
        i = i + 1;
    }
    Ok(out)
}

impl RawTemplateManifest {
    /// Validates a decoded template manifest.
    pub fn into_domain(self) -> (r: Result<crate::domain::TemplateManifest, Diagnostic>)
        ensures
            match r {
                Ok(m) => template_manifest_problem(self) is None && template_manifest_matches(self, m),
                Err(d) => template_manifest_problem(self) == Some(d@),
            },
    {
        let schema = SchemaId::new(self.schema.as_str())?;
        if !str_eq(schema.as_str(), "repoctl.template/v1") {
            return Err(Diagnostic::error("manifest.schema.unsupported", "template manifest schema must be repoctl.template/v1"));
        }
        let inputs = template_inputs_from(self.inputs)?;
        let files = template_files_from(self.files)?;
        let post_render_validate = post_render_from(&self.post_render.validate)?;
        Ok(crate::domain::TemplateManifest {
            schema,
            name: self.name,
            kind: self.kind,
            engine: self.engine,
            inputs,
            files,
            post_render_validate,
        })
    }
}

// ---------------------------------------------------------------------------
// Manifest sources
// ---------------------------------------------------------------------------

/// Source bytes for one manifest.
#[derive(Clone, Debug, PartialEq, Eq)]
pub struct ManifestSource {
    /// Source path used in diagnostics.
    pub path: String,
    /// Raw manifest bytes.
    pub bytes: Vec<u8>,
}

impl ManifestSource {
    /// Creates a manifest source from bytes.
    pub fn new(path: &str, bytes: Vec<u8>) -> (r: Self)
        ensures
            r.path@ == path@,
            r.bytes@ == bytes@,
    {
        ManifestSource { path: owned(path), bytes }
    }
}

/// The `Display` text of the `Utf8Error` that `std::str::from_utf8` reports
/// for bytes that are not UTF-8.
pub uninterp spec fn utf8_error_text(bytes: Seq<u8>) -> Seq<char>;

/// Checks bytes with `std::str::from_utf8`: it succeeds exactly on valid
/// UTF-8; on failure the rendered error is returned.
#[verifier::external_body]
fn check_utf8(bytes: &[u8]) -> (r: Result<(), String>)
    ensures
        match r {
            Ok(()) => vstd::utf8::valid_utf8(bytes@),
            Err(m) => !vstd::utf8::valid_utf8(bytes@) && m@ == utf8_error_text(bytes@),
        },
{
    match std::str::from_utf8(bytes) {
        Ok(_) => Ok(()),
        Err(error) => Err(error.to_string()),
    }
}

/// Error for a manifest over the size limit.
pub open spec fn too_large_error(path: Seq<char>) -> DiagnosticModel {
    with_path_model(error_model("manifest.too_large"@, "manifest exceeds 262144 byte limit"@), path)
}

/// Checks that a manifest is within the size limit.
pub fn ensure_size(source: &ManifestSource) -> (r: Result<(), RepoctlError>)
    ensures
        match r {
            Ok(()) => source.bytes@.len() <= 262144,
            Err(e) => source.bytes@.len() > 262144 && crate::diagnostic::error_diagnostics(e) == seq![too_large_error(source.path@)],
        },
{
    if source.bytes.len() > MANIFEST_MAX_BYTES {
        let d = Diagnostic::error("manifest.too_large", "manifest exceeds 262144 byte limit").with_path(source.path.as_str());
        return Err(RepoctlError::diagnostic(d));
    }
    Ok(())
}

/// The problem found before a decoded document is looked at: the size
/// limit, UTF-8, then the YAML decoding itself (`decode_error` is the
/// decoder's message when it failed).
pub open spec fn document_problem(path: Seq<char>, bytes: Seq<u8>, decode_error: Option<Seq<char>>) -> Option<DiagnosticModel> {
    if bytes.len() > 262144 {
        Some(too_large_error(path))
    } else {
        if !vstd::utf8::valid_utf8(bytes) {
            Some(with_path_model(error_model("manifest.utf8"@, "manifest is not UTF-8: "@ + utf8_error_text(bytes)), path))
        } else {
            match decode_error {
                Some(m) => Some(with_path_model(error_model("manifest.yaml"@, "failed to parse YAML: "@ + m), path)),
                None => None,
            }
        }
    }
}

/// The decoder's message when decoding failed.
pub open spec fn decode_error<T>(decoded: Result<T, String>) -> Option<Seq<char>> {
    match decoded {
        Ok(_) => None,
        Err(m) => Some(m@),
    }
}

fn check_document<T>(path: &str, bytes: &[u8], decoded: Result<T, String>) -> (r: Result<T, RepoctlError>)
    ensures
        match r {
            Ok(raw) => document_problem(path@, bytes@, decode_error(decoded)) is None && decoded == Ok::<T, String>(raw),
            Err(e) => match document_problem(path@, bytes@, decode_error(decoded)) {
                Some(d) => crate::diagnostic::error_diagnostics(e) == seq![d],
                None => false,
            },
        },
{
    if bytes.len() > MANIFEST_MAX_BYTES {
        let d = Diagnostic::error("manifest.too_large", "manifest exceeds 262144 byte limit").with_path(path);
        return Err(RepoctlError::diagnostic(d));
    }
    match check_utf8(bytes) {
        Err(m) => {
            let msg = concat2("manifest is not UTF-8: ", m.as_str());
            return Err(RepoctlError::diagnostic(Diagnostic::error("manifest.utf8", msg.as_str()).with_path(path)));
        },
        Ok(()) => {},
    }
    match decoded {
        Err(m) => {
            let msg = concat2("failed to parse YAML: ", m.as_str());
            Err(RepoctlError::diagnostic(Diagnostic::error("manifest.yaml", msg.as_str()).with_path(path)))
        },
        Ok(raw) => Ok(raw),
    }
}

/// YAML-backed manifest parser: the YAML text is decoded into the `Raw*`
/// types by the caller, and the result handed in beside the bytes.
#[derive(Clone, Copy, Debug, Default)]
pub struct YamlManifestParser;

impl YamlManifestParser {
    /// Parses a repo manifest from bytes, given the decoding of their text.
    pub fn parse_repo_bytes(&self, path: &str, bytes: &[u8], decoded: Result<RawRepoManifest, String>) -> (r: Result<RepoManifest, RepoctlError>)
        ensures
            match r {
                Ok(m) => document_problem(path@, bytes@, decode_error(decoded)) is None && match decoded {
                    Ok(raw) => repo_manifest_problem(raw) is None && repo_manifest_matches(raw, m),
                    Err(_) => false,
                },
                Err(e) => match document_problem(path@, bytes@, decode_error(decoded)) {
                    Some(d) => crate::diagnostic::error_diagnostics(e) == seq![d],
                    None => match decoded {
                        Ok(raw) => match repo_manifest_problem(raw) {
                            Some(d) => crate::diagnostic::error_diagnostics(e) == seq![with_path_model(d, path@)],
                            None => false,
                        },
                        Err(_) => false,
                    },
                },
            },
    {
        let raw = check_document(path, bytes, decoded)?;
        match raw.into_domain() {
            Ok(m) => Ok(m),
            Err(d) => Err(RepoctlError::diagnostic(d.with_path(path))),
        }
    }

    /// Parses a project manifest from bytes, given the decoding of their
    /// text. The path must itself be a valid repo-relative path.
    pub fn parse_project_bytes(&self, path: &str, bytes: &[u8], decoded: Result<RawProjectManifest, String>)
        -> (r: Result<crate::domain::ProjectManifest, RepoctlError>)
        ensures
            match r {
                Ok(m) => document_problem(path@, bytes@, decode_error(decoded)) is None && match decoded {
                    Ok(raw) => project_manifest_problem(raw) is None
                        && normalized_path(path@, false) == Ok::<Seq<char>, DiagnosticModel>(m.source@)
                        && project_identity_matches(raw, m) && project_graph_matches(raw, m) && project_specs_match(raw, m),
                    Err(_) => false,
                },
                Err(e) => match document_problem(path@, bytes@, decode_error(decoded)) {
                    Some(d) => crate::diagnostic::error_diagnostics(e) == seq![d],
                    None => match decoded {
                        Ok(raw) => match either(rel_problem(path@, false), project_manifest_problem(raw)) {
                            Some(d) => crate::diagnostic::error_diagnostics(e) == seq![with_path_model(d, path@)],
                            None => false,
                        },
                        Err(_) => false,
                    },
                },
            },
    {
        let raw = check_document(path, bytes, decoded)?;
        let source = match RepoRelativePath::new(path) {
            Ok(p) => p,
            Err(d) => {
                return Err(RepoctlError::diagnostic(d.with_path(path)));
            },
        };
        match raw.into_domain(source) {
            Ok(m) => Ok(m),
            Err(d) => Err(RepoctlError::diagnostic(d.with_path(path))),
        }
    }

    /// Parses a template manifest from bytes, given the decoding of their
    /// text.
    pub fn parse_template_bytes(&self, path: &str, bytes: &[u8], decoded: Result<RawTemplateManifest, String>)
        -> (r: Result<crate::domain::TemplateManifest, RepoctlError>)
        ensures
            match r {
                Ok(m) => document_problem(path@, bytes@, decode_error(decoded)) is None && match decoded {
                    Ok(raw) => template_manifest_problem(raw) is None && template_manifest_matches(raw, m),
                    Err(_) => false,
                },
                Err(e) => match document_problem(path@, bytes@, decode_error(decoded)) {
                    Some(d) => crate::diagnostic::error_diagnostics(e) == seq![d],
                    None => match decoded {
                        Ok(raw) => match template_manifest_problem(raw) {
                            Some(d) => crate::diagnostic::error_diagnostics(e) == seq![with_path_model(d, path@)],
                            None => false,
                        },
                        Err(_) => false,
                    },
                },
            },
    {
        let raw = check_document(path, bytes, decoded)?;
        match raw.into_domain() {
            Ok(m) => Ok(m),
            Err(d) => Err(RepoctlError::diagnostic(d.with_path(path))),
        }
    }
}

} // verus!
