//! The GitHub Actions workflow that runs repoctl's checks, and its report.
use vstd::prelude::*;

use crate::domain::{ProjectManifest, RepoRelativePath, RepoSnapshot, WorkspaceLanguage};
use crate::text::{owned, push_str};

verus! {

/// Which language and `IaC` jobs a workflow runs.
#[derive(Clone, Copy, Debug, PartialEq, Eq, Structural)]
pub struct WorkflowJobs {
    /// Some project has a Rust workspace.
    pub has_rust: bool,
    /// Some project has a TypeScript workspace.
    pub has_node: bool,
    /// Some project declares `IaC`.
    pub has_iac: bool,
}

/// Some project has a workspace in the language.
pub open spec fn uses_language(ps: Seq<ProjectManifest>, language: WorkspaceLanguage) -> bool {
    exists|i: int, j: int| 0 <= i < ps.len() && 0 <= j < ps[i].workspaces@.len()
        && (#[trigger] ps[i].workspaces@[j]).language == language
}

/// Some project declares `IaC`.
pub open spec fn declares_iac(ps: Seq<ProjectManifest>) -> bool {
    exists|i: int| 0 <= i < ps.len() && (#[trigger] ps[i]).iac is Some
}

fn uses_language_exec(ps: &Vec<ProjectManifest>, language: WorkspaceLanguage) -> (r: bool)
    ensures
        r == uses_language(ps@, language),
{
    let mut i: usize = 0;
    while i < ps.len()
        invariant
            i <= ps.len(),
            forall|a: int, b: int| 0 <= a < i && 0 <= b < ps@[a].workspaces@.len()
                ==> (#[trigger] ps@[a].workspaces@[b]).language != language,
        decreases ps.len() - i,
    {
        let ws = &ps[i].workspaces;
        let mut j: usize = 0;
        while j < ws.len()
            invariant
                j <= ws.len(),
                i < ps.len(),
                ws@ == ps@[i as int].workspaces@,
                forall|b: int| 0 <= b < j ==> (#[trigger] ws@[b]).language != language,
            decreases ws.len() - j,
        {
            if ws[j].language == language {
                assert(ps@[i as int].workspaces@[j as int].language == language);
                return true;
            }
            j = j + 1;
        }
        i = i + 1;
    }
    false
}

impl WorkflowJobs {
    /// The jobs a snapshot's projects call for.
    pub fn from_snapshot(snapshot: &RepoSnapshot) -> (r: Self)
        ensures
            r == snapshot_jobs(*snapshot),
    {
        let has_rust = uses_language_exec(&snapshot.projects, WorkspaceLanguage::Rust);
        let has_node = uses_language_exec(&snapshot.projects, WorkspaceLanguage::TypeScript);
        let mut has_iac = false;
        let mut i: usize = 0;
        while i < snapshot.projects.len()
            invariant
                i <= snapshot.projects.len(),
                has_iac == exists|k: int| 0 <= k < i && (#[trigger] snapshot.projects@[k]).iac is Some,
            decreases snapshot.projects.len() - i,
        {
            if snapshot.projects[i].iac.is_some() {
                has_iac = true;
            }
            i = i + 1;
        }
        WorkflowJobs { has_rust, has_node, has_iac }
    }
}

/// The graph job and the workflow's triggers.
pub open spec fn workflow_header() -> Seq<char> {
    "# Generated by repoctl. Refresh with: repoctl ci workflow --provider github-actions --write\nname: repoctl\n\non:\n  pull_request:\n  push:\n    branches:\n      - main\n      - master\n\njobs:\n  graph:\n    name: graph\n    runs-on: ubuntu-latest\n    outputs:\n      matrix: ${{ steps.matrix.outputs.matrix }}\n    steps:\n      - uses: actions/checkout@v4\n      - uses: dtolnay/rust-toolchain@stable\n      - name: Install repoctl\n        run: cargo install --path apps/repoctl-cli --locked\n      - name: Validate graph\n        run: repoctl graph validate --mode structural\n      - name: Inspect code size\n        run: repoctl inspect size --scope changed --base ${{ github.event.pull_request.base.sha || github.event.before }} --head ${{ github.sha }} --fail-on error\n      - id: matrix\n        name: Compute matrix\n        run: |\n          matrix=$(repoctl ci matrix --tasks check,test,build --fallback all --format github-actions)\n          echo \"matrix=${matrix}\" >> \"$GITHUB_OUTPUT\"\n"@
}

/// The Rust job.
pub open spec fn rust_job() -> Seq<char> {
    "\n  rust:\n    name: rust\n    runs-on: ubuntu-latest\n    needs: graph\n    steps:\n      - uses: actions/checkout@v4\n      - uses: dtolnay/rust-toolchain@stable\n      - name: Install protoc\n        run: sudo apt-get update && sudo apt-get install -y protobuf-compiler\n      - name: Run Rust checks\n        run: repoctl run check --dry-run --format human\n"@
}

/// The Node job.
pub open spec fn node_job() -> Seq<char> {
    "\n  node:\n    name: node\n    runs-on: ubuntu-latest\n    needs: graph\n    steps:\n      - uses: actions/checkout@v4\n      - uses: actions/setup-node@v4\n        with:\n          node-version: \"22\"\n      - name: Run Node checks\n        run: repoctl run check --dry-run --format human\n"@
}

/// The `IaC` job.
pub open spec fn iac_job() -> Seq<char> {
    "\n  iac:\n    name: iac\n    runs-on: ubuntu-latest\n    needs: graph\n    steps:\n      - uses: actions/checkout@v4\n      - name: Type-check IaC plans\n        run: repoctl iac plan --affected --dry-run\n"@
}

/// The jobs the required job waits for: the graph job, then each language
/// and `IaC` job that runs.
pub open spec fn required_needs(j: WorkflowJobs) -> Seq<char> {
    "graph"@ + (if j.has_rust { ", rust"@ } else { Seq::empty() })
        + (if j.has_node { ", node"@ } else { Seq::empty() })
        + (if j.has_iac { ", iac"@ } else { Seq::empty() })
}

/// The required job, which fails when a job it waits for failed.
pub open spec fn required_job(j: WorkflowJobs) -> Seq<char> {
    "\n  required:\n    name: repoctl required\n    runs-on: ubuntu-latest\n    needs: ["@ + required_needs(j) + "]\n    if: always()\n    steps:\n      - name: Check required jobs\n        run: |\n          if [ '${{ contains(toJson(needs), '\"result\":\"failure\"') }}' = 'true' ]; then\n            exit 1\n          fi\n\n"@
}

/// The workflow text for the jobs.
pub open spec fn workflow_text(j: WorkflowJobs) -> Seq<char> {
    workflow_header() + (if j.has_rust { rust_job() } else { Seq::empty() })
        + (if j.has_node { node_job() } else { Seq::empty() })
        + (if j.has_iac { iac_job() } else { Seq::empty() }) + required_job(j)
}

/// The jobs a snapshot's projects call for.
pub open spec fn snapshot_jobs(snapshot: RepoSnapshot) -> WorkflowJobs {
    WorkflowJobs {
        has_rust: uses_language(snapshot.projects@, WorkspaceLanguage::Rust),
        has_node: uses_language(snapshot.projects@, WorkspaceLanguage::TypeScript),
        has_iac: declares_iac(snapshot.projects@),
    }
}

/// Renders the GitHub Actions workflow of a snapshot.
pub fn render_github_actions_workflow(snapshot: &RepoSnapshot) -> (r: String)
    ensures
        r@ == workflow_text(snapshot_jobs(*snapshot)),
{
    let jobs = WorkflowJobs::from_snapshot(snapshot);
    let mut out = owned("# Generated by repoctl. Refresh with: repoctl ci workflow --provider github-actions --write\nname: repoctl\n\non:\n  pull_request:\n  push:\n    branches:\n      - main\n      - master\n\njobs:\n  graph:\n    name: graph\n    runs-on: ubuntu-latest\n    outputs:\n      matrix: ${{ steps.matrix.outputs.matrix }}\n    steps:\n      - uses: actions/checkout@v4\n      - uses: dtolnay/rust-toolchain@stable\n      - name: Install repoctl\n        run: cargo install --path apps/repoctl-cli --locked\n      - name: Validate graph\n        run: repoctl graph validate --mode structural\n      - name: Inspect code size\n        run: repoctl inspect size --scope changed --base ${{ github.event.pull_request.base.sha || github.event.before }} --head ${{ github.sha }} --fail-on error\n      - id: matrix\n        name: Compute matrix\n        run: |\n          matrix=$(repoctl ci matrix --tasks check,test,build --fallback all --format github-actions)\n          echo \"matrix=${matrix}\" >> \"$GITHUB_OUTPUT\"\n");
    if jobs.has_rust {
        push_str(&mut out, "\n  rust:\n    name: rust\n    runs-on: ubuntu-latest\n    needs: graph\n    steps:\n      - uses: actions/checkout@v4\n      - uses: dtolnay/rust-toolchain@stable\n      - name: Install protoc\n        run: sudo apt-get update && sudo apt-get install -y protobuf-compiler\n      - name: Run Rust checks\n        run: repoctl run check --dry-run --format human\n");
    }
    if jobs.has_node {
        push_str(&mut out, "\n  node:\n    name: node\n    runs-on: ubuntu-latest\n    needs: graph\n    steps:\n      - uses: actions/checkout@v4\n      - uses: actions/setup-node@v4\n        with:\n          node-version: \"22\"\n      - name: Run Node checks\n        run: repoctl run check --dry-run --format human\n");
    }
    if jobs.has_iac {
        push_str(&mut out, "\n  iac:\n    name: iac\n    runs-on: ubuntu-latest\n    needs: graph\n    steps:\n      - uses: actions/checkout@v4\n      - name: Type-check IaC plans\n        run: repoctl iac plan --affected --dry-run\n");
    }
    push_str(&mut out, "\n  required:\n    name: repoctl required\n    runs-on: ubuntu-latest\n    needs: [");
    push_str(&mut out, "graph");
    if jobs.has_rust {
        push_str(&mut out, ", rust");
    }
    if jobs.has_node {
        push_str(&mut out, ", node");
    }
    if jobs.has_iac {
        push_str(&mut out, ", iac");
    }
    push_str(&mut out, "]\n    if: always()\n    steps:\n      - name: Check required jobs\n        run: |\n          if [ '${{ contains(toJson(needs), '\"result\":\"failure\"') }}' = 'true' ]; then\n            exit 1\n          fi\n\n");
    out
}

/// Where the workflow is written.
pub open spec fn workflow_path() -> Seq<char> {
    ".github/workflows/repoctl.yml"@
}

/// The workflow report of a snapshot: the workflow text at its path, with
/// one operation that writes the file or only plans it.
pub fn ci_workflow_report(snapshot: &RepoSnapshot, write: bool) -> (r: Result<crate::requests::CiWorkflowReport, crate::diagnostic::RepoctlError>)
    ensures
        match r {
            Ok(rep) => {
                &&& rep.path@ == workflow_path()
                &&& rep.content@ == workflow_text(snapshot_jobs(*snapshot))
                &&& rep.operations@.len() == 1
                &&& rep.operations@[0].path@ == workflow_path()
                &&& rep.operations@[0].operation@ == (if write { "write-file"@ } else { "plan-file"@ })
                &&& (rep.operations@[0].content matches Some(c) && c@ == rep.content@)
                &&& rep.diagnostics@.len() == 0
            },
            Err(_) => false,
        },
{
    proof {
        reveal_strlit(".github/workflows/repoctl.yml");
    }
    proof {
        reveal_strlit(".github/workflows/repoctl.yml");
    }
    let path = RepoRelativePath::from_path_text(owned(".github/workflows/repoctl.yml"));
    let content = render_github_actions_workflow(snapshot);
    let operation = crate::requests::FileOperation {
        path: path.duplicate(),
        operation: if write { owned("write-file") } else { owned("plan-file") },
        content: Some(owned(content.as_str())),
    };
    let mut operations = Vec::new();
    operations.push(operation);
    Ok(crate::requests::CiWorkflowReport { path, content, operations, diagnostics: Vec::new() })
}

} // verus!
