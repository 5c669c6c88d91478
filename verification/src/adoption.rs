//! Adoption planning: where an existing repository lands in the monorepo,
//! the project manifest written for it, the dependency rewrites between
//! adopted sources and the commands that verify the result.
use vstd::prelude::*;

use crate::diagnostic::{Diagnostic, DiagnosticModel, RepoctlError, error_diagnostics, error_model, models};
use crate::domain::{ProjectKind, ProjectName, RepoRelativePath};
use crate::requests::SourceInventory;
use crate::text::{chars_of, concat2, contains_seq, has_infix, has_prefix, has_suffix, join_with, owned, push_str, str_eq, strs};

verus! {

// ---------------------------------------------------------------------------
// Lowercasing
// ---------------------------------------------------------------------------

/// What `str::to_lowercase` gives for a text: Unicode lowercasing, which
/// may change the length of the text.
pub uninterp spec fn lowercase_text(s: Seq<char>) -> Seq<char>;

/// Lowercases a text with `str::to_lowercase`; the result is named by
/// `lowercase_text` and nothing more of it is stated.
#[verifier::external_body]
fn to_lowercase(s: &str) -> (r: String)
    ensures
        r@ == lowercase_text(s@),
{
    s.to_lowercase()
}

pub(crate) fn text_in(v: &Vec<String>, t: &str) -> (r: bool)
    ensures
        r == strs(v@).contains(t@),
{
    let mut i: usize = 0;
    while i < v.len()
        invariant
            i <= v.len(),
            forall|j: int| 0 <= j < i ==> strs(v@)[j] != t@,
        decreases v.len() - i,
    {
        if str_eq(v[i].as_str(), t) {
            assert(strs(v@)[i as int] == t@);
            return true;
        }
        i = i + 1;
    }
    false
}

// ---------------------------------------------------------------------------
// Placement
// ---------------------------------------------------------------------------

/// The kind a destination's lane implies.
pub open spec fn destination_kind(d: Seq<char>) -> ProjectKind {
    if has_prefix(d, "frameworks/"@) {
        ProjectKind::Framework
    } else if has_prefix(d, "foundations/"@) {
        ProjectKind::FoundationService
    } else if has_prefix(d, "core-infra/"@) {
        ProjectKind::CoreInfraComponent
    } else if has_prefix(d, "tools/"@) {
        ProjectKind::Tool
    } else {
        ProjectKind::App
    }
}

/// The kind a destination's lane implies.
pub fn kind_from_destination(destination: &RepoRelativePath) -> (r: ProjectKind)
    ensures
        r == destination_kind(destination@),
{
    let d = chars_of(destination.as_str());
    proof {
        reveal_strlit("frameworks/");
        reveal_strlit("foundations/");
        reveal_strlit("core-infra/");
        reveal_strlit("tools/");
    }
    if crate::text::starts_with(&d, &chars_of("frameworks/")) {
        ProjectKind::Framework
    } else if crate::text::starts_with(&d, &chars_of("foundations/")) {
        ProjectKind::FoundationService
    } else if crate::text::starts_with(&d, &chars_of("core-infra/")) {
        ProjectKind::CoreInfraComponent
    } else if crate::text::starts_with(&d, &chars_of("tools/")) {
        ProjectKind::Tool
    } else {
        ProjectKind::App
    }
}

/// Where an adopted source goes, as what kind, how sure the choice is (in
/// hundredths) and why.
#[derive(Clone, Debug)]
pub struct PlacementDecision {
    /// Destination path in the monorepo.
    pub destination: RepoRelativePath,
    /// Project kind.
    pub kind: ProjectKind,
    /// Confidence in hundredths: 100 is certain.
    pub confidence_percent: u8,
    /// Why the placement was chosen.
    pub reasons: Vec<String>,
    /// Whether an explicit override decided the placement.
    pub override_applied: bool,
}

/// The words the placement is inferred from: the name, the README summary,
/// the top-level directories and the dependency references.
pub open spec fn placement_words(name: Seq<char>, inv: SourceInventory) -> Seq<char> {
    name + " "@ + (match inv.readme_summary {
        Some(r) => r@,
        None => Seq::empty(),
    }) + " "@ + join_with(strs(inv.top_level_dirs@), " "@) + " "@ + join_with(strs(inv.dependency_references@), " "@)
}

/// The lane, kind, confidence and reason the indicators point to: tooling,
/// platform infrastructure, reusable frameworks, foundation services, else
/// product applications.
pub open spec fn lane_for(name: Seq<char>, inv: SourceInventory) -> (Seq<char>, ProjectKind, nat, Seq<char>) {
    lane_from_text(lowercase_text(placement_words(name, inv)), name, strs(inv.manifests@))
}

/// The lane, kind, confidence and reason that lower-cased indicator text,
/// the source's name and its manifests point to.
pub open spec fn lane_from_text(t: Seq<char>, name: Seq<char>, ms: Seq<Seq<char>>) -> (Seq<char>, ProjectKind, nat, Seq<char>) {
    if has_infix(t, "tool"@) || has_infix(t, "skill"@) || has_infix(t, "generator"@) || name == "skills"@ {
        ("tools"@, ProjectKind::Tool, 88, "developer tooling indicators"@)
    } else if has_infix(t, "nucleus"@) || has_infix(t, "membrane"@) || has_infix(t, "eks"@) || has_infix(t, "iam"@)
        || has_infix(t, "network"@) || (ms.contains("Pulumi.yaml"@) && !ms.contains("Cargo.toml"@)) {
        ("core-infra"@, ProjectKind::CoreInfraComponent, 86, "platform infrastructure indicators"@)
    } else if has_infix(t, "framework"@) || has_infix(t, "sdk"@) || has_infix(t, "runtime"@) || name == "operon"@ {
        ("frameworks"@, ProjectKind::Framework, 90, "reusable framework indicators"@)
    } else if has_infix(t, "identity"@) || has_infix(t, "registry"@) || has_infix(t, "billing"@) || has_infix(t, "auth"@)
        || name == "atp"@ || name == "chromatin"@ || name == "ligand"@ {
        ("foundations"@, ProjectKind::FoundationService, 84, "foundation service indicators"@)
    } else {
        ("apps"@, ProjectKind::App, 78, "default product application lane"@)
    }
}

/// The lane, kind, confidence and reason for a source, given its indicator
/// text already lower-cased, its name and its manifests.
pub fn infer_lane(lowered: &str, name: &str, manifests: &Vec<String>) -> (r: (&'static str, ProjectKind, u8, &'static str))
    ensures
        (r.0@, r.1, r.2 as nat, r.3@) == lane_from_text(lowered@, name@, strs(manifests@)),
{
    let t = chars_of(lowered);
    proof {
        reveal_strlit("skills");
        reveal_strlit("operon");
        reveal_strlit("atp");
        reveal_strlit("chromatin");
        reveal_strlit("ligand");
    }
    if mentions(&t, "tool") || mentions(&t, "skill") || mentions(&t, "generator") || str_eq(name, "skills") {
        ("tools", ProjectKind::Tool, 88, "developer tooling indicators")
    } else if mentions(&t, "nucleus") || mentions(&t, "membrane") || mentions(&t, "eks") || mentions(&t, "iam")
        || mentions(&t, "network") || (text_in(manifests, "Pulumi.yaml") && !text_in(manifests, "Cargo.toml")) {
        ("core-infra", ProjectKind::CoreInfraComponent, 86, "platform infrastructure indicators")
    } else if mentions(&t, "framework") || mentions(&t, "sdk") || mentions(&t, "runtime") || str_eq(name, "operon") {
        ("frameworks", ProjectKind::Framework, 90, "reusable framework indicators")
    } else if mentions(&t, "identity") || mentions(&t, "registry") || mentions(&t, "billing") || mentions(&t, "auth")
        || str_eq(name, "atp") || str_eq(name, "chromatin") || str_eq(name, "ligand") {
        ("foundations", ProjectKind::FoundationService, 84, "foundation service indicators")
    } else {
        ("apps", ProjectKind::App, 78, "default product application lane")
    }
}

/// The destination of an inferred placement: the lane and name as a path,
/// or the root when that is not a valid path.
pub open spec fn lane_destination(lane: Seq<char>, name: Seq<char>) -> Seq<char> {
    match crate::check::normalized_path(lane + "/"@ + name, false) {
        Ok(p) => p,
        Err(_) => seq!['.'],
    }
}

/// The placement of an adopted source: an explicit destination wins with
/// full confidence, else the lane the indicators point to; an explicit
/// kind wins over the inferred one.
pub open spec fn placement_ok(
    name: Seq<char>,
    inv: SourceInventory,
    override_path: Option<Seq<char>>,
    override_kind: Option<ProjectKind>,
    r: PlacementDecision,
) -> bool {
    match override_path {
        Some(d) => {
            &&& r.destination@ == d
            &&& r.kind == (match override_kind {
                Some(k) => k,
                None => destination_kind(d),
            })
            &&& r.confidence_percent == 100
            &&& strs(r.reasons@) == seq!["explicit placement override"@]
            &&& r.override_applied
        },
        None => {
            let (lane, kind, confidence, reason) = lane_for(name, inv);
            &&& r.destination@ == lane_destination(lane, name)
            &&& r.kind == (match override_kind {
                Some(k) => k,
                None => kind,
            })
            &&& r.confidence_percent == confidence
            &&& strs(r.reasons@) == seq![reason]
            &&& !r.override_applied
        },
    }
}

fn mentions(t: &Vec<char>, w: &str) -> (r: bool)
    ensures
        r == has_infix(t@, w@),
{
    contains_seq(t, &chars_of(w))
}

/// Infers where an adopted source goes in the monorepo.
pub fn infer_placement(
    name: &str,
    inventory: &SourceInventory,
    override_path: Option<RepoRelativePath>,
    override_kind: Option<ProjectKind>,
) -> (r: PlacementDecision)
    ensures
        placement_ok(
            name@,
            *inventory,
            match override_path {
                Some(p) => Some(p@),
                None => None,
            },
            override_kind,
            r,
        ),
{
    if let Some(destination) = override_path {
        let kind = match override_kind {
            Some(k) => k,
            None => kind_from_destination(&destination),
        };
        let mut reasons: Vec<String> = Vec::new();
        reasons.push(owned("explicit placement override"));
        proof {
            reveal_strlit("explicit placement override");
        }
        assert(strs(reasons@) =~= seq!["explicit placement override"@]);
        return PlacementDecision { destination, kind, confidence_percent: 100, reasons, override_applied: true };
    }
    let mut words = owned(name);
    push_str(&mut words, " ");
    match &inventory.readme_summary {
        Some(r) => push_str(&mut words, r.as_str()),
        None => {},
    }
    push_str(&mut words, " ");
    let dirs = crate::policy::join_strings(&inventory.top_level_dirs, " ");
    push_str(&mut words, dirs.as_str());
    push_str(&mut words, " ");
    let deps = crate::policy::join_strings(&inventory.dependency_references, " ");
    push_str(&mut words, deps.as_str());
    assert(words@ =~= placement_words(name@, *inventory));
    let lowered = to_lowercase(words.as_str());
    let (lane, kind, confidence, reason) = infer_lane(lowered.as_str(), name, &inventory.manifests);
    assert(lane_for(name@, *inventory) == (lane@, kind, confidence as nat, reason@));
    let kind = match override_kind {
        Some(k) => k,
        None => kind,
    };
    let mut path = owned(lane);
    push_str(&mut path, "/");
    push_str(&mut path, name);
    let destination = match RepoRelativePath::new(path.as_str()) {
        Ok(p) => p,
        Err(_) => RepoRelativePath::root(),
    };
    let mut reasons: Vec<String> = Vec::new();
    reasons.push(owned(reason));
    assert(strs(reasons@) =~= seq![reason@]);
    PlacementDecision { destination, kind, confidence_percent: confidence, reasons, override_applied: false }
}

// ---------------------------------------------------------------------------
// Project names
// ---------------------------------------------------------------------------

/// The text after the last `/` of a path.
pub open spec fn path_slug(p: Seq<char>) -> Seq<char> {
    crate::text::split_on(p, '/').last()
}

/// The project name an adopted destination gets: the kind's prefix and the
/// destination's last segment; the proto root and core infrastructure have
/// fixed names.
pub open spec fn destination_project_name(d: Seq<char>, kind: ProjectKind) -> Seq<char> {
    let slug = path_slug(d);
    match kind {
        ProjectKind::App => "apps."@ + slug,
        ProjectKind::Framework => "frameworks."@ + slug,
        ProjectKind::FoundationService => "foundations."@ + slug,
        ProjectKind::CoreInfraComponent => "core-infra."@ + slug,
        ProjectKind::Tool => "tools."@ + slug,
        ProjectKind::ProtoRoot => "protos.shared"@,
        ProjectKind::CoreInfra => "core-infra"@,
    }
}

fn last_segment(p: &str) -> (r: String)
    ensures
        r@ == path_slug(p@),
{
    let parts = crate::text::split_exec(&chars_of(p), '/');
    proof {
        crate::text::lemma_split_acc_len(p@, '/');
    }
    crate::text::string_of(&parts[parts.len() - 1])
}

/// The project name of an adopted destination, checked as a project name.
pub fn project_name_for_destination(destination: &RepoRelativePath, kind: ProjectKind) -> (r: Result<ProjectName, RepoctlError>)
    ensures
        match r {
            Ok(n) => crate::check::ident_problem("project name"@, destination_project_name(destination@, kind), 128, true) is None
                && n@ == destination_project_name(destination@, kind),
            Err(e) => crate::check::ident_problem("project name"@, destination_project_name(destination@, kind), 128, true) matches Some(d)
                && error_diagnostics(e) == seq![d],
        },
{
    let slug = last_segment(destination.as_str());
    let name = match kind {
        ProjectKind::App => concat2("apps.", slug.as_str()),
        ProjectKind::Framework => concat2("frameworks.", slug.as_str()),
        ProjectKind::FoundationService => concat2("foundations.", slug.as_str()),
        ProjectKind::CoreInfraComponent => concat2("core-infra.", slug.as_str()),
        ProjectKind::Tool => concat2("tools.", slug.as_str()),
        ProjectKind::ProtoRoot => owned("protos.shared"),
        ProjectKind::CoreInfra => owned("core-infra"),
    };
    proof {
        reveal_strlit("apps.");
        reveal_strlit("frameworks.");
        reveal_strlit("foundations.");
        reveal_strlit("core-infra.");
        reveal_strlit("tools.");
        reveal_strlit("protos.shared");
        reveal_strlit("core-infra");
    }
    match ProjectName::new(name.as_str()) {
        Ok(n) => Ok(n),
        Err(d) => Err(RepoctlError::diagnostic(d)),
    }
}

} // verus!

verus! {

// ---------------------------------------------------------------------------
// Synthesized manifests
// ---------------------------------------------------------------------------

/// Some manifest path satisfies the test.
pub open spec fn any_manifest(ms: Seq<Seq<char>>, f: spec_fn(Seq<char>) -> bool) -> bool {
    exists|i: int| 0 <= i < ms.len() && f(#[trigger] ms[i])
}

/// The text without its suffix.
pub open spec fn drop_suffix(s: Seq<char>, suffix: Seq<char>) -> Seq<char> {
    s.subrange(0, s.len() - suffix.len())
}

/// The text without its prefix.
pub open spec fn drop_prefix(s: Seq<char>, prefix: Seq<char>) -> Seq<char> {
    s.subrange(prefix.len() as int, s.len() as int)
}

/// The root of a Node workspace from its `package.json` path.
pub open spec fn node_root(manifest: Seq<char>) -> Seq<char> {
    if has_suffix(manifest, "/package.json"@) && drop_suffix(manifest, "/package.json"@).len() > 0 {
        drop_suffix(manifest, "/package.json"@)
    } else {
        "."@
    }
}

/// The workspace name of a Node workspace root.
pub open spec fn node_workspace_label(root: Seq<char>) -> Seq<char> {
    if root == "infra"@ {
        "infra"@
    } else if root == "."@ || root == "frontend"@ {
        "frontend"@
    } else if has_infix(root, "client"@) {
        "client-ts"@
    } else {
        root.map_values(|c: char| if c == '/' { '-' } else { c })
    }
}

/// Names a Node workspace from its root.
pub fn node_workspace_name(root: &str) -> (r: String)
    ensures
        r@ == node_workspace_label(root@),
{
    proof {
        reveal_strlit("infra");
        reveal_strlit(".");
        reveal_strlit("frontend");
        reveal_strlit("client");
        reveal_strlit("client-ts");
    }
    if str_eq(root, "infra") {
        owned("infra")
    } else if str_eq(root, ".") || str_eq(root, "frontend") {
        owned("frontend")
    } else if contains_seq(&chars_of(root), &chars_of("client")) {
        owned("client-ts")
    } else {
        let cs = chars_of(root);
        let mut out: Vec<char> = Vec::new();
        let mut i: usize = 0;
        while i < cs.len()
            invariant
                i <= cs.len(),
                cs@ == root@,
                out@ == cs@.subrange(0, i as int).map_values(|c: char| if c == '/' { '-' } else { c }),
            decreases cs.len() - i,
        {
            out.push(if cs[i] == '/' { '-' } else { cs[i] });
            i = i + 1;
            assert(out@ =~= cs@.subrange(0, i as int).map_values(|c: char| if c == '/' { '-' } else { c }));
        }
        assert(cs@.subrange(0, cs@.len() as int) =~= cs@);
        crate::text::string_of(&out)
    }
}

/// A lockfile path below a Node workspace root.
pub open spec fn lock_path(root: Seq<char>, name: Seq<char>) -> Seq<char> {
    if root == "."@ {
        name
    } else {
        root + "/"@ + name
    }
}

/// The toolchain, lockfile line and cache directory of a Node workspace:
/// by the lockfile found, pnpm, yarn, bun, else npm.
pub open spec fn node_toolchain_for(ms: Seq<Seq<char>>, root: Seq<char>) -> (Seq<char>, Seq<char>, Seq<char>) {
    if ms.contains(lock_path(root, "pnpm-lock.yaml"@)) {
        ("pnpm"@, "    lockfile: "@ + lock_path(root, "pnpm-lock.yaml"@) + "\n"@, "target/pnpm"@)
    } else if ms.contains(lock_path(root, "yarn.lock"@)) {
        ("yarn"@, "    lockfile: "@ + lock_path(root, "yarn.lock"@) + "\n"@, "target/yarn"@)
    } else if ms.contains(lock_path(root, "bun.lock"@)) {
        ("bun"@, "    lockfile: "@ + lock_path(root, "bun.lock"@) + "\n"@, "target/bun"@)
    } else {
        ("npm"@, "    lockfile: "@ + lock_path(root, "package-lock.json"@) + "\n"@, "target/npm"@)
    }
}

fn lock_path_exec(root: &str, name: &str) -> (r: String)
    ensures
        r@ == lock_path(root@, name@),
{
    proof {
        reveal_strlit(".");
    }
    if str_eq(root, ".") {
        owned(name)
    } else {
        let mut p = concat2(root, "/");
        push_str(&mut p, name);
        p
    }
}

fn lockfile_line(path: &str) -> (r: String)
    ensures
        r@ == "    lockfile: "@ + path@ + "\n"@,
{
    let mut line = concat2("    lockfile: ", path);
    push_str(&mut line, "\n");
    line
}

/// Chooses the toolchain of a Node workspace by its lockfile.
pub fn node_toolchain(inventory: &SourceInventory, root: &str) -> (r: (String, String, String))
    ensures
        (r.0@, r.1@, r.2@) == node_toolchain_for(strs(inventory.manifests@), root@),
{
    let pnpm = lock_path_exec(root, "pnpm-lock.yaml");
    if text_in(&inventory.manifests, pnpm.as_str()) {
        return (owned("pnpm"), lockfile_line(pnpm.as_str()), owned("target/pnpm"));
    }
    let yarn = lock_path_exec(root, "yarn.lock");
    if text_in(&inventory.manifests, yarn.as_str()) {
        return (owned("yarn"), lockfile_line(yarn.as_str()), owned("target/yarn"));
    }
    let bun = lock_path_exec(root, "bun.lock");
    if text_in(&inventory.manifests, bun.as_str()) {
        return (owned("bun"), lockfile_line(bun.as_str()), owned("target/bun"));
    }
    let npm = lock_path_exec(root, "package-lock.json");
    (owned("npm"), lockfile_line(npm.as_str()), owned("target/npm"))
}

/// The Rust workspace entry: named `rust` for a multi-crate workspace,
/// else `service`, with its lockfile when there is one.
pub open spec fn rust_workspace_entry(ms: Seq<Seq<char>>) -> Seq<char> {
    let multi = any_manifest(ms, |p: Seq<char>| has_prefix(p, "crates/"@) || has_prefix(p, "apps/"@));
    "  - name: "@ + (if multi { "rust"@ } else { "service"@ })
        + "\n    language: rust\n    toolchain: cargo\n    root: .\n    manifest: Cargo.toml\n"@
        + (if ms.contains("Cargo.lock"@) { "    lockfile: Cargo.lock\n"@ } else { Seq::empty() })
        + "    target_dir: \"{repo_root}/target/rust\"\n"@
}

/// The workspace entry of a Node package manifest.
pub open spec fn node_workspace_entry(ms: Seq<Seq<char>>, manifest: Seq<char>) -> Seq<char> {
    let root = node_root(manifest);
    let (toolchain, lockfile, cache_dir) = node_toolchain_for(ms, root);
    "  - name: "@ + node_workspace_label(root) + "\n    language: typescript\n    toolchain: "@ + toolchain
        + "\n    root: "@ + root + "\n    manifest: "@ + manifest + "\n"@ + lockfile + "    cache_dir: \"{repo_root}/"@
        + cache_dir + "\"\n"@
}

/// The `IaC` workspace entry.
pub open spec fn iac_workspace_entry() -> Seq<char> {
    "  - name: infra\n    language: iac\n    root: .\n    manifest: Pulumi.yaml\n"@
}

/// The Node workspace entries, one per package manifest, in order.
pub open spec fn node_entries(ms: Seq<Seq<char>>, all: Seq<Seq<char>>) -> Seq<Seq<char>>
    decreases ms.len(),
{
    if ms.len() == 0 {
        Seq::empty()
    } else {
        let rest = node_entries(ms.drop_last(), all);
        if has_suffix(ms.last(), "package.json"@) {
            rest.push(node_workspace_entry(all, ms.last()))
        } else {
            rest
        }
    }
}

/// The workspace entries of an adopted source: Rust, then each Node
/// package, then `IaC`.
pub open spec fn workspace_entries(ms: Seq<Seq<char>>) -> Seq<Seq<char>> {
    (if ms.contains("Cargo.toml"@) { seq![rust_workspace_entry(ms)] } else { Seq::empty() })
        + node_entries(ms, ms)
        + (if ms.contains("Pulumi.yaml"@) { seq![iac_workspace_entry()] } else { Seq::empty() })
}

fn any_prefixed(v: &Vec<String>, a: &str, b: &str) -> (r: bool)
    ensures
        r == any_manifest(strs(v@), |p: Seq<char>| has_prefix(p, a@) || has_prefix(p, b@)),
{
    let pa = chars_of(a);
    let pb = chars_of(b);
    let mut i: usize = 0;
    while i < v.len()
        invariant
            i <= v.len(),
            pa@ == a@,
            pb@ == b@,
            forall|j: int| 0 <= j < i ==> !(has_prefix(#[trigger] strs(v@)[j], a@) || has_prefix(strs(v@)[j], b@)),
        decreases v.len() - i,
    {
        let cs = chars_of(v[i].as_str());
        if crate::text::starts_with(&cs, &pa) || crate::text::starts_with(&cs, &pb) {
            assert(has_prefix(strs(v@)[i as int], a@) || has_prefix(strs(v@)[i as int], b@));
            return true;
        }
        i = i + 1;
    }
    false
}

fn node_entry(inventory: &SourceInventory, manifest: &str) -> (r: String)
    ensures
        r@ == node_workspace_entry(strs(inventory.manifests@), manifest@),
{
    let m = chars_of(manifest);
    let suffix = chars_of("/package.json");
    proof {
        reveal_strlit("/package.json");
        reveal_strlit(".");
    }
    let root = if crate::text::ends_with(&m, &suffix) && m.len() - suffix.len() > 0 {
        crate::text::string_of(&crate::text::slice_chars(&m, 0, m.len() - suffix.len()))
    } else {
        owned(".")
    };
    assert(root@ == node_root(manifest@));
    let name = node_workspace_name(root.as_str());
    let (toolchain, lockfile, cache_dir) = node_toolchain(inventory, root.as_str());
    let mut out = concat2("  - name: ", name.as_str());
    push_str(&mut out, "\n    language: typescript\n    toolchain: ");
    push_str(&mut out, toolchain.as_str());
    push_str(&mut out, "\n    root: ");
    push_str(&mut out, root.as_str());
    push_str(&mut out, "\n    manifest: ");
    push_str(&mut out, manifest);
    push_str(&mut out, "\n");
    push_str(&mut out, lockfile.as_str());
    push_str(&mut out, "    cache_dir: \"{repo_root}/");
    push_str(&mut out, cache_dir.as_str());
    push_str(&mut out, "\"\n");
    out
}

/// The workspace entries of a synthesized manifest.
pub fn synthesize_workspaces(inventory: &SourceInventory) -> (r: Vec<String>)
    ensures
        strs(r@) == workspace_entries(strs(inventory.manifests@)),
{
    let ghost ms = strs(inventory.manifests@);
    let mut out: Vec<String> = Vec::new();
    if text_in(&inventory.manifests, "Cargo.toml") {
        let multi = any_prefixed(&inventory.manifests, "crates/", "apps/");
        let mut entry = concat2("  - name: ", if multi { "rust" } else { "service" });
        push_str(&mut entry, "\n    language: rust\n    toolchain: cargo\n    root: .\n    manifest: Cargo.toml\n");
        if text_in(&inventory.manifests, "Cargo.lock") {
            push_str(&mut entry, "    lockfile: Cargo.lock\n");
        }
        push_str(&mut entry, "    target_dir: \"{repo_root}/target/rust\"\n");
        assert(entry@ =~= rust_workspace_entry(ms));
        out.push(entry);
    }
    let ghost before = strs(out@);
    let suffix = chars_of("package.json");
    let mut i: usize = 0;
    assert(node_entries(ms.subrange(0, 0), ms) =~= Seq::<Seq<char>>::empty());
    assert(strs(out@) =~= before + node_entries(ms.subrange(0, 0), ms));
    while i < inventory.manifests.len()
        invariant
            i <= inventory.manifests.len(),
            ms == strs(inventory.manifests@),
            suffix@ == "package.json"@,
            strs(out@) == before + node_entries(ms.subrange(0, i as int), ms),
        decreases inventory.manifests.len() - i,
    {
        let m = &inventory.manifests[i];
        assert(ms.subrange(0, i as int + 1).drop_last() =~= ms.subrange(0, i as int));
        assert(ms.subrange(0, i as int + 1).last() == m@);
        if crate::text::ends_with(&chars_of(m.as_str()), &suffix) {
            let e = node_entry(inventory, m.as_str());
            let ghost prev = strs(out@);
            out.push(e);
            assert(strs(out@) =~= prev.push(e@));
        }
        i = i + 1;
        assert(strs(out@) =~= before + node_entries(ms.subrange(0, i as int), ms));
    }
    assert(ms.subrange(0, ms.len() as int) =~= ms);
    if text_in(&inventory.manifests, "Pulumi.yaml") {
        let ghost prev = strs(out@);
        out.push(owned("  - name: infra\n    language: iac\n    root: .\n    manifest: Pulumi.yaml\n"));
        assert(strs(out@) =~= prev.push(iac_workspace_entry()));
    }
    assert(strs(out@) =~= workspace_entries(ms));
    out
}

} // verus!

verus! {

/// Some workspace entry mentions the text.
pub open spec fn any_entry_mentions(ws: Seq<Seq<char>>, t: Seq<char>) -> bool {
    exists|i: int| 0 <= i < ws.len() && has_infix(#[trigger] ws[i], t)
}

/// The Rust tasks: check, test and build in the `service` workspace.
pub open spec fn rust_tasks() -> Seq<char> {
    "  check:\n    - workspace: service\n      command: cargo check\n"@
        + "  test:\n    - workspace: service\n      command: cargo test\n"@
        + "  build:\n    - workspace: service\n      command: cargo build\n"@
}

/// The Node tasks, in the `infra` workspace when `infra/package.json` is a
/// manifest, else in `frontend`.
pub open spec fn node_tasks(ms: Seq<Seq<char>>) -> Seq<char> {
    let w = if any_manifest(ms, |p: Seq<char>| has_prefix(p, "infra/package.json"@)) { "infra"@ } else { "frontend"@ };
    "  check:\n    - workspace: "@ + w + "\n      command: npx tsc --noEmit\n"@ + "  build:\n    - workspace: "@ + w
        + "\n      command: npm run build\n"@
}

/// The tasks of a synthesized manifest, by the languages of its workspaces.
pub open spec fn tasks_text(ms: Seq<Seq<char>>, ws: Seq<Seq<char>>) -> Seq<char> {
    (if any_entry_mentions(ws, "language: rust"@) { rust_tasks() } else { Seq::empty() })
        + (if any_entry_mentions(ws, "language: typescript"@) { node_tasks(ms) } else { Seq::empty() })
}

fn any_with_prefix(v: &Vec<String>, a: &str) -> (r: bool)
    ensures
        r == any_manifest(strs(v@), |p: Seq<char>| has_prefix(p, a@)),
{
    let pa = chars_of(a);
    let mut i: usize = 0;
    while i < v.len()
        invariant
            i <= v.len(),
            pa@ == a@,
            forall|j: int| 0 <= j < i ==> !has_prefix(#[trigger] strs(v@)[j], a@),
        decreases v.len() - i,
    {
        if crate::text::starts_with(&chars_of(v[i].as_str()), &pa) {
            assert(has_prefix(strs(v@)[i as int], a@));
            return true;
        }
        i = i + 1;
    }
    false
}

fn entries_mention(ws: &Vec<String>, t: &str) -> (r: bool)
    ensures
        r == any_entry_mentions(strs(ws@), t@),
{
    let tc = chars_of(t);
    let mut i: usize = 0;
    while i < ws.len()
        invariant
            i <= ws.len(),
            tc@ == t@,
            forall|j: int| 0 <= j < i ==> !has_infix(#[trigger] strs(ws@)[j], t@),
        decreases ws.len() - i,
    {
        if contains_seq(&chars_of(ws[i].as_str()), &tc) {
            assert(has_infix(strs(ws@)[i as int], t@));
            return true;
        }
        i = i + 1;
    }
    false
}

/// The tasks section of a synthesized manifest.
pub fn synthesize_tasks(inventory: &SourceInventory, workspaces: &Vec<String>) -> (r: String)
    ensures
        r@ == tasks_text(strs(inventory.manifests@), strs(workspaces@)),
{
    let mut tasks = String::new();
    if entries_mention(workspaces, "language: rust") {
        push_str(&mut tasks, "  check:\n    - workspace: service\n      command: cargo check\n");
        push_str(&mut tasks, "  test:\n    - workspace: service\n      command: cargo test\n");
        push_str(&mut tasks, "  build:\n    - workspace: service\n      command: cargo build\n");
    }
    let ghost after_rust = tasks@;
    if entries_mention(workspaces, "language: typescript") {
        let infra = any_with_prefix(&inventory.manifests, "infra/package.json");
        let w = if infra { "infra" } else { "frontend" };
        push_str(&mut tasks, "  check:\n    - workspace: ");
        push_str(&mut tasks, w);
        push_str(&mut tasks, "\n      command: npx tsc --noEmit\n");
        push_str(&mut tasks, "  build:\n    - workspace: ");
        push_str(&mut tasks, w);
        push_str(&mut tasks, "\n      command: npm run build\n");
        assert(tasks@ =~= after_rust + node_tasks(strs(inventory.manifests@)));
    }
    assert(tasks@ =~= tasks_text(strs(inventory.manifests@), strs(workspaces@)));
    tasks
}

/// Whether an adopted source has a Pulumi project.
pub open spec fn has_pulumi(ms: Seq<Seq<char>>) -> bool {
    ms.contains("Pulumi.yaml"@) || ms.contains("infra/Pulumi.yaml"@)
}

/// The root of the Pulumi project.
pub open spec fn pulumi_root(ms: Seq<Seq<char>>) -> Seq<char> {
    if ms.contains("infra/Pulumi.yaml"@) { "infra"@ } else { "."@ }
}

/// The stack a Pulumi stack file declares, if the path is one.
pub open spec fn stack_of(p: Seq<char>, root: Seq<char>) -> Option<Seq<char>> {
    let rest = if has_prefix(p, root + "/Pulumi."@) {
        Some(drop_prefix(p, root + "/Pulumi."@))
    } else if has_prefix(p, "Pulumi."@) {
        Some(drop_prefix(p, "Pulumi."@))
    } else {
        None
    };
    match rest {
        Some(r) => if has_suffix(r, ".yaml"@) {
            Some(drop_suffix(r, ".yaml"@))
        } else {
            None
        },
        None => None,
    }
}

/// The stacks of the stack files among the manifests, in order.
pub open spec fn stacks_of(ms: Seq<Seq<char>>, root: Seq<char>) -> Seq<Seq<char>>
    decreases ms.len(),
{
    if ms.len() == 0 {
        Seq::empty()
    } else {
        let rest = stacks_of(ms.drop_last(), root);
        match stack_of(ms.last(), root) {
            Some(s) => rest.push(s),
            None => rest,
        }
    }
}

/// The lines that list the stacks.
pub open spec fn stack_lines(st: Seq<Seq<char>>) -> Seq<char>
    decreases st.len(),
{
    if st.len() == 0 {
        Seq::empty()
    } else {
        stack_lines(st.drop_last()) + "    - "@ + st.last() + "\n"@
    }
}

/// The `IaC` section of a synthesized manifest, for a source with a Pulumi
/// project.
pub open spec fn iac_text(ms: Seq<Seq<char>>) -> Option<Seq<char>> {
    if !has_pulumi(ms) {
        None
    } else {
        let root = pulumi_root(ms);
        let st = stacks_of(ms, root);
        Some("iac:\n  root: "@ + root + "\n  provider: pulumi\n"@
            + (if st.len() > 0 { "  stacks:\n"@ + stack_lines(st) } else { Seq::empty() }))
    }
}

fn stack_of_exec(p: &str, root: &str) -> (r: Option<String>)
    ensures
        match r {
            Some(s) => stack_of(p@, root@) == Some(s@),
            None => stack_of(p@, root@) is None,
        },
{
    let cs = chars_of(p);
    let first = concat2(root, "/Pulumi.");
    let fc = chars_of(first.as_str());
    let sc = chars_of("Pulumi.");
    let yaml = chars_of(".yaml");
    proof {
        reveal_strlit("/Pulumi.");
        reveal_strlit("Pulumi.");
        reveal_strlit(".yaml");
    }
    let rest = if crate::text::starts_with(&cs, &fc) {
        crate::text::slice_chars(&cs, fc.len(), cs.len())
    } else if crate::text::starts_with(&cs, &sc) {
        crate::text::slice_chars(&cs, sc.len(), cs.len())
    } else {
        return None;
    };
    if crate::text::ends_with(&rest, &yaml) {
        Some(crate::text::string_of(&crate::text::slice_chars(&rest, 0, rest.len() - yaml.len())))
    } else {
        None
    }
}

/// The `IaC` section of a synthesized manifest.
pub fn synthesize_iac(inventory: &SourceInventory) -> (r: Option<String>)
    ensures
        match r {
            Some(t) => iac_text(strs(inventory.manifests@)) == Some(t@),
            None => iac_text(strs(inventory.manifests@)) is None,
        },
{
    let ghost ms = strs(inventory.manifests@);
    let nested = text_in(&inventory.manifests, "infra/Pulumi.yaml");
    if !(text_in(&inventory.manifests, "Pulumi.yaml") || nested) {
        return None;
    }
    let root = if nested { "infra" } else { "." };
    proof {
        reveal_strlit("infra");
        reveal_strlit(".");
    }
    assert(root@ == pulumi_root(ms));
    let mut stacks: Vec<String> = Vec::new();
    let mut i: usize = 0;
    while i < inventory.manifests.len()
        invariant
            i <= inventory.manifests.len(),
            ms == strs(inventory.manifests@),
            strs(stacks@) == stacks_of(ms.subrange(0, i as int), root@),
        decreases inventory.manifests.len() - i,
    {
        assert(ms.subrange(0, i as int + 1).drop_last() =~= ms.subrange(0, i as int));
        assert(ms.subrange(0, i as int + 1).last() == inventory.manifests@[i as int]@);
        match stack_of_exec(inventory.manifests[i].as_str(), root) {
            Some(s) => {
                let ghost prev = strs(stacks@);
                stacks.push(s);
                assert(strs(stacks@) =~= prev.push(stacks@[stacks@.len() - 1]@));
            },
            None => {},
        }
        i = i + 1;
    }
    assert(ms.subrange(0, ms.len() as int) =~= ms);
    let mut out = concat2("iac:\n  root: ", root);
    push_str(&mut out, "\n  provider: pulumi\n");
    if stacks.len() > 0 {
        let ghost head = out@;
        push_str(&mut out, "  stacks:\n");
        let ghost base = out@;
        let mut k: usize = 0;
        assert(stack_lines(strs(stacks@).subrange(0, 0)) =~= Seq::<char>::empty());
        while k < stacks.len()
            invariant
                k <= stacks.len(),
                out@ == base + stack_lines(strs(stacks@).subrange(0, k as int)),
            decreases stacks.len() - k,
        {
            push_str(&mut out, "    - ");
            push_str(&mut out, stacks[k].as_str());
            push_str(&mut out, "\n");
            assert(strs(stacks@).subrange(0, k as int + 1).drop_last() =~= strs(stacks@).subrange(0, k as int));
            k = k + 1;
        }
        assert(strs(stacks@).subrange(0, stacks@.len() as int) =~= strs(stacks@));
    }
    Some(out)
}

} // verus!

verus! {

/// The project manifest written for an adopted source: identity, kind,
/// path and owner, then the workspaces, tasks and `IaC` found in it, its
/// docs for AI context, and a note for a tool without workspaces.
pub open spec fn manifest_text(
    project: Seq<char>,
    kind: ProjectKind,
    destination: Seq<char>,
    inv: SourceInventory,
    owner: Seq<char>,
) -> Seq<char> {
    let ms = strs(inv.manifests@);
    let ws = workspace_entries(ms);
    let tasks = tasks_text(ms, ws);
    "schema: company.project/v1\nname: "@ + project + "\nkind: "@ + crate::cli::kind_label(kind) + "\npath: "@ + destination
        + "\nowners:\n  - \""@ + owner + "\"\n"@
        + (if ws.len() > 0 { "\nworkspaces:\n"@ + join_with(ws, Seq::empty()) } else { Seq::empty() })
        + (if tasks.len() > 0 { "\ntasks:\n"@ + tasks } else { Seq::empty() })
        + (match iac_text(ms) {
            Some(t) => "\n"@ + t,
            None => Seq::empty(),
        })
        + (if strs(inv.top_level_dirs@).contains("docs"@) { "\nai:\n  docs:\n    - docs\n"@ } else { Seq::empty() })
        + (if kind == ProjectKind::Tool && ws.len() == 0 {
            "\n# docs/spec-only tool; tasks intentionally omitted\n"@
        } else {
            Seq::empty()
        })
}

/// The owner written into a synthesized manifest: the given one, else
/// `@platform`.
pub open spec fn manifest_owner(owner: Option<crate::domain::OwnerHandle>) -> Seq<char> {
    match owner {
        Some(o) => o@,
        None => "@platform"@,
    }
}

/// Writes the project manifest of an adopted source; fails when the
/// destination yields no valid project name.
pub fn synthesize_project_manifest(
    placement: &PlacementDecision,
    inventory: &SourceInventory,
    owner: Option<&crate::domain::OwnerHandle>,
) -> (r: Result<String, RepoctlError>)
    ensures
        match r {
            Ok(t) => crate::check::ident_problem("project name"@, destination_project_name(placement.destination@, placement.kind), 128, true) is None
                && t@ == manifest_text(
                    destination_project_name(placement.destination@, placement.kind),
                    placement.kind,
                    placement.destination@,
                    *inventory,
                    manifest_owner(match owner {
                        Some(o) => Some(*o),
                        None => None,
                    }),
                ),
            Err(e) => crate::check::ident_problem("project name"@, destination_project_name(placement.destination@, placement.kind), 128, true) matches Some(d)
                && error_diagnostics(e) == seq![d],
        },
{
    let project = project_name_for_destination(&placement.destination, placement.kind)?;
    let owner_text = match owner {
        Some(o) => o.as_str(),
        None => "@platform",
    };
    let mut out = concat2("schema: company.project/v1\nname: ", project.as_str());
    push_str(&mut out, "\nkind: ");
    push_str(&mut out, crate::cli::project_kind_label(placement.kind));
    push_str(&mut out, "\npath: ");
    push_str(&mut out, placement.destination.as_str());
    push_str(&mut out, "\nowners:\n  - \"");
    push_str(&mut out, owner_text);
    push_str(&mut out, "\"\n");
    let ghost ms = strs(inventory.manifests@);
    let ghost owner_view = manifest_owner(match owner {
        Some(o) => Some(*o),
        None => None,
    });
    proof {
        reveal_strlit("@platform");
    }
    assert(owner_text@ == owner_view);
    let ghost head = out@;
    assert(head =~= "schema: company.project/v1\nname: "@ + project@ + "\nkind: "@ + crate::cli::kind_label(placement.kind)
        + "\npath: "@ + placement.destination@ + "\nowners:\n  - \""@ + owner_view + "\"\n"@);
    let workspaces = synthesize_workspaces(inventory);
    let ghost ws = workspace_entries(ms);
    let ghost p1 = if ws.len() > 0 { "\nworkspaces:\n"@ + join_with(ws, Seq::empty()) } else { Seq::<char>::empty() };
    if workspaces.len() > 0 {
        push_str(&mut out, "\nworkspaces:\n");
        let all = crate::policy::join_strings(&workspaces, "");
        proof {
            reveal_strlit("");
        }
        assert(""@ =~= Seq::<char>::empty());
        assert(strs(workspaces@) == ws);
        assert(all@ == join_with(ws, Seq::empty()));
        assert(ws.len() > 0);
        push_str(&mut out, all.as_str());
    } else {
        assert(ws.len() == 0);
    }
    assert(out@ =~= head + p1);
    let tasks = synthesize_tasks(inventory, &workspaces);
    let ghost tt = tasks_text(ms, ws);
    let ghost p2 = if tt.len() > 0 { "\ntasks:\n"@ + tt } else { Seq::<char>::empty() };
    if chars_of(tasks.as_str()).len() > 0 {
        push_str(&mut out, "\ntasks:\n");
        push_str(&mut out, tasks.as_str());
    }
    assert(out@ =~= head + p1 + p2);
    let ghost p3 = match iac_text(ms) {
        Some(t) => "\n"@ + t,
        None => Seq::<char>::empty(),
    };
    match synthesize_iac(inventory) {
        Some(t) => {
            push_str(&mut out, "\n");
            push_str(&mut out, t.as_str());
        },
        None => {},
    }
    assert(out@ =~= head + p1 + p2 + p3);
    let ghost p4 = if strs(inventory.top_level_dirs@).contains("docs"@) { "\nai:\n  docs:\n    - docs\n"@ } else { Seq::<char>::empty() };
    if text_in(&inventory.top_level_dirs, "docs") {
        push_str(&mut out, "\nai:\n  docs:\n    - docs\n");
    }
    assert(out@ =~= head + p1 + p2 + p3 + p4);
    let is_tool = match placement.kind {
        ProjectKind::Tool => true,
        _ => false,
    };
    let ghost p5 = if placement.kind == ProjectKind::Tool && ws.len() == 0 {
        "\n# docs/spec-only tool; tasks intentionally omitted\n"@
    } else {
        Seq::<char>::empty()
    };
    if is_tool && workspaces.len() == 0 {
        push_str(&mut out, "\n# docs/spec-only tool; tasks intentionally omitted\n");
    }
    assert(out@ =~= head + p1 + p2 + p3 + p4 + p5);
    Ok(out)
}

} // verus!

verus! {

// ---------------------------------------------------------------------------
// Relative dependency paths
// ---------------------------------------------------------------------------

/// A path segment that names a directory: neither empty nor `.`.
pub open spec fn real_segment(x: Seq<char>) -> bool {
    x.len() > 0 && x != "."@
}

/// The directories of a path, in order, without empty and `.` segments.
pub open spec fn path_segments(p: Seq<char>) -> Seq<Seq<char>> {
    crate::text::split_on(p, '/').filter(|x: Seq<char>| real_segment(x))
}

/// The directories of a file's parent, without empty and `.` segments.
pub open spec fn parent_segments(p: Seq<char>) -> Seq<Seq<char>> {
    crate::text::split_on(p, '/').drop_last().filter(|x: Seq<char>| real_segment(x))
}

/// The length of the common prefix of two segment lists.
pub open spec fn common_len(a: Seq<Seq<char>>, b: Seq<Seq<char>>) -> nat
    decreases a.len(),
{
    if a.len() == 0 || b.len() == 0 || a[0] != b[0] {
        0
    } else {
        1 + common_len(a.drop_first(), b.drop_first())
    }
}

/// The segments of the path from a file's directory to a target: up past
/// what they do not share, then down to the target.
pub open spec fn relative_segments(from_file: Seq<char>, target: Seq<char>) -> Seq<Seq<char>> {
    let f = parent_segments(from_file);
    let t = path_segments(target);
    let c = common_len(f, t);
    Seq::new((f.len() - c) as nat, |_i: int| ".."@) + t.subrange(c as int, t.len() as int)
}

/// The path from a file's directory to a target, `.` when they are the
/// same.
pub open spec fn relative_path_text(from_file: Seq<char>, target: Seq<char>) -> Seq<char> {
    let parts = relative_segments(from_file, target);
    if parts.len() == 0 {
        "."@
    } else {
        join_with(parts, "/"@)
    }
}

fn keep_segments(parts: &Vec<Vec<char>>, upto: usize) -> (r: Vec<Vec<char>>)
    requires
        upto <= parts.len(),
    ensures
        crate::text::pieces(r@) == crate::text::pieces(parts@).subrange(0, upto as int).filter(|x: Seq<char>| real_segment(x)),
{
    let ghost all = crate::text::pieces(parts@);
    let ghost pred = |x: Seq<char>| real_segment(x);
    let mut out: Vec<Vec<char>> = Vec::new();
    let mut i: usize = 0;
    while i < upto
        invariant
            i <= upto <= parts.len(),
            all == crate::text::pieces(parts@),
            pred == (|x: Seq<char>| real_segment(x)),
            crate::text::pieces(out@) == all.subrange(0, i as int).filter(pred),
        decreases upto - i,
    {
        assert(all.subrange(0, i as int + 1) =~= all.subrange(0, i as int).push(all[i as int]));
        proof {
            all.subrange(0, i as int).lemma_filter_push(all[i as int], pred);
        }
        let x = &parts[i];
        assert(x@ == all[i as int]);
        if x.len() > 0 && !(x.len() == 1 && x[0] == '.') {
            assert(x@ != "."@) by {
                reveal_strlit(".");
                if x@ == "."@ {
                    assert(x@.len() == 1);
                }
            }
            let ghost prev = crate::text::pieces(out@);
            out.push(crate::check::copy_chars(x));
            assert(crate::text::pieces(out@) =~= prev.push(x@));
        } else {
            proof {
                reveal_strlit(".");
                if x@.len() == 1 && x@[0] == '.' {
                    assert(x@ =~= "."@);
                }
            }
        }
        i = i + 1;
    }
    out
}

proof fn lemma_common_len_bound(a: Seq<Seq<char>>, b: Seq<Seq<char>>)
    ensures
        common_len(a, b) <= a.len(),
        common_len(a, b) <= b.len(),
        forall|k: int| 0 <= k < common_len(a, b) ==> a[k] == b[k],
        common_len(a, b) < a.len() && common_len(a, b) < b.len() ==> a[common_len(a, b) as int] != b[common_len(a, b) as int],
    decreases a.len(),
{
    if !(a.len() == 0 || b.len() == 0 || a[0] != b[0]) {
        lemma_common_len_bound(a.drop_first(), b.drop_first());
        assert forall|k: int| 0 <= k < common_len(a, b) implies a[k] == b[k] by {
            if k > 0 {
                assert(a.drop_first()[k - 1] == a[k]);
                assert(b.drop_first()[k - 1] == b[k]);
            }
        }
    }
}

proof fn lemma_common_len_unique(a: Seq<Seq<char>>, b: Seq<Seq<char>>, c: nat)
    requires
        c <= a.len(),
        c <= b.len(),
        forall|k: int| 0 <= k < c ==> a[k] == b[k],
        !(c < a.len() && c < b.len()) || a[c as int] != b[c as int],
    ensures
        common_len(a, b) == c,
    decreases a.len(),
{
    if c > 0 {
        assert(a[0] == b[0]);
        assert forall|k: int| 0 <= k < c - 1 implies a.drop_first()[k] == b.drop_first()[k] by {
            assert(a[k + 1] == b[k + 1]);
        }
        lemma_common_len_unique(a.drop_first(), b.drop_first(), (c - 1) as nat);
    }
}

/// The path from a manifest's directory to a dependency's directory.
pub fn relative_dependency_path(from_file: &RepoRelativePath, target: &RepoRelativePath) -> (r: String)
    ensures
        r@ == relative_path_text(from_file@, target@),
{
    let fparts = crate::text::split_exec(&chars_of(from_file.as_str()), '/');
    proof {
        crate::text::lemma_split_acc_len(from_file@, '/');
    }
    let f = keep_segments(&fparts, fparts.len() - 1);
    assert(crate::text::pieces(fparts@).subrange(0, fparts@.len() - 1) =~= crate::text::split_on(from_file@, '/').drop_last());
    let tparts = crate::text::split_exec(&chars_of(target.as_str()), '/');
    let t = keep_segments(&tparts, tparts.len());
    assert(crate::text::pieces(tparts@).subrange(0, tparts@.len() as int) =~= crate::text::split_on(target@, '/'));
    let ghost fs = crate::text::pieces(f@);
    let ghost ts = crate::text::pieces(t@);
    let mut c: usize = 0;
    while c < f.len() && c < t.len() && crate::text::seq_eq(&f[c], &t[c])
        invariant
            c <= f.len(),
            c <= t.len(),
            fs == crate::text::pieces(f@),
            ts == crate::text::pieces(t@),
            forall|k: int| 0 <= k < c ==> fs[k] == ts[k],
        decreases f.len() - c,
    {
        assert(fs[c as int] == f@[c as int]@);
        c = c + 1;
    }
    proof {
        if c < f.len() && c < t.len() {
            assert(fs[c as int] == f@[c as int]@ && ts[c as int] == t@[c as int]@);
        }
        lemma_common_len_unique(fs, ts, c as nat);
    }
    let mut parts: Vec<Vec<char>> = Vec::new();
    let mut k: usize = c;
    while k < f.len()
        invariant
            c <= k <= f.len(),
            crate::text::pieces(parts@) == Seq::new((k - c) as nat, |_i: int| ".."@),
        decreases f.len() - k,
    {
        let ghost prev = crate::text::pieces(parts@);
        parts.push(chars_of(".."));
        assert(crate::text::pieces(parts@) =~= prev.push(".."@));
        k = k + 1;
        assert(crate::text::pieces(parts@) =~= Seq::new((k - c) as nat, |_i: int| ".."@));
    }
    let ghost ups = crate::text::pieces(parts@);
    let mut j: usize = c;
    while j < t.len()
        invariant
            c <= j <= t.len(),
            ts == crate::text::pieces(t@),
            crate::text::pieces(parts@) == ups + ts.subrange(c as int, j as int),
        decreases t.len() - j,
    {
        let ghost prev = crate::text::pieces(parts@);
        parts.push(crate::check::copy_chars(&t[j]));
        assert(crate::text::pieces(parts@) =~= prev.push(ts[j as int]));
        j = j + 1;
        assert(ts.subrange(c as int, j as int) =~= ts.subrange(c as int, j as int - 1).push(ts[j as int - 1]));
        assert(crate::text::pieces(parts@) =~= ups + ts.subrange(c as int, j as int));
    }
    assert(crate::text::pieces(parts@) =~= relative_segments(from_file@, target@));
    if parts.len() == 0 {
        proof {
            reveal_strlit(".");
        }
        owned(".")
    } else {
        let joined = crate::text::join_exec(&parts, &chars_of("/"));
        proof {
            reveal_strlit("/");
        }
        crate::text::string_of(&joined)
    }
}

} // verus!

verus! {

// ---------------------------------------------------------------------------
// Adopted sources
// ---------------------------------------------------------------------------

/// A source repository selected for adoption, with its placement.
#[derive(Clone, Debug)]
pub struct AdoptedSource {
    /// Source repository name.
    pub name: String,
    /// Source path.
    pub source_path: String,
    /// Destination path.
    pub destination_path: RepoRelativePath,
    /// Inferred kind.
    pub inferred_kind: ProjectKind,
    /// Confidence in hundredths: 100 is certain.
    pub confidence_percent: u8,
    /// Inference reasons.
    pub reasons: Vec<String>,
    /// Inventory snapshot.
    pub inventory: SourceInventory,
    /// Whether this source is skipped.
    pub skipped: bool,
    /// Whether placement was explicitly overridden.
    pub override_applied: bool,
}

/// Records an adopted source with its placement.
pub fn adopted_source(
    name: String,
    source_path: String,
    placement: PlacementDecision,
    inventory: SourceInventory,
    skipped: bool,
) -> (r: AdoptedSource)
    ensures
        r.name == name,
        r.source_path == source_path,
        r.destination_path == placement.destination,
        r.inferred_kind == placement.kind,
        r.confidence_percent == placement.confidence_percent,
        r.reasons == placement.reasons,
        r.inventory == inventory,
        r.skipped == skipped,
        r.override_applied == placement.override_applied,
{
    AdoptedSource {
        name,
        source_path,
        destination_path: placement.destination,
        inferred_kind: placement.kind,
        confidence_percent: placement.confidence_percent,
        reasons: placement.reasons,
        inventory,
        skipped,
        override_applied: placement.override_applied,
    }
}

/// A source is skipped when an inclusion list leaves it out or the
/// exclusion list names it.
pub open spec fn skipped_source(included: Seq<Seq<char>>, excluded: Seq<Seq<char>>, name: Seq<char>) -> bool {
    !(included.len() == 0 || included.contains(name)) || excluded.contains(name)
}

/// Whether a source is skipped.
pub fn source_skipped(included: &Vec<String>, excluded: &Vec<String>, name: &str) -> (r: bool)
    ensures
        r == skipped_source(strs(included@), strs(excluded@), name@),
{
    let selected = included.len() == 0 || text_in(included, name);
    !selected || text_in(excluded, name)
}

/// A confidence in hundredths as a number with two decimals.
pub open spec fn confidence_text(p: nat) -> Seq<char> {
    crate::text::decimal(p / 100) + "."@ + crate::text::decimal((p % 100) / 10) + crate::text::decimal(p % 10)
}

/// The error for a placement too uncertain to adopt without an explicit
/// destination.
pub open spec fn low_confidence_error(name: Seq<char>, p: nat) -> DiagnosticModel {
    crate::diagnostic::with_help_model(
        error_model(
            "adoption.placement.low_confidence"@,
            "source `"@ + name + "` placement confidence "@ + confidence_text(p) + " requires --map"@,
        ),
        "pass --map "@ + name + "=<lane>/"@ + name + " and optionally --kind "@ + name + "=<kind>"@,
    )
}

/// The error for an inferred placement below three quarters confidence.
pub fn low_confidence_diagnostic(name: &str, placement: &PlacementDecision) -> (r: Option<Diagnostic>)
    ensures
        match r {
            Some(d) => placement.confidence_percent < 75 && !placement.override_applied
                && d@ == low_confidence_error(name@, placement.confidence_percent as nat),
            None => !(placement.confidence_percent < 75 && !placement.override_applied),
        },
{
    if placement.confidence_percent >= 75 || placement.override_applied {
        return None;
    }
    let p = placement.confidence_percent as usize;
    let mut msg = concat2("source `", name);
    push_str(&mut msg, "` placement confidence ");
    crate::text::push_chars(&mut msg, &crate::text::decimal_exec(p / 100));
    push_str(&mut msg, ".");
    crate::text::push_chars(&mut msg, &crate::text::decimal_exec((p % 100) / 10));
    crate::text::push_chars(&mut msg, &crate::text::decimal_exec(p % 10));
    push_str(&mut msg, " requires --map");
    let mut help = concat2("pass --map ", name);
    push_str(&mut help, "=<lane>/");
    push_str(&mut help, name);
    push_str(&mut help, " and optionally --kind ");
    push_str(&mut help, name);
    push_str(&mut help, "=<kind>");
    assert(msg@ =~= "source `"@ + name@ + "` placement confidence "@ + confidence_text(placement.confidence_percent as nat)
        + " requires --map"@);
    assert(help@ =~= "pass --map "@ + name@ + "=<lane>/"@ + name@ + " and optionally --kind "@ + name@ + "=<kind>"@);
    Some(Diagnostic::error("adoption.placement.low_confidence", msg.as_str()).with_help(help.as_str()))
}

/// The owner a source gets by default: `@` and its name, when that is a
/// valid owner handle.
pub fn default_owner(name: &str) -> (r: Option<crate::domain::OwnerHandle>)
    ensures
        match r {
            Some(o) => crate::domain::owner_problem("@"@ + name@) is None && o@ == "@"@ + name@,
            None => crate::domain::owner_problem("@"@ + name@) is Some,
        },
{
    let text = concat2("@", name);
    match crate::domain::OwnerHandle::new(text.as_str()) {
        Ok(o) => Some(o),
        Err(_) => None,
    }
}

/// Where a synthesized manifest is written: `project.yaml` below the
/// destination.
pub open spec fn manifest_path_of(destination: Seq<char>) -> Result<Seq<char>, DiagnosticModel> {
    match crate::check::normalized_path("project.yaml"@, true) {
        Err(d) => Err(d),
        Ok(p) => crate::domain::join_project_spec(destination, p),
    }
}

/// The manifest write of an adopted source: the operation id, where the
/// manifest goes, and the record of the synthesized manifest.
pub fn manifest_entry(name: &str, placement: &PlacementDecision, manifest: String)
    -> (r: Result<(String, RepoRelativePath, crate::requests::ProjectManifestSynthesis), RepoctlError>)
    ensures
        match r {
            Ok((id, path, synthesis)) => {
                &&& id@ == "adoption.manifest."@ + name@
                &&& manifest_path_of(placement.destination@) == Ok::<Seq<char>, DiagnosticModel>(path@)
                &&& synthesis.source@ == name@
                &&& synthesis.project@ == destination_project_name(placement.destination@, placement.kind)
                &&& synthesis.manifest_path@ == path@
                &&& synthesis.content == manifest
            },
            Err(e) => match manifest_path_of(placement.destination@) {
                Err(d) => error_diagnostics(e) == seq![d],
                Ok(_) => crate::check::ident_problem("project name"@, destination_project_name(placement.destination@, placement.kind), 128, true) matches Some(d)
                    && error_diagnostics(e) == seq![d],
            },
        },
{
    let file = match crate::domain::ProjectRelativePath::new("project.yaml") {
        Ok(f) => f,
        Err(d) => return Err(RepoctlError::diagnostic(d)),
    };
    let path = match placement.destination.join_project(&file) {
        Ok(p) => p,
        Err(d) => return Err(RepoctlError::diagnostic(d)),
    };
    let project = project_name_for_destination(&placement.destination, placement.kind)?;
    let id = concat2("adoption.manifest.", name);
    let synthesis = crate::requests::ProjectManifestSynthesis {
        source: owned(name),
        project,
        manifest_path: path.duplicate(),
        content: manifest,
    };
    Ok((id, path, synthesis))
}

} // verus!

verus! {

// ---------------------------------------------------------------------------
// Verification plans
// ---------------------------------------------------------------------------

/// The tools the adopted (not skipped) sources require, source by source.
pub open spec fn required_tools(sources: Seq<AdoptedSource>) -> Seq<Seq<char>>
    decreases sources.len(),
{
    if sources.len() == 0 {
        Seq::empty()
    } else {
        required_tools(sources.drop_last()) + (if sources.last().skipped {
            Seq::empty()
        } else {
            strs(sources.last().inventory.required_tools@)
        })
    }
}

/// The last adopted source that requires the tool.
pub open spec fn last_requiring(sources: Seq<AdoptedSource>, tool: Seq<char>) -> Option<int>
    decreases sources.len(),
{
    if sources.len() == 0 {
        None
    } else if !sources.last().skipped && strs(sources.last().inventory.required_tools@).contains(tool) {
        Some(sources.len() - 1)
    } else {
        last_requiring(sources.drop_last(), tool)
    }
}

/// Why a tool is a prerequisite.
pub open spec fn prerequisite_reason(source_name: Seq<char>) -> Seq<char> {
    "required by adopted source `"@ + source_name + "`"@
}

/// A planned command as its directory, program and arguments.
pub type CommandModel = (Seq<char>, Seq<char>, Seq<Seq<char>>);

/// The value of a planned command.
pub open spec fn command_model(c: crate::requests::ProcessCommand) -> CommandModel {
    (c.cwd@, c.program@, strs(c.args@))
}

/// The build checks of the adopted sources: `cargo check` for a source with
/// a Rust manifest, `npm run build` for one with a Node manifest.
pub open spec fn build_checks(sources: Seq<AdoptedSource>) -> Seq<CommandModel>
    decreases sources.len(),
{
    if sources.len() == 0 {
        Seq::empty()
    } else {
        let s = sources.last();
        let ms = strs(s.inventory.manifests@);
        build_checks(sources.drop_last()) + (if s.skipped {
            Seq::empty()
        } else {
            (if any_manifest(ms, |p: Seq<char>| has_suffix(p, "Cargo.toml"@)) {
                seq![(s.destination_path@, "cargo"@, seq!["check"@, "--workspace"@, "--all-features"@])]
            } else {
                Seq::empty()
            }) + (if any_manifest(ms, |p: Seq<char>| has_suffix(p, "package.json"@)) {
                seq![(s.destination_path@, "npm"@, seq!["run"@, "build"@])]
            } else {
                Seq::empty()
            })
        })
    }
}

/// The commands that verify an adoption: structural validation and the
/// hygiene check, metadata validation beyond the structural mode, and the
/// sources' builds in the full mode.
pub open spec fn verification_commands(mode: crate::requests::ValidationMode, sources: Seq<AdoptedSource>) -> Seq<CommandModel> {
    seq![
        ("."@, "repoctl"@, seq!["graph"@, "validate"@, "--mode"@, "structural"@]),
        ("."@, "repoctl"@, seq!["hygiene"@, "check"@]),
    ] + (if mode != crate::requests::ValidationMode::StructureOnly {
        seq![("."@, "repoctl"@, seq!["graph"@, "validate"@, "--mode"@, "metadata"@])]
    } else {
        Seq::empty()
    }) + (if mode == crate::requests::ValidationMode::Full { build_checks(sources) } else { Seq::empty() })
}

/// A command with no project, workspace, task or environment overlay,
/// located below the destination root.
pub open spec fn plain_command(c: crate::requests::ProcessCommand) -> bool {
    c.project is None && c.workspace is None && c.task is None && c.absolute_cwd is Some
        && c.env@ == Map::<String, String>::empty()
}

fn process_command(dest_root: &str, cwd: &RepoRelativePath, program: &str, args: Vec<String>) -> (r: crate::requests::ProcessCommand)
    ensures
        command_model(r) == (cwd@, program@, strs(args@)),
        plain_command(r),
{
    let root = crate::domain::RepoRoot { absolute: owned(dest_root) };
    let dir = root.join(cwd);
    crate::requests::ProcessCommand {
        project: None,
        workspace: None,
        task: None,
        cwd: cwd.duplicate(),
        absolute_cwd: Some(crate::tasks::path_buf_of(dir)),
        program: owned(program),
        args,
        env: std::collections::BTreeMap::new(),
    }
}

fn strings_of(a: &str, b: &str) -> (r: Vec<String>)
    ensures
        strs(r@) == seq![a@, b@],
{
    let mut v: Vec<String> = Vec::new();
    v.push(owned(a));
    v.push(owned(b));
    assert(strs(v@) =~= seq![a@, b@]);
    v
}

fn strings_of3(a: &str, b: &str, c: &str) -> (r: Vec<String>)
    ensures
        strs(r@) == seq![a@, b@, c@],
{
    let mut v: Vec<String> = Vec::new();
    v.push(owned(a));
    v.push(owned(b));
    v.push(owned(c));
    assert(strs(v@) =~= seq![a@, b@, c@]);
    v
}

fn strings_of4(a: &str, b: &str, c: &str, d: &str) -> (r: Vec<String>)
    ensures
        strs(r@) == seq![a@, b@, c@, d@],
{
    let mut v: Vec<String> = Vec::new();
    v.push(owned(a));
    v.push(owned(b));
    v.push(owned(c));
    v.push(owned(d));
    assert(strs(v@) =~= seq![a@, b@, c@, d@]);
    v
}

fn any_suffixed(v: &Vec<String>, suffix: &str) -> (r: bool)
    ensures
        r == any_manifest(strs(v@), |p: Seq<char>| has_suffix(p, suffix@)),
{
    let sc = chars_of(suffix);
    let mut i: usize = 0;
    while i < v.len()
        invariant
            i <= v.len(),
            sc@ == suffix@,
            forall|j: int| 0 <= j < i ==> !has_suffix(#[trigger] strs(v@)[j], suffix@),
        decreases v.len() - i,
    {
        if crate::text::ends_with(&chars_of(v[i].as_str()), &sc) {
            assert(has_suffix(strs(v@)[i as int], suffix@));
            return true;
        }
        i = i + 1;
    }
    false
}

/// The prerequisites of an adoption: each tool the adopted sources require,
/// sorted by name, with the last source that requires it as the reason.
pub open spec fn prerequisites_ok(sources: Seq<AdoptedSource>, ps: Seq<crate::requests::ToolPrerequisite>) -> bool {
    let tools = crate::policy::sorted_distinct(required_tools(sources));
    &&& ps.len() == tools.len()
    &&& forall|k: int| 0 <= k < ps.len() ==> prerequisite_for(sources, tools[k], #[trigger] ps[k])
}

/// The prerequisite entry of a tool: the tool, with the last adopted source
/// that requires it as the reason.
pub open spec fn prerequisite_for(sources: Seq<AdoptedSource>, tool: Seq<char>, p: crate::requests::ToolPrerequisite) -> bool {
    p.tool@ == tool && match last_requiring(sources, tool) {
        Some(i) => p.reason@ == prerequisite_reason(sources[i].name@),
        None => false,
    }
}

proof fn lemma_required_tools_found(sources: Seq<AdoptedSource>, t: Seq<char>)
    requires
        required_tools(sources).contains(t),
    ensures
        last_requiring(sources, t) matches Some(i) && 0 <= i < sources.len(),
    decreases sources.len(),
{
    let rest = required_tools(sources.drop_last());
    let s = sources.last();
    let own = if s.skipped { Seq::<Seq<char>>::empty() } else { strs(s.inventory.required_tools@) };
    assert(required_tools(sources) == rest + own);
    if !s.skipped && strs(s.inventory.required_tools@).contains(t) {
    } else {
        if !rest.contains(t) {
            let k = choose|k: int| 0 <= k < (rest + own).len() && (rest + own)[k] == t;
            if k >= rest.len() {
                assert(own[k - rest.len()] == t);
            } else {
                assert(rest[k] == t);
            }
        }
        lemma_required_tools_found(sources.drop_last(), t);
    }
}

fn last_requiring_exec(sources: &Vec<AdoptedSource>, tool: &str) -> (r: Option<usize>)
    ensures
        match r {
            Some(i) => last_requiring(sources@, tool@) == Some(i as int) && i < sources@.len(),
            None => last_requiring(sources@, tool@) is None,
        },
{
    let mut k: usize = sources.len();
    assert(sources@.subrange(0, sources@.len() as int) =~= sources@);
    while k > 0
        invariant
            k <= sources.len(),
            last_requiring(sources@, tool@) == last_requiring(sources@.subrange(0, k as int), tool@),
        decreases k,
    {
        let s = &sources[k - 1];
        assert(sources@.subrange(0, k as int).drop_last() =~= sources@.subrange(0, k as int - 1));
        assert(sources@.subrange(0, k as int).last() == *s);
        if !s.skipped && text_in(&s.inventory.required_tools, tool) {
            return Some(k - 1);
        }
        k = k - 1;
    }
    assert(sources@.subrange(0, 0) =~= Seq::<AdoptedSource>::empty());
    None
}

/// Plans the checks that verify an adoption in the destination repository.
pub fn adoption_verification_plan(dest_root: &str, mode: crate::requests::ValidationMode, sources: &Vec<AdoptedSource>)
    -> (r: crate::requests::VerificationPlan)
    ensures
        prerequisites_ok(sources@, r.prerequisites@),
        r.commands@.map_values(|c: crate::requests::ProcessCommand| command_model(c)) == verification_commands(mode, sources@),
        forall|k: int| 0 <= k < r.commands@.len() ==> plain_command(#[trigger] r.commands@[k]),
{
    let mut tools: Vec<String> = Vec::new();
    let mut i: usize = 0;
    while i < sources.len()
        invariant
            i <= sources.len(),
            strs(tools@) == required_tools(sources@.subrange(0, i as int)),
        decreases sources.len() - i,
    {
        let s = &sources[i];
        assert(sources@.subrange(0, i as int + 1).drop_last() =~= sources@.subrange(0, i as int));
        assert(sources@.subrange(0, i as int + 1).last() == *s);
        if !s.skipped {
            let ghost before = strs(tools@);
            let mut k: usize = 0;
            while k < s.inventory.required_tools.len()
                invariant
                    k <= s.inventory.required_tools.len(),
                    strs(tools@) == before + strs(s.inventory.required_tools@).subrange(0, k as int),
                decreases s.inventory.required_tools.len() - k,
            {
                let ghost prev = strs(tools@);
                tools.push(owned(s.inventory.required_tools[k].as_str()));
                assert(strs(tools@) =~= prev.push(strs(s.inventory.required_tools@)[k as int]));
                k = k + 1;
                assert(strs(tools@) =~= before + strs(s.inventory.required_tools@).subrange(0, k as int));
            }
            assert(strs(s.inventory.required_tools@).subrange(0, s.inventory.required_tools@.len() as int)
                =~= strs(s.inventory.required_tools@));
        } else {
            assert(strs(tools@) =~= strs(tools@) + Seq::<Seq<char>>::empty());
        }
        i = i + 1;
    }
    assert(sources@.subrange(0, sources@.len() as int) =~= sources@);
    let sorted = crate::policy::sort_dedup(&tools);
    let ghost st = strs(sorted@);
    let mut prerequisites: Vec<crate::requests::ToolPrerequisite> = Vec::new();
    let mut k: usize = 0;
    while k < sorted.len()
        invariant
            k <= sorted.len(),
            st == strs(sorted@),
            st == crate::policy::sorted_distinct(required_tools(sources@)),
            st.to_set() == required_tools(sources@).to_set(),
            prerequisites@.len() == k,
            forall|j: int| 0 <= j < k ==> prerequisite_for(sources@, st[j], #[trigger] prerequisites@[j]),
        decreases sorted.len() - k,
    {
        let tool = &sorted[k];
        proof {
            assert(st.contains(st[k as int]));
            assert(st.to_set().contains(st[k as int]));
            lemma_required_tools_found(sources@, st[k as int]);
        }
        let i = match last_requiring_exec(sources, tool.as_str()) {
            Some(i) => i,
            None => {
                assert(false);
                0
            },
        };
        let mut reason = concat2("required by adopted source `", sources[i].name.as_str());
        push_str(&mut reason, "`");
        let ghost prev = prerequisites@;
        assert(tool@ == st[k as int]);
        prerequisites.push(crate::requests::ToolPrerequisite { tool: owned(tool.as_str()), reason });
        assert(prerequisites@[k as int].tool@ == st[k as int]);
        assert(last_requiring(sources@, st[k as int]) == Some(i as int));
        assert(prerequisites@[k as int].reason@ == prerequisite_reason(sources@[i as int].name@));
        assert(prerequisite_for(sources@, st[k as int], prerequisites@[k as int]));
        assert forall|j: int| 0 <= j < k + 1 implies prerequisite_for(sources@, st[j], #[trigger] prerequisites@[j]) by {
            if j < k {
                assert(prerequisites@[j] == prev[j]);
            }
        }
        k = k + 1;
    }
    assert(prerequisites_ok(sources@, prerequisites@));
    let root = RepoRelativePath::root();
    let mut commands: Vec<crate::requests::ProcessCommand> = Vec::new();
    let c0 = process_command(dest_root, &root, "repoctl", strings_of4("graph", "validate", "--mode", "structural"));
    let c1 = process_command(dest_root, &root, "repoctl", strings_of("hygiene", "check"));
    proof {
        reveal_strlit(".");
    }
    assert(command_model(c0) == ("."@, "repoctl"@, seq!["graph"@, "validate"@, "--mode"@, "structural"@]));
    assert(command_model(c1) == ("."@, "repoctl"@, seq!["hygiene"@, "check"@]));
    commands.push(c0);
    commands.push(c1);
    let ghost fixed = commands@.map_values(|c: crate::requests::ProcessCommand| command_model(c));
    assert(fixed =~= seq![
        ("."@, "repoctl"@, seq!["graph"@, "validate"@, "--mode"@, "structural"@]),
        ("."@, "repoctl"@, seq!["hygiene"@, "check"@]),
    ]);
    let metadata = match mode {
        crate::requests::ValidationMode::StructureOnly => false,
        _ => true,
    };
    if metadata {
        commands.push(process_command(dest_root, &root, "repoctl", strings_of4("graph", "validate", "--mode", "metadata")));
    }
    let ghost head = commands@.map_values(|c: crate::requests::ProcessCommand| command_model(c));
    assert(head =~= fixed + (if mode != crate::requests::ValidationMode::StructureOnly {
        seq![("."@, "repoctl"@, seq!["graph"@, "validate"@, "--mode"@, "metadata"@])]
    } else {
        Seq::empty()
    }));
    let full = match mode {
        crate::requests::ValidationMode::Full => true,
        _ => false,
    };
    if full {
        let mut j: usize = 0;
        assert(build_checks(sources@.subrange(0, 0)) =~= Seq::<CommandModel>::empty());
        while j < sources.len()
            invariant
                j <= sources.len(),
                commands@.map_values(|c: crate::requests::ProcessCommand| command_model(c)) == head + build_checks(sources@.subrange(0, j as int)),
                forall|k: int| 0 <= k < commands@.len() ==> plain_command(#[trigger] commands@[k]),
            decreases sources.len() - j,
        {
            let s = &sources[j];
            assert(sources@.subrange(0, j as int + 1).drop_last() =~= sources@.subrange(0, j as int));
            assert(sources@.subrange(0, j as int + 1).last() == *s);
            let ghost before = commands@.map_values(|c: crate::requests::ProcessCommand| command_model(c));
            let ghost ms = strs(s.inventory.manifests@);
            let ghost rust_part = if any_manifest(ms, |p: Seq<char>| has_suffix(p, "Cargo.toml"@)) {
                seq![(s.destination_path@, "cargo"@, seq!["check"@, "--workspace"@, "--all-features"@])]
            } else {
                Seq::<CommandModel>::empty()
            };
            let ghost node_part = if any_manifest(ms, |p: Seq<char>| has_suffix(p, "package.json"@)) {
                seq![(s.destination_path@, "npm"@, seq!["run"@, "build"@])]
            } else {
                Seq::<CommandModel>::empty()
            };
            if !s.skipped {
                if any_suffixed(&s.inventory.manifests, "Cargo.toml") {
                    let c = process_command(dest_root, &s.destination_path, "cargo", strings_of3("check", "--workspace", "--all-features"));
                    commands.push(c);
                }
                assert(commands@.map_values(|c: crate::requests::ProcessCommand| command_model(c)) =~= before + rust_part);
                let ghost mid = commands@.map_values(|c: crate::requests::ProcessCommand| command_model(c));
                if any_suffixed(&s.inventory.manifests, "package.json") {
                    let c = process_command(dest_root, &s.destination_path, "npm", strings_of("run", "build"));
                    commands.push(c);
                }
                assert(commands@.map_values(|c: crate::requests::ProcessCommand| command_model(c)) =~= mid + node_part);
                assert(build_checks(sources@.subrange(0, j as int + 1)) =~= build_checks(sources@.subrange(0, j as int)) + (rust_part + node_part));
            } else {
                assert(build_checks(sources@.subrange(0, j as int + 1)) =~= build_checks(sources@.subrange(0, j as int)));
            }
            j = j + 1;
            assert(commands@.map_values(|c: crate::requests::ProcessCommand| command_model(c)) =~= head + build_checks(sources@.subrange(0, j as int)));
        }
        assert(sources@.subrange(0, sources@.len() as int) =~= sources@);
    }
    assert(commands@.map_values(|c: crate::requests::ProcessCommand| command_model(c)) =~= verification_commands(mode, sources@));
    crate::requests::VerificationPlan { prerequisites, commands }
}

} // verus!

verus! {

// ---------------------------------------------------------------------------
// Inventory rules
// ---------------------------------------------------------------------------

/// The manifest and lockfile names an inventory records.
pub open spec fn primary_manifest_names() -> Seq<Seq<char>> {
    seq![
        "Cargo.toml"@, "Cargo.lock"@, "rust-toolchain.toml"@, "package.json"@, "package-lock.json"@,
        "pnpm-lock.yaml"@, "yarn.lock"@, "bun.lock"@, "Pulumi.yaml"@, "operon.yaml"@, "Makefile"@,
        "project.yaml"@, "project.yml"@,
    ]
}

/// Whether a file name is a primary manifest or lockfile.
pub fn is_primary_manifest(name: &str) -> (r: bool)
    ensures
        r == primary_manifest_names().contains(name@),
{
    let names: [&str; 13] = [
        "Cargo.toml", "Cargo.lock", "rust-toolchain.toml", "package.json", "package-lock.json",
        "pnpm-lock.yaml", "yarn.lock", "bun.lock", "Pulumi.yaml", "operon.yaml", "Makefile",
        "project.yaml", "project.yml",
    ];
    let ghost ns = primary_manifest_names();
    assert(names@.map_values(|s: &str| s@) =~= ns);
    let mut i: usize = 0;
    while i < 13
        invariant
            i <= 13,
            ns == primary_manifest_names(),
            names@.map_values(|s: &str| s@) == ns,
            forall|j: int| 0 <= j < i ==> ns[j] != name@,
        decreases 13 - i,
    {
        if str_eq(names[i], name) {
            assert(ns[i as int] == name@);
            return true;
        }
        i = i + 1;
    }
    proof {
        assert forall|j: int| 0 <= j < ns.len() implies ns[j] != name@ by {}
    }
    false
}

/// A Cargo dependency that points at another adopted source: a `@cellis`
/// package, `operon`, or one whose entry mentions `chromatin`.
pub open spec fn adopted_cargo_dependency(name: Seq<char>, entry: Seq<char>) -> bool {
    has_prefix(name, "@cellis"@) || name == "operon"@ || has_infix(entry, "chromatin"@)
}

/// Whether a Cargo dependency table entry, with its rendered value, points
/// at another adopted source.
pub fn is_adopted_cargo_dependency(name: &str, entry: &str) -> (r: bool)
    ensures
        r == adopted_cargo_dependency(name@, entry@),
{
    crate::text::starts_with(&chars_of(name), &chars_of("@cellis")) || str_eq(name, "operon")
        || contains_seq(&chars_of(entry), &chars_of("chromatin"))
}

/// A Node dependency that points at another adopted source: a `@cellis/`
/// package or `operon`.
pub open spec fn adopted_node_dependency(name: Seq<char>) -> bool {
    has_prefix(name, "@cellis/"@) || name == "operon"@
}

/// Whether a Node dependency points at another adopted source.
pub fn is_adopted_node_dependency(name: &str) -> (r: bool)
    ensures
        r == adopted_node_dependency(name@),
{
    crate::text::starts_with(&chars_of(name), &chars_of("@cellis/")) || str_eq(name, "operon")
}

/// The tools a package script needs: `pulumi`, then `buf`, as it mentions
/// them.
pub open spec fn script_tool_names(command: Seq<char>) -> Seq<Seq<char>> {
    (if has_infix(command, "pulumi"@) { seq!["pulumi"@] } else { Seq::empty() })
        + (if has_infix(command, "buf"@) { seq!["buf"@] } else { Seq::empty() })
}

/// The tools a package script needs.
pub fn script_tools(command: &str) -> (r: Vec<String>)
    ensures
        strs(r@) == script_tool_names(command@),
{
    let cs = chars_of(command);
    let mut out: Vec<String> = Vec::new();
    if contains_seq(&cs, &chars_of("pulumi")) {
        out.push(owned("pulumi"));
    }
    if contains_seq(&cs, &chars_of("buf")) {
        out.push(owned("buf"));
    }
    assert(strs(out@) =~= script_tool_names(command@));
    out
}

/// A build script or Cargo manifest that generates protobuf code needs
/// `protoc`.
pub open spec fn needs_protoc(content: Seq<char>, is_build_script: bool) -> bool {
    if is_build_script {
        has_infix(content, "prost_build"@) || has_infix(content, "protoc"@)
    } else {
        has_infix(content, "prost-build"@)
    }
}

/// Whether a build script (or, when `is_build_script` is false, a Cargo
/// manifest) needs `protoc`.
pub fn requires_protoc(content: &str, is_build_script: bool) -> (r: bool)
    ensures
        r == needs_protoc(content@, is_build_script),
{
    let cs = chars_of(content);
    if is_build_script {
        contains_seq(&cs, &chars_of("prost_build")) || contains_seq(&cs, &chars_of("protoc"))
    } else {
        contains_seq(&cs, &chars_of("prost-build"))
    }
}

// ---------------------------------------------------------------------------
// Applying plans
// ---------------------------------------------------------------------------

/// The error of an apply request that asks to recompute the plan.
pub open spec fn refresh_unsupported_error() -> DiagnosticModel {
    error_model(
        "adoption.refresh.unsupported"@,
        "refresh is not supported by apply; rerun adopt plan and review the new plan"@,
    )
}

/// Checks an apply request: a reviewed plan is applied as it stands.
pub fn check_apply_request(request: &crate::requests::AdoptionApplyRequest) -> (r: Result<(), RepoctlError>)
    ensures
        match r {
            Ok(()) => !request.refresh,
            Err(e) => request.refresh && error_diagnostics(e) == seq![refresh_unsupported_error()],
        },
{
    if request.refresh {
        return Err(RepoctlError::diagnostic(Diagnostic::error(
            "adoption.refresh.unsupported",
            "refresh is not supported by apply; rerun adopt plan and review the new plan",
        )));
    }
    Ok(())
}

// ---------------------------------------------------------------------------
// Hygiene
// ---------------------------------------------------------------------------

/// The directory names a hygiene check reports.
pub open spec fn generated_dir_names() -> Seq<Seq<char>> {
    seq![".git"@, ".github"@, "node_modules"@, "target"@, "dist"@, ".next"@, ".turbo"@, ".cache"@]
}

/// What a hygiene walk does with one entry.
#[derive(Debug)]
pub enum HygieneStep {
    /// Leave the entry alone.
    Skip,
    /// Walk into the directory.
    Descend,
    /// Report the directory, with its removal when cleaning.
    Report {
        /// The finding.
        diagnostic: Diagnostic,
        /// The cleanup, when one is planned.
        operation: Option<crate::requests::FileOperation>,
    },
}

/// The finding for a generated or metadata directory.
pub open spec fn hygiene_finding(rel: Seq<char>) -> DiagnosticModel {
    crate::diagnostic::with_path_model(
        crate::diagnostic::plain(
            "adoption.hygiene.generated_artifact"@,
            crate::diagnostic::Severity::Warning,
            "generated or repository metadata directory `"@ + rel + "` is present"@,
        ),
        rel,
    )
}

/// The step for an entry: generated directories below the root are
/// reported (the root's own `.git` is left alone and its `.github` walked),
/// other directories walked, files left alone. A reported directory other
/// than `.git` and `.github` gets a removal when cleaning.
pub open spec fn hygiene_step_ok(
    name: Seq<char>,
    rel: Seq<char>,
    is_dir: bool,
    cleanable: bool,
    r: Result<HygieneStep, RepoctlError>,
) -> bool {
    if is_dir && generated_dir_names().contains(name) && rel.len() > 0 {
        if name == ".git"@ && rel == ".git"@ {
            r matches Ok(HygieneStep::Skip)
        } else if name == ".github"@ && rel == ".github"@ {
            r matches Ok(HygieneStep::Descend)
        } else if cleanable && name != ".github"@ && name != ".git"@ {
            match crate::check::normalized_path(rel, false) {
                Ok(p) => r matches Ok(HygieneStep::Report { diagnostic, operation: Some(op) })
                    && diagnostic@ == hygiene_finding(rel) && op.path@ == p && op.operation@ == "remove-generated"@
                    && op.content is None,
                Err(d) => r matches Err(e) && error_diagnostics(e) == seq![d],
            }
        } else {
            r matches Ok(HygieneStep::Report { diagnostic, operation: None }) && diagnostic@ == hygiene_finding(rel)
        }
    } else if is_dir {
        r matches Ok(HygieneStep::Descend)
    } else {
        r matches Ok(HygieneStep::Skip)
    }
}

fn is_generated_dir_name(name: &str) -> (r: bool)
    ensures
        r == generated_dir_names().contains(name@),
{
    let names: [&str; 8] = [".git", ".github", "node_modules", "target", "dist", ".next", ".turbo", ".cache"];
    let ghost ns = generated_dir_names();
    assert(names@.map_values(|s: &str| s@) =~= ns);
    let mut i: usize = 0;
    while i < 8
        invariant
            i <= 8,
            ns == generated_dir_names(),
            names@.map_values(|s: &str| s@) == ns,
            forall|j: int| 0 <= j < i ==> ns[j] != name@,
        decreases 8 - i,
    {
        if str_eq(names[i], name) {
            assert(ns[i as int] == name@);
            return true;
        }
        i = i + 1;
    }
    false
}

/// Decides what a hygiene walk does with an entry: its file name, its path
/// relative to the repository root, and whether it is a directory.
pub fn hygiene_step(name: &str, rel: &str, is_dir: bool, cleanable: bool) -> (r: Result<HygieneStep, RepoctlError>)
    ensures
        hygiene_step_ok(name@, rel@, is_dir, cleanable, r),
{
    let nested = chars_of(rel).len() > 0;
    proof {
        reveal_strlit(".git");
        reveal_strlit(".github");
    }
    if is_dir && is_generated_dir_name(name) && nested {
        if str_eq(name, ".git") && str_eq(rel, ".git") {
            return Ok(HygieneStep::Skip);
        }
        if str_eq(name, ".github") && str_eq(rel, ".github") {
            return Ok(HygieneStep::Descend);
        }
        let mut msg = concat2("generated or repository metadata directory `", rel);
        push_str(&mut msg, "` is present");
        let diagnostic = Diagnostic::warning("adoption.hygiene.generated_artifact", msg.as_str()).with_path(rel);
        if cleanable && !str_eq(name, ".github") && !str_eq(name, ".git") {
            let path = match RepoRelativePath::new(rel) {
                Ok(p) => p,
                Err(d) => return Err(RepoctlError::diagnostic(d)),
            };
            proof {
                reveal_strlit("remove-generated");
            }
            let operation = crate::requests::FileOperation { path, operation: owned("remove-generated"), content: None };
            return Ok(HygieneStep::Report { diagnostic, operation: Some(operation) });
        }
        return Ok(HygieneStep::Report { diagnostic, operation: None });
    }
    if is_dir {
        Ok(HygieneStep::Descend)
    } else {
        Ok(HygieneStep::Skip)
    }
}

} // verus!

verus! {

// ---------------------------------------------------------------------------
// Dependency rewrites
// ---------------------------------------------------------------------------

/// A rewrite as its file, package, new value and owning project.
pub type RewriteModel = (Seq<char>, Seq<char>, Seq<char>, Seq<char>);

/// The value of a rewrite; every rewrite replaces a registry or git
/// dependency and goes through a framework facade.
pub open spec fn rewrite_view(r: crate::requests::DependencyRewrite) -> RewriteModel {
    (r.file@, r.package@, r.to@, r.owner_project@)
}

/// A planned rewrite replaces a registry or git dependency through a
/// framework facade.
pub open spec fn rewrite_fixed(r: crate::requests::DependencyRewrite) -> bool {
    r.from@ == "registry/git"@ && r.surface == crate::domain::DependencySurface::FrameworkFacade
}

/// The values of rewrites.
pub open spec fn rewrite_views(v: Seq<crate::requests::DependencyRewrite>) -> Seq<RewriteModel> {
    v.map_values(|r: crate::requests::DependencyRewrite| rewrite_view(r))
}

/// Where an adopted package lands: the last index entry for its name.
pub open spec fn package_target(idx: Seq<(String, RepoRelativePath)>, name: Seq<char>) -> Option<Seq<char>>
    decreases idx.len(),
{
    if idx.len() == 0 {
        None
    } else if idx.last().0@ == name {
        Some(idx.last().1@)
    } else {
        package_target(idx.drop_last(), name)
    }
}

/// The owning project of a source's rewrites, checked as a project name.
pub open spec fn source_owner(s: AdoptedSource) -> Result<Seq<char>, DiagnosticModel> {
    let n = destination_project_name(s.destination_path@, s.inferred_kind);
    match crate::check::ident_problem("project name"@, n, 128, true) {
        Some(d) => Err(d),
        None => Ok(n),
    }
}

/// The rewrites of one manifest file for the packages a source references:
/// each package found in the index points at its new home, relative to the
/// file (with `file:` for Node).
pub open spec fn package_rewrites(
    deps: Seq<Seq<char>>,
    file: Seq<char>,
    idx: Seq<(String, RepoRelativePath)>,
    node: bool,
    owner: Result<Seq<char>, DiagnosticModel>,
) -> Result<Seq<RewriteModel>, DiagnosticModel>
    decreases deps.len(),
{
    if deps.len() == 0 {
        Ok(Seq::empty())
    } else {
        match package_rewrites(deps.drop_last(), file, idx, node, owner) {
            Err(d) => Err(d),
            Ok(rest) => match package_target(idx, deps.last()) {
                None => Ok(rest),
                Some(t) => match owner {
                    Err(d) => Err(d),
                    Ok(o) => Ok(rest.push((
                        file,
                        deps.last(),
                        if node { "file:"@ + relative_path_text(file, t) } else { relative_path_text(file, t) },
                        o,
                    ))),
                },
            },
        }
    }
}

/// The rewrites of one manifest of a source, by its kind.
pub open spec fn manifest_rewrites(
    s: AdoptedSource,
    manifest: Seq<char>,
    rust: Seq<(String, RepoRelativePath)>,
    node: Seq<(String, RepoRelativePath)>,
) -> Result<Seq<RewriteModel>, DiagnosticModel> {
    match crate::check::normalized_path(manifest, true) {
        Err(d) => Err(d),
        Ok(m) => match crate::domain::join_project_spec(s.destination_path@, m) {
            Err(d) => Err(d),
            Ok(file) => if has_suffix(manifest, "Cargo.toml"@) {
                package_rewrites(strs(s.inventory.dependency_references@), file, rust, false, source_owner(s))
            } else if has_suffix(manifest, "package.json"@) {
                package_rewrites(strs(s.inventory.dependency_references@), file, node, true, source_owner(s))
            } else {
                Ok(Seq::empty())
            },
        },
    }
}

/// The rewrites of a source's manifests, in order.
pub open spec fn source_rewrites(
    s: AdoptedSource,
    ms: Seq<Seq<char>>,
    rust: Seq<(String, RepoRelativePath)>,
    node: Seq<(String, RepoRelativePath)>,
) -> Result<Seq<RewriteModel>, DiagnosticModel>
    decreases ms.len(),
{
    if ms.len() == 0 {
        Ok(Seq::empty())
    } else {
        match source_rewrites(s, ms.drop_last(), rust, node) {
            Err(d) => Err(d),
            Ok(rest) => match manifest_rewrites(s, ms.last(), rust, node) {
                Err(d) => Err(d),
                Ok(more) => Ok(rest + more),
            },
        }
    }
}

/// The rewrites of the adopted sources, in order; the first error stops
/// planning.
pub open spec fn candidate_rewrites(
    sources: Seq<AdoptedSource>,
    rust: Seq<(String, RepoRelativePath)>,
    node: Seq<(String, RepoRelativePath)>,
) -> Result<Seq<RewriteModel>, DiagnosticModel>
    decreases sources.len(),
{
    if sources.len() == 0 {
        Ok(Seq::empty())
    } else {
        match candidate_rewrites(sources.drop_last(), rust, node) {
            Err(d) => Err(d),
            Ok(rest) => if sources.last().skipped {
                Ok(rest)
            } else {
                match source_rewrites(sources.last(), strs(sources.last().inventory.manifests@), rust, node) {
                    Err(d) => Err(d),
                    Ok(more) => Ok(rest + more),
                }
            },
        }
    }
}

fn package_target_exec(idx: &Vec<(String, RepoRelativePath)>, name: &str) -> (r: Option<RepoRelativePath>)
    ensures
        match r {
            Some(t) => package_target(idx@, name@) == Some(t@),
            None => package_target(idx@, name@) is None,
        },
{
    let mut k: usize = idx.len();
    assert(idx@.subrange(0, idx@.len() as int) =~= idx@);
    while k > 0
        invariant
            k <= idx.len(),
            package_target(idx@, name@) == package_target(idx@.subrange(0, k as int), name@),
        decreases k,
    {
        assert(idx@.subrange(0, k as int).drop_last() =~= idx@.subrange(0, k as int - 1));
        assert(idx@.subrange(0, k as int).last() == idx@[k as int - 1]);
        if str_eq(idx[k - 1].0.as_str(), name) {
            return Some(idx[k - 1].1.duplicate());
        }
        k = k - 1;
    }
    assert(idx@.subrange(0, 0) =~= Seq::<(String, RepoRelativePath)>::empty());
    None
}

/// An error in a prefix of the packages stays the error of the whole.
proof fn lemma_package_error_persists(
    deps: Seq<Seq<char>>,
    file: Seq<char>,
    idx: Seq<(String, RepoRelativePath)>,
    node: bool,
    owner: Result<Seq<char>, DiagnosticModel>,
    k: int,
)
    requires
        0 <= k <= deps.len(),
        package_rewrites(deps.subrange(0, k), file, idx, node, owner) is Err,
    ensures
        package_rewrites(deps, file, idx, node, owner) == package_rewrites(deps.subrange(0, k), file, idx, node, owner),
    decreases deps.len() - k,
{
    if k < deps.len() {
        assert(deps.subrange(0, k + 1).drop_last() =~= deps.subrange(0, k));
        lemma_package_error_persists(deps, file, idx, node, owner, k + 1);
    } else {
        assert(deps.subrange(0, k) =~= deps);
    }
}

fn push_package_rewrites(
    out: &mut Vec<crate::requests::DependencyRewrite>,
    s: &AdoptedSource,
    file: &RepoRelativePath,
    idx: &Vec<(String, RepoRelativePath)>,
    node: bool,
) -> (r: Result<(), RepoctlError>)
    requires
        forall|k: int| 0 <= k < old(out)@.len() ==> rewrite_fixed(#[trigger] old(out)@[k]),
    ensures
        forall|k: int| 0 <= k < final(out)@.len() ==> rewrite_fixed(#[trigger] final(out)@[k]),
        match package_rewrites(strs(s.inventory.dependency_references@), file@, idx@, node, source_owner(*s)) {
            Ok(more) => r is Ok && rewrite_views(final(out)@) == rewrite_views(old(out)@) + more,
            Err(d) => r matches Err(e) && error_diagnostics(e) == seq![d],
        },
{
    let ghost deps = strs(s.inventory.dependency_references@);
    let ghost owner = source_owner(*s);
    let ghost base = rewrite_views(out@);
    let mut i: usize = 0;
    assert(deps.subrange(0, 0) =~= Seq::<Seq<char>>::empty());
    assert(rewrite_views(out@) =~= base + Seq::<RewriteModel>::empty());
    while i < s.inventory.dependency_references.len()
        invariant
            i <= s.inventory.dependency_references.len(),
            deps == strs(s.inventory.dependency_references@),
            owner == source_owner(*s),
            forall|k: int| 0 <= k < out@.len() ==> rewrite_fixed(#[trigger] out@[k]),
            package_rewrites(deps.subrange(0, i as int), file@, idx@, node, owner) matches Ok(done)
                && rewrite_views(out@) == base + done,
        decreases s.inventory.dependency_references.len() - i,
    {
        let package = &s.inventory.dependency_references[i];
        assert(deps.subrange(0, i as int + 1).drop_last() =~= deps.subrange(0, i as int));
        assert(deps.subrange(0, i as int + 1).last() == package@);
        match package_target_exec(idx, package.as_str()) {
            None => {},
            Some(target) => {
                let owner_project = match project_name_for_destination(&s.destination_path, s.inferred_kind) {
                    Ok(n) => n,
                    Err(e) => {
                        proof {
                            lemma_package_error_persists(deps, file@, idx@, node, owner, i as int + 1);
                        }
                        return Err(e);
                    },
                };
                let rel = relative_dependency_path(file, &target);
                let to = if node { concat2("file:", rel.as_str()) } else { rel };
                proof {
                    reveal_strlit("registry/git");
                }
                let ghost prev = rewrite_views(out@);
                let ghost prev_all = out@;
                let rewrite = crate::requests::DependencyRewrite {
                    file: file.duplicate(),
                    package: owned(package.as_str()),
                    from: owned("registry/git"),
                    to,
                    surface: crate::domain::DependencySurface::FrameworkFacade,
                    owner_project,
                };
                out.push(rewrite);
                assert(rewrite_views(out@) =~= prev.push(rewrite_view(out@[out@.len() - 1])));
                assert forall|k: int| 0 <= k < out@.len() implies rewrite_fixed(#[trigger] out@[k]) by {
                    if k < prev_all.len() {
                        assert(out@[k] == prev_all[k]);
                    }
                }
            },
        }
        i = i + 1;
    }
    assert(deps.subrange(0, deps.len() as int) =~= deps);
    Ok(())
}

} // verus!

verus! {

proof fn lemma_source_error_persists(
    s: AdoptedSource,
    ms: Seq<Seq<char>>,
    rust: Seq<(String, RepoRelativePath)>,
    node: Seq<(String, RepoRelativePath)>,
    k: int,
)
    requires
        0 <= k <= ms.len(),
        source_rewrites(s, ms.subrange(0, k), rust, node) is Err,
    ensures
        source_rewrites(s, ms, rust, node) == source_rewrites(s, ms.subrange(0, k), rust, node),
    decreases ms.len() - k,
{
    if k < ms.len() {
        assert(ms.subrange(0, k + 1).drop_last() =~= ms.subrange(0, k));
        lemma_source_error_persists(s, ms, rust, node, k + 1);
    } else {
        assert(ms.subrange(0, k) =~= ms);
    }
}

proof fn lemma_candidates_error_persists(
    sources: Seq<AdoptedSource>,
    rust: Seq<(String, RepoRelativePath)>,
    node: Seq<(String, RepoRelativePath)>,
    k: int,
)
    requires
        0 <= k <= sources.len(),
        candidate_rewrites(sources.subrange(0, k), rust, node) is Err,
    ensures
        candidate_rewrites(sources, rust, node) == candidate_rewrites(sources.subrange(0, k), rust, node),
    decreases sources.len() - k,
{
    if k < sources.len() {
        assert(sources.subrange(0, k + 1).drop_last() =~= sources.subrange(0, k));
        lemma_candidates_error_persists(sources, rust, node, k + 1);
    } else {
        assert(sources.subrange(0, k) =~= sources);
    }
}

fn push_source_rewrites(
    out: &mut Vec<crate::requests::DependencyRewrite>,
    s: &AdoptedSource,
    rust: &Vec<(String, RepoRelativePath)>,
    node: &Vec<(String, RepoRelativePath)>,
) -> (r: Result<(), RepoctlError>)
    requires
        forall|k: int| 0 <= k < old(out)@.len() ==> rewrite_fixed(#[trigger] old(out)@[k]),
    ensures
        forall|k: int| 0 <= k < final(out)@.len() ==> rewrite_fixed(#[trigger] final(out)@[k]),
        match source_rewrites(*s, strs(s.inventory.manifests@), rust@, node@) {
            Ok(more) => r is Ok && rewrite_views(final(out)@) == rewrite_views(old(out)@) + more,
            Err(d) => r matches Err(e) && error_diagnostics(e) == seq![d],
        },
{
    let ghost ms = strs(s.inventory.manifests@);
    let ghost base = rewrite_views(out@);
    let cargo = chars_of("Cargo.toml");
    let package_json = chars_of("package.json");
    let mut i: usize = 0;
    assert(ms.subrange(0, 0) =~= Seq::<Seq<char>>::empty());
    assert(rewrite_views(out@) =~= base + Seq::<RewriteModel>::empty());
    while i < s.inventory.manifests.len()
        invariant
            i <= s.inventory.manifests.len(),
            ms == strs(s.inventory.manifests@),
            cargo@ == "Cargo.toml"@,
            package_json@ == "package.json"@,
            forall|k: int| 0 <= k < out@.len() ==> rewrite_fixed(#[trigger] out@[k]),
            source_rewrites(*s, ms.subrange(0, i as int), rust@, node@) matches Ok(done)
                && rewrite_views(out@) == base + done,
        decreases s.inventory.manifests.len() - i,
    {
        let manifest = &s.inventory.manifests[i];
        assert(ms.subrange(0, i as int + 1).drop_last() =~= ms.subrange(0, i as int));
        assert(ms.subrange(0, i as int + 1).last() == manifest@);
        let ghost before = rewrite_views(out@);
        let relative = match crate::domain::ProjectRelativePath::new(manifest.as_str()) {
            Ok(p) => p,
            Err(d) => {
                proof {
                    lemma_source_error_persists(*s, ms, rust@, node@, i as int + 1);
                }
                return Err(RepoctlError::diagnostic(d));
            },
        };
        let file = match s.destination_path.join_project(&relative) {
            Ok(f) => f,
            Err(d) => {
                proof {
                    lemma_source_error_persists(*s, ms, rust@, node@, i as int + 1);
                }
                return Err(RepoctlError::diagnostic(d));
            },
        };
        let mc = chars_of(manifest.as_str());
        let step = if crate::text::ends_with(&mc, &cargo) {
            push_package_rewrites(out, s, &file, rust, false)
        } else if crate::text::ends_with(&mc, &package_json) {
            push_package_rewrites(out, s, &file, node, true)
        } else {
            Ok(())
        };
        match step {
            Ok(()) => {},
            Err(e) => {
                proof {
                    lemma_source_error_persists(*s, ms, rust@, node@, i as int + 1);
                }
                return Err(e);
            },
        }
        i = i + 1;
    }
    assert(ms.subrange(0, ms.len() as int) =~= ms);
    Ok(())
}

/// The rewrites the adopted sources call for, in the order they are found.
pub fn candidate_rewrite_list(
    sources: &Vec<AdoptedSource>,
    rust: &Vec<(String, RepoRelativePath)>,
    node: &Vec<(String, RepoRelativePath)>,
) -> (r: Result<Vec<crate::requests::DependencyRewrite>, RepoctlError>)
    ensures
        match candidate_rewrites(sources@, rust@, node@) {
            Ok(cs) => r matches Ok(v) && rewrite_views(v@) == cs
                && forall|k: int| 0 <= k < v@.len() ==> rewrite_fixed(#[trigger] v@[k]),
            Err(d) => r matches Err(e) && error_diagnostics(e) == seq![d],
        },
{
    let mut out: Vec<crate::requests::DependencyRewrite> = Vec::new();
    let mut i: usize = 0;
    assert(sources@.subrange(0, 0) =~= Seq::<AdoptedSource>::empty());
    assert(rewrite_views(out@) =~= Seq::<RewriteModel>::empty());
    while i < sources.len()
        invariant
            i <= sources.len(),
            forall|k: int| 0 <= k < out@.len() ==> rewrite_fixed(#[trigger] out@[k]),
            candidate_rewrites(sources@.subrange(0, i as int), rust@, node@) matches Ok(done)
                && rewrite_views(out@) == done,
        decreases sources.len() - i,
    {
        let s = &sources[i];
        assert(sources@.subrange(0, i as int + 1).drop_last() =~= sources@.subrange(0, i as int));
        assert(sources@.subrange(0, i as int + 1).last() == *s);
        if !s.skipped {
            match push_source_rewrites(&mut out, s, rust, node) {
                Ok(()) => {},
                Err(e) => {
                    proof {
                        lemma_candidates_error_persists(sources@, rust@, node@, i as int + 1);
                    }
                    return Err(e);
                },
            }
        }
        i = i + 1;
    }
    assert(sources@.subrange(0, sources@.len() as int) =~= sources@);
    Ok(out)
}

} // verus!

verus! {

/// Order of rewrites: by file, then package.
pub open spec fn rewrite_lt(a: RewriteModel, b: RewriteModel) -> bool {
    crate::text::seq_lt(a.0, b.0) || (a.0 == b.0 && crate::text::seq_lt(a.1, b.1))
}

/// Two rewrites of the same package in the same file.
pub open spec fn same_target(a: RewriteModel, b: RewriteModel) -> bool {
    a.0 == b.0 && a.1 == b.1
}

/// Rewrites in strictly increasing order, so one per file and package.
#[verifier::opaque]
pub open spec fn rewrites_sorted(ms: Seq<RewriteModel>) -> bool {
    forall|i: int, j: int| 0 <= i < j < ms.len() ==> rewrite_lt(#[trigger] ms[i], #[trigger] ms[j])
}

/// The rewrite is the first candidate for its file and package.
pub open spec fn first_for_target(cs: Seq<RewriteModel>, m: RewriteModel) -> bool {
    exists|i: int| 0 <= i < cs.len() && cs[i] == m && forall|j: int| 0 <= j < i ==> !same_target(#[trigger] cs[j], m)
}

/// Some rewrite covers the file and package.
pub open spec fn covered(ms: Seq<RewriteModel>, c: RewriteModel) -> bool {
    exists|k: int| 0 <= k < ms.len() && same_target(#[trigger] ms[k], c)
}

proof fn lemma_rewrite_order(a: RewriteModel, b: RewriteModel, c: RewriteModel)
    ensures
        !rewrite_lt(a, a),
        rewrite_lt(a, b) && rewrite_lt(b, c) ==> rewrite_lt(a, c),
        same_target(a, b) || rewrite_lt(a, b) || rewrite_lt(b, a),
        same_target(a, b) ==> !rewrite_lt(a, b),
{
    crate::text::lemma_lt_irreflexive(a.0);
    crate::text::lemma_lt_irreflexive(a.1);
    crate::text::lemma_lt_trichotomy(a.0, b.0);
    crate::text::lemma_lt_trichotomy(a.1, b.1);
    if rewrite_lt(a, b) && rewrite_lt(b, c) {
        if crate::text::seq_lt(a.0, b.0) && crate::text::seq_lt(b.0, c.0) {
            crate::text::lemma_lt_transitive(a.0, b.0, c.0);
        }
        if a.0 == b.0 && b.0 == c.0 {
            crate::text::lemma_lt_transitive(a.1, b.1, c.1);
        }
    }
}

fn rewrite_before(a: &crate::requests::DependencyRewrite, b: &crate::requests::DependencyRewrite) -> (r: bool)
    ensures
        r == rewrite_lt(rewrite_view(*a), rewrite_view(*b)),
{
    let af = a.file.as_str();
    let bf = b.file.as_str();
    crate::text::str_lt(af, bf) || (str_eq(af, bf) && crate::text::str_lt(a.package.as_str(), b.package.as_str()))
}

/// Every rewrite is the first candidate of the prefix for its target.
#[verifier::opaque]
pub open spec fn all_first(pre: Seq<RewriteModel>, ms: Seq<RewriteModel>) -> bool {
    forall|k: int| 0 <= k < ms.len() ==> first_for_target(pre, #[trigger] ms[k])
}

/// Every candidate of the prefix is covered.
#[verifier::opaque]
pub open spec fn all_covered(pre: Seq<RewriteModel>, ms: Seq<RewriteModel>) -> bool {
    forall|j: int| 0 <= j < pre.len() ==> covered(ms, #[trigger] pre[j])
}

proof fn lemma_first_extends(pre: Seq<RewriteModel>, xv: RewriteModel, m: RewriteModel)
    requires
        first_for_target(pre, m),
    ensures
        first_for_target(pre.push(xv), m),
{
    let w = choose|w: int| 0 <= w < pre.len() && pre[w] == m && forall|j: int| 0 <= j < w ==> !same_target(#[trigger] pre[j], m);
    assert(pre.push(xv)[w] == m);
    assert forall|j: int| 0 <= j < w implies !same_target(#[trigger] pre.push(xv)[j], m) by {
        assert(pre.push(xv)[j] == pre[j]);
    }
}

proof fn lemma_found_rewrite(ms: Seq<RewriteModel>, xv: RewriteModel, p: int, pre: Seq<RewriteModel>)
    requires
        0 <= p < ms.len(),
        same_target(ms[p], xv),
        all_first(pre, ms),
        all_covered(pre, ms),
    ensures
        all_first(pre.push(xv), ms),
        all_covered(pre.push(xv), ms),
{
    reveal(all_first);
    reveal(all_covered);
    assert forall|k: int| 0 <= k < ms.len() implies first_for_target(pre.push(xv), #[trigger] ms[k]) by {
        lemma_first_extends(pre, xv, ms[k]);
    }
    assert forall|j: int| 0 <= j < pre.len() + 1 implies covered(ms, #[trigger] pre.push(xv)[j]) by {
        if j < pre.len() {
            assert(pre.push(xv)[j] == pre[j]);
        } else {
            assert(same_target(ms[p], pre.push(xv)[j]));
        }
    }
}

proof fn lemma_insert_sorted(ms: Seq<RewriteModel>, xv: RewriteModel, p: int)
    requires
        rewrites_sorted(ms),
        0 <= p <= ms.len(),
        forall|k: int| 0 <= k < p ==> rewrite_lt(#[trigger] ms[k], xv),
        p < ms.len() ==> rewrite_lt(xv, ms[p]),
    ensures
        rewrites_sorted(ms.insert(p, xv)),
{
    reveal(rewrites_sorted);
    let ns = ms.insert(p, xv);
    assert forall|a: int, b: int| 0 <= a < b < ns.len() implies rewrite_lt(#[trigger] ns[a], #[trigger] ns[b]) by {
        if b < p {
            assert(ns[a] == ms[a] && ns[b] == ms[b]);
        } else if b == p {
            assert(ns[a] == ms[a] && ns[b] == xv);
        } else if a < p {
            assert(ns[a] == ms[a] && ns[b] == ms[b - 1]);
            if b - 1 > p {
                lemma_rewrite_order(xv, ms[p], ms[b - 1]);
            }
            lemma_rewrite_order(ms[a], xv, ms[b - 1]);
        } else if a == p {
            assert(ns[a] == xv && ns[b] == ms[b - 1]);
            if b - 1 > p {
                lemma_rewrite_order(xv, ms[p], ms[b - 1]);
            }
        } else {
            assert(ns[a] == ms[a - 1] && ns[b] == ms[b - 1]);
        }
    }
}

proof fn lemma_new_target(ms: Seq<RewriteModel>, xv: RewriteModel, p: int, pre: Seq<RewriteModel>)
    requires
        rewrites_sorted(ms),
        0 <= p <= ms.len(),
        forall|k: int| 0 <= k < p ==> rewrite_lt(#[trigger] ms[k], xv),
        p < ms.len() ==> rewrite_lt(xv, ms[p]),
        all_covered(pre, ms),
    ensures
        forall|j: int| 0 <= j < pre.len() ==> !same_target(#[trigger] pre[j], xv),
{
    reveal(rewrites_sorted);
    reveal(all_covered);
    assert forall|k: int| 0 <= k < ms.len() implies !same_target(#[trigger] ms[k], xv) by {
        if k < p {
            lemma_rewrite_order(ms[k], xv, xv);
        } else {
            if k > p {
                lemma_rewrite_order(xv, ms[p], ms[k]);
            }
            lemma_rewrite_order(xv, ms[k], ms[k]);
        }
    }
    assert forall|j: int| 0 <= j < pre.len() implies !same_target(#[trigger] pre[j], xv) by {
        assert(covered(ms, pre[j]));
        let k = choose|k: int| 0 <= k < ms.len() && same_target(#[trigger] ms[k], pre[j]);
    }
}

proof fn lemma_insert_first(ms: Seq<RewriteModel>, xv: RewriteModel, p: int, pre: Seq<RewriteModel>)
    requires
        0 <= p <= ms.len(),
        forall|j: int| 0 <= j < pre.len() ==> !same_target(#[trigger] pre[j], xv),
        all_first(pre, ms),
    ensures
        all_first(pre.push(xv), ms.insert(p, xv)),
{
    reveal(all_first);
    let ns = ms.insert(p, xv);
    let pre1 = pre.push(xv);
    assert forall|k: int| 0 <= k < ns.len() implies first_for_target(pre1, #[trigger] ns[k]) by {
        if k == p {
            assert(pre1[pre.len() as int] == xv);
            assert forall|j: int| 0 <= j < pre.len() implies !same_target(#[trigger] pre1[j], xv) by {
                assert(pre1[j] == pre[j]);
            }
        } else if k < p {
            assert(ns[k] == ms[k]);
            lemma_first_extends(pre, xv, ms[k]);
        } else {
            assert(ns[k] == ms[k - 1]);
            lemma_first_extends(pre, xv, ms[k - 1]);
        }
    }
}

proof fn lemma_insert_covered(ms: Seq<RewriteModel>, xv: RewriteModel, p: int, pre: Seq<RewriteModel>)
    requires
        0 <= p <= ms.len(),
        all_covered(pre, ms),
    ensures
        all_covered(pre.push(xv), ms.insert(p, xv)),
{
    reveal(all_covered);
    let ns = ms.insert(p, xv);
    let pre1 = pre.push(xv);
    assert forall|j: int| 0 <= j < pre1.len() implies covered(ns, #[trigger] pre1[j]) by {
        if j == pre.len() {
            assert(same_target(ns[p], pre1[j]));
        } else {
            assert(pre1[j] == pre[j]);
            assert(covered(ms, pre[j]));
            let k = choose|k: int| 0 <= k < ms.len() && same_target(#[trigger] ms[k], pre[j]);
            if k < p {
                assert(ns[k] == ms[k]);
            } else {
                assert(ns[k + 1] == ms[k]);
            }
        }
    }
}

proof fn lemma_insert_rewrite(ms: Seq<RewriteModel>, xv: RewriteModel, p: int, pre: Seq<RewriteModel>)
    requires
        rewrites_sorted(ms),
        0 <= p <= ms.len(),
        forall|k: int| 0 <= k < p ==> rewrite_lt(#[trigger] ms[k], xv),
        p < ms.len() ==> !same_target(ms[p], xv) && !rewrite_lt(ms[p], xv),
        all_first(pre, ms),
        all_covered(pre, ms),
    ensures
        rewrites_sorted(ms.insert(p, xv)),
        all_first(pre.push(xv), ms.insert(p, xv)),
        all_covered(pre.push(xv), ms.insert(p, xv)),
{
    if p < ms.len() {
        lemma_rewrite_order(ms[p], xv, xv);
    }
    lemma_insert_sorted(ms, xv, p);
    lemma_new_target(ms, xv, p, pre);
    lemma_insert_first(ms, xv, p, pre);
    lemma_insert_covered(ms, xv, p, pre);
}

/// Orders rewrites by file and package, keeping the first candidate for
/// each.
fn order_rewrites(candidates: Vec<crate::requests::DependencyRewrite>) -> (r: Vec<crate::requests::DependencyRewrite>)
    requires
        forall|k: int| 0 <= k < candidates@.len() ==> rewrite_fixed(#[trigger] candidates@[k]),
    ensures
        rewrites_sorted(rewrite_views(r@)),
        all_first(rewrite_views(candidates@), rewrite_views(r@)),
        all_covered(rewrite_views(candidates@), rewrite_views(r@)),
        forall|k: int| 0 <= k < r@.len() ==> rewrite_fixed(#[trigger] r@[k]),
{
    let ghost cs = rewrite_views(candidates@);
    let ghost all = candidates@;
    let n = candidates.len();
    let mut rest = candidates;
    let mut out: Vec<crate::requests::DependencyRewrite> = Vec::new();
    let mut i: usize = 0;
    assert(cs.subrange(0, 0) =~= Seq::<RewriteModel>::empty());
    proof {
        reveal(rewrites_sorted);
        reveal(all_first);
        reveal(all_covered);
    }
    while rest.len() > 0
        invariant
            i + rest@.len() == n,
            n == all.len(),
            cs == rewrite_views(all),
            rest@ == all.subrange(i as int, n as int),
            forall|k: int| 0 <= k < all.len() ==> rewrite_fixed(#[trigger] all[k]),
            forall|k: int| 0 <= k < out@.len() ==> rewrite_fixed(#[trigger] out@[k]),
            rewrites_sorted(rewrite_views(out@)),
            all_first(cs.subrange(0, i as int), rewrite_views(out@)),
            all_covered(cs.subrange(0, i as int), rewrite_views(out@)),
        decreases rest.len(),
    {
        let x = rest.remove(0);
        assert(x == all[i as int]);
        let ghost xv = rewrite_view(x);
        let ghost ms = rewrite_views(out@);
        let ghost outs = out@;
        let ghost pre = cs.subrange(0, i as int);
        assert(cs.subrange(0, i as int + 1) =~= pre.push(xv));
        let mut p: usize = 0;
        while p < out.len() && rewrite_before(&out[p], &x)
            invariant
                p <= out.len(),
                ms == rewrite_views(out@),
                xv == rewrite_view(x),
                forall|k: int| 0 <= k < p ==> rewrite_lt(#[trigger] ms[k], xv),
            decreases out.len() - p,
        {
            p = p + 1;
        }
        let found = p < out.len() && str_eq(out[p].file.as_str(), x.file.as_str())
            && str_eq(out[p].package.as_str(), x.package.as_str());
        if found {
            proof {
                lemma_found_rewrite(ms, xv, p as int, pre);
            }
        } else {
            proof {
                lemma_insert_rewrite(ms, xv, p as int, pre);
            }
            out.insert(p, x);
            assert(rewrite_views(out@) =~= ms.insert(p as int, xv));
            assert forall|k: int| 0 <= k < out@.len() implies rewrite_fixed(#[trigger] out@[k]) by {
                if k < p {
                    assert(out@[k] == outs[k]);
                } else if k > p {
                    assert(out@[k] == outs[k - 1]);
                }
            }
        }
        i = i + 1;
        assert(rest@ =~= all.subrange(i as int, n as int));
    }
    assert(cs.subrange(0, n as int) =~= cs);
    out
}

/// The dependency rewrites of an adoption: for every manifest of the
/// adopted sources, each referenced package that another source provides
/// points at its new home; one rewrite per file and package, the first
/// found, ordered by file and package.
pub fn plan_dependency_rewrites(
    sources: &Vec<AdoptedSource>,
    rust: &Vec<(String, RepoRelativePath)>,
    node: &Vec<(String, RepoRelativePath)>,
) -> (r: Result<Vec<crate::requests::DependencyRewrite>, RepoctlError>)
    ensures
        match candidate_rewrites(sources@, rust@, node@) {
            Ok(cs) => r matches Ok(v) && {
                &&& rewrites_sorted(rewrite_views(v@))
                &&& all_first(cs, rewrite_views(v@))
                &&& all_covered(cs, rewrite_views(v@))
                &&& forall|k: int| 0 <= k < v@.len() ==> rewrite_fixed(#[trigger] v@[k])
            },
            Err(d) => r matches Err(e) && error_diagnostics(e) == seq![d],
        },
{
    let candidates = candidate_rewrite_list(sources, rust, node)?;
    Ok(order_rewrites(candidates))
}

} // verus!
