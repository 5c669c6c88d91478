//! Repository graph construction from validated manifests and
//! adapter-discovered edges.
use vstd::prelude::*;

use crate::domain::{
    DependencySurface, DependencyTarget, EdgeKind, EdgeModel, GraphEdge, GraphNode, GraphNodeKind,
    NodeModel, ProjectKind, ProjectManifest, RepoGraph, edge_views, has_edge, has_node_id,
    node_views, project_node_id, with_edge, with_node,
};
use crate::diagnostic::opt_view;
use crate::ports::{DiscoveredEdge, WorkspaceInspector, inspection_calls, project_calls, workspace_calls, inspector_calls, joined_edges};
use crate::text::{lemma_lt_irreflexive, lemma_lt_transitive, lemma_lt_trichotomy, seq_lt, str_lt};

verus! {

// ---------------------------------------------------------------------------
// Graph growth as a sequence of additions
// ---------------------------------------------------------------------------

/// One addition to a graph under construction.
pub enum GraphOp {
    /// Add a node unless one with its id is present.
    AddNode(NodeModel),
    /// Add an edge unless an equal edge is present.
    AddEdge(EdgeModel),
}

/// Abstract graph: node and edge values in insertion order.
pub struct GraphModel {
    pub nodes: Seq<NodeModel>,
    pub edges: Seq<EdgeModel>,
}

/// The abstract value of a graph.
pub open spec fn graph_model(g: RepoGraph) -> GraphModel {
    GraphModel { nodes: node_views(g.nodes@), edges: edge_views(g.edges@) }
}

/// The empty graph.
pub open spec fn empty_graph() -> GraphModel {
    GraphModel { nodes: Seq::empty(), edges: Seq::empty() }
}

/// Some node has the id.
pub open spec fn model_has_node(ns: Seq<NodeModel>, id: Seq<char>) -> bool {
    exists|i: int| 0 <= i < ns.len() && (#[trigger] ns[i]).id == id
}

/// The graph after one addition.
pub open spec fn apply_op(g: GraphModel, op: GraphOp) -> GraphModel {
    match op {
        GraphOp::AddNode(n) => if model_has_node(g.nodes, n.id) {
            g
        } else {
            GraphModel { nodes: g.nodes.push(n), edges: g.edges }
        },
        GraphOp::AddEdge(e) => if g.edges.contains(e) {
            g
        } else {
            GraphModel { nodes: g.nodes, edges: g.edges.push(e) }
        },
    }
}

/// The graph after a sequence of additions, in order.
pub open spec fn apply_ops(g: GraphModel, ops: Seq<GraphOp>) -> GraphModel
    decreases ops.len(),
{
    if ops.len() == 0 {
        g
    } else {
        apply_op(apply_ops(g, ops.drop_last()), ops.last())
    }
}

/// Applying two runs of additions is applying their concatenation.
pub proof fn lemma_apply_concat(g: GraphModel, a: Seq<GraphOp>, b: Seq<GraphOp>)
    ensures
        apply_ops(g, a + b) == apply_ops(apply_ops(g, a), b),
    decreases b.len(),
{
    if b.len() == 0 {
        assert(a + b =~= a);
    } else {
        assert((a + b).drop_last() =~= a + b.drop_last());
        assert((a + b).last() == b.last());
        lemma_apply_concat(g, a, b.drop_last());
    }
}

/// Applying one more addition.
pub proof fn lemma_apply_push(g: GraphModel, a: Seq<GraphOp>, op: GraphOp)
    ensures
        apply_ops(g, a.push(op)) == apply_op(apply_ops(g, a), op),
{
    assert(a.push(op).drop_last() =~= a);
}

fn add_node_op(graph: &mut RepoGraph, node: GraphNode)
    ensures
        graph_model(*final(graph)) == apply_op(graph_model(*old(graph)), GraphOp::AddNode(node@)),
{
    let ghost before = old(graph).nodes@;
    graph.add_node(node);
    proof {
        let ns = node_views(before);
        if has_node_id(before, node@.id) {
            let i = choose|i: int| 0 <= i < before.len() && (#[trigger] before[i]).id@ == node@.id;
            assert(ns[i].id == node@.id);
        } else {
            assert forall|i: int| 0 <= i < ns.len() implies (#[trigger] ns[i]).id != node@.id by {
                assert(before[i].id@ == ns[i].id);
            }
            assert(node_views(before.push(node)) =~= ns.push(node@));
        }
    }
}

fn add_edge_op(graph: &mut RepoGraph, edge: GraphEdge)
    ensures
        graph_model(*final(graph)) == apply_op(graph_model(*old(graph)), GraphOp::AddEdge(edge@)),
{
    let ghost before = old(graph).edges@;
    graph.add_edge(edge);
    proof {
        let es = edge_views(before);
        if has_edge(before, edge@) {
            let i = choose|i: int| 0 <= i < before.len() && (#[trigger] before[i])@ == edge@;
            assert(es[i] == edge@);
            assert(es.contains(edge@));
        } else {
            assert(!es.contains(edge@)) by {
                if es.contains(edge@) {
                    let i = choose|i: int| 0 <= i < es.len() && es[i] == edge@;
                    assert(before[i]@ == edge@);
                }
            }
            assert(edge_views(before.push(edge)) =~= es.push(edge@));
        }
    }
}

/// Applying a run of one addition.
pub proof fn lemma_apply_one(g: GraphModel, a: GraphOp)
    ensures
        apply_ops(g, seq![a]) == apply_op(g, a),
{
    assert(seq![a].drop_last() =~= Seq::<GraphOp>::empty());
    assert(apply_ops(g, Seq::<GraphOp>::empty()) == g);
    assert(seq![a].last() == a);
}

/// Applying a run of two additions.
pub proof fn lemma_apply_two(g: GraphModel, a: GraphOp, b: GraphOp)
    ensures
        apply_ops(g, seq![a, b]) == apply_op(apply_op(g, a), b),
{
    assert(seq![a, b].drop_last() =~= seq![a]);
    lemma_apply_one(g, a);
}

// ---------------------------------------------------------------------------
// Manifest-declared structure
// ---------------------------------------------------------------------------

/// The node of a project.
pub open spec fn project_node(name: Seq<char>) -> NodeModel {
    NodeModel {
        id: project_node_id(name),
        kind: GraphNodeKind::Project,
        label: name,
        project: Some(name),
        workspace: None,
    }
}

/// Node id of a workspace.
pub open spec fn workspace_node_id(project: Seq<char>, workspace: Seq<char>) -> Seq<char> {
    "workspace:"@ + project + ":"@ + workspace
}

/// A workspace node and the edge from its project.
pub open spec fn workspace_ops(p: Seq<char>, w: crate::domain::WorkspaceSpec) -> Seq<GraphOp> {
    seq![
        GraphOp::AddNode(NodeModel {
            id: workspace_node_id(p, w.name@),
            kind: GraphNodeKind::Workspace,
            label: w.name@,
            project: Some(p),
            workspace: Some(w.name@),
        }),
        GraphOp::AddEdge(EdgeModel {
            from: project_node_id(p),
            to: workspace_node_id(p, w.name@),
            kind: EdgeKind::ContainsWorkspace,
            evidence: Some(w.manifest@),
        }),
    ]
}

/// Workspace additions for every workspace, in order.
pub open spec fn workspaces_ops(p: Seq<char>, ws: Seq<crate::domain::WorkspaceSpec>) -> Seq<GraphOp>
    decreases ws.len(),
{
    if ws.len() == 0 {
        Seq::empty()
    } else {
        workspaces_ops(p, ws.drop_last()) + workspace_ops(p, ws.last())
    }
}

/// Node id of a proto package or pattern.
pub open spec fn proto_node_id(pattern: Seq<char>) -> Seq<char> {
    "proto:"@ + pattern
}

/// The node of a proto package or pattern.
pub open spec fn proto_node(pattern: Seq<char>) -> NodeModel {
    NodeModel { id: proto_node_id(pattern), kind: GraphNodeKind::ProtoPackage, label: pattern, project: None, workspace: None }
}

/// A proto node and an edge of `kind` from the project to it.
pub open spec fn proto_ops(p: Seq<char>, pattern: Seq<char>, kind: EdgeKind) -> Seq<GraphOp> {
    seq![
        GraphOp::AddNode(proto_node(pattern)),
        GraphOp::AddEdge(EdgeModel { from: project_node_id(p), to: proto_node_id(pattern), kind, evidence: Some(pattern) }),
    ]
}

/// Proto additions for every pattern, in order.
pub open spec fn protos_ops(p: Seq<char>, patterns: Seq<Seq<char>>, kind: EdgeKind) -> Seq<GraphOp>
    decreases patterns.len(),
{
    if patterns.len() == 0 {
        Seq::empty()
    } else {
        protos_ops(p, patterns.drop_last(), kind) + proto_ops(p, patterns.last(), kind)
    }
}

/// Views of globs.
pub open spec fn glob_views(v: Seq<crate::domain::RepoGlob>) -> Seq<Seq<char>> {
    v.map_values(|g: crate::domain::RepoGlob| g@)
}

/// Node id of an infrastructure target.
pub open spec fn iac_node_id(p: Seq<char>, stack: Seq<char>) -> Seq<char> {
    "iac:"@ + p + ":"@ + stack
}

/// An infrastructure target node and the edge from its project.
pub open spec fn iac_target_ops(p: Seq<char>, stack: Seq<char>, root: Seq<char>) -> Seq<GraphOp> {
    seq![
        GraphOp::AddNode(NodeModel {
            id: iac_node_id(p, stack),
            kind: GraphNodeKind::IacTarget,
            label: stack,
            project: Some(p),
            workspace: None,
        }),
        GraphOp::AddEdge(EdgeModel { from: project_node_id(p), to: iac_node_id(p, stack), kind: EdgeKind::OwnsIac, evidence: Some(root) }),
    ]
}

/// Target additions for every stack, in order.
pub open spec fn stacks_ops(p: Seq<char>, stacks: Seq<Seq<char>>, root: Seq<char>) -> Seq<GraphOp>
    decreases stacks.len(),
{
    if stacks.len() == 0 {
        Seq::empty()
    } else {
        stacks_ops(p, stacks.drop_last(), root) + iac_target_ops(p, stacks.last(), root)
    }
}

/// Infrastructure additions: one target per stack, or a `default` target
/// when no stack is declared.
pub open spec fn iac_ops(p: ProjectManifest) -> Seq<GraphOp> {
    match p.iac {
        None => Seq::empty(),
        Some(i) => if i.stacks@.len() == 0 {
            iac_target_ops(p.name@, "default"@, i.root@)
        } else {
            stacks_ops(p.name@, crate::text::strs(i.stacks@), i.root@)
        },
    }
}

/// Additions declared by one project's own manifest.
pub open spec fn project_ops(p: ProjectManifest) -> Seq<GraphOp> {
    seq![GraphOp::AddNode(project_node(p.name@))]
        + workspaces_ops(p.name@, p.workspaces@)
        + protos_ops(p.name@, glob_views(p.protos.owns@), EdgeKind::OwnsProto)
        + protos_ops(p.name@, glob_views(p.protos.consumes@), EdgeKind::ConsumesProto)
        + iac_ops(p)
}

/// Additions declared by every project's own manifest, in order.
pub open spec fn structure_ops(ps: Seq<ProjectManifest>) -> Seq<GraphOp>
    decreases ps.len(),
{
    if ps.len() == 0 {
        Seq::empty()
    } else {
        structure_ops(ps.drop_last()) + project_ops(ps.last())
    }
}

fn add_workspaces(graph: &mut RepoGraph, project: &ProjectManifest)
    ensures
        graph_model(*final(graph)) == apply_ops(graph_model(*old(graph)), workspaces_ops(project.name@, project.workspaces@)),
{
    let ghost g0 = graph_model(*graph);
    let ghost p = project.name@;
    let ghost ws = project.workspaces@;
    let mut i: usize = 0;
    assert(ws.subrange(0, 0) =~= Seq::<crate::domain::WorkspaceSpec>::empty());
    while i < project.workspaces.len()
        invariant
            i <= project.workspaces.len(),
            p == project.name@,
            ws == project.workspaces@,
            graph_model(*graph) == apply_ops(g0, workspaces_ops(p, ws.subrange(0, i as int))),
        decreases project.workspaces.len() - i,
    {
        let w = &project.workspaces[i];
        let mut id = crate::text::concat3("workspace:", project.name.as_str(), ":");
        crate::text::push_str(&mut id, w.name.as_str());
        let node = GraphNode {
            id: id.clone(),
            kind: GraphNodeKind::Workspace,
            label: crate::text::owned(w.name.as_str()),
            project: Some(project.name.duplicate()),
            workspace: Some(w.name.duplicate()),
        };
        let edge = GraphEdge {
            from: project.node_id(),
            to: id,
            kind: EdgeKind::ContainsWorkspace,
            evidence: Some(crate::text::owned(w.manifest.as_str())),
        };
        let ghost before = graph_model(*graph);
        add_node_op(graph, node);
        add_edge_op(graph, edge);
        proof {
            let ops = workspace_ops(p, ws[i as int]);
            lemma_apply_two(before, ops[0], ops[1]);
            assert(ws.subrange(0, i as int + 1).drop_last() =~= ws.subrange(0, i as int));
            lemma_apply_concat(g0, workspaces_ops(p, ws.subrange(0, i as int)), ops);
        }
        i = i + 1;
    }
    assert(ws.subrange(0, ws.len() as int) =~= ws);
}

fn add_protos(graph: &mut RepoGraph, project: &ProjectManifest, patterns: &Vec<crate::domain::RepoGlob>, kind: EdgeKind)
    ensures
        graph_model(*final(graph)) == apply_ops(graph_model(*old(graph)), protos_ops(project.name@, glob_views(patterns@), kind)),
{
    let ghost g0 = graph_model(*graph);
    let ghost p = project.name@;
    let ghost pats = glob_views(patterns@);
    let mut i: usize = 0;
    assert(pats.subrange(0, 0) =~= Seq::<Seq<char>>::empty());
    while i < patterns.len()
        invariant
            i <= patterns.len(),
            p == project.name@,
            pats == glob_views(patterns@),
            graph_model(*graph) == apply_ops(g0, protos_ops(p, pats.subrange(0, i as int), kind)),
        decreases patterns.len() - i,
    {
        let pattern = &patterns[i];
        let id = crate::text::concat2("proto:", pattern.as_str());
        let node = GraphNode {
            id: id.clone(),
            kind: GraphNodeKind::ProtoPackage,
            label: crate::text::owned(pattern.as_str()),
            project: None,
            workspace: None,
        };
        let edge = GraphEdge { from: project.node_id(), to: id, kind, evidence: Some(crate::text::owned(pattern.as_str())) };
        let ghost before = graph_model(*graph);
        add_node_op(graph, node);
        add_edge_op(graph, edge);
        proof {
            let ops = proto_ops(p, pats[i as int], kind);
            lemma_apply_two(before, ops[0], ops[1]);
            assert(pats.subrange(0, i as int + 1).drop_last() =~= pats.subrange(0, i as int));
            lemma_apply_concat(g0, protos_ops(p, pats.subrange(0, i as int), kind), ops);
        }
        i = i + 1;
    }
    assert(pats.subrange(0, pats.len() as int) =~= pats);
}

fn add_iac_target(graph: &mut RepoGraph, project: &ProjectManifest, stack: &str, root: &crate::domain::ProjectRelativePath)
    ensures
        graph_model(*final(graph)) == apply_ops(graph_model(*old(graph)), iac_target_ops(project.name@, stack@, root@)),
{
    let mut id = crate::text::concat3("iac:", project.name.as_str(), ":");
    crate::text::push_str(&mut id, stack);
    let node = GraphNode {
        id: id.clone(),
        kind: GraphNodeKind::IacTarget,
        label: crate::text::owned(stack),
        project: Some(project.name.duplicate()),
        workspace: None,
    };
    let edge = GraphEdge { from: project.node_id(), to: id, kind: EdgeKind::OwnsIac, evidence: Some(crate::text::owned(root.as_str())) };
    let ghost before = graph_model(*graph);
    add_node_op(graph, node);
    add_edge_op(graph, edge);
    proof {
        let ops = iac_target_ops(project.name@, stack@, root@);
        lemma_apply_two(before, ops[0], ops[1]);
    }
}

fn add_iac(graph: &mut RepoGraph, project: &ProjectManifest)
    ensures
        graph_model(*final(graph)) == apply_ops(graph_model(*old(graph)), iac_ops(*project)),
{
    match &project.iac {
        None => {
            assert(apply_ops(graph_model(*graph), Seq::<GraphOp>::empty()) == graph_model(*graph));
        },
        Some(iac) => {
            if iac.stacks.len() == 0 {
                add_iac_target(graph, project, "default", &iac.root);
            } else {
                let ghost g0 = graph_model(*graph);
                let ghost p = project.name@;
                let ghost stacks = crate::text::strs(iac.stacks@);
                let mut i: usize = 0;
                assert(stacks.subrange(0, 0) =~= Seq::<Seq<char>>::empty());
                while i < iac.stacks.len()
                    invariant
                        i <= iac.stacks.len(),
                        p == project.name@,
                        stacks == crate::text::strs(iac.stacks@),
                        graph_model(*graph) == apply_ops(g0, stacks_ops(p, stacks.subrange(0, i as int), iac.root@)),
                    decreases iac.stacks.len() - i,
                {
                    let ghost before = graph_model(*graph);
                    add_iac_target(graph, project, iac.stacks[i].as_str(), &iac.root);
                    proof {
                        assert(stacks.subrange(0, i as int + 1).drop_last() =~= stacks.subrange(0, i as int));
                        lemma_apply_concat(g0, stacks_ops(p, stacks.subrange(0, i as int), iac.root@), iac_target_ops(p, stacks[i as int], iac.root@));
                    }
                    i = i + 1;
                }
                assert(stacks.subrange(0, stacks.len() as int) =~= stacks);
            }
        },
    }
}

fn add_project_structure(graph: &mut RepoGraph, project: &ProjectManifest)
    ensures
        graph_model(*final(graph)) == apply_ops(graph_model(*old(graph)), project_ops(*project)),
{
    let ghost g0 = graph_model(*graph);
    let ghost p = project.name@;
    let node = GraphNode {
        id: project.node_id(),
        kind: GraphNodeKind::Project,
        label: crate::text::owned(project.name.as_str()),
        project: Some(project.name.duplicate()),
        workspace: None,
    };
    add_node_op(graph, node);
    let ghost g1 = graph_model(*graph);
    add_workspaces(graph, project);
    let ghost g2 = graph_model(*graph);
    add_protos(graph, project, &project.protos.owns, EdgeKind::OwnsProto);
    let ghost g3 = graph_model(*graph);
    add_protos(graph, project, &project.protos.consumes, EdgeKind::ConsumesProto);
    let ghost g4 = graph_model(*graph);
    add_iac(graph, project);
    proof {
        let a = seq![GraphOp::AddNode(project_node(p))];
        let b = workspaces_ops(p, project.workspaces@);
        let c = protos_ops(p, glob_views(project.protos.owns@), EdgeKind::OwnsProto);
        let d = protos_ops(p, glob_views(project.protos.consumes@), EdgeKind::ConsumesProto);
        let e = iac_ops(*project);
        lemma_apply_one(g0, a[0]);
        lemma_apply_concat(g0, a, b);
        lemma_apply_concat(g0, a + b, c);
        lemma_apply_concat(g0, a + b + c, d);
        lemma_apply_concat(g0, a + b + c + d, e);
    }
}

// ---------------------------------------------------------------------------
// Declared dependencies
// ---------------------------------------------------------------------------

/// Edge kind of a declared dependency, from the two project kinds and the
/// requested surface.
pub open spec fn classify(source: ProjectKind, target: ProjectKind, surface: DependencySurface) -> EdgeKind {
    if source == ProjectKind::App && target == ProjectKind::Framework {
        if surface == DependencySurface::FrameworkInternal {
            EdgeKind::UsesFrameworkInternal
        } else {
            EdgeKind::UsesFrameworkFacade
        }
    } else if source == ProjectKind::App && target == ProjectKind::FoundationService {
        if surface == DependencySurface::FoundationPublicClient {
            EdgeKind::UsesFoundationClient
        } else {
            EdgeKind::UsesFoundationInternal
        }
    } else if target == ProjectKind::CoreInfra || target == ProjectKind::CoreInfraComponent {
        if surface == DependencySurface::CoreInfraInternalModule {
            EdgeKind::UsesCoreInfraInternalModule
        } else {
            EdgeKind::UsesCoreInfraModule
        }
    } else {
        EdgeKind::DependsOnProject
    }
}

/// Classifies a declared dependency edge.
pub fn classify_declared_dependency(source: ProjectKind, target: ProjectKind, surface: DependencySurface) -> (k: EdgeKind)
    ensures
        k == classify(source, target, surface),
{
    match (source, target, surface) {
        (ProjectKind::App, ProjectKind::Framework, DependencySurface::FrameworkInternal) => EdgeKind::UsesFrameworkInternal,
        (ProjectKind::App, ProjectKind::Framework, _) => EdgeKind::UsesFrameworkFacade,
        (ProjectKind::App, ProjectKind::FoundationService, DependencySurface::FoundationPublicClient) => EdgeKind::UsesFoundationClient,
        (ProjectKind::App, ProjectKind::FoundationService, _) => EdgeKind::UsesFoundationInternal,
        (_, ProjectKind::CoreInfra, DependencySurface::CoreInfraInternalModule) => EdgeKind::UsesCoreInfraInternalModule,
        (_, ProjectKind::CoreInfraComponent, DependencySurface::CoreInfraInternalModule) => EdgeKind::UsesCoreInfraInternalModule,
        (_, ProjectKind::CoreInfra, _) => EdgeKind::UsesCoreInfraModule,
        (_, ProjectKind::CoreInfraComponent, _) => EdgeKind::UsesCoreInfraModule,
        _ => EdgeKind::DependsOnProject,
    }
}

/// The last project with the name, as a name-keyed map built in order
/// keeps it.
pub open spec fn last_named(ps: Seq<ProjectManifest>, name: Seq<char>) -> Option<ProjectManifest>
    decreases ps.len(),
{
    if ps.len() == 0 {
        None
    } else if ps.last().name@ == name {
        Some(ps.last())
    } else {
        last_named(ps.drop_last(), name)
    }
}

fn find_last_named<'a>(ps: &'a Vec<ProjectManifest>, name: &crate::domain::ProjectName) -> (r: Option<&'a ProjectManifest>)
    ensures
        match r {
            Some(p) => last_named(ps@, name@) == Some(*p),
            None => last_named(ps@, name@) is None,
        },
{
    let mut i: usize = ps.len();
    assert(ps@.subrange(0, ps@.len() as int) =~= ps@);
    while i > 0
        invariant
            i <= ps.len(),
            last_named(ps@, name@) == last_named(ps@.subrange(0, i as int), name@),
        decreases i,
    {
        let ghost sub = ps@.subrange(0, i as int);
        assert(sub.last() == ps@[i - 1]);
        assert(sub.drop_last() =~= ps@.subrange(0, i - 1));
        if ps[i - 1].name.same(name) {
            return Some(&ps[i - 1]);
        }
        i = i - 1;
    }
    assert(ps@.subrange(0, 0).len() == 0);
    None
}

/// Additions for one declared dependency: an edge to a known project, or a
/// proto node and an edge to it.
pub open spec fn dependency_ops(p: ProjectManifest, d: crate::domain::ProjectDependency, all: Seq<ProjectManifest>) -> Seq<GraphOp> {
    match d.target {
        DependencyTarget::Project(t) => match last_named(all, t@) {
            Some(target) => seq![GraphOp::AddEdge(EdgeModel {
                from: project_node_id(p.name@),
                to: project_node_id(target.name@),
                kind: classify(p.kind, target.kind, d.surface),
                evidence: Some(d.id@),
            })],
            None => Seq::empty(),
        },
        DependencyTarget::ProtoPackage(pkg) => seq![
            GraphOp::AddNode(proto_node(pkg@)),
            GraphOp::AddEdge(EdgeModel {
                from: project_node_id(p.name@),
                to: proto_node_id(pkg@),
                kind: EdgeKind::ConsumesProto,
                evidence: Some(d.id@),
            }),
        ],
    }
}

/// Additions for a project's dependencies, in order.
pub open spec fn dependencies_ops(p: ProjectManifest, ds: Seq<crate::domain::ProjectDependency>, all: Seq<ProjectManifest>) -> Seq<GraphOp>
    decreases ds.len(),
{
    if ds.len() == 0 {
        Seq::empty()
    } else {
        dependencies_ops(p, ds.drop_last(), all) + dependency_ops(p, ds.last(), all)
    }
}

/// Additions for every project's dependencies, in order.
pub open spec fn declared_ops(ps: Seq<ProjectManifest>, all: Seq<ProjectManifest>) -> Seq<GraphOp>
    decreases ps.len(),
{
    if ps.len() == 0 {
        Seq::empty()
    } else {
        declared_ops(ps.drop_last(), all) + dependencies_ops(ps.last(), ps.last().depends_on@, all)
    }
}

fn add_dependency(graph: &mut RepoGraph, project: &ProjectManifest, dependency: &crate::domain::ProjectDependency, all: &Vec<ProjectManifest>)
    ensures
        graph_model(*final(graph)) == apply_ops(graph_model(*old(graph)), dependency_ops(*project, *dependency, all@)),
{
    let ghost before = graph_model(*graph);
    match &dependency.target {
        DependencyTarget::Project(target_name) => {
            match find_last_named(all, target_name) {
                Some(target) => {
                    let edge = GraphEdge {
                        from: project.node_id(),
                        to: target.node_id(),
                        kind: classify_declared_dependency(project.kind, target.kind, dependency.surface),
                        evidence: Some(dependency.id.clone()),
                    };
                    add_edge_op(graph, edge);
                    proof {
                        lemma_apply_one(before, dependency_ops(*project, *dependency, all@)[0]);
                    }
                },
                None => {
                    assert(apply_ops(before, Seq::<GraphOp>::empty()) == before);
                },
            }
        },
        DependencyTarget::ProtoPackage(package) => {
            let id = crate::text::concat2("proto:", package.as_str());
            let node = GraphNode {
                id: id.clone(),
                kind: GraphNodeKind::ProtoPackage,
                label: crate::text::owned(package.as_str()),
                project: None,
                workspace: None,
            };
            let edge = GraphEdge { from: project.node_id(), to: id, kind: EdgeKind::ConsumesProto, evidence: Some(dependency.id.clone()) };
            add_node_op(graph, node);
            add_edge_op(graph, edge);
            proof {
                let ops = dependency_ops(*project, *dependency, all@);
                lemma_apply_two(before, ops[0], ops[1]);
            }
        },
    }
}

fn add_dependencies(graph: &mut RepoGraph, project: &ProjectManifest, all: &Vec<ProjectManifest>)
    ensures
        graph_model(*final(graph)) == apply_ops(graph_model(*old(graph)), dependencies_ops(*project, project.depends_on@, all@)),
{
    let ghost g0 = graph_model(*graph);
    let ghost ds = project.depends_on@;
    let mut i: usize = 0;
    assert(ds.subrange(0, 0) =~= Seq::<crate::domain::ProjectDependency>::empty());
    while i < project.depends_on.len()
        invariant
            i <= project.depends_on.len(),
            ds == project.depends_on@,
            graph_model(*graph) == apply_ops(g0, dependencies_ops(*project, ds.subrange(0, i as int), all@)),
        decreases project.depends_on.len() - i,
    {
        add_dependency(graph, project, &project.depends_on[i], all);
        proof {
            assert(ds.subrange(0, i as int + 1).drop_last() =~= ds.subrange(0, i as int));
            lemma_apply_concat(g0, dependencies_ops(*project, ds.subrange(0, i as int), all@), dependency_ops(*project, ds[i as int], all@));
        }
        i = i + 1;
    }
    assert(ds.subrange(0, ds.len() as int) =~= ds);
}

/// Additions for adapter-discovered edges, in order.
pub open spec fn discovered_ops(ds: Seq<crate::ports::DiscoveredEdge>) -> Seq<GraphOp>
    decreases ds.len(),
{
    if ds.len() == 0 {
        Seq::empty()
    } else {
        discovered_ops(ds.drop_last()).push(GraphOp::AddEdge(crate::ports::discovered_edge_model(ds.last())))
    }
}

/// Every addition the builder makes, in order: each project's own
/// structure, then each project's declared dependencies, then the
/// discovered edges.
pub open spec fn build_ops(ps: Seq<ProjectManifest>, ds: Seq<crate::ports::DiscoveredEdge>) -> Seq<GraphOp> {
    structure_ops(ps) + declared_ops(ps, ps) + discovered_ops(ds)
}

/// The graph before ordering.
pub open spec fn unordered_graph(ps: Seq<ProjectManifest>, ds: Seq<crate::ports::DiscoveredEdge>) -> GraphModel {
    apply_ops(empty_graph(), build_ops(ps, ds))
}

fn add_all(graph: &mut RepoGraph, projects: &Vec<ProjectManifest>, discovered: &Vec<crate::ports::DiscoveredEdge>)
    ensures
        graph_model(*final(graph)) == apply_ops(graph_model(*old(graph)), build_ops(projects@, discovered@)),
{
    let ghost g0 = graph_model(*graph);
    let ghost ps = projects@;
    let mut i: usize = 0;
    assert(ps.subrange(0, 0) =~= Seq::<ProjectManifest>::empty());
    while i < projects.len()
        invariant
            i <= projects.len(),
            ps == projects@,
            graph_model(*graph) == apply_ops(g0, structure_ops(ps.subrange(0, i as int))),
        decreases projects.len() - i,
    {
        add_project_structure(graph, &projects[i]);
        proof {
            assert(ps.subrange(0, i as int + 1).drop_last() =~= ps.subrange(0, i as int));
            lemma_apply_concat(g0, structure_ops(ps.subrange(0, i as int)), project_ops(ps[i as int]));
        }
        i = i + 1;
    }
    assert(ps.subrange(0, ps.len() as int) =~= ps);
    let ghost g1 = graph_model(*graph);
    let mut j: usize = 0;
    assert(ps.subrange(0, 0) =~= Seq::<ProjectManifest>::empty());
    while j < projects.len()
        invariant
            j <= projects.len(),
            ps == projects@,
            graph_model(*graph) == apply_ops(g1, declared_ops(ps.subrange(0, j as int), ps)),
        decreases projects.len() - j,
    {
        add_dependencies(graph, &projects[j], projects);
        proof {
            assert(ps.subrange(0, j as int + 1).drop_last() =~= ps.subrange(0, j as int));
            lemma_apply_concat(g1, declared_ops(ps.subrange(0, j as int), ps), dependencies_ops(ps[j as int], ps[j as int].depends_on@, ps));
        }
        j = j + 1;
    }
    assert(ps.subrange(0, ps.len() as int) =~= ps);
    let ghost g2 = graph_model(*graph);
    let ghost ds = discovered@;
    let mut k: usize = 0;
    assert(ds.subrange(0, 0) =~= Seq::<crate::ports::DiscoveredEdge>::empty());
    while k < discovered.len()
        invariant
            k <= discovered.len(),
            ds == discovered@,
            graph_model(*graph) == apply_ops(g2, discovered_ops(ds.subrange(0, k as int))),
        decreases discovered.len() - k,
    {
        let ghost before = graph_model(*graph);
        add_edge_op(graph, crate::ports::discovered_to_graph_edge(&discovered[k]));
        proof {
            assert(ds.subrange(0, k as int + 1).drop_last() =~= ds.subrange(0, k as int));
            lemma_apply_push(g2, discovered_ops(ds.subrange(0, k as int)), GraphOp::AddEdge(crate::ports::discovered_edge_model(ds[k as int])));
        }
        k = k + 1;
    }
    assert(ds.subrange(0, ds.len() as int) =~= ds);
    proof {
        lemma_apply_concat(g0, structure_ops(ps), declared_ops(ps, ps));
        lemma_apply_concat(g0, structure_ops(ps) + declared_ops(ps, ps), discovered_ops(ds));
    }
}

// ---------------------------------------------------------------------------
// Ordering
// ---------------------------------------------------------------------------

/// Rank of an edge kind in the output order.
pub open spec fn rank(kind: EdgeKind) -> nat {
    match kind {
        EdgeKind::DependsOnProject => 0,
        EdgeKind::ContainsWorkspace => 1,
        EdgeKind::ConsumesProto => 2,
        EdgeKind::OwnsProto => 3,
        EdgeKind::UsesFrameworkFacade => 4,
        EdgeKind::UsesFrameworkInternal => 5,
        EdgeKind::UsesFoundationClient => 6,
        EdgeKind::UsesFoundationInternal => 7,
        EdgeKind::UsesCoreInfraModule => 8,
        EdgeKind::UsesCoreInfraInternalModule => 9,
        EdgeKind::OwnsIac => 10,
        EdgeKind::RunsTask => 11,
    }
}

/// Rank of an edge kind in the output order.
pub fn edge_rank(kind: EdgeKind) -> (r: u8)
    ensures
        r == rank(kind),
{
    match kind {
        EdgeKind::DependsOnProject => 0,
        EdgeKind::ContainsWorkspace => 1,
        EdgeKind::ConsumesProto => 2,
        EdgeKind::OwnsProto => 3,
        EdgeKind::UsesFrameworkFacade => 4,
        EdgeKind::UsesFrameworkInternal => 5,
        EdgeKind::UsesFoundationClient => 6,
        EdgeKind::UsesFoundationInternal => 7,
        EdgeKind::UsesCoreInfraModule => 8,
        EdgeKind::UsesCoreInfraInternalModule => 9,
        EdgeKind::OwnsIac => 10,
        EdgeKind::RunsTask => 11,
    }
}

/// Order of optional texts: absent first, then by text.
pub open spec fn opt_lt(a: Option<Seq<char>>, b: Option<Seq<char>>) -> bool {
    match (a, b) {
        (None, Some(_)) => true,
        (Some(x), Some(y)) => seq_lt(x, y),
        _ => false,
    }
}

/// Order of edges: by source, target, kind rank, then evidence.
pub open spec fn edge_lt(a: EdgeModel, b: EdgeModel) -> bool {
    if a.from != b.from {
        seq_lt(a.from, b.from)
    } else if a.to != b.to {
        seq_lt(a.to, b.to)
    } else if rank(a.kind) != rank(b.kind) {
        rank(a.kind) < rank(b.kind)
    } else {
        opt_lt(a.evidence, b.evidence)
    }
}

proof fn lemma_opt_lt(a: Option<Seq<char>>, b: Option<Seq<char>>, c: Option<Seq<char>>)
    ensures
        !opt_lt(a, a),
        opt_lt(a, b) && opt_lt(b, c) ==> opt_lt(a, c),
{
    if let Some(x) = a {
        lemma_lt_irreflexive(x);
    }
    if opt_lt(a, b) && opt_lt(b, c) {
        if let (Some(x), Some(y), Some(z)) = (a, b, c) {
            lemma_lt_transitive(x, y, z);
        }
    }
}

proof fn lemma_seq_lt_step(x: Seq<char>, y: Seq<char>, z: Seq<char>)
    ensures
        !seq_lt(x, x),
        seq_lt(x, y) && seq_lt(y, z) ==> seq_lt(x, z) && x != z,
{
    lemma_lt_irreflexive(x);
    if seq_lt(x, y) && seq_lt(y, z) {
        lemma_lt_transitive(x, y, z);
        if x == z {
            lemma_lt_irreflexive(x);
        }
    }
}

/// Edge order is irreflexive and transitive.
pub proof fn lemma_edge_lt(a: EdgeModel, b: EdgeModel, c: EdgeModel)
    ensures
        !edge_lt(a, a),
        edge_lt(a, b) && edge_lt(b, c) ==> edge_lt(a, c),
{
    lemma_opt_lt(a.evidence, b.evidence, c.evidence);
    lemma_seq_lt_step(a.from, b.from, c.from);
    lemma_seq_lt_step(a.to, b.to, c.to);
    lemma_lt_irreflexive(a.from);
    lemma_lt_irreflexive(a.to);
}

/// Nodes ordered by id.
pub open spec fn nodes_ordered(ns: Seq<NodeModel>) -> bool {
    forall|i: int, j: int| 0 <= i < j < ns.len() ==> !seq_lt(#[trigger] ns[j].id, #[trigger] ns[i].id)
}

/// Edges ordered by source, target, kind rank and evidence.
pub open spec fn edges_ordered(es: Seq<EdgeModel>) -> bool {
    forall|i: int, j: int| 0 <= i < j < es.len() ==> !edge_lt(#[trigger] es[j], #[trigger] es[i])
}

fn opt_str_lt(a: &Option<String>, b: &Option<String>) -> (r: bool)
    ensures
        r == opt_lt(opt_view(*a), opt_view(*b)),
{
    match (a, b) {
        (None, Some(_)) => true,
        (Some(x), Some(y)) => str_lt(x.as_str(), y.as_str()),
        _ => false,
    }
}

fn edge_before(a: &GraphEdge, b: &GraphEdge) -> (r: bool)
    ensures
        r == edge_lt(a@, b@),
{
    if a.from != b.from {
        str_lt(a.from.as_str(), b.from.as_str())
    } else if a.to != b.to {
        str_lt(a.to.as_str(), b.to.as_str())
    } else {
        let ra = edge_rank(a.kind);
        let rb = edge_rank(b.kind);
        if ra != rb {
            ra < rb
        } else {
            opt_str_lt(&a.evidence, &b.evidence)
        }
    }
}

/// Inserting into a sequence adds one occurrence to its multiset.
pub proof fn lemma_multiset_insert<A>(s: Seq<A>, p: int, x: A)
    requires
        0 <= p <= s.len(),
    ensures
        s.insert(p, x).to_multiset() == s.to_multiset().insert(x),
{
    broadcast use vstd::seq_lib::group_to_multiset_ensures;
    let t = s.insert(p, x);
    assert(t.remove(p) =~= s);
    assert(t[p] == x);
    assert(t.to_multiset().count(x) > 0) by {
        assert(t.contains(x));
    }
    assert(t.to_multiset() =~= s.to_multiset().insert(x));
}

/// Sorts nodes by id, keeping the order of equal ids.
pub fn sort_nodes(nodes: Vec<GraphNode>) -> (r: Vec<GraphNode>)
    ensures
        nodes_ordered(node_views(r@)),
        node_views(r@).to_multiset() == node_views(nodes@).to_multiset(),
{
    broadcast use vstd::seq_lib::group_to_multiset_ensures;
    let ghost all = node_views(nodes@);
    let n = nodes.len();
    let mut rest = nodes;
    let mut out: Vec<GraphNode> = Vec::new();
    let mut i: usize = 0;
    while rest.len() > 0
        invariant
            all.len() == n,
            i + rest@.len() == all.len(),
            node_views(rest@) == all.subrange(i as int, all.len() as int),
            nodes_ordered(node_views(out@)),
            node_views(out@).to_multiset() == all.subrange(0, i as int).to_multiset(),
        decreases rest.len(),
    {
        let ghost rest_before = rest@;
        assert(node_views(rest_before)[0] == all[i as int]);
        let x = rest.remove(0);
        assert(x@ == all[i as int]);
        let ghost os = node_views(out@);
        let mut p: usize = 0;
        while p < out.len() && !str_lt(x.id.as_str(), out[p].id.as_str())
            invariant
                p <= out.len(),
                os == node_views(out@),
                forall|k: int| 0 <= k < p ==> !seq_lt(x@.id, #[trigger] os[k].id),
            decreases out.len() - p,
        {
            p = p + 1;
        }
        proof {
            let ns = os.insert(p as int, x@);
            assert forall|a: int, b: int| 0 <= a < b < ns.len() implies !seq_lt(#[trigger] ns[b].id, #[trigger] ns[a].id) by {
                if b < p {
                } else if b == p {
                } else if a < p {
                    // ns[a] = os[a], ns[b] = os[b - 1] with b - 1 >= p
                    if seq_lt(os[b - 1].id, os[a].id) {
                        if seq_lt(x@.id, os[p as int].id) {
                            if b - 1 > p {
                                lemma_seq_lt_step(os[p as int].id, os[b - 1].id, os[a].id);
                            }
                        }
                    }
                    assert(!seq_lt(os[b - 1].id, os[a].id));
                } else if a == p {
                    // ns[a] = x, ns[b] = os[b - 1], and x < os[p] <= os[b - 1]
                    if seq_lt(os[b - 1].id, x@.id) {
                        lemma_seq_lt_step(os[b - 1].id, x@.id, os[p as int].id);
                        if b - 1 > p {
                            assert(!seq_lt(os[b - 1].id, os[p as int].id));
                        }
                    }
                } else {
                }
            }
            lemma_multiset_insert(os, p as int, x@);
            assert(all.subrange(0, i as int + 1) =~= all.subrange(0, i as int).push(x@));
        }
        out.insert(p, x);
        assert(node_views(out@) =~= os.insert(p as int, x@));
        proof {
            vstd::seq_lib::to_multiset_build(all.subrange(0, i as int), x@);
        }
        i = i + 1;
        assert(node_views(rest@) =~= node_views(rest_before).drop_first());
        assert(node_views(rest@) =~= all.subrange(i as int, all.len() as int));
    }
    assert(all.subrange(0, all.len() as int) =~= all);
    out
}

/// Sorts edges by source, target, kind rank and evidence, keeping the order
/// of equal keys.
pub fn sort_edges(edges: Vec<GraphEdge>) -> (r: Vec<GraphEdge>)
    ensures
        edges_ordered(edge_views(r@)),
        edge_views(r@).to_multiset() == edge_views(edges@).to_multiset(),
{
    broadcast use vstd::seq_lib::group_to_multiset_ensures;
    let ghost all = edge_views(edges@);
    let n = edges.len();
    let mut rest = edges;
    let mut out: Vec<GraphEdge> = Vec::new();
    let mut i: usize = 0;
    while rest.len() > 0
        invariant
            all.len() == n,
            i + rest@.len() == all.len(),
            edge_views(rest@) == all.subrange(i as int, all.len() as int),
            edges_ordered(edge_views(out@)),
            edge_views(out@).to_multiset() == all.subrange(0, i as int).to_multiset(),
        decreases rest.len(),
    {
        let ghost rest_before = rest@;
        assert(edge_views(rest_before)[0] == all[i as int]);
        let x = rest.remove(0);
        assert(x@ == all[i as int]);
        let ghost os = edge_views(out@);
        let mut p: usize = 0;
        while p < out.len() && !edge_before(&x, &out[p])
            invariant
                p <= out.len(),
                os == edge_views(out@),
                forall|k: int| 0 <= k < p ==> !edge_lt(x@, #[trigger] os[k]),
            decreases out.len() - p,
        {
            p = p + 1;
        }
        proof {
            let es = os.insert(p as int, x@);
            assert forall|a: int, b: int| 0 <= a < b < es.len() implies !edge_lt(#[trigger] es[b], #[trigger] es[a]) by {
                if b < p {
                } else if b == p {
                } else if a < p {
                    if edge_lt(os[b - 1], os[a]) {
                        if b - 1 > p {
                            lemma_edge_lt(os[p as int], os[b - 1], os[a]);
                        }
                        lemma_edge_lt(x@, os[p as int], os[a]);
                    }
                } else if a == p {
                    if edge_lt(os[b - 1], x@) {
                        lemma_edge_lt(os[b - 1], x@, os[p as int]);
                        if b - 1 > p {
                            assert(!edge_lt(os[b - 1], os[p as int]));
                        } else {
                            lemma_edge_lt(os[p as int], x@, x@);
                        }
                    }
                } else {
                }
            }
            lemma_multiset_insert(os, p as int, x@);
        }
        out.insert(p, x);
        assert(edge_views(out@) =~= os.insert(p as int, x@));
        proof {
            vstd::seq_lib::to_multiset_build(all.subrange(0, i as int), x@);
            assert(all.subrange(0, i as int + 1) =~= all.subrange(0, i as int).push(x@));
        }
        i = i + 1;
        assert(edge_views(rest@) =~= edge_views(rest_before).drop_first());
        assert(edge_views(rest@) =~= all.subrange(i as int, all.len() as int));
    }
    assert(all.subrange(0, all.len() as int) =~= all);
    out
}

// ---------------------------------------------------------------------------
// Building
// ---------------------------------------------------------------------------

/// The built graph holds the additions' nodes and edges, each list ordered.
pub open spec fn is_built_graph(g: RepoGraph, ps: Seq<ProjectManifest>, ds: Seq<crate::ports::DiscoveredEdge>) -> bool {
    &&& nodes_ordered(node_views(g.nodes@))
    &&& node_views(g.nodes@).to_multiset() == unordered_graph(ps, ds).nodes.to_multiset()
    &&& edges_ordered(edge_views(g.edges@))
    &&& edge_views(g.edges@).to_multiset() == unordered_graph(ps, ds).edges.to_multiset()
}

/// Builds the repository graph: project, workspace, proto and
/// infrastructure nodes with their edges, declared dependency edges, then
/// the discovered edges; nodes ordered by id and edges by source, target,
/// kind and evidence.
pub fn build_graph(projects: &Vec<ProjectManifest>, discovered: &Vec<crate::ports::DiscoveredEdge>) -> (r: RepoGraph)
    ensures
        is_built_graph(r, projects@, discovered@),
{
    let mut graph = RepoGraph { nodes: Vec::new(), edges: Vec::new() };
    assert(graph_model(graph) =~= empty_graph()) by {
        assert(node_views(graph.nodes@) =~= Seq::<NodeModel>::empty());
        assert(edge_views(graph.edges@) =~= Seq::<EdgeModel>::empty());
    }
    add_all(&mut graph, projects, discovered);
    let RepoGraph { nodes, edges } = graph;
    RepoGraph { nodes: sort_nodes(nodes), edges: sort_edges(edges) }
}

/// The languages of a list of inspectors, in order.
pub open spec fn languages_of(inspectors: Seq<Box<dyn WorkspaceInspector>>) -> Seq<crate::domain::WorkspaceLanguage> {
    inspectors.map_values(|b: Box<dyn WorkspaceInspector>| b.inspected_language())
}

/// Each of the calls has an outcome that its inspector accepts.
pub open spec fn accepted_outcomes(
    inspectors: Seq<Box<dyn WorkspaceInspector>>,
    root: crate::domain::RepoRoot,
    ps: Seq<ProjectManifest>,
    calls: Seq<(int, int, int)>,
    outs: Seq<Seq<DiscoveredEdge>>,
) -> bool {
    &&& outs.len() == calls.len()
    &&& forall|t: int| 0 <= t < calls.len() ==> inspectors[calls[t].2].accepts(
        root, ps, ps[calls[t].0], ps[calls[t].0].workspaces@[calls[t].1], #[trigger] outs[t])
}

/// The inspections of a build: every call, in order, with an accepted
/// outcome.
pub open spec fn discovered_with(
    inspectors: Seq<Box<dyn WorkspaceInspector>>,
    root: crate::domain::RepoRoot,
    ps: Seq<ProjectManifest>,
    outs: Seq<Seq<DiscoveredEdge>>,
) -> bool {
    accepted_outcomes(inspectors, root, ps, inspection_calls(languages_of(inspectors), ps), outs)
}

/// A failed build: the calls before one had accepted outcomes, and that
/// call's inspector failed with the error.
pub open spec fn failed_with(
    inspectors: Seq<Box<dyn WorkspaceInspector>>,
    root: crate::domain::RepoRoot,
    ps: Seq<ProjectManifest>,
    outs: Seq<Seq<DiscoveredEdge>>,
    error: crate::diagnostic::RepoctlError,
) -> bool {
    let calls = inspection_calls(languages_of(inspectors), ps);
    let c = calls[outs.len() as int];
    &&& outs.len() < calls.len()
    &&& accepted_outcomes(inspectors, root, ps, calls.take(outs.len() as int), outs)
    &&& inspectors[c.2].fails_with(root, ps, ps[c.0], ps[c.0].workspaces@[c.1], error)
}

/// `a` is a prefix of `b`.
pub open spec fn is_prefix(a: Seq<(int, int, int)>, b: Seq<(int, int, int)>) -> bool {
    a.len() <= b.len() && b.take(a.len() as int) == a
}

proof fn lemma_prefix_trans(a: Seq<(int, int, int)>, b: Seq<(int, int, int)>, c: Seq<(int, int, int)>)
    requires
        is_prefix(a, b),
        is_prefix(b, c),
    ensures
        is_prefix(a, c),
{
    assert(c.take(a.len() as int) =~= c.take(b.len() as int).take(a.len() as int));
}

proof fn lemma_prefix_extend(x: Seq<(int, int, int)>, a: Seq<(int, int, int)>, b: Seq<(int, int, int)>)
    requires
        is_prefix(a, b),
    ensures
        is_prefix(x + a, x + b),
{
    assert((x + b).take((x + a).len() as int) =~= x + b.take(a.len() as int));
}

proof fn lemma_prefix_append(a: Seq<(int, int, int)>, b: Seq<(int, int, int)>)
    ensures
        is_prefix(a, a + b),
{
    assert((a + b).take(a.len() as int) =~= a);
}

proof fn lemma_inspector_calls_prefix(langs: Seq<crate::domain::WorkspaceLanguage>, ps: Seq<ProjectManifest>, i: int, j: int, q: int, r: int)
    requires
        0 <= q <= r,
    ensures
        is_prefix(inspector_calls(langs, ps, i, j, q), inspector_calls(langs, ps, i, j, r)),
    decreases r,
{
    if q < r {
        lemma_inspector_calls_prefix(langs, ps, i, j, q, r - 1);
        let prev = inspector_calls(langs, ps, i, j, r - 1);
        if langs[r - 1] == ps[i].workspaces@[j].language {
            lemma_prefix_append(prev, seq![(i, j, r - 1)]);
            assert(prev + seq![(i, j, r - 1)] =~= prev.push((i, j, r - 1)));
            lemma_prefix_trans(inspector_calls(langs, ps, i, j, q), prev, prev.push((i, j, r - 1)));
        }
    } else {
        assert(inspector_calls(langs, ps, i, j, r).take(inspector_calls(langs, ps, i, j, r).len() as int)
            =~= inspector_calls(langs, ps, i, j, r));
    }
}

proof fn lemma_workspace_calls_prefix(langs: Seq<crate::domain::WorkspaceLanguage>, ps: Seq<ProjectManifest>, i: int, m: int, n: int)
    requires
        0 <= m <= n,
    ensures
        is_prefix(workspace_calls(langs, ps, i, m), workspace_calls(langs, ps, i, n)),
    decreases n,
{
    if m < n {
        lemma_workspace_calls_prefix(langs, ps, i, m, n - 1);
        lemma_prefix_append(workspace_calls(langs, ps, i, n - 1), inspector_calls(langs, ps, i, n - 1, langs.len() as int));
        lemma_prefix_trans(workspace_calls(langs, ps, i, m), workspace_calls(langs, ps, i, n - 1), workspace_calls(langs, ps, i, n));
    } else {
        assert(workspace_calls(langs, ps, i, n).take(workspace_calls(langs, ps, i, n).len() as int) =~= workspace_calls(langs, ps, i, n));
    }
}

proof fn lemma_project_calls_prefix(langs: Seq<crate::domain::WorkspaceLanguage>, ps: Seq<ProjectManifest>, m: int, n: int)
    requires
        0 <= m <= n,
    ensures
        is_prefix(project_calls(langs, ps, m), project_calls(langs, ps, n)),
    decreases n,
{
    if m < n {
        lemma_project_calls_prefix(langs, ps, m, n - 1);
        lemma_prefix_append(project_calls(langs, ps, n - 1), workspace_calls(langs, ps, n - 1, ps[n - 1].workspaces@.len() as int));
        lemma_prefix_trans(project_calls(langs, ps, m), project_calls(langs, ps, n - 1), project_calls(langs, ps, n));
    } else {
        assert(project_calls(langs, ps, n).take(project_calls(langs, ps, n).len() as int) =~= project_calls(langs, ps, n));
    }
}

/// The calls made before and at a given call are a prefix of all calls.
proof fn lemma_call_is_next(langs: Seq<crate::domain::WorkspaceLanguage>, ps: Seq<ProjectManifest>, i: int, j: int, k: int)
    requires
        0 <= i < ps.len(),
        0 <= j < ps[i].workspaces@.len(),
        0 <= k < langs.len(),
        langs[k] == ps[i].workspaces@[j].language,
    ensures
        is_prefix(
            project_calls(langs, ps, i) + workspace_calls(langs, ps, i, j) + inspector_calls(langs, ps, i, j, k).push((i, j, k)),
            inspection_calls(langs, ps),
        ),
{
    let pc = project_calls(langs, ps, i);
    let wc = workspace_calls(langs, ps, i, j);
    let kn = langs.len() as int;
    let mi = ps[i].workspaces@.len() as int;
    assert(inspector_calls(langs, ps, i, j, k + 1) == inspector_calls(langs, ps, i, j, k).push((i, j, k)));
    lemma_inspector_calls_prefix(langs, ps, i, j, k + 1, kn);
    lemma_prefix_extend(wc, inspector_calls(langs, ps, i, j, k + 1), inspector_calls(langs, ps, i, j, kn));
    lemma_workspace_calls_prefix(langs, ps, i, j + 1, mi);
    lemma_prefix_trans(wc + inspector_calls(langs, ps, i, j, k + 1), workspace_calls(langs, ps, i, j + 1), workspace_calls(langs, ps, i, mi));
    lemma_prefix_extend(pc, wc + inspector_calls(langs, ps, i, j, k + 1), workspace_calls(langs, ps, i, mi));
    lemma_project_calls_prefix(langs, ps, i + 1, ps.len() as int);
    assert(pc + (wc + inspector_calls(langs, ps, i, j, k + 1)) =~= pc + wc + inspector_calls(langs, ps, i, j, k).push((i, j, k)));
    lemma_prefix_trans(
        pc + wc + inspector_calls(langs, ps, i, j, k).push((i, j, k)),
        project_calls(langs, ps, i + 1),
        inspection_calls(langs, ps),
    );
}

/// Default graph builder: manifest edges plus the edges that its workspace
/// inspectors discover.
pub struct DefaultGraphBuilder {
    inspectors: Vec<Box<dyn WorkspaceInspector>>,
}

impl DefaultGraphBuilder {
    /// Creates a graph builder from explicit workspace inspectors.
    pub fn new(inspectors: Vec<Box<dyn WorkspaceInspector>>) -> (r: Self)
        ensures
            r.inspector_list() == inspectors@,
            r.inspector_count() == inspectors@.len(),
            r.inspector_languages() == languages_of(inspectors@),
    {
        DefaultGraphBuilder { inspectors }
    }

    /// The inspectors, in order.
    pub closed spec fn inspector_list(&self) -> Seq<Box<dyn WorkspaceInspector>> {
        self.inspectors@
    }

    /// Number of inspectors.
    pub open spec fn inspector_count(&self) -> nat {
        self.inspector_list().len()
    }

    /// The languages of the inspectors, in order.
    pub open spec fn inspector_languages(&self) -> Seq<crate::domain::WorkspaceLanguage> {
        languages_of(self.inspector_list())
    }

    /// Asks every inspector whose language matches each workspace, project
    /// by project and workspace by workspace, for the edges it discovers,
    /// and joins them in that order; the first error is returned as it came.
    fn discover_edges(&self, input: &crate::ports::GraphBuildInput) -> (r: Result<Vec<DiscoveredEdge>, crate::diagnostic::RepoctlError>)
        ensures
            match r {
                Ok(v) => exists|outs: Seq<Seq<DiscoveredEdge>>|
                    #[trigger] discovered_with(self.inspector_list(), input.root, input.projects@, outs) && v@ == joined_edges(outs),
                Err(e) => exists|outs: Seq<Seq<DiscoveredEdge>>|
                    #[trigger] failed_with(self.inspector_list(), input.root, input.projects@, outs, e),
            },
    {
        let ghost insps = self.inspector_list();
        let ghost langs = self.inspector_languages();
        let ghost ps = input.projects@;
        let ghost root = input.root;
        let ghost mut outs: Seq<Seq<DiscoveredEdge>> = Seq::empty();
        let mut out: Vec<DiscoveredEdge> = Vec::new();
        let mut i: usize = 0;
        while i < input.projects.len()
            invariant
                i <= input.projects.len(),
                insps == self.inspector_list(),
                langs == languages_of(insps),
                ps == input.projects@,
                root == input.root,
                accepted_outcomes(insps, root, ps, project_calls(langs, ps, i as int), outs),
                out@ == joined_edges(outs),
            decreases input.projects.len() - i,
        {
            let project = &input.projects[i];
            let mut j: usize = 0;
            assert(project_calls(langs, ps, i as int) + workspace_calls(langs, ps, i as int, 0) =~= project_calls(langs, ps, i as int));
            while j < project.workspaces.len()
                invariant
                    i < input.projects.len(),
                    j <= project.workspaces.len(),
                    *project == ps[i as int],
                    insps == self.inspector_list(),
                    langs == languages_of(insps),
                    ps == input.projects@,
                    root == input.root,
                    accepted_outcomes(insps, root, ps, project_calls(langs, ps, i as int) + workspace_calls(langs, ps, i as int, j as int), outs),
                    out@ == joined_edges(outs),
                decreases project.workspaces.len() - j,
            {
                let workspace = &project.workspaces[j];
                let ghost before = project_calls(langs, ps, i as int) + workspace_calls(langs, ps, i as int, j as int);
                let mut k: usize = 0;
                assert(before + inspector_calls(langs, ps, i as int, j as int, 0) =~= before);
                while k < self.inspectors.len()
                    invariant
                        i < input.projects.len(),
                        j < project.workspaces.len(),
                        k <= self.inspectors.len(),
                        *project == ps[i as int],
                        *workspace == ps[i as int].workspaces@[j as int],
                        insps == self.inspector_list(),
                        insps == self.inspectors@,
                        langs == languages_of(insps),
                        ps == input.projects@,
                        root == input.root,
                        before == project_calls(langs, ps, i as int) + workspace_calls(langs, ps, i as int, j as int),
                        accepted_outcomes(insps, root, ps, before + inspector_calls(langs, ps, i as int, j as int, k as int), outs),
                        out@ == joined_edges(outs),
                    decreases self.inspectors.len() - k,
                {
                    let inspector = &self.inspectors[k];
                    let ghost done = before + inspector_calls(langs, ps, i as int, j as int, k as int);
                    if inspector.language() == workspace.language {
                        assert(langs[k as int] == ps[i as int].workspaces@[j as int].language);
                        assert(before + inspector_calls(langs, ps, i as int, j as int, k + 1) =~= done.push((i as int, j as int, k as int)));
                        let inspection = crate::ports::WorkspaceInspectionInput {
                            root: &input.root,
                            projects: input.projects.as_slice(),
                            project,
                            workspace,
                        };
                        match inspector.inspect(&inspection) {
                            Ok(found) => {
                                let mut found = found;
                                let ghost f = found@;
                                out.append(&mut found);
                                proof {
                                    let next = done.push((i as int, j as int, k as int));
                                    assert(joined_edges(outs.push(f)) == joined_edges(outs.push(f).drop_last()) + f);
                                    assert(outs.push(f).drop_last() =~= outs);
                                    assert forall|t: int| 0 <= t < next.len() implies insps[next[t].2].accepts(
                                        root, ps, ps[next[t].0], ps[next[t].0].workspaces@[next[t].1], #[trigger] outs.push(f)[t]) by {
                                        if t < done.len() {
                                            assert(next[t] == done[t]);
                                            assert(outs.push(f)[t] == outs[t]);
                                        }
                                    }
                                    outs = outs.push(f);
                                }
                            },
                            Err(e) => {
                                proof {
                                    lemma_call_is_next(langs, ps, i as int, j as int, k as int);
                                    let calls = inspection_calls(langs, ps);
                                    let next = done.push((i as int, j as int, k as int));
                                    assert(calls.take(next.len() as int) == next);
                                    assert(calls.take(outs.len() as int) =~= done) by {
                                        assert(calls.take(outs.len() as int) =~= next.take(outs.len() as int));
                                    }
                                    assert(calls[outs.len() as int] == next[outs.len() as int]);
                                    assert(failed_with(insps, root, ps, outs, e));
                                }
                                return Err(e);
                            },
                        }
                    } else {
                        assert(before + inspector_calls(langs, ps, i as int, j as int, k + 1) =~= done);
                    }
                    k = k + 1;
                }
                assert(before + inspector_calls(langs, ps, i as int, j as int, langs.len() as int)
                    =~= project_calls(langs, ps, i as int) + workspace_calls(langs, ps, i as int, j + 1));
                j = j + 1;
            }
            assert(project_calls(langs, ps, i + 1)
                =~= project_calls(langs, ps, i as int) + workspace_calls(langs, ps, i as int, ps[i as int].workspaces@.len() as int));
            i = i + 1;
        }
        assert(discovered_with(insps, root, ps, outs));
        Ok(out)
    }
}

impl crate::ports::GraphBuilder for DefaultGraphBuilder {
    fn build(&self, input: crate::ports::GraphBuildInput) -> (r: Result<RepoGraph, crate::diagnostic::RepoctlError>)
        ensures
            match r {
                Ok(g) => exists|outs: Seq<Seq<DiscoveredEdge>>|
                    #[trigger] discovered_with(self.inspector_list(), input.root, input.projects@, outs)
                        && is_built_graph(g, input.projects@, joined_edges(outs)),
                Err(e) => exists|outs: Seq<Seq<DiscoveredEdge>>|
                    #[trigger] failed_with(self.inspector_list(), input.root, input.projects@, outs, e),
            },
    {
        let discovered = self.discover_edges(&input)?;
        let r: Result<RepoGraph, crate::diagnostic::RepoctlError> = Ok(build_graph(&input.projects, &discovered));
        assert(is_built_graph(r->Ok_0, input.projects@, discovered@));
        r
    }
}

} // verus!
