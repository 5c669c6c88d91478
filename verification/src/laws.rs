//! Properties that hold across the library's operations: graph growth and
//! the built graph, affected analysis, task selection, the boundary and
//! generated-code policies, code-size limits, the in-memory filesystem and
//! path normalization.
use vstd::prelude::*;

use crate::domain::{EdgeModel, NodeModel, edge_views, node_views};
use crate::graph::{GraphModel, GraphOp, apply_op, apply_ops, is_built_graph, model_has_node};
use crate::ports::{InMemoryRepoFileSystem, lemma_paths_are_files, strictly_sorted, under_any};
use crate::check::{bad_segment, byte_len, keep_segment, kept_segments, lemma_byte_len_concat, normalized_path, path_text_problem};
use crate::text::{join_with, seq_lt, split_acc, split_on, strs};
use crate::policy::{diag_lt, lemma_diag_lt};

verus! {

broadcast use vstd::seq_lib::group_to_multiset_ensures;

// ---------------------------------------------------------------------------
// Graph growth
// ---------------------------------------------------------------------------

/// No two nodes share an id.
pub open spec fn unique_node_ids(ns: Seq<NodeModel>) -> bool {
    forall|i: int, j: int| 0 <= i < ns.len() && 0 <= j < ns.len() && i != j ==> #[trigger] ns[i].id != #[trigger] ns[j].id
}

/// A graph whose node ids are unique and whose edges are distinct.
pub open spec fn duplicate_free(g: GraphModel) -> bool {
    unique_node_ids(g.nodes) && g.edges.no_duplicates()
}

/// Adding the same node or edge twice is adding it once.
pub proof fn law_addition_is_idempotent(g: GraphModel, op: GraphOp)
    ensures
        apply_op(apply_op(g, op), op) == apply_op(g, op),
{
    match op {
        GraphOp::AddNode(n) => {
            let once = apply_op(g, op);
            if !model_has_node(g.nodes, n.id) {
                assert(once.nodes[once.nodes.len() - 1].id == n.id);
                assert(model_has_node(once.nodes, n.id));
            }
        },
        GraphOp::AddEdge(e) => {
            let once = apply_op(g, op);
            if !g.edges.contains(e) {
                assert(once.edges[once.edges.len() - 1] == e);
                assert(once.edges.contains(e));
            }
        },
    }
}

/// Additions never drop or reorder what the graph already holds: the
/// earlier nodes and edges stay a prefix of the later ones.
pub proof fn law_additions_keep_the_graph(g: GraphModel, ops: Seq<GraphOp>)
    ensures
        g.nodes.is_prefix_of(apply_ops(g, ops).nodes),
        g.edges.is_prefix_of(apply_ops(g, ops).edges),
    decreases ops.len(),
{
    if ops.len() > 0 {
        law_additions_keep_the_graph(g, ops.drop_last());
        let mid = apply_ops(g, ops.drop_last());
        let after = apply_op(mid, ops.last());
        assert(g.nodes.is_prefix_of(after.nodes)) by {
            assert forall|i: int| 0 <= i < g.nodes.len() implies g.nodes[i] == after.nodes[i] by {
                assert(g.nodes[i] == mid.nodes[i]);
            }
        }
        assert(g.edges.is_prefix_of(after.edges)) by {
            assert forall|i: int| 0 <= i < g.edges.len() implies g.edges[i] == after.edges[i] by {
                assert(g.edges[i] == mid.edges[i]);
            }
        }
    }
}

proof fn lemma_op_keeps_duplicate_free(g: GraphModel, op: GraphOp)
    requires
        duplicate_free(g),
    ensures
        duplicate_free(apply_op(g, op)),
{
    match op {
        GraphOp::AddNode(n) => {
            if !model_has_node(g.nodes, n.id) {
                let ns = g.nodes.push(n);
                assert forall|i: int, j: int| 0 <= i < ns.len() && 0 <= j < ns.len() && i != j implies #[trigger] ns[i].id != #[trigger] ns[j].id by {
                    if i == g.nodes.len() {
                        assert(g.nodes[j] == ns[j]);
                    } else if j == g.nodes.len() {
                        assert(g.nodes[i] == ns[i]);
                    } else {
                        assert(g.nodes[i] == ns[i] && g.nodes[j] == ns[j]);
                    }
                }
            }
        },
        GraphOp::AddEdge(e) => {
            if !g.edges.contains(e) {
                let es = g.edges.push(e);
                assert forall|i: int, j: int| 0 <= i < es.len() && 0 <= j < es.len() && i != j implies es[i] != es[j] by {
                    if i == g.edges.len() {
                        assert(g.edges[j] == es[j]);
                    } else if j == g.edges.len() {
                        assert(g.edges[i] == es[i]);
                    } else {
                        assert(g.edges[i] == es[i] && g.edges[j] == es[j]);
                    }
                }
            }
        },
    }
}

/// Growing a graph whose node ids are unique and whose edges are distinct
/// keeps it so.
pub proof fn law_additions_keep_duplicate_free(g: GraphModel, ops: Seq<GraphOp>)
    requires
        duplicate_free(g),
    ensures
        duplicate_free(apply_ops(g, ops)),
    decreases ops.len(),
{
    if ops.len() > 0 {
        law_additions_keep_duplicate_free(g, ops.drop_last());
        lemma_op_keeps_duplicate_free(apply_ops(g, ops.drop_last()), ops.last());
    }
}

proof fn lemma_permutation_keeps_distinct<A>(a: Seq<A>, b: Seq<A>)
    requires
        a.to_multiset() == b.to_multiset(),
        a.no_duplicates(),
    ensures
        b.no_duplicates(),
{
    a.lemma_multiset_has_no_duplicates();
    b.lemma_multiset_has_no_duplicates_conv();
}

proof fn lemma_permutation_keeps_unique_ids(a: Seq<NodeModel>, b: Seq<NodeModel>)
    requires
        a.to_multiset() == b.to_multiset(),
        unique_node_ids(a),
    ensures
        unique_node_ids(b),
{
    assert(a.no_duplicates()) by {
        assert forall|i: int, j: int| 0 <= i < a.len() && 0 <= j < a.len() && i != j implies a[i] != a[j] by {
            assert(a[i].id != a[j].id);
        }
    }
    lemma_permutation_keeps_distinct(a, b);
    assert forall|i: int, j: int| 0 <= i < b.len() && 0 <= j < b.len() && i != j implies #[trigger] b[i].id != #[trigger] b[j].id by {
        if b[i].id == b[j].id {
            assert(b[i] != b[j]);
            assert(b.contains(b[i]));
            assert(b.contains(b[j]));
            vstd::seq_lib::to_multiset_contains(b, b[i]);
            vstd::seq_lib::to_multiset_contains(b, b[j]);
            vstd::seq_lib::to_multiset_contains(a, b[i]);
            vstd::seq_lib::to_multiset_contains(a, b[j]);
            assert(a.contains(b[i]));
            assert(a.contains(b[j]));
            let x = choose|x: int| 0 <= x < a.len() && a[x] == b[i];
            let y = choose|y: int| 0 <= y < a.len() && a[y] == b[j];
            assert(a[x].id == a[y].id);
        }
    }
}

/// The built graph holds each node id once and each edge once.
pub proof fn law_built_graph_is_duplicate_free(
    g: crate::domain::RepoGraph,
    ps: Seq<crate::domain::ProjectManifest>,
    ds: Seq<crate::ports::DiscoveredEdge>,
)
    requires
        is_built_graph(g, ps, ds),
    ensures
        unique_node_ids(node_views(g.nodes@)),
        edge_views(g.edges@).no_duplicates(),
{
    let start = crate::graph::empty_graph();
    assert(duplicate_free(start));
    law_additions_keep_duplicate_free(start, crate::graph::build_ops(ps, ds));
    let built = crate::graph::unordered_graph(ps, ds);
    lemma_permutation_keeps_unique_ids(built.nodes, node_views(g.nodes@));
    lemma_permutation_keeps_distinct(built.edges, edge_views(g.edges@));
}

/// Two distinct edges are ordered one way or the other.
proof fn lemma_edge_lt_total(a: EdgeModel, b: EdgeModel)
    requires
        a != b,
    ensures
        crate::graph::edge_lt(a, b) || crate::graph::edge_lt(b, a),
{
    crate::text::lemma_lt_trichotomy(a.from, b.from);
    crate::text::lemma_lt_trichotomy(a.to, b.to);
    if a.from == b.from && a.to == b.to && crate::graph::rank(a.kind) == crate::graph::rank(b.kind) {
        assert(a.kind == b.kind);
        match (a.evidence, b.evidence) {
            (Some(x), Some(y)) => {
                crate::text::lemma_lt_trichotomy(x, y);
            },
            _ => {},
        }
    }
}

/// The built graph lists its nodes in strictly increasing id order and its
/// edges in strictly increasing (source, target, kind rank, evidence) order:
/// sorted, and with no repeats.
pub proof fn law_built_graph_is_strictly_ordered(
    g: crate::domain::RepoGraph,
    ps: Seq<crate::domain::ProjectManifest>,
    ds: Seq<crate::ports::DiscoveredEdge>,
)
    requires
        is_built_graph(g, ps, ds),
    ensures
        forall|i: int, j: int| 0 <= i < j < node_views(g.nodes@).len()
            ==> seq_lt(#[trigger] node_views(g.nodes@)[i].id, #[trigger] node_views(g.nodes@)[j].id),
        forall|i: int, j: int| 0 <= i < j < edge_views(g.edges@).len()
            ==> crate::graph::edge_lt(#[trigger] edge_views(g.edges@)[i], #[trigger] edge_views(g.edges@)[j]),
{
    law_built_graph_is_duplicate_free(g, ps, ds);
    let ns = node_views(g.nodes@);
    let es = edge_views(g.edges@);
    assert forall|i: int, j: int| 0 <= i < j < ns.len() implies seq_lt(#[trigger] ns[i].id, #[trigger] ns[j].id) by {
        crate::text::lemma_lt_trichotomy(ns[i].id, ns[j].id);
        assert(!seq_lt(ns[j].id, ns[i].id));
        assert(ns[i].id != ns[j].id);
    }
    assert forall|i: int, j: int| 0 <= i < j < es.len() implies crate::graph::edge_lt(#[trigger] es[i], #[trigger] es[j]) by {
        assert(!crate::graph::edge_lt(es[j], es[i]));
        assert(es[i] != es[j]);
        lemma_edge_lt_total(es[i], es[j]);
    }
}

/// The edge from a project to one of its workspaces.
pub open spec fn workspace_edge(p: Seq<char>, w: crate::domain::WorkspaceSpec) -> EdgeModel {
    EdgeModel {
        from: crate::domain::project_node_id(p),
        to: crate::graph::workspace_node_id(p, w.name@),
        kind: crate::domain::EdgeKind::ContainsWorkspace,
        evidence: Some(w.manifest@),
    }
}

/// A graph holds a project's node and the edges to its workspaces.
pub open spec fn holds_project(g: GraphModel, p: crate::domain::ProjectManifest) -> bool {
    &&& model_has_node(g.nodes, crate::domain::project_node_id(p.name@))
    &&& forall|j: int| 0 <= j < p.workspaces@.len() ==> g.edges.contains(#[trigger] workspace_edge(p.name@, p.workspaces@[j]))
}

proof fn lemma_growth_keeps_project(g: GraphModel, ops: Seq<GraphOp>, p: crate::domain::ProjectManifest)
    requires
        holds_project(g, p),
    ensures
        holds_project(apply_ops(g, ops), p),
{
    law_additions_keep_the_graph(g, ops);
    let h = apply_ops(g, ops);
    let i = choose|i: int| 0 <= i < g.nodes.len() && (#[trigger] g.nodes[i]).id == crate::domain::project_node_id(p.name@);
    assert(h.nodes[i] == g.nodes[i]);
    assert forall|j: int| 0 <= j < p.workspaces@.len() implies h.edges.contains(#[trigger] workspace_edge(p.name@, p.workspaces@[j])) by {
        let e = workspace_edge(p.name@, p.workspaces@[j]);
        assert(g.edges.contains(e));
        let k = choose|k: int| 0 <= k < g.edges.len() && g.edges[k] == e;
        assert(h.edges[k] == g.edges[k]);
    }
}

proof fn lemma_growth_keeps_edge(g: GraphModel, ops: Seq<GraphOp>, e: EdgeModel)
    requires
        g.edges.contains(e),
    ensures
        apply_ops(g, ops).edges.contains(e),
{
    law_additions_keep_the_graph(g, ops);
    let k = choose|k: int| 0 <= k < g.edges.len() && g.edges[k] == e;
    assert(apply_ops(g, ops).edges[k] == g.edges[k]);
}

proof fn lemma_workspaces_added(g: GraphModel, p: Seq<char>, ws: Seq<crate::domain::WorkspaceSpec>)
    ensures
        forall|j: int| 0 <= j < ws.len() ==> apply_ops(g, crate::graph::workspaces_ops(p, ws)).edges.contains(#[trigger] workspace_edge(p, ws[j])),
    decreases ws.len(),
{
    if ws.len() > 0 {
        let init = ws.drop_last();
        lemma_workspaces_added(g, p, init);
        let a = crate::graph::workspaces_ops(p, init);
        let b = crate::graph::workspace_ops(p, ws.last());
        crate::graph::lemma_apply_concat(g, a, b);
        let mid = apply_ops(g, a);
        assert(b == seq![b[0], b[1]]);
        crate::graph::lemma_apply_two(mid, b[0], b[1]);
        let after_node = apply_op(mid, b[0]);
        assert(apply_op(after_node, b[1]).edges.contains(workspace_edge(p, ws.last()))) by {
            let e = workspace_edge(p, ws.last());
            if !after_node.edges.contains(e) {
                assert(apply_op(after_node, b[1]).edges.last() == e);
                assert(apply_op(after_node, b[1]).edges[apply_op(after_node, b[1]).edges.len() - 1] == e);
            }
        }
        assert forall|j: int| 0 <= j < ws.len() implies apply_ops(g, crate::graph::workspaces_ops(p, ws)).edges.contains(#[trigger] workspace_edge(p, ws[j])) by {
            if j < init.len() {
                assert(init[j] == ws[j]);
                lemma_growth_keeps_edge(mid, b, workspace_edge(p, init[j]));
            }
        }
    }
}

proof fn lemma_project_added(g: GraphModel, p: crate::domain::ProjectManifest)
    ensures
        holds_project(apply_ops(g, crate::graph::project_ops(p)), p),
{
    let node_op = seq![GraphOp::AddNode(crate::graph::project_node(p.name@))];
    let ws_ops = crate::graph::workspaces_ops(p.name@, p.workspaces@);
    let rest = crate::graph::protos_ops(p.name@, crate::graph::glob_views(p.protos.owns@), crate::domain::EdgeKind::OwnsProto)
        + crate::graph::protos_ops(p.name@, crate::graph::glob_views(p.protos.consumes@), crate::domain::EdgeKind::ConsumesProto)
        + crate::graph::iac_ops(p);
    assert(crate::graph::project_ops(p) =~= node_op + ws_ops + rest);
    crate::graph::lemma_apply_concat(g, node_op + ws_ops, rest);
    crate::graph::lemma_apply_concat(g, node_op, ws_ops);
    crate::graph::lemma_apply_one(g, node_op[0]);
    let g1 = apply_ops(g, node_op);
    let id = crate::domain::project_node_id(p.name@);
    assert(model_has_node(g1.nodes, id)) by {
        if !model_has_node(g.nodes, id) {
            assert(g1.nodes[g1.nodes.len() - 1].id == id);
        }
    }
    law_additions_keep_the_graph(g1, ws_ops);
    let g2 = apply_ops(g1, ws_ops);
    let i = choose|i: int| 0 <= i < g1.nodes.len() && (#[trigger] g1.nodes[i]).id == id;
    assert(g2.nodes[i] == g1.nodes[i]);
    lemma_workspaces_added(g1, p.name@, p.workspaces@);
    lemma_growth_keeps_project(g2, rest, p);
}

proof fn lemma_structure_holds(ps: Seq<crate::domain::ProjectManifest>)
    ensures
        forall|i: int| 0 <= i < ps.len() ==> holds_project(apply_ops(crate::graph::empty_graph(), crate::graph::structure_ops(ps)), #[trigger] ps[i]),
    decreases ps.len(),
{
    if ps.len() > 0 {
        let init = ps.drop_last();
        lemma_structure_holds(init);
        let e = crate::graph::empty_graph();
        let a = crate::graph::structure_ops(init);
        let b = crate::graph::project_ops(ps.last());
        crate::graph::lemma_apply_concat(e, a, b);
        lemma_project_added(apply_ops(e, a), ps.last());
        assert forall|i: int| 0 <= i < ps.len() implies holds_project(apply_ops(e, crate::graph::structure_ops(ps)), #[trigger] ps[i]) by {
            if i < init.len() {
                assert(init[i] == ps[i]);
                lemma_growth_keeps_project(apply_ops(e, a), b, ps[i]);
            }
        }
    }
}

/// The built graph holds, for every project, its project node and an edge
/// from it to each of its workspaces.
pub proof fn law_built_graph_holds_projects(
    g: crate::domain::RepoGraph,
    ps: Seq<crate::domain::ProjectManifest>,
    ds: Seq<crate::ports::DiscoveredEdge>,
)
    requires
        is_built_graph(g, ps, ds),
    ensures
        forall|i: int| 0 <= i < ps.len() ==> holds_project(crate::graph::graph_model(g), #[trigger] ps[i]),
{
    let e = crate::graph::empty_graph();
    let st = crate::graph::structure_ops(ps);
    let more = crate::graph::declared_ops(ps, ps) + crate::graph::discovered_ops(ds);
    assert(crate::graph::build_ops(ps, ds) =~= st + more);
    crate::graph::lemma_apply_concat(e, st, more);
    lemma_structure_holds(ps);
    let u = crate::graph::unordered_graph(ps, ds);
    let gm = crate::graph::graph_model(g);
    assert forall|i: int| 0 <= i < ps.len() implies holds_project(gm, #[trigger] ps[i]) by {
        let p = ps[i];
        lemma_growth_keeps_project(apply_ops(e, st), more, p);
        let id = crate::domain::project_node_id(p.name@);
        let k = choose|k: int| 0 <= k < u.nodes.len() && (#[trigger] u.nodes[k]).id == id;
        vstd::seq_lib::to_multiset_contains(u.nodes, u.nodes[k]);
        assert(gm.nodes.to_multiset().count(u.nodes[k]) > 0);
        assert(gm.nodes.contains(u.nodes[k]));
        assert forall|j: int| 0 <= j < p.workspaces@.len() implies gm.edges.contains(#[trigger] workspace_edge(p.name@, p.workspaces@[j])) by {
            let ed = workspace_edge(p.name@, p.workspaces@[j]);
            assert(u.edges.contains(ed));
            vstd::seq_lib::to_multiset_contains(u.edges, ed);
            assert(gm.edges.to_multiset().count(ed) > 0);
        }
    }
}

// ---------------------------------------------------------------------------
// Policy evaluation
// ---------------------------------------------------------------------------

proof fn lemma_insertion_point_props(s: Seq<crate::diagnostic::DiagnosticModel>, x: crate::diagnostic::DiagnosticModel)
    ensures
        0 <= crate::policy::insertion_point(s, x) <= s.len(),
        forall|k: int| 0 <= k < crate::policy::insertion_point(s, x) ==> !crate::policy::diag_lt(x, #[trigger] s[k]),
        crate::policy::insertion_point(s, x) == s.len()
            || crate::policy::diag_lt(x, s[crate::policy::insertion_point(s, x)]),
    decreases s.len(),
{
    if s.len() > 0 && !crate::policy::diag_lt(x, s[0]) {
        let t = s.drop_first();
        lemma_insertion_point_props(t, x);
        let p = crate::policy::insertion_point(s, x);
        assert forall|k: int| 0 <= k < p implies !crate::policy::diag_lt(x, #[trigger] s[k]) by {
            if k > 0 {
                assert(s[k] == t[k - 1]);
            }
        }
        if p < s.len() {
            assert(s[p] == t[p - 1]);
        }
    }
}

/// Policy diagnostics come out sorted by code, message, project and path,
/// as a permutation of what the rules reported: the stable sort orders its
/// input and keeps every diagnostic, once.
pub proof fn law_stable_sort_orders_a_permutation(xs: Seq<crate::diagnostic::DiagnosticModel>)
    ensures
        crate::policy::diags_ordered(crate::policy::stable_sorted(xs)),
        crate::policy::stable_sorted(xs).to_multiset() == xs.to_multiset(),
    decreases xs.len(),
{
    if xs.len() > 0 {
        let init = xs.drop_last();
        let x = xs.last();
        law_stable_sort_orders_a_permutation(init);
        let os = crate::policy::stable_sorted(init);
        let p = crate::policy::insertion_point(os, x);
        lemma_insertion_point_props(os, x);
        let es = os.insert(p, x);
        assert forall|a: int, b: int| 0 <= a < b < es.len() implies !diag_lt(#[trigger] es[b], #[trigger] es[a]) by {
            if b < p {
            } else if b == p {
            } else if a < p {
                if diag_lt(os[b - 1], os[a]) {
                    if b - 1 > p {
                        lemma_diag_lt(os[p as int], os[b - 1], os[a]);
                    }
                    lemma_diag_lt(x, os[p as int], os[a]);
                }
            } else if a == p {
                if diag_lt(os[b - 1], x) {
                    lemma_diag_lt(os[b - 1], x, os[p as int]);
                    if b - 1 > p {
                        assert(!diag_lt(os[b - 1], os[p as int]));
                    } else {
                        lemma_diag_lt(os[p as int], x, x);
                    }
                }
            } else {
            }
        }
        crate::graph::lemma_multiset_insert(os, p, x);
        assert(init.push(x) =~= xs);
        vstd::seq_lib::to_multiset_build(init, x);
    }
}

// ---------------------------------------------------------------------------
// In-memory filesystem
// ---------------------------------------------------------------------------

/// Reading a path right after writing it gives back the written bytes, and
/// every other path reads as it did before.
pub proof fn law_read_after_insert(
    before: &InMemoryRepoFileSystem,
    after: &InMemoryRepoFileSystem,
    path: Seq<char>,
    bytes: Seq<u8>,
    other: Seq<char>,
)
    requires
        before.wf(),
        after.wf(),
        after@ == before@.insert(path, bytes),
    ensures
        after@.contains_key(path),
        after@[path] == bytes,
        other != path ==> after@.contains_key(other) == before@.contains_key(other),
        other != path && before@.contains_key(other) ==> after@[other] == before@[other],
{
}

proof fn lemma_filter_keeps_strictly_sorted(ks: Seq<Seq<char>>, pred: spec_fn(Seq<char>) -> bool)
    requires
        strictly_sorted(ks),
    ensures
        strictly_sorted(ks.filter(pred)),
    decreases ks.len(),
{
    if ks.len() > 0 {
        let init = ks.drop_last();
        let last = ks.last();
        assert(strictly_sorted(init));
        lemma_filter_keeps_strictly_sorted(init, pred);
        assert(init.push(last) =~= ks);
        init.lemma_filter_push(last, pred);
        let f = init.filter(pred);
        if pred(last) {
            assert forall|i: int| 0 <= i < f.len() implies seq_lt(f[i], last) by {
                assert(f.contains(f[i]));
                init.lemma_filter_contains_rev(pred, f[i]);
                let k = choose|k: int| 0 <= k < init.len() && init[k] == f[i];
                assert(ks[k] == init[k]);
                assert(seq_lt(ks[k], ks[ks.len() - 1]));
            }
            let g = f.push(last);
            assert forall|i: int, j: int| 0 <= i < j < g.len() implies seq_lt(#[trigger] g[i], #[trigger] g[j]) by {
                if j == f.len() {
                    assert(g[i] == f[i]);
                } else {
                    assert(g[i] == f[i] && g[j] == f[j]);
                }
            }
        }
    }
}

/// A walk of the in-memory filesystem lists the selected files in strictly
/// increasing path order, each once.
pub proof fn law_walk_is_ordered(fs: &InMemoryRepoFileSystem, roots: Seq<Seq<char>>)
    requires
        fs.wf(),
    ensures
        strictly_sorted(fs.paths().filter(|p: Seq<char>| under_any(p, roots))),
{
    lemma_paths_are_files(fs);
    lemma_filter_keeps_strictly_sorted(fs.paths(), |p: Seq<char>| under_any(p, roots));
}


// ---------------------------------------------------------------------------
// Path normalization
// ---------------------------------------------------------------------------

/// No character of `p` is `/`.
pub open spec fn no_slash(p: Seq<char>) -> bool {
    forall|i: int| 0 <= i < p.len() ==> #[trigger] p[i] != '/'
}

/// Every character of `p` occurs in `s`.
pub open spec fn chars_in(p: Seq<char>, s: Seq<char>) -> bool {
    forall|i: int| 0 <= i < p.len() ==> s.contains(#[trigger] p[i])
}

proof fn lemma_join_push(ps: Seq<Seq<char>>, y: Seq<char>)
    requires
        ps.len() >= 1,
    ensures
        join_with(ps.push(y), seq!['/']) == join_with(ps, seq!['/']) + seq!['/'] + y,
{
    assert(ps.push(y).drop_last() =~= ps);
    assert(ps.push(y).last() == y);
}

proof fn lemma_split_then_join(s: Seq<char>)
    ensures
        join_with(split_on(s, '/'), seq!['/']) == s,
    decreases s.len(),
{
    if s.len() == 0 {
        assert(split_on(s, '/') =~= seq![Seq::<char>::empty()]);
        assert(s =~= Seq::<char>::empty());
    } else {
        let t = s.drop_last();
        let x = s.last();
        lemma_split_then_join(t);
        let p0 = split_acc(t, '/').0;
        let c0 = split_acc(t, '/').1;
        assert(t.push(x) =~= s);
        if x == '/' {
            assert(split_on(s, '/') == p0.push(c0).push(Seq::<char>::empty()));
            lemma_join_push(p0.push(c0), Seq::empty());
            assert(t + seq!['/'] + Seq::<char>::empty() =~= s);
        } else {
            assert(split_on(s, '/') == p0.push(c0.push(x)));
            if p0.len() == 0 {
                assert(p0.push(c0.push(x)) =~= seq![c0.push(x)]);
                assert(p0.push(c0) =~= seq![c0]);
            } else {
                lemma_join_push(p0, c0.push(x));
                lemma_join_push(p0, c0);
                assert(join_with(p0, seq!['/']) + seq!['/'] + c0.push(x) =~= (join_with(p0, seq!['/']) + seq!['/'] + c0).push(x));
            }
        }
    }
}

proof fn lemma_chars_grow(p: Seq<char>, t: Seq<char>, s: Seq<char>)
    requires
        chars_in(p, t),
        s.len() == t.len() + 1,
        forall|i: int| 0 <= i < t.len() ==> t[i] == s[i],
    ensures
        chars_in(p, s),
{
    assert forall|i: int| 0 <= i < p.len() implies s.contains(#[trigger] p[i]) by {
        let j = choose|j: int| 0 <= j < t.len() && t[j] == p[i];
        assert(s[j] == p[i]);
    }
}

proof fn lemma_split_acc_pieces(s: Seq<char>)
    ensures
        forall|k: int| 0 <= k < split_acc(s, '/').0.len() ==> no_slash(#[trigger] split_acc(s, '/').0[k]) && chars_in(split_acc(s, '/').0[k], s),
        no_slash(split_acc(s, '/').1),
        chars_in(split_acc(s, '/').1, s),
    decreases s.len(),
{
    if s.len() > 0 {
        let t = s.drop_last();
        let x = s.last();
        lemma_split_acc_pieces(t);
        let p0 = split_acc(t, '/').0;
        let c0 = split_acc(t, '/').1;
        assert forall|k: int| 0 <= k < p0.len() implies chars_in(#[trigger] p0[k], s) by {
            lemma_chars_grow(p0[k], t, s);
        }
        lemma_chars_grow(c0, t, s);
        if x == '/' {
            let ps = p0.push(c0);
            assert forall|k: int| 0 <= k < ps.len() implies no_slash(#[trigger] ps[k]) && chars_in(ps[k], s) by {
                if k < p0.len() {
                    assert(ps[k] == p0[k]);
                }
            }
            assert(no_slash(Seq::<char>::empty()));
        } else {
            let c1 = c0.push(x);
            assert(s.contains(s[s.len() - 1]));
            assert forall|i: int| 0 <= i < c1.len() implies s.contains(#[trigger] c1[i]) && c1[i] != '/' by {
                if i < c0.len() {
                    assert(c1[i] == c0[i]);
                }
            }
        }
    }
}

proof fn lemma_split_pieces(s: Seq<char>)
    ensures
        forall|k: int| 0 <= k < split_on(s, '/').len() ==> no_slash(#[trigger] split_on(s, '/')[k]) && chars_in(split_on(s, '/')[k], s),
{
    lemma_split_acc_pieces(s);
    let ps = split_on(s, '/');
    assert forall|k: int| 0 <= k < ps.len() implies no_slash(#[trigger] ps[k]) && chars_in(ps[k], s) by {
        if k < split_acc(s, '/').0.len() {
            assert(ps[k] == split_acc(s, '/').0[k]);
        }
    }
}

proof fn lemma_split_acc_append(x: Seq<char>, t: Seq<char>)
    requires
        no_slash(t),
    ensures
        split_acc(x + t, '/') == (split_acc(x, '/').0, split_acc(x, '/').1 + t),
    decreases t.len(),
{
    if t.len() == 0 {
        assert(x + t =~= x);
        assert(split_acc(x, '/').1 + t =~= split_acc(x, '/').1);
    } else {
        let u = t.drop_last();
        assert(no_slash(u)) by {
            assert forall|i: int| 0 <= i < u.len() implies #[trigger] u[i] != '/' by {
                assert(u[i] == t[i]);
            }
        }
        lemma_split_acc_append(x, u);
        assert((x + t).drop_last() =~= x + u);
        assert((x + t).last() == t[t.len() - 1]);
        assert((split_acc(x, '/').1 + u).push(t.last()) =~= split_acc(x, '/').1 + t);
    }
}

proof fn lemma_join_then_split(ks: Seq<Seq<char>>)
    requires
        ks.len() >= 1,
        forall|k: int| 0 <= k < ks.len() ==> no_slash(#[trigger] ks[k]),
    ensures
        split_on(join_with(ks, seq!['/']), '/') == ks,
    decreases ks.len(),
{
    if ks.len() == 1 {
        lemma_split_acc_append(Seq::empty(), ks[0]);
        assert(Seq::<char>::empty() + ks[0] =~= ks[0]);
        assert(split_acc(Seq::<char>::empty(), '/') == (Seq::<Seq<char>>::empty(), Seq::<char>::empty()));
        assert(split_on(ks[0], '/') =~= seq![ks[0]]);
        assert(ks =~= seq![ks[0]]);
    } else {
        let init = ks.drop_last();
        let b = ks.last();
        assert forall|k: int| 0 <= k < init.len() implies no_slash(#[trigger] init[k]) by {
            assert(init[k] == ks[k]);
        }
        lemma_join_then_split(init);
        assert(init.push(b) =~= ks);
        lemma_join_push(init, b);
        let x = join_with(init, seq!['/']);
        assert(x + seq!['/'] + b =~= x.push('/') + b);
        lemma_split_acc_append(x.push('/'), b);
        assert(x.push('/').drop_last() =~= x);
        assert(split_acc(x.push('/'), '/') == (split_acc(x, '/').0.push(split_acc(x, '/').1), Seq::<char>::empty()));
        assert(Seq::<char>::empty() + b =~= b);
    }
}

proof fn lemma_join_chars(ks: Seq<Seq<char>>, v: Seq<char>)
    requires
        forall|k: int| 0 <= k < ks.len() ==> chars_in(#[trigger] ks[k], v),
    ensures
        forall|i: int| 0 <= i < join_with(ks, seq!['/']).len() ==> #[trigger] join_with(ks, seq!['/'])[i] == '/' || v.contains(join_with(ks, seq!['/'])[i]),
    decreases ks.len(),
{
    if ks.len() == 1 {
        assert(chars_in(ks[0], v));
    } else if ks.len() > 1 {
        let init = ks.drop_last();
        let b = ks.last();
        assert forall|k: int| 0 <= k < init.len() implies chars_in(#[trigger] init[k], v) by {
            assert(init[k] == ks[k]);
        }
        lemma_join_chars(init, v);
        assert(init.push(b) =~= ks);
        lemma_join_push(init, b);
        let x = join_with(init, seq!['/']);
        let j = join_with(ks, seq!['/']);
        assert(chars_in(b, v));
        assert forall|i: int| 0 <= i < j.len() implies #[trigger] j[i] == '/' || v.contains(j[i]) by {
            if i < x.len() {
                assert(j[i] == x[i]);
            } else if i > x.len() {
                assert(j[i] == b[i - x.len() - 1]);
            }
        }
    }
}

proof fn lemma_join_first(ks: Seq<Seq<char>>)
    requires
        ks.len() >= 1,
        ks[0].len() >= 1,
    ensures
        join_with(ks, seq!['/']).len() >= 1,
        join_with(ks, seq!['/'])[0] == ks[0][0],
        ks.len() >= 2 ==> join_with(ks, seq!['/']).len() >= 2,
    decreases ks.len(),
{
    if ks.len() > 1 {
        let init = ks.drop_last();
        assert(init[0] == ks[0]);
        lemma_join_first(init);
        assert(init.push(ks.last()) =~= ks);
        lemma_join_push(init, ks.last());
    }
}

proof fn lemma_kept(parts: Seq<Seq<char>>)
    ensures
        kept_segments(parts).len() <= parts.len(),
        forall|k: int| 0 <= k < kept_segments(parts).len() ==> keep_segment(#[trigger] kept_segments(parts)[k]) && parts.contains(kept_segments(parts)[k]),
        byte_len(join_with(kept_segments(parts), seq!['/'])) <= byte_len(join_with(parts, seq!['/'])),
    decreases parts.len(),
{
    if parts.len() > 0 {
        let init = parts.drop_last();
        let y = parts.last();
        lemma_kept(init);
        let ki = kept_segments(init);
        assert(init.push(y) =~= parts);
        assert forall|k: int| 0 <= k < ki.len() implies parts.contains(#[trigger] ki[k]) by {
            let j = choose|j: int| 0 <= j < init.len() && init[j] == ki[k];
            assert(parts[j] == init[j]);
        }
        if init.len() > 0 {
            lemma_join_push(init, y);
            lemma_byte_len_concat(join_with(init, seq!['/']) + seq!['/'], y);
            lemma_byte_len_concat(join_with(init, seq!['/']), seq!['/']);
        }
        if keep_segment(y) {
            let kp = ki.push(y);
            assert(parts.contains(parts[parts.len() - 1]));
            assert forall|k: int| 0 <= k < kp.len() implies keep_segment(#[trigger] kp[k]) && parts.contains(kp[k]) by {
                if k < ki.len() {
                    assert(kp[k] == ki[k]);
                }
            }
            if ki.len() > 0 {
                lemma_join_push(ki, y);
                lemma_byte_len_concat(join_with(ki, seq!['/']) + seq!['/'], y);
                lemma_byte_len_concat(join_with(ki, seq!['/']), seq!['/']);
            } else {
                assert(kp =~= seq![y]);
            }
        }
    }
}

proof fn lemma_kept_all(ks: Seq<Seq<char>>)
    requires
        forall|k: int| 0 <= k < ks.len() ==> keep_segment(#[trigger] ks[k]),
    ensures
        kept_segments(ks) == ks,
    decreases ks.len(),
{
    if ks.len() > 0 {
        let init = ks.drop_last();
        assert forall|k: int| 0 <= k < init.len() implies keep_segment(#[trigger] init[k]) by {
            assert(init[k] == ks[k]);
        }
        lemma_kept_all(init);
        assert(keep_segment(ks[ks.len() - 1]));
        assert(init.push(ks.last()) =~= ks);
    }
}

proof fn lemma_root_is_normal(allow_root: bool)
    requires
        allow_root,
    ensures
        normalized_path(seq!['.'], allow_root) == Ok::<Seq<char>, crate::diagnostic::DiagnosticModel>(seq!['.']),
{
    let r = seq!['.'];
    assert(byte_len(r) == 1) by {
        assert(r.drop_last() =~= Seq::<char>::empty());
        assert(byte_len(Seq::<char>::empty()) == 0);
        assert(r.last() == '.');
    }
    assert(!r.contains('\0') && !r.contains('\\')) by {
        assert forall|i: int| 0 <= i < r.len() implies r[i] == '.' by {}
    }
    assert(split_acc(r, '/') == (Seq::<Seq<char>>::empty(), r)) by {
        assert(r.drop_last() =~= Seq::<char>::empty());
        assert(split_acc(Seq::<char>::empty(), '/') == (Seq::<Seq<char>>::empty(), Seq::<char>::empty()));
        assert(r.last() == '.');
        assert(Seq::<char>::empty().push('.') =~= r);
    }
    assert(split_on(r, '/') =~= seq![r]);
    assert(!bad_segment(r, false)) by {
        assert(r.len() != 2);
        assert forall|i: int| 0 <= i < r.len() implies r[i] != '*' by {}
    }
    assert(path_text_problem(r, false) is None);
}

/// Normalizing a normalized path gives it back: a path accepted once is
/// accepted again unchanged.
pub proof fn law_normalization_is_idempotent(v: Seq<char>, allow_root: bool)
    ensures
        match normalized_path(v, allow_root) {
            Ok(n) => normalized_path(n, allow_root) == Ok::<Seq<char>, crate::diagnostic::DiagnosticModel>(n),
            Err(_) => true,
        },
{
    if path_text_problem(v, false) is None && v != seq!['.'] {
        let parts = split_on(v, '/');
        let ks = kept_segments(parts);
        if ks.len() == 0 {
            if allow_root {
                lemma_root_is_normal(allow_root);
            }
        } else {
            let n = join_with(ks, seq!['/']);
            lemma_split_pieces(v);
            lemma_kept(parts);
            lemma_split_then_join(v);
            assert forall|k: int| 0 <= k < ks.len() implies no_slash(#[trigger] ks[k]) && chars_in(ks[k], v) && !bad_segment(ks[k], false) by {
                let j = choose|j: int| 0 <= j < parts.len() && parts[j] == ks[k];
                assert(no_slash(parts[j]) && chars_in(parts[j], v));
                assert(!bad_segment(parts[j], false));
            }
            lemma_join_chars(ks, v);
            lemma_join_first(ks);
            lemma_join_then_split(ks);
            lemma_kept_all(ks);
            assert(keep_segment(ks[0]));
            assert(!n.contains('\0') && !n.contains('\\')) by {
                assert forall|i: int| 0 <= i < n.len() implies n[i] != '\0' && n[i] != '\\' by {
                    if n[i] != '/' {
                        assert(v.contains(n[i]));
                    }
                }
            }
            assert(n[0] != '/') by {
                assert(no_slash(ks[0]));
                assert(ks[0][0] != '/');
            }
            assert(byte_len(n) <= byte_len(v));
            assert(!(exists|k: int| 0 <= k < split_on(n, '/').len() && bad_segment(#[trigger] split_on(n, '/')[k], false)));
            assert(path_text_problem(n, false) is None);
            assert(n != seq!['.']) by {
                if ks.len() == 1 {
                    assert(ks =~= seq![ks[0]]);
                    assert(n == ks[0]);
                } else {
                    assert(n.len() >= 2);
                }
            }
        }
    }
}


proof fn lemma_split_acc_after_slash(a: Seq<char>, b: Seq<char>)
    ensures
        split_acc(a.push('/') + b, '/') == (split_on(a, '/') + split_acc(b, '/').0, split_acc(b, '/').1),
    decreases b.len(),
{
    if b.len() == 0 {
        assert(a.push('/') + b =~= a.push('/'));
        assert(a.push('/').drop_last() =~= a);
        assert(split_on(a, '/') + Seq::<Seq<char>>::empty() =~= split_on(a, '/'));
    } else {
        let b0 = b.drop_last();
        lemma_split_acc_after_slash(a, b0);
        assert((a.push('/') + b).drop_last() =~= a.push('/') + b0);
        assert((a.push('/') + b).last() == b.last());
        let (pb, cb) = split_acc(b0, '/');
        if b.last() == '/' {
            assert((split_on(a, '/') + pb).push(cb) =~= split_on(a, '/') + pb.push(cb));
        }
    }
}

/// The pieces of `a/b` are those of `a` followed by those of `b`.
proof fn lemma_split_concat(a: Seq<char>, b: Seq<char>)
    ensures
        split_on(a + seq!['/'] + b, '/') == split_on(a, '/') + split_on(b, '/'),
{
    lemma_split_acc_after_slash(a, b);
    assert(a + seq!['/'] + b =~= a.push('/') + b);
    let (pb, cb) = split_acc(b, '/');
    assert((split_on(a, '/') + pb).push(cb) =~= split_on(a, '/') + pb.push(cb));
}

proof fn lemma_kept_concat(x: Seq<Seq<char>>, y: Seq<Seq<char>>)
    ensures
        kept_segments(x + y) == kept_segments(x) + kept_segments(y),
    decreases y.len(),
{
    if y.len() == 0 {
        assert(x + y =~= x);
        assert(kept_segments(x) + kept_segments(y) =~= kept_segments(x));
    } else {
        lemma_kept_concat(x, y.drop_last());
        assert((x + y).drop_last() =~= x + y.drop_last());
        assert((x + y).last() == y.last());
        if keep_segment(y.last()) {
            assert((kept_segments(x) + kept_segments(y.drop_last())).push(y.last())
                =~= kept_segments(x) + kept_segments(y.drop_last()).push(y.last()));
        }
    }
}

proof fn lemma_join_concat(x: Seq<Seq<char>>, y: Seq<Seq<char>>)
    requires
        x.len() >= 1,
        y.len() >= 1,
    ensures
        join_with(x + y, seq!['/']) == join_with(x, seq!['/']) + seq!['/'] + join_with(y, seq!['/']),
    decreases y.len(),
{
    if y.len() == 1 {
        assert(x + y =~= x.push(y[0]));
        lemma_join_push(x, y[0]);
    } else {
        let y0 = y.drop_last();
        lemma_join_concat(x, y0);
        assert(x + y =~= (x + y0).push(y.last()));
        lemma_join_push(x + y0, y.last());
        assert(y0.push(y.last()) =~= y);
        lemma_join_push(y0, y.last());
        let jx = join_with(x, seq!['/']);
        let jy0 = join_with(y0, seq!['/']);
        assert(jx + seq!['/'] + jy0 + seq!['/'] + y.last() =~= jx + seq!['/'] + (jy0 + seq!['/'] + y.last()));
    }
}

/// Joining a project-relative path below a normalized repo-relative path
/// gives a path below that base: the base itself, or the base followed by
/// `/` and more.
pub proof fn law_joined_path_is_below_base(base: Seq<char>, child: Seq<char>)
    requires
        normalized_path(base, false) == Ok::<Seq<char>, crate::diagnostic::DiagnosticModel>(base),
    ensures
        match crate::domain::join_project_spec(base, child) {
            Ok(r) => crate::domain::path_below(r, base),
            Err(_) => true,
        },
{
    if child != seq!['.'] && base != seq!['.'] {
        let v = base + seq!['/'] + child;
        if normalized_path(v, false) is Ok {
            let kb = kept_segments(split_on(base, '/'));
            let kc = kept_segments(split_on(child, '/'));
            lemma_split_concat(base, child);
            lemma_kept_concat(split_on(base, '/'), split_on(child, '/'));
            assert(v != seq!['.']) by {
                assert(v.len() >= 2);
            }
            assert(kb.len() >= 1);
            assert(join_with(kb, seq!['/']) == base);
            if kc.len() == 0 {
                assert(kb + kc =~= kb);
            } else {
                lemma_join_concat(kb, kc);
                let r = base + seq!['/'] + join_with(kc, seq!['/']);
                assert(r.subrange(0, base.len() as int + 1) =~= base.push('/'));
                assert(crate::text::has_prefix(r, base.push('/')));
            }
        }
    }
}

/// Joining a project-relative path below a repo-relative path fails only
/// when the joined text is over the path limit: for a valid base and a valid
/// child, the join fails exactly when neither is `.` and `base/child` takes
/// more than 512 bytes.
pub proof fn law_join_fails_only_on_length(base: Seq<char>, child: Seq<char>)
    requires
        normalized_path(base, false) == Ok::<Seq<char>, crate::diagnostic::DiagnosticModel>(base),
        normalized_path(child, true) == Ok::<Seq<char>, crate::diagnostic::DiagnosticModel>(child),
    ensures
        crate::domain::join_project_spec(base, child) is Err
            <==> (child != seq!['.'] && base != seq!['.'] && byte_len(base + seq!['/'] + child) > 512),
{
    if child != seq!['.'] {
        assert(path_text_problem(child, false) is None);
        if base == seq!['.'] {
            assert(kept_segments(split_on(child, '/')).len() > 0);
        } else {
            assert(path_text_problem(base, false) is None);
            let v = base + seq!['/'] + child;
            if byte_len(v) <= 512 {
                assert(!v.contains('\0') && !v.contains('\\')) by {
                    assert forall|i: int| 0 <= i < v.len() implies v[i] != '\0' && v[i] != '\\' by {
                        if i < base.len() {
                            assert(v[i] == base[i]);
                            assert(base.contains(base[i]));
                        } else if i > base.len() {
                            assert(v[i] == child[i - base.len() - 1]);
                            assert(child.contains(child[i - base.len() - 1]));
                        }
                    }
                }
                assert(v[0] == base[0]);
                lemma_split_concat(base, child);
                let sv = split_on(v, '/');
                let sb = split_on(base, '/');
                let sc = split_on(child, '/');
                assert forall|k: int| 0 <= k < sv.len() implies !bad_segment(#[trigger] sv[k], false) by {
                    if k < sb.len() {
                        assert(sv[k] == sb[k]);
                    } else {
                        assert(sv[k] == sc[k - sb.len()]);
                    }
                }
                assert(path_text_problem(v, false) is None);
                assert(v != seq!['.']) by {
                    assert(v.len() >= 3);
                }
                lemma_kept_concat(sb, sc);
                assert(kept_segments(sb).len() > 0);
            }
        }
    }
}

/// A path lies below a prefix exactly when the prefix is the root `.` or
/// the prefix's `/`-separated segments begin the path's segments; so
/// `apps/catalog-web` is not below `apps/catalog`.
pub proof fn law_below_is_segment_prefix(s: Seq<char>, prefix: Seq<char>)
    ensures
        crate::domain::path_below(s, prefix)
            <==> (prefix == seq!['.'] || split_on(prefix, '/').is_prefix_of(split_on(s, '/'))),
{
    let ps = split_on(prefix, '/');
    let ss = split_on(s, '/');
    crate::text::lemma_split_acc_len(prefix, '/');
    crate::text::lemma_split_acc_len(s, '/');
    lemma_split_then_join(s);
    lemma_split_then_join(prefix);
    if prefix != seq!['.'] {
        if s == prefix {
            assert(ss.subrange(0, ps.len() as int) =~= ps);
        } else if crate::text::has_prefix(s, prefix.push('/')) {
            let t = s.subrange(prefix.len() as int + 1, s.len() as int);
            let head = s.subrange(0, prefix.len() as int + 1);
            assert(head == prefix.push('/'));
            assert forall|i: int| 0 <= i < s.len() implies s[i] == (prefix + seq!['/'] + t)[i] by {
                if i <= prefix.len() {
                    assert(s[i] == head[i]);
                }
            }
            assert(s =~= prefix + seq!['/'] + t);
            lemma_split_concat(prefix, t);
            assert(ss.subrange(0, ps.len() as int) =~= ps);
        }
        if ps.is_prefix_of(ss) {
            if ps.len() == ss.len() {
                assert(ps =~= ss);
            } else {
                let rest = ss.subrange(ps.len() as int, ss.len() as int);
                assert(ss =~= ps + rest);
                lemma_join_concat(ps, rest);
                let jr = join_with(rest, seq!['/']);
                assert(s =~= prefix + seq!['/'] + jr);
                assert(s.subrange(0, prefix.len() as int + 1) =~= prefix.push('/'));
            }
        }
    }
}

// ---------------------------------------------------------------------------
// Task planning
// ---------------------------------------------------------------------------

/// A task run plans each command at most once: no two planned steps share
/// their (project, workspace, task).
pub proof fn law_each_command_planned_once(ps: Seq<crate::domain::ProjectManifest>, sel: crate::tasks::Selection)
    ensures
        crate::tasks::step_keys(crate::tasks::planned(ps, sel)).no_duplicates(),
{
    crate::tasks::lemma_planned_ok(ps, sel);
}

// ---------------------------------------------------------------------------
// Code-size limits
// ---------------------------------------------------------------------------

/// Byte `i` lies inside a span that the file count leaves out: a comment,
/// or a test when tests do not count.
pub open spec fn in_uncounted_span(spans: Seq<crate::code_size::SyntaxSpan>, include_tests: bool, i: int) -> bool {
    exists|k: int| 0 <= k < spans.len()
        && ((#[trigger] spans[k]).kind == crate::code_size::SyntaxSpanKind::Comment
            || (!include_tests && spans[k].kind == crate::code_size::SyntaxSpanKind::Test))
        && spans[k].start_byte <= i && i < spans[k].end_byte
}

proof fn lemma_uncounted_spans_left_out(spans: Seq<crate::code_size::SyntaxSpan>, include_tests: bool, i: int)
    requires
        in_uncounted_span(spans, include_tests, i),
    ensures
        crate::inspect::covers(crate::code_size::file_exclusions(spans, include_tests), i),
    decreases spans.len(),
{
    let ex = crate::code_size::file_exclusions(spans, include_tests);
    let k = choose|k: int| 0 <= k < spans.len()
        && ((#[trigger] spans[k]).kind == crate::code_size::SyntaxSpanKind::Comment
            || (!include_tests && spans[k].kind == crate::code_size::SyntaxSpanKind::Test))
        && spans[k].start_byte <= i && i < spans[k].end_byte;
    let init = spans.drop_last();
    let pre = crate::code_size::file_exclusions(init, include_tests);
    if k == spans.len() - 1 {
        let s = spans.last();
        assert(ex == pre + seq![(s.start_byte, s.end_byte)]);
        assert(ex[pre.len() as int] == (s.start_byte, s.end_byte));
    } else {
        assert(init[k] == spans[k]);
        lemma_uncounted_spans_left_out(init, include_tests, i);
        let m = choose|m: int| 0 <= m < pre.len() && (#[trigger] pre[m]).0 <= i && i < pre[m].1;
        assert(ex[m] == pre[m]);
    }
}

proof fn lemma_scan_ignores_uncounted_bytes(
    a: Seq<u8>,
    b: Seq<u8>,
    spans: Seq<crate::code_size::SyntaxSpan>,
    include_tests: bool,
    n: nat,
)
    requires
        a.len() == b.len(),
        n <= a.len(),
        forall|i: int| 0 <= i < a.len() ==> (a[i] == 10u8) == (b[i] == 10u8),
        forall|i: int| 0 <= i < a.len() && !in_uncounted_span(spans, include_tests, i) ==> a[i] == b[i],
    ensures
        crate::inspect::scan_lines(a, crate::code_size::file_exclusions(spans, include_tests), n)
            == crate::inspect::scan_lines(b, crate::code_size::file_exclusions(spans, include_tests), n),
    decreases n,
{
    if n > 0 {
        lemma_scan_ignores_uncounted_bytes(a, b, spans, include_tests, (n - 1) as nat);
        let i = n - 1;
        let ex = crate::code_size::file_exclusions(spans, include_tests);
        if in_uncounted_span(spans, include_tests, i) {
            lemma_uncounted_spans_left_out(spans, include_tests, i);
        }
        assert(crate::inspect::code_byte(a, ex, i) == crate::inspect::code_byte(b, ex, i));
    }
}

/// Comments never count toward a file's size, and test code does not count
/// when the file rule leaves tests out: two versions of a file that differ
/// only inside such spans (with their line breaks in the same places) have
/// the same effective line count and the same whole-file finding.
pub proof fn law_uncounted_code_does_not_count(e: crate::code_size::RuleEvaluation, f: crate::code_size::RuleEvaluation)
    requires
        f == (crate::code_size::RuleEvaluation { bytes: f.bytes, ..e }),
        f.bytes@.len() == e.bytes@.len(),
        forall|i: int| 0 <= i < e.bytes@.len() ==> (e.bytes@[i] == 10u8) == (f.bytes@[i] == 10u8),
        forall|i: int| 0 <= i < e.bytes@.len() && !in_uncounted_span(e.spans@, e.file_rule.include_tests, i)
            ==> e.bytes@[i] == f.bytes@[i],
    ensures
        crate::code_size::file_count(e) == crate::code_size::file_count(f),
        crate::code_size::file_findings(e) == crate::code_size::file_findings(f),
{
    lemma_scan_ignores_uncounted_bytes(e.bytes@, f.bytes@, e.spans@, e.file_rule.include_tests, e.bytes@.len());
}

proof fn lemma_only_comments_left_out(spans: Seq<crate::code_size::SyntaxSpan>)
    requires
        forall|k: int| 0 <= k < spans.len() ==> (#[trigger] spans[k]).kind != crate::code_size::SyntaxSpanKind::Comment,
    ensures
        crate::code_size::file_exclusions(spans, true) == Seq::<(usize, usize)>::empty(),
    decreases spans.len(),
{
    if spans.len() > 0 {
        let init = spans.drop_last();
        assert forall|k: int| 0 <= k < init.len() implies (#[trigger] init[k]).kind != crate::code_size::SyntaxSpanKind::Comment by {
            assert(init[k] == spans[k]);
        }
        lemma_only_comments_left_out(init);
        assert(spans.last() == spans[spans.len() - 1]);
    }
}

/// When the file rule counts tests, only comments are left out: a file with
/// no comment span counts every line that holds a non-whitespace byte,
/// test code included.
pub proof fn law_tests_count_when_included(e: crate::code_size::RuleEvaluation)
    requires
        e.file_rule.include_tests,
        forall|k: int| 0 <= k < e.spans@.len() ==> (#[trigger] e.spans@[k]).kind != crate::code_size::SyntaxSpanKind::Comment,
    ensures
        crate::code_size::file_count(e) == crate::inspect::effective_count(e.bytes@, Seq::empty()),
{
    lemma_only_comments_left_out(e.spans@);
}

// ---------------------------------------------------------------------------
// Foundation boundaries
// ---------------------------------------------------------------------------

/// An error naming an app that uses foundation internals.
pub open spec fn flags_app_internal_use(d: crate::diagnostic::DiagnosticModel, app: Seq<char>) -> bool {
    &&& d.code == "policy.foundation_internal_dependency"@
    &&& d.severity == crate::diagnostic::Severity::Error
    &&& d.message == "app `"@ + app + "` must use foundation public clients instead of internals"@
    &&& d.project == Some(app)
    &&& d.help == Some("depend on foundations.<service>.client"@)
}

/// The edge reaches foundation internals from an app project.
pub open spec fn app_internal_edge(e: EdgeModel, ps: Seq<crate::domain::ProjectManifest>) -> bool {
    &&& e.kind == crate::domain::EdgeKind::UsesFoundationInternal
    &&& crate::policy::project_at_node(ps, e.from) matches Some(s)
    &&& s.kind == crate::domain::ProjectKind::App
}

/// The name of the project at an edge's source node.
pub open spec fn source_name(e: EdgeModel, ps: Seq<crate::domain::ProjectManifest>) -> Seq<char> {
    crate::policy::project_at_node(ps, e.from)->Some_0.name@
}

/// Some edge from an app into foundation internals is the one the
/// diagnostic flags.
pub open spec fn flags_some_edge(d: crate::diagnostic::DiagnosticModel, es: Seq<EdgeModel>, ps: Seq<crate::domain::ProjectManifest>) -> bool {
    exists|k: int| 0 <= k < es.len() && app_internal_edge(#[trigger] es[k], ps) && flags_app_internal_use(d, source_name(es[k], ps))
}

/// Some diagnostic of the list flags the app.
pub open spec fn some_flag(ds: Seq<crate::diagnostic::DiagnosticModel>, app: Seq<char>) -> bool {
    exists|j: int| 0 <= j < ds.len() && flags_app_internal_use(#[trigger] ds[j], app)
}

/// The foundation-client rule reports exactly the apps that reach into
/// foundation internals: every edge of kind `UsesFoundationInternal` whose
/// source is an app yields an error naming that app, and every diagnostic
/// of the rule is such an error for such an edge.
pub proof fn law_foundation_internals_flag_apps(es: Seq<EdgeModel>, ps: Seq<crate::domain::ProjectManifest>)
    ensures
        forall|k: int| 0 <= k < es.len() && app_internal_edge(#[trigger] es[k], ps) ==> some_flag(
            crate::policy::edge_rule_report(crate::policy::EdgeRule::FoundationClient, es, ps), source_name(es[k], ps)),
        forall|j: int| 0 <= j < crate::policy::edge_rule_report(crate::policy::EdgeRule::FoundationClient, es, ps).len()
            ==> flags_some_edge(#[trigger] crate::policy::edge_rule_report(crate::policy::EdgeRule::FoundationClient, es, ps)[j], es, ps),
    decreases es.len(),
{
    let rule = crate::policy::EdgeRule::FoundationClient;
    let r = crate::policy::edge_rule_report(rule, es, ps);
    if es.len() > 0 {
        let init = es.drop_last();
        law_foundation_internals_flag_apps(init, ps);
        let pre = crate::policy::edge_rule_report(rule, init, ps);
        let last = crate::policy::edge_rule_diags(rule, es.last(), ps);
        assert(r == pre + last);
        let n = es.len() - 1;
        assert forall|k: int| 0 <= k < es.len() && app_internal_edge(#[trigger] es[k], ps) implies some_flag(r, source_name(es[k], ps)) by {
            if k < n {
                assert(init[k] == es[k]);
                let j = choose|j: int| 0 <= j < pre.len() && flags_app_internal_use(#[trigger] pre[j], source_name(init[k], ps));
                assert(r[j] == pre[j]);
            } else {
                assert(r[pre.len() as int] == last[0]);
            }
        }
        assert forall|j: int| 0 <= j < r.len() implies flags_some_edge(#[trigger] r[j], es, ps) by {
            if j < pre.len() {
                assert(r[j] == pre[j]);
                assert(flags_some_edge(pre[j], init, ps));
                let k = choose|k: int| 0 <= k < init.len() && app_internal_edge(#[trigger] init[k], ps)
                    && flags_app_internal_use(pre[j], source_name(init[k], ps));
                assert(es[k] == init[k]);
            } else {
                assert(r[j] == last[j - pre.len()]);
                assert(es[n] == es.last());
            }
        }
    }
}

/// Policy evaluation reports every app that reaches into foundation
/// internals: for each such edge of the snapshot's graph, the diagnostics
/// of all rules hold an error naming that app.
pub proof fn law_policy_flags_app_internal_use(snapshot: crate::domain::RepoSnapshot, changed: Seq<Seq<char>>)
    ensures
        forall|k: int| 0 <= k < snapshot.graph.edges@.len() && app_internal_edge(#[trigger] edge_views(snapshot.graph.edges@)[k], snapshot.projects@)
            ==> some_flag(crate::policy::policy_report(snapshot, changed), source_name(edge_views(snapshot.graph.edges@)[k], snapshot.projects@)),
{
    let es = edge_views(snapshot.graph.edges@);
    let ps = snapshot.projects@;
    law_foundation_internals_flag_apps(es, ps);
    let a = crate::policy::edge_rule_report(crate::policy::EdgeRule::CrossApp, es, ps)
        + crate::policy::edge_rule_report(crate::policy::EdgeRule::ProjectKind, es, ps)
        + crate::policy::edge_rule_report(crate::policy::EdgeRule::FrameworkFacade, es, ps);
    let f = crate::policy::edge_rule_report(crate::policy::EdgeRule::FoundationClient, es, ps);
    let rest = crate::policy::generated_report(changed, ps) + crate::policy::high_risk_report(changed, snapshot);
    let all = crate::policy::policy_report(snapshot, changed);
    assert(all =~= a + f + rest);
    assert forall|k: int| 0 <= k < es.len() && app_internal_edge(#[trigger] es[k], ps) implies some_flag(all, source_name(es[k], ps)) by {
        let j = choose|j: int| 0 <= j < f.len() && flags_app_internal_use(#[trigger] f[j], source_name(es[k], ps));
        assert(all[a.len() + j] == f[j]);
    }
}

// ---------------------------------------------------------------------------
// Proto edges of the built graph
// ---------------------------------------------------------------------------

/// The edge of `kind` from a project to the node of a proto pattern, with
/// the pattern as evidence.
pub open spec fn proto_edge(project: Seq<char>, pattern: Seq<char>, kind: crate::domain::EdgeKind) -> EdgeModel {
    EdgeModel {
        from: crate::domain::project_node_id(project),
        to: "proto:"@ + pattern,
        kind,
        evidence: Some(pattern),
    }
}

/// The graph records what the project owns and consumes: an `OwnsProto`
/// edge for each owned pattern and a `ConsumesProto` edge for each consumed
/// one.
pub open spec fn holds_proto_edges(g: GraphModel, p: crate::domain::ProjectManifest) -> bool {
    &&& forall|j: int| 0 <= j < p.protos.owns@.len()
        ==> g.edges.contains(#[trigger] proto_edge(p.name@, p.protos.owns@[j]@, crate::domain::EdgeKind::OwnsProto))
    &&& forall|j: int| 0 <= j < p.protos.consumes@.len()
        ==> g.edges.contains(#[trigger] proto_edge(p.name@, p.protos.consumes@[j]@, crate::domain::EdgeKind::ConsumesProto))
}

proof fn lemma_growth_keeps_proto_edges(g: GraphModel, ops: Seq<GraphOp>, p: crate::domain::ProjectManifest)
    requires
        holds_proto_edges(g, p),
    ensures
        holds_proto_edges(apply_ops(g, ops), p),
{
    assert forall|j: int| 0 <= j < p.protos.owns@.len() implies apply_ops(g, ops).edges.contains(
        #[trigger] proto_edge(p.name@, p.protos.owns@[j]@, crate::domain::EdgeKind::OwnsProto)) by {
        lemma_growth_keeps_edge(g, ops, proto_edge(p.name@, p.protos.owns@[j]@, crate::domain::EdgeKind::OwnsProto));
    }
    assert forall|j: int| 0 <= j < p.protos.consumes@.len() implies apply_ops(g, ops).edges.contains(
        #[trigger] proto_edge(p.name@, p.protos.consumes@[j]@, crate::domain::EdgeKind::ConsumesProto)) by {
        lemma_growth_keeps_edge(g, ops, proto_edge(p.name@, p.protos.consumes@[j]@, crate::domain::EdgeKind::ConsumesProto));
    }
}

proof fn lemma_proto_edges_added(g: GraphModel, p: Seq<char>, pats: Seq<Seq<char>>, kind: crate::domain::EdgeKind)
    ensures
        forall|j: int| 0 <= j < pats.len() ==> apply_ops(g, crate::graph::protos_ops(p, pats, kind)).edges.contains(
            #[trigger] proto_edge(p, pats[j], kind)),
    decreases pats.len(),
{
    if pats.len() > 0 {
        let init = pats.drop_last();
        lemma_proto_edges_added(g, p, init, kind);
        let a = crate::graph::protos_ops(p, init, kind);
        let b = crate::graph::proto_ops(p, pats.last(), kind);
        crate::graph::lemma_apply_concat(g, a, b);
        let mid = apply_ops(g, a);
        assert(b == seq![b[0], b[1]]);
        crate::graph::lemma_apply_two(mid, b[0], b[1]);
        let after_node = apply_op(mid, b[0]);
        let e = proto_edge(p, pats.last(), kind);
        assert(b[1] == GraphOp::AddEdge(e));
        assert(apply_op(after_node, b[1]).edges.contains(e)) by {
            if !after_node.edges.contains(e) {
                assert(apply_op(after_node, b[1]).edges[apply_op(after_node, b[1]).edges.len() - 1] == e);
            }
        }
        assert forall|j: int| 0 <= j < pats.len() implies apply_ops(g, crate::graph::protos_ops(p, pats, kind)).edges.contains(#[trigger] proto_edge(p, pats[j], kind)) by {
            if j < init.len() {
                assert(init[j] == pats[j]);
                lemma_growth_keeps_edge(mid, b, proto_edge(p, init[j], kind));
            }
        }
    }
}

proof fn lemma_project_proto_edges(g: GraphModel, p: crate::domain::ProjectManifest)
    ensures
        holds_proto_edges(apply_ops(g, crate::graph::project_ops(p)), p),
{
    let head = seq![GraphOp::AddNode(crate::graph::project_node(p.name@))]
        + crate::graph::workspaces_ops(p.name@, p.workspaces@);
    let owned = crate::graph::glob_views(p.protos.owns@);
    let consumed = crate::graph::glob_views(p.protos.consumes@);
    let own_ops = crate::graph::protos_ops(p.name@, owned, crate::domain::EdgeKind::OwnsProto);
    let use_ops = crate::graph::protos_ops(p.name@, consumed, crate::domain::EdgeKind::ConsumesProto);
    let tail = crate::graph::iac_ops(p);
    assert(crate::graph::project_ops(p) =~= head + own_ops + use_ops + tail);
    crate::graph::lemma_apply_concat(g, head + own_ops + use_ops, tail);
    crate::graph::lemma_apply_concat(g, head + own_ops, use_ops);
    crate::graph::lemma_apply_concat(g, head, own_ops);
    let g1 = apply_ops(g, head);
    lemma_proto_edges_added(g1, p.name@, owned, crate::domain::EdgeKind::OwnsProto);
    let g2 = apply_ops(g1, own_ops);
    lemma_proto_edges_added(g2, p.name@, consumed, crate::domain::EdgeKind::ConsumesProto);
    let g3 = apply_ops(g2, use_ops);
    assert forall|j: int| 0 <= j < p.protos.owns@.len() implies g3.edges.contains(
        #[trigger] proto_edge(p.name@, p.protos.owns@[j]@, crate::domain::EdgeKind::OwnsProto)) by {
        assert(owned[j] == p.protos.owns@[j]@);
        lemma_growth_keeps_edge(g2, use_ops, proto_edge(p.name@, owned[j], crate::domain::EdgeKind::OwnsProto));
    }
    assert forall|j: int| 0 <= j < p.protos.consumes@.len() implies g3.edges.contains(
        #[trigger] proto_edge(p.name@, p.protos.consumes@[j]@, crate::domain::EdgeKind::ConsumesProto)) by {
        assert(consumed[j] == p.protos.consumes@[j]@);
    }
    lemma_growth_keeps_proto_edges(g3, tail, p);
}

proof fn lemma_structure_proto_edges(ps: Seq<crate::domain::ProjectManifest>)
    ensures
        forall|i: int| 0 <= i < ps.len() ==> holds_proto_edges(apply_ops(crate::graph::empty_graph(), crate::graph::structure_ops(ps)), #[trigger] ps[i]),
    decreases ps.len(),
{
    if ps.len() > 0 {
        let init = ps.drop_last();
        lemma_structure_proto_edges(init);
        let e = crate::graph::empty_graph();
        let a = crate::graph::structure_ops(init);
        let b = crate::graph::project_ops(ps.last());
        crate::graph::lemma_apply_concat(e, a, b);
        lemma_project_proto_edges(apply_ops(e, a), ps.last());
        assert forall|i: int| 0 <= i < ps.len() implies holds_proto_edges(apply_ops(e, crate::graph::structure_ops(ps)), #[trigger] ps[i]) by {
            if i < init.len() {
                assert(init[i] == ps[i]);
                lemma_growth_keeps_proto_edges(apply_ops(e, a), b, ps[i]);
            }
        }
    }
}

/// The built graph records what each project owns and consumes: for every
/// proto pattern in a project's `owns` list an `OwnsProto` edge, and for
/// every pattern in its `consumes` list a `ConsumesProto` edge, from the
/// project's node to `proto:<pattern>`, with the pattern as evidence.
pub proof fn law_built_graph_holds_proto_edges(
    g: crate::domain::RepoGraph,
    ps: Seq<crate::domain::ProjectManifest>,
    ds: Seq<crate::ports::DiscoveredEdge>,
)
    requires
        is_built_graph(g, ps, ds),
    ensures
        forall|i: int| 0 <= i < ps.len() ==> holds_proto_edges(crate::graph::graph_model(g), #[trigger] ps[i]),
{
    let e = crate::graph::empty_graph();
    let st = crate::graph::structure_ops(ps);
    let more = crate::graph::declared_ops(ps, ps) + crate::graph::discovered_ops(ds);
    assert(crate::graph::build_ops(ps, ds) =~= st + more);
    crate::graph::lemma_apply_concat(e, st, more);
    lemma_structure_proto_edges(ps);
    let u = crate::graph::unordered_graph(ps, ds);
    let gm = crate::graph::graph_model(g);
    assert forall|i: int| 0 <= i < ps.len() implies holds_proto_edges(gm, #[trigger] ps[i]) by {
        let p = ps[i];
        lemma_growth_keeps_proto_edges(apply_ops(e, st), more, p);
        assert forall|j: int| 0 <= j < p.protos.owns@.len() implies gm.edges.contains(
            #[trigger] proto_edge(p.name@, p.protos.owns@[j]@, crate::domain::EdgeKind::OwnsProto)) by {
            let ed = proto_edge(p.name@, p.protos.owns@[j]@, crate::domain::EdgeKind::OwnsProto);
            assert(u.edges.contains(ed));
            vstd::seq_lib::to_multiset_contains(u.edges, ed);
            assert(gm.edges.to_multiset().count(ed) > 0);
        }
        assert forall|j: int| 0 <= j < p.protos.consumes@.len() implies gm.edges.contains(
            #[trigger] proto_edge(p.name@, p.protos.consumes@[j]@, crate::domain::EdgeKind::ConsumesProto)) by {
            let ed = proto_edge(p.name@, p.protos.consumes@[j]@, crate::domain::EdgeKind::ConsumesProto);
            assert(u.edges.contains(ed));
            vstd::seq_lib::to_multiset_contains(u.edges, ed);
            assert(gm.edges.to_multiset().count(ed) > 0);
        }
    }
}

/// The edges that a run of additions adds, in order.
pub open spec fn added_edges(ops: Seq<GraphOp>) -> Seq<EdgeModel>
    decreases ops.len(),
{
    if ops.len() == 0 {
        Seq::empty()
    } else {
        added_edges(ops.drop_last()) + op_edges(ops.last())
    }
}

/// The edge an addition adds, if it adds one.
pub open spec fn op_edges(op: GraphOp) -> Seq<EdgeModel> {
    match op {
        GraphOp::AddEdge(e) => seq![e],
        GraphOp::AddNode(_) => Seq::empty(),
    }
}

proof fn lemma_added_one(a: GraphOp)
    ensures
        added_edges(seq![a]) == op_edges(a),
{
    assert(seq![a].drop_last() =~= Seq::<GraphOp>::empty());
    assert(seq![a].last() == a);
    assert(added_edges(Seq::<GraphOp>::empty()) + op_edges(a) =~= op_edges(a));
}

proof fn lemma_added_two(a: GraphOp, b: GraphOp)
    ensures
        added_edges(seq![a, b]) == op_edges(a) + op_edges(b),
{
    assert(seq![a, b].drop_last() =~= seq![a]);
    assert(seq![a, b].last() == b);
    lemma_added_one(a);
}

proof fn lemma_added_edges_concat(a: Seq<GraphOp>, b: Seq<GraphOp>)
    ensures
        added_edges(a + b) == added_edges(a) + added_edges(b),
    decreases b.len(),
{
    if b.len() == 0 {
        assert(a + b =~= a);
        assert(added_edges(a) + added_edges(b) =~= added_edges(a));
    } else {
        assert((a + b).drop_last() =~= a + b.drop_last());
        assert((a + b).last() == b.last());
        lemma_added_edges_concat(a, b.drop_last());
        let tail = op_edges(b.last());
        assert(added_edges(a) + added_edges(b.drop_last()) + tail =~= added_edges(a) + (added_edges(b.drop_last()) + tail));
    }
}

proof fn lemma_edges_come_from_ops(g: GraphModel, ops: Seq<GraphOp>)
    ensures
        forall|x: EdgeModel| apply_ops(g, ops).edges.contains(x) ==> g.edges.contains(x) || added_edges(ops).contains(x),
    decreases ops.len(),
{
    if ops.len() > 0 {
        let init = ops.drop_last();
        lemma_edges_come_from_ops(g, init);
        let mid = apply_ops(g, init);
        let ai = added_edges(init);
        assert forall|x: EdgeModel| apply_ops(g, ops).edges.contains(x) implies g.edges.contains(x) || added_edges(ops).contains(x) by {
            let k = choose|k: int| 0 <= k < apply_ops(g, ops).edges.len() && apply_ops(g, ops).edges[k] == x;
            if k < mid.edges.len() {
                assert(mid.edges[k] == x);
                assert(mid.edges.contains(x));
                if ai.contains(x) {
                    let m = choose|m: int| 0 <= m < ai.len() && ai[m] == x;
                    assert(added_edges(ops)[m] == x);
                }
            } else {
                assert(ops.last() == GraphOp::AddEdge(x));
                assert(added_edges(ops)[ai.len() as int] == x);
            }
        }
    }
}

/// The edge is one of a project's owned-proto edges.
pub open spec fn declared_owned(x: EdgeModel, ps: Seq<crate::domain::ProjectManifest>) -> bool {
    exists|i: int, j: int| 0 <= i < ps.len() && 0 <= j < ps[i].protos.owns@.len()
        && x == #[trigger] proto_edge(ps[i].name@, ps[i].protos.owns@[j]@, crate::domain::EdgeKind::OwnsProto)
}

/// Every ownership edge of the list either is declared by a project or
/// points at a project node.
pub open spec fn ownership_explained(xs: Seq<EdgeModel>, ps: Seq<crate::domain::ProjectManifest>) -> bool {
    forall|k: int| 0 <= k < xs.len() && (#[trigger] xs[k]).kind == crate::domain::EdgeKind::OwnsProto
        ==> declared_owned(xs[k], ps) || has_prefix_project(xs[k].to)
}

/// The id is a project node id.
pub open spec fn has_prefix_project(id: Seq<char>) -> bool {
    exists|n: Seq<char>| id == crate::domain::project_node_id(n)
}

proof fn lemma_explained_concat(a: Seq<EdgeModel>, b: Seq<EdgeModel>, ps: Seq<crate::domain::ProjectManifest>)
    requires
        ownership_explained(a, ps),
        ownership_explained(b, ps),
    ensures
        ownership_explained(a + b, ps),
{
    assert forall|k: int| 0 <= k < (a + b).len() && (#[trigger] (a + b)[k]).kind == crate::domain::EdgeKind::OwnsProto
        implies declared_owned((a + b)[k], ps) || has_prefix_project((a + b)[k].to) by {
        if k < a.len() {
            assert((a + b)[k] == a[k]);
        } else {
            assert((a + b)[k] == b[k - a.len()]);
        }
    }
}

proof fn lemma_no_ownership(xs: Seq<EdgeModel>, ps: Seq<crate::domain::ProjectManifest>)
    requires
        forall|k: int| 0 <= k < xs.len() ==> (#[trigger] xs[k]).kind != crate::domain::EdgeKind::OwnsProto,
    ensures
        ownership_explained(xs, ps),
{
}

proof fn lemma_workspace_edges(p: Seq<char>, ws: Seq<crate::domain::WorkspaceSpec>)
    ensures
        forall|k: int| 0 <= k < added_edges(crate::graph::workspaces_ops(p, ws)).len()
            ==> (#[trigger] added_edges(crate::graph::workspaces_ops(p, ws))[k]).kind == crate::domain::EdgeKind::ContainsWorkspace,
    decreases ws.len(),
{
    if ws.len() > 0 {
        let a = crate::graph::workspaces_ops(p, ws.drop_last());
        let b = crate::graph::workspace_ops(p, ws.last());
        lemma_workspace_edges(p, ws.drop_last());
        lemma_added_edges_concat(a, b);
        assert(b == seq![b[0], b[1]]);
        lemma_added_two(b[0], b[1]);
        let xs = added_edges(crate::graph::workspaces_ops(p, ws));
        assert forall|k: int| 0 <= k < xs.len() implies (#[trigger] xs[k]).kind == crate::domain::EdgeKind::ContainsWorkspace by {
            if k < added_edges(a).len() {
                assert(xs[k] == added_edges(a)[k]);
            } else {
                assert(xs[k] == added_edges(b)[k - added_edges(a).len()]);
            }
        }
    }
}

proof fn lemma_proto_op_edges(p: Seq<char>, pats: Seq<Seq<char>>, kind: crate::domain::EdgeKind)
    ensures
        added_edges(crate::graph::protos_ops(p, pats, kind)) == pats.map_values(|x: Seq<char>| proto_edge(p, x, kind)),
    decreases pats.len(),
{
    if pats.len() > 0 {
        let a = crate::graph::protos_ops(p, pats.drop_last(), kind);
        let b = crate::graph::proto_ops(p, pats.last(), kind);
        lemma_proto_op_edges(p, pats.drop_last(), kind);
        lemma_added_edges_concat(a, b);
        assert(b == seq![b[0], b[1]]);
        lemma_added_two(b[0], b[1]);
        assert(added_edges(b) =~= seq![proto_edge(p, pats.last(), kind)]);
        assert(pats.map_values(|x: Seq<char>| proto_edge(p, x, kind))
            =~= pats.drop_last().map_values(|x: Seq<char>| proto_edge(p, x, kind)).push(proto_edge(p, pats.last(), kind)));
    } else {
        assert(pats.map_values(|x: Seq<char>| proto_edge(p, x, kind)) =~= Seq::<EdgeModel>::empty());
    }
}

proof fn lemma_stack_edges(p: Seq<char>, stacks: Seq<Seq<char>>, root: Seq<char>)
    ensures
        forall|k: int| 0 <= k < added_edges(crate::graph::stacks_ops(p, stacks, root)).len()
            ==> (#[trigger] added_edges(crate::graph::stacks_ops(p, stacks, root))[k]).kind == crate::domain::EdgeKind::OwnsIac,
    decreases stacks.len(),
{
    if stacks.len() > 0 {
        let a = crate::graph::stacks_ops(p, stacks.drop_last(), root);
        let b = crate::graph::iac_target_ops(p, stacks.last(), root);
        lemma_stack_edges(p, stacks.drop_last(), root);
        lemma_added_edges_concat(a, b);
        assert(b == seq![b[0], b[1]]);
        lemma_added_two(b[0], b[1]);
        let xs = added_edges(crate::graph::stacks_ops(p, stacks, root));
        assert forall|k: int| 0 <= k < xs.len() implies (#[trigger] xs[k]).kind == crate::domain::EdgeKind::OwnsIac by {
            if k < added_edges(a).len() {
                assert(xs[k] == added_edges(a)[k]);
            } else {
                assert(xs[k] == added_edges(b)[k - added_edges(a).len()]);
            }
        }
    }
}

proof fn lemma_iac_edges(p: crate::domain::ProjectManifest)
    ensures
        forall|k: int| 0 <= k < added_edges(crate::graph::iac_ops(p)).len()
            ==> (#[trigger] added_edges(crate::graph::iac_ops(p))[k]).kind == crate::domain::EdgeKind::OwnsIac,
{
    match p.iac {
        None => {
            assert(added_edges(crate::graph::iac_ops(p)) =~= Seq::<EdgeModel>::empty());
        },
        Some(i) => {
            if i.stacks@.len() == 0 {
                let b = crate::graph::iac_target_ops(p.name@, "default"@, i.root@);
                assert(b == seq![b[0], b[1]]);
                lemma_added_two(b[0], b[1]);
            } else {
                lemma_stack_edges(p.name@, crate::text::strs(i.stacks@), i.root@);
            }
        },
    }
}

proof fn lemma_project_ownership(ps: Seq<crate::domain::ProjectManifest>, i: int)
    requires
        0 <= i < ps.len(),
    ensures
        ownership_explained(added_edges(crate::graph::project_ops(ps[i])), ps),
{
    let p = ps[i];
    let node = seq![GraphOp::AddNode(crate::graph::project_node(p.name@))];
    let wops = crate::graph::workspaces_ops(p.name@, p.workspaces@);
    let owned = crate::graph::glob_views(p.protos.owns@);
    let consumed = crate::graph::glob_views(p.protos.consumes@);
    let own_ops = crate::graph::protos_ops(p.name@, owned, crate::domain::EdgeKind::OwnsProto);
    let use_ops = crate::graph::protos_ops(p.name@, consumed, crate::domain::EdgeKind::ConsumesProto);
    let tail = crate::graph::iac_ops(p);
    assert(crate::graph::project_ops(p) =~= node + wops + own_ops + use_ops + tail);
    lemma_added_edges_concat(node + wops + own_ops + use_ops, tail);
    lemma_added_edges_concat(node + wops + own_ops, use_ops);
    lemma_added_edges_concat(node + wops, own_ops);
    lemma_added_edges_concat(node, wops);
    lemma_added_one(node[0]);
    assert(added_edges(node) =~= Seq::<EdgeModel>::empty());
    lemma_workspace_edges(p.name@, p.workspaces@);
    lemma_no_ownership(added_edges(node), ps);
    lemma_no_ownership(added_edges(wops), ps);
    lemma_proto_op_edges(p.name@, owned, crate::domain::EdgeKind::OwnsProto);
    lemma_proto_op_edges(p.name@, consumed, crate::domain::EdgeKind::ConsumesProto);
    let oe = added_edges(own_ops);
    assert forall|k: int| 0 <= k < oe.len() && (#[trigger] oe[k]).kind == crate::domain::EdgeKind::OwnsProto
        implies declared_owned(oe[k], ps) || has_prefix_project(oe[k].to) by {
        assert(oe[k] == proto_edge(ps[i].name@, ps[i].protos.owns@[k]@, crate::domain::EdgeKind::OwnsProto));
    }
    lemma_no_ownership(added_edges(use_ops), ps);
    lemma_iac_edges(p);
    lemma_no_ownership(added_edges(tail), ps);
    lemma_explained_concat(added_edges(node), added_edges(wops), ps);
    lemma_explained_concat(added_edges(node + wops), oe, ps);
    lemma_explained_concat(added_edges(node + wops + own_ops), added_edges(use_ops), ps);
    lemma_explained_concat(added_edges(node + wops + own_ops + use_ops), added_edges(tail), ps);
}

proof fn lemma_structure_ownership(ps: Seq<crate::domain::ProjectManifest>, n: int)
    requires
        0 <= n <= ps.len(),
    ensures
        ownership_explained(added_edges(crate::graph::structure_ops(ps.subrange(0, n))), ps),
    decreases n,
{
    let sub = ps.subrange(0, n);
    if n == 0 {
        assert(added_edges(crate::graph::structure_ops(sub)) =~= Seq::<EdgeModel>::empty());
    } else {
        lemma_structure_ownership(ps, n - 1);
        assert(sub.drop_last() =~= ps.subrange(0, n - 1));
        assert(sub.last() == ps[n - 1]);
        lemma_added_edges_concat(crate::graph::structure_ops(ps.subrange(0, n - 1)), crate::graph::project_ops(ps[n - 1]));
        lemma_project_ownership(ps, n - 1);
        lemma_explained_concat(added_edges(crate::graph::structure_ops(ps.subrange(0, n - 1))),
            added_edges(crate::graph::project_ops(ps[n - 1])), ps);
    }
}

proof fn lemma_dependency_edges(p: crate::domain::ProjectManifest, ds: Seq<crate::domain::ProjectDependency>, all: Seq<crate::domain::ProjectManifest>)
    ensures
        forall|k: int| 0 <= k < added_edges(crate::graph::dependencies_ops(p, ds, all)).len()
            ==> (#[trigger] added_edges(crate::graph::dependencies_ops(p, ds, all))[k]).kind != crate::domain::EdgeKind::OwnsProto,
    decreases ds.len(),
{
    if ds.len() > 0 {
        let a = crate::graph::dependencies_ops(p, ds.drop_last(), all);
        let b = crate::graph::dependency_ops(p, ds.last(), all);
        lemma_dependency_edges(p, ds.drop_last(), all);
        lemma_added_edges_concat(a, b);
        assert forall|k: int| 0 <= k < added_edges(b).len() implies (#[trigger] added_edges(b)[k]).kind != crate::domain::EdgeKind::OwnsProto by {
            match ds.last().target {
                crate::domain::DependencyTarget::Project(t) => {
                    if b.len() == 1 {
                        assert(b == seq![b[0]]);
                        lemma_added_one(b[0]);
                    } else {
                        assert(b =~= Seq::<GraphOp>::empty());
                    }
                },
                crate::domain::DependencyTarget::ProtoPackage(pkg) => {
                    assert(b == seq![b[0], b[1]]);
                    lemma_added_two(b[0], b[1]);
                },
            }
        }
        let xs = added_edges(crate::graph::dependencies_ops(p, ds, all));
        assert forall|k: int| 0 <= k < xs.len() implies (#[trigger] xs[k]).kind != crate::domain::EdgeKind::OwnsProto by {
            if k < added_edges(a).len() {
                assert(xs[k] == added_edges(a)[k]);
            } else {
                assert(xs[k] == added_edges(b)[k - added_edges(a).len()]);
            }
        }
    }
}

proof fn lemma_declared_edges(ps: Seq<crate::domain::ProjectManifest>, all: Seq<crate::domain::ProjectManifest>)
    ensures
        forall|k: int| 0 <= k < added_edges(crate::graph::declared_ops(ps, all)).len()
            ==> (#[trigger] added_edges(crate::graph::declared_ops(ps, all))[k]).kind != crate::domain::EdgeKind::OwnsProto,
    decreases ps.len(),
{
    if ps.len() > 0 {
        let a = crate::graph::declared_ops(ps.drop_last(), all);
        let b = crate::graph::dependencies_ops(ps.last(), ps.last().depends_on@, all);
        lemma_declared_edges(ps.drop_last(), all);
        lemma_dependency_edges(ps.last(), ps.last().depends_on@, all);
        lemma_added_edges_concat(a, b);
        let xs = added_edges(crate::graph::declared_ops(ps, all));
        assert forall|k: int| 0 <= k < xs.len() implies (#[trigger] xs[k]).kind != crate::domain::EdgeKind::OwnsProto by {
            if k < added_edges(a).len() {
                assert(xs[k] == added_edges(a)[k]);
            } else {
                assert(xs[k] == added_edges(b)[k - added_edges(a).len()]);
            }
        }
    }
}

proof fn lemma_discovered_edges(ds: Seq<crate::ports::DiscoveredEdge>, ps: Seq<crate::domain::ProjectManifest>)
    ensures
        ownership_explained(added_edges(crate::graph::discovered_ops(ds)), ps),
    decreases ds.len(),
{
    if ds.len() > 0 {
        let a = crate::graph::discovered_ops(ds.drop_last());
        let x = crate::ports::discovered_edge_model(ds.last());
        lemma_discovered_edges(ds.drop_last(), ps);
        assert(crate::graph::discovered_ops(ds).drop_last() =~= a);
        let xs = added_edges(crate::graph::discovered_ops(ds));
        assert(xs =~= added_edges(a) + seq![x]);
        assert(has_prefix_project(x.to));
        assert forall|k: int| 0 <= k < xs.len() && (#[trigger] xs[k]).kind == crate::domain::EdgeKind::OwnsProto
            implies declared_owned(xs[k], ps) || has_prefix_project(xs[k].to) by {
            if k < added_edges(a).len() {
                assert(xs[k] == added_edges(a)[k]);
            }
        }
    } else {
        assert(added_edges(crate::graph::discovered_ops(ds)) =~= Seq::<EdgeModel>::empty());
    }
}

proof fn lemma_proto_not_project(c: Seq<char>, n: Seq<char>)
    ensures
        "proto:"@ + c != crate::domain::project_node_id(n),
{
    reveal_strlit("proto:");
    reveal_strlit("project:");
    assert(("proto:"@ + c)[3] == 't');
    assert(crate::domain::project_node_id(n)[3] == 'j');
}

proof fn lemma_project_ids_differ(a: Seq<char>, b: Seq<char>)
    requires
        crate::domain::project_node_id(a) == crate::domain::project_node_id(b),
    ensures
        a == b,
{
    reveal_strlit("project:");
    assert(a =~= crate::domain::project_node_id(a).skip(8));
    assert(b =~= crate::domain::project_node_id(b).skip(8));
}

/// Ownership of a proto comes only from an `owns` list: every `OwnsProto`
/// edge of the built graph that points at a proto node is the owned-proto
/// edge of a project and one of its owned patterns. So a project has no
/// ownership edge to a pattern it only consumes, unless a project of the
/// same name owns that pattern.
pub proof fn law_built_graph_ownership_is_declared(
    g: crate::domain::RepoGraph,
    ps: Seq<crate::domain::ProjectManifest>,
    ds: Seq<crate::ports::DiscoveredEdge>,
)
    requires
        is_built_graph(g, ps, ds),
    ensures
        forall|x: EdgeModel| #[trigger] crate::graph::graph_model(g).edges.contains(x) && x.kind == crate::domain::EdgeKind::OwnsProto
            && (exists|c: Seq<char>| x.to == "proto:"@ + c) ==> declared_owned(x, ps),
        forall|i: int, c: Seq<char>| 0 <= i < ps.len()
            && (forall|m: int, j: int| 0 <= m < ps.len() && ps[m].name@ == ps[i].name@ && 0 <= j < ps[m].protos.owns@.len()
                ==> ps[m].protos.owns@[j]@ != c)
            ==> !crate::graph::graph_model(g).edges.contains(#[trigger] proto_edge(ps[i].name@, c, crate::domain::EdgeKind::OwnsProto)),
{
    let e = crate::graph::empty_graph();
    let st = crate::graph::structure_ops(ps);
    let dec = crate::graph::declared_ops(ps, ps);
    let dis = crate::graph::discovered_ops(ds);
    let all = crate::graph::build_ops(ps, ds);
    assert(all =~= st + dec + dis);
    lemma_added_edges_concat(st + dec, dis);
    lemma_added_edges_concat(st, dec);
    assert(ps.subrange(0, ps.len() as int) =~= ps);
    lemma_structure_ownership(ps, ps.len() as int);
    lemma_declared_edges(ps, ps);
    lemma_no_ownership(added_edges(dec), ps);
    lemma_discovered_edges(ds, ps);
    lemma_explained_concat(added_edges(st), added_edges(dec), ps);
    lemma_explained_concat(added_edges(st + dec), added_edges(dis), ps);
    let xs = added_edges(all);
    assert(ownership_explained(xs, ps));
    lemma_edges_come_from_ops(e, all);
    let u = crate::graph::unordered_graph(ps, ds);
    let gm = crate::graph::graph_model(g);
    assert forall|x: EdgeModel| #[trigger] gm.edges.contains(x) && x.kind == crate::domain::EdgeKind::OwnsProto
        && (exists|c: Seq<char>| x.to == "proto:"@ + c) implies declared_owned(x, ps) by {
        vstd::seq_lib::to_multiset_contains(gm.edges, x);
        assert(u.edges.to_multiset().count(x) > 0);
        assert(u.edges.contains(x));
        assert(xs.contains(x));
        let k = choose|k: int| 0 <= k < xs.len() && xs[k] == x;
        if !declared_owned(x, ps) {
            assert(has_prefix_project(x.to));
            let n = choose|n: Seq<char>| x.to == crate::domain::project_node_id(n);
            let c = choose|c: Seq<char>| x.to == "proto:"@ + c;
            lemma_proto_not_project(c, n);
        }
    }
    assert forall|i: int, c: Seq<char>| 0 <= i < ps.len()
        && (forall|m: int, j: int| 0 <= m < ps.len() && ps[m].name@ == ps[i].name@ && 0 <= j < ps[m].protos.owns@.len()
            ==> ps[m].protos.owns@[j]@ != c)
        implies !gm.edges.contains(#[trigger] proto_edge(ps[i].name@, c, crate::domain::EdgeKind::OwnsProto)) by {
        let x = proto_edge(ps[i].name@, c, crate::domain::EdgeKind::OwnsProto);
        if gm.edges.contains(x) {
            assert(x.to == "proto:"@ + c);
            assert(declared_owned(x, ps));
            let (m, j) = choose|m: int, j: int| 0 <= m < ps.len() && 0 <= j < ps[m].protos.owns@.len()
                && x == #[trigger] proto_edge(ps[m].name@, ps[m].protos.owns@[j]@, crate::domain::EdgeKind::OwnsProto);
            lemma_project_ids_differ(ps[i].name@, ps[m].name@);
        }
    }
}

// ---------------------------------------------------------------------------
// Sorted, distinct lists
// ---------------------------------------------------------------------------

/// How many leading entries precede `x`.
pub open spec fn leading_below(s: Seq<Seq<char>>, x: Seq<char>) -> int
    decreases s.len(),
{
    if s.len() == 0 || !seq_lt(s[0], x) {
        0
    } else {
        1 + leading_below(s.drop_first(), x)
    }
}

proof fn lemma_leading_below(s: Seq<Seq<char>>, x: Seq<char>)
    ensures
        0 <= leading_below(s, x) <= s.len(),
        forall|j: int| 0 <= j < leading_below(s, x) ==> seq_lt(#[trigger] s[j], x),
        leading_below(s, x) < s.len() ==> !seq_lt(s[leading_below(s, x)], x),
    decreases s.len(),
{
    if s.len() > 0 && seq_lt(s[0], x) {
        let t = s.drop_first();
        lemma_leading_below(t, x);
        assert forall|j: int| 0 <= j < leading_below(s, x) implies seq_lt(#[trigger] s[j], x) by {
            if j > 0 {
                assert(s[j] == t[j - 1]);
            }
        }
        if leading_below(s, x) < s.len() {
            assert(s[leading_below(s, x)] == t[leading_below(t, x)]);
        }
    }
}

proof fn lemma_sorted_witness(xs: Seq<Seq<char>>)
    ensures
        exists|s: Seq<Seq<char>>| strictly_sorted(s) && s.to_set() == xs.to_set(),
    decreases xs.len(),
{
    if xs.len() == 0 {
        let e = Seq::<Seq<char>>::empty();
        assert(e.to_set() =~= xs.to_set());
        assert(strictly_sorted(e));
    } else {
        let init = xs.drop_last();
        let x = xs.last();
        lemma_sorted_witness(init);
        let s = choose|s: Seq<Seq<char>>| strictly_sorted(s) && s.to_set() == init.to_set();
        assert(xs =~= init.push(x));
        assert(xs.to_set() =~= init.to_set().insert(x)) by {
            assert forall|y: Seq<char>| xs.contains(y) <==> (init.contains(y) || y == x) by {
                if xs.contains(y) {
                    let k = choose|k: int| 0 <= k < xs.len() && xs[k] == y;
                    if k < init.len() {
                        assert(init[k] == y);
                    }
                }
                if init.contains(y) {
                    let k = choose|k: int| 0 <= k < init.len() && init[k] == y;
                    assert(xs[k] == y);
                }
                if y == x {
                    assert(xs[xs.len() - 1] == y);
                }
            }
        }
        if s.contains(x) {
            assert(s.to_set().contains(x));
            assert(xs.to_set() =~= s.to_set());
        } else {
            let p = leading_below(s, x);
            lemma_leading_below(s, x);
            if p < s.len() {
                lemma_lt_trichotomy_local(x, s[p]);
                assert(s[p] != x);
            }
            let vs = Seq::new(s.len(), |i: int| Seq::<u8>::empty());
            crate::ports::lemma_sorted_insert(s, vs, p, x, Seq::<u8>::empty());
            let t = s.insert(p, x);
            assert(t.to_set() =~= s.to_set().insert(x)) by {
                assert forall|y: Seq<char>| t.contains(y) <==> (s.contains(y) || y == x) by {
                    if t.contains(y) {
                        let k = choose|k: int| 0 <= k < t.len() && t[k] == y;
                        if k < p {
                            assert(s[k] == y);
                        } else if k > p {
                            assert(s[k - 1] == y);
                        }
                    }
                    if s.contains(y) {
                        let k = choose|k: int| 0 <= k < s.len() && s[k] == y;
                        if k < p {
                            assert(t[k] == y);
                        } else {
                            assert(t[k + 1] == y);
                        }
                    }
                    if y == x {
                        assert(t[p] == y);
                    }
                }
            }
            assert(strictly_sorted(t) && t.to_set() == xs.to_set());
        }
    }
}

proof fn lemma_lt_trichotomy_local(a: Seq<char>, b: Seq<char>)
    ensures
        a == b || seq_lt(a, b) || seq_lt(b, a),
{
    crate::text::lemma_lt_trichotomy(a, b);
}

/// The sorted, distinct list of some texts holds exactly those texts.
pub proof fn lemma_sorted_distinct_holds(xs: Seq<Seq<char>>)
    ensures
        crate::policy::sorted_distinct(xs).to_set() == xs.to_set(),
        forall|x: Seq<char>| crate::policy::sorted_distinct(xs).contains(x) <==> xs.contains(x),
{
    lemma_sorted_witness(xs);
    let c = crate::policy::sorted_distinct(xs);
    assert forall|x: Seq<char>| c.contains(x) <==> xs.contains(x) by {
        assert(c.to_set().contains(x) == c.contains(x));
        assert(xs.to_set().contains(x) == xs.contains(x));
    }
}

// ---------------------------------------------------------------------------
// Reverse-dependency propagation
// ---------------------------------------------------------------------------

proof fn lemma_still_sweep_adds_nothing(es: Seq<EdgeModel>, direct: Seq<Seq<char>>, found: Seq<Seq<char>>)
    requires
        crate::affected::sweep(es, direct, found).0.len() <= found.len(),
    ensures
        forall|i: int| 0 <= i < es.len() ==> crate::affected::edge_step(#[trigger] es[i], direct, found) is None,
    decreases es.len(),
{
    if es.len() > 0 {
        let init = es.drop_last();
        crate::affected::lemma_sweep_grows(init, direct, found);
        let prev = crate::affected::sweep(init, direct, found);
        assert(prev.0.len() >= found.len());
        assert(prev.0.len() <= crate::affected::sweep(es, direct, found).0.len());
        assert(prev.0 =~= found);
        lemma_still_sweep_adds_nothing(init, direct, found);
        assert forall|i: int| 0 <= i < es.len() implies crate::affected::edge_step(#[trigger] es[i], direct, found) is None by {
            if i < init.len() {
                assert(init[i] == es[i]);
            }
        }
    }
}

proof fn lemma_propagation_settles(es: Seq<EdgeModel>, direct: Seq<Seq<char>>, found: Seq<Seq<char>>)
    ensures
        forall|x: Seq<char>| found.contains(x) ==> crate::affected::propagate(es, direct, found).0.contains(x),
        forall|i: int| 0 <= i < es.len() ==> crate::affected::edge_step(#[trigger] es[i], direct, crate::affected::propagate(es, direct, found).0) is None,
    decreases crate::affected::open_edges(es, direct, found),
{
    let r = crate::affected::sweep(es, direct, found);
    if r.0.len() <= found.len() {
        lemma_still_sweep_adds_nothing(es, direct, found);
    } else {
        crate::affected::lemma_sweep_progress(es, direct, found);
        crate::affected::lemma_sweep_grows(es, direct, found);
        lemma_propagation_settles(es, direct, r.0);
        assert(crate::affected::propagate(es, direct, found).0 == crate::affected::propagate(es, direct, r.0).0);
        assert forall|x: Seq<char>| found.contains(x) implies crate::affected::propagate(es, direct, found).0.contains(x) by {
            let k = choose|k: int| 0 <= k < found.len() && found[k] == x;
            assert(r.0[k] == x);
            assert(r.0.contains(x));
        }
    }
}

/// The edge kinds along which a change reaches the projects that depend on
/// a changed one: project dependencies, framework facades, foundation
/// clients and proto consumption.
pub open spec fn dependent_use(kind: crate::domain::EdgeKind) -> bool {
    kind == crate::domain::EdgeKind::DependsOnProject || kind == crate::domain::EdgeKind::UsesFrameworkFacade
        || kind == crate::domain::EdgeKind::UsesFoundationClient || kind == crate::domain::EdgeKind::ConsumesProto
}

/// An edge from project `a` to project `b` of a dependent-use kind.
pub open spec fn uses_edge(e: EdgeModel, a: Seq<char>, b: Seq<char>) -> bool {
    &&& dependent_use(e.kind)
    &&& e.from == crate::domain::project_node_id(a)
    &&& e.to == crate::domain::project_node_id(b)
}

proof fn lemma_node_of_project(n: Seq<char>)
    ensures
        crate::runner::node_project(crate::domain::project_node_id(n)) == Some(n),
{
    reveal_strlit("project:");
    let id = crate::domain::project_node_id(n);
    assert(id.subrange(0, 8) =~= "project:"@);
    assert(id.skip(8) =~= n);
}

/// A change reaches every project that uses an affected one: when a valid
/// project `a` uses a valid project `b` (a dependency, framework facade,
/// foundation client or proto consumption edge of the graph) and `b` is
/// affected, directly or transitively, then `a` is affected too, and
/// transitively unless it is directly affected.
pub proof fn law_change_reaches_dependents(
    s: crate::domain::RepoSnapshot,
    files: Seq<Seq<char>>,
    requested: Seq<Seq<char>>,
    r: crate::requests::AffectedReport,
    k: int,
    a: Seq<char>,
    b: Seq<char>,
)
    requires
        crate::affected::is_affected_report(s, files, requested, r),
        0 <= k < s.graph.edges@.len(),
        uses_edge(edge_views(s.graph.edges@)[k], a, b),
        crate::affected::name_ok(a),
        crate::affected::name_ok(b),
        crate::affected::name_views(r.directly_affected@).contains(b) || crate::affected::name_views(r.transitively_affected@).contains(b),
        !crate::affected::name_views(r.directly_affected@).contains(a),
    ensures
        crate::affected::name_views(r.transitively_affected@).contains(a),
{
    let es = edge_views(s.graph.edges@);
    let direct = crate::affected::direct_projects(s, files);
    let p = crate::affected::propagation(s, files);
    lemma_propagation_settles(es, direct, Seq::empty());
    lemma_sorted_distinct_holds(p.0);
    lemma_node_of_project(a);
    lemma_node_of_project(b);
    let e = es[k];
    assert(crate::affected::spreads(e.kind));
    assert(crate::affected::edge_step(e, direct, p.0) is None);
    assert(crate::affected::reached(direct, p.0, b));
}

// ---------------------------------------------------------------------------
// Affected task runs
// ---------------------------------------------------------------------------

/// An affected run selects exactly the affected projects and workspaces
/// that pass the explicit filters: a project is selected when it is named
/// in the report's direct or transitive list and passes the project filter,
/// and only then; a workspace when it is among the report's workspaces and
/// passes the workspace filter, and only then.
pub proof fn law_affected_run_selects_affected(
    req: crate::requests::TaskRunRequest,
    a: crate::requests::AffectedReport,
)
    ensures
        forall|n: Seq<char>| #[trigger] crate::tasks::project_selected(crate::tasks::selection_of(req, Some(a)), n) <==> (
            (req.projects@.len() == 0 || crate::affected::name_views(req.projects@).contains(n))
            && (crate::affected::name_views(a.directly_affected@).contains(n)
                || crate::affected::name_views(a.transitively_affected@).contains(n))),
        forall|w: Seq<char>| #[trigger] crate::tasks::workspace_selected(crate::tasks::selection_of(req, Some(a)), w) <==> (
            (req.workspaces@.len() == 0 || strs(req.workspaces@).contains(w)) && strs(a.workspaces@).contains(w)),
{
    let dv = crate::affected::name_views(a.directly_affected@);
    let tv = crate::affected::name_views(a.transitively_affected@);
    assert forall|n: Seq<char>| (dv + tv).contains(n) <==> (dv.contains(n) || tv.contains(n)) by {
        if dv.contains(n) {
            let k = choose|k: int| 0 <= k < dv.len() && dv[k] == n;
            assert((dv + tv)[k] == n);
        }
        if tv.contains(n) {
            let k = choose|k: int| 0 <= k < tv.len() && tv[k] == n;
            assert((dv + tv)[dv.len() + k] == n);
        }
        if (dv + tv).contains(n) {
            let k = choose|k: int| 0 <= k < (dv + tv).len() && (dv + tv)[k] == n;
            if k < dv.len() {
                assert(dv[k] == n);
            } else {
                assert(tv[k - dv.len()] == n);
            }
        }
    }
}

/// A run that is not limited to affected code selects every project and
/// workspace that passes the explicit filters, and only those.
pub proof fn law_plain_run_selects_filtered(req: crate::requests::TaskRunRequest)
    ensures
        forall|n: Seq<char>| #[trigger] crate::tasks::project_selected(crate::tasks::selection_of(req, None), n) <==> (
            req.projects@.len() == 0 || crate::affected::name_views(req.projects@).contains(n)),
        forall|w: Seq<char>| #[trigger] crate::tasks::workspace_selected(crate::tasks::selection_of(req, None), w) <==> (
            req.workspaces@.len() == 0 || strs(req.workspaces@).contains(w)),
{
}

/// In an affected run, each affected project that passes the project
/// filter has its tasks planned at its turn.
pub proof fn law_affected_run_plans_dependents(
    ps: Seq<crate::domain::ProjectManifest>,
    req: crate::requests::TaskRunRequest,
    a: crate::requests::AffectedReport,
    i: int,
    st: crate::tasks::PlanModel,
)
    requires
        0 <= i < ps.len(),
        crate::affected::name_views(a.directly_affected@).contains(ps[i].name@)
            || crate::affected::name_views(a.transitively_affected@).contains(ps[i].name@),
        req.projects@.len() == 0 || crate::affected::name_views(req.projects@).contains(ps[i].name@),
    ensures
        crate::tasks::plan_projects(ps, crate::tasks::selection_of(req, Some(a)), (i + 1) as nat, st)
            == crate::tasks::plan_project_tasks(ps, crate::tasks::selection_of(req, Some(a)), i, ps[i].tasks@.len(),
                crate::tasks::plan_projects(ps, crate::tasks::selection_of(req, Some(a)), i as nat, st)),
{
    law_affected_run_selects_affected(req, a);
    assert(crate::tasks::project_selected(crate::tasks::selection_of(req, Some(a)), ps[i].name@));
}

/// A propagation link `(t, x)`: `x` is a valid project, not directly
/// affected, with a dependent-use edge to the valid project `t`, which is
/// reached in `found`.
pub open spec fn link_ok(
    es: Seq<EdgeModel>,
    direct: Seq<Seq<char>>,
    found: Seq<Seq<char>>,
    l: (Seq<char>, Seq<char>),
) -> bool {
    &&& crate::affected::name_ok(l.1)
    &&& !direct.contains(l.1)
    &&& crate::affected::name_ok(l.0)
    &&& crate::affected::reached(direct, found, l.0)
    &&& exists|i: int| 0 <= i < es.len() && dependent_use((#[trigger] es[i]).kind)
        && crate::runner::node_project(es[i].from) == Some(l.1) && crate::runner::node_project(es[i].to) == Some(l.0)
}

/// What a propagation run gives: the projects reached so far are those it
/// started with followed by the source of each link, and every link holds.
pub open spec fn links_ok(
    es: Seq<EdgeModel>,
    direct: Seq<Seq<char>>,
    found: Seq<Seq<char>>,
    out: (Seq<Seq<char>>, Seq<(Seq<char>, Seq<char>)>),
) -> bool {
    &&& out.0 == found + out.1.map_values(|l: (Seq<char>, Seq<char>)| l.1)
    &&& forall|j: int| 0 <= j < out.1.len() ==> link_ok(es, direct, out.0, #[trigger] out.1[j])
}

proof fn lemma_link_stays(es: Seq<EdgeModel>, direct: Seq<Seq<char>>, a: Seq<Seq<char>>, b: Seq<Seq<char>>, l: (Seq<char>, Seq<char>))
    requires
        link_ok(es, direct, a, l),
        a.is_prefix_of(b),
    ensures
        link_ok(es, direct, b, l),
{
    if a.contains(l.0) {
        let k = choose|k: int| 0 <= k < a.len() && a[k] == l.0;
        assert(b[k] == l.0);
    }
}

proof fn lemma_sweep_links(es: Seq<EdgeModel>, direct: Seq<Seq<char>>, found: Seq<Seq<char>>)
    ensures
        links_ok(es, direct, found, crate::affected::sweep(es, direct, found)),
    decreases es.len(),
{
    let out = crate::affected::sweep(es, direct, found);
    if es.len() == 0 {
        assert(out.1.map_values(|l: (Seq<char>, Seq<char>)| l.1) =~= Seq::<Seq<char>>::empty());
        assert(found + Seq::<Seq<char>>::empty() =~= found);
    } else {
        let init = es.drop_last();
        lemma_sweep_links(init, direct, found);
        let prev = crate::affected::sweep(init, direct, found);
        let e = es.last();
        assert forall|j: int| 0 <= j < prev.1.len() implies link_ok(es, direct, prev.0, #[trigger] prev.1[j]) by {
            let l = prev.1[j];
            assert(link_ok(init, direct, prev.0, l));
            let i = choose|i: int| 0 <= i < init.len() && dependent_use((#[trigger] init[i]).kind)
                && crate::runner::node_project(init[i].from) == Some(l.1) && crate::runner::node_project(init[i].to) == Some(l.0);
            assert(es[i] == init[i]);
        }
        match crate::affected::edge_step(e, direct, prev.0) {
            Some(link) => {
                let n0 = prev.0.push(link.1);
                assert(out == (n0, prev.1.push(link)));
                assert(prev.0.is_prefix_of(n0));
                assert(n0 =~= found + prev.1.push(link).map_values(|l: (Seq<char>, Seq<char>)| l.1));
                assert forall|j: int| 0 <= j < out.1.len() implies link_ok(es, direct, out.0, #[trigger] out.1[j]) by {
                    if j < prev.1.len() {
                        assert(out.1[j] == prev.1[j]);
                        lemma_link_stays(es, direct, prev.0, n0, prev.1[j]);
                    } else {
                        assert(out.1[j] == link);
                        assert(dependent_use(es[es.len() - 1].kind));
                        assert(link_ok(es, direct, prev.0, link));
                        lemma_link_stays(es, direct, prev.0, n0, link);
                    }
                }
            },
            None => {},
        }
    }
}

proof fn lemma_propagate_links(es: Seq<EdgeModel>, direct: Seq<Seq<char>>, found: Seq<Seq<char>>)
    ensures
        links_ok(es, direct, found, crate::affected::propagate(es, direct, found)),
    decreases crate::affected::open_edges(es, direct, found),
{
    let r = crate::affected::sweep(es, direct, found);
    let out = crate::affected::propagate(es, direct, found);
    if r.0.len() <= found.len() {
        assert(out == (found, Seq::<(Seq<char>, Seq<char>)>::empty()));
        assert(out.1.map_values(|l: (Seq<char>, Seq<char>)| l.1) =~= Seq::<Seq<char>>::empty());
        assert(found + Seq::<Seq<char>>::empty() =~= found);
    } else {
        crate::affected::lemma_sweep_progress(es, direct, found);
        lemma_sweep_links(es, direct, found);
        lemma_propagate_links(es, direct, r.0);
        let rest = crate::affected::propagate(es, direct, r.0);
        assert(out == (rest.0, r.1 + rest.1));
        let m1 = r.1.map_values(|l: (Seq<char>, Seq<char>)| l.1);
        let m2 = rest.1.map_values(|l: (Seq<char>, Seq<char>)| l.1);
        assert((r.1 + rest.1).map_values(|l: (Seq<char>, Seq<char>)| l.1) =~= m1 + m2);
        assert(rest.0 =~= found + (m1 + m2));
        assert(r.0.is_prefix_of(rest.0));
        assert forall|j: int| 0 <= j < out.1.len() implies link_ok(es, direct, out.0, #[trigger] out.1[j]) by {
            if j < r.1.len() {
                assert(out.1[j] == r.1[j]);
                lemma_link_stays(es, direct, r.0, rest.0, r.1[j]);
            } else {
                assert(out.1[j] == rest.1[j - r.1.len()]);
            }
        }
    }
}

proof fn lemma_project_of_node(id: Seq<char>, n: Seq<char>)
    requires
        crate::runner::node_project(id) == Some(n),
    ensures
        id == crate::domain::project_node_id(n),
{
    reveal_strlit("project:");
    assert(id =~= "project:"@ + n);
}

/// Propagation adds only what a dependency justifies: a transitively
/// affected project is a valid project that is not directly affected, it
/// uses (through a dependency, framework facade, foundation client or proto
/// consumption edge of the graph) a project that is itself affected, and
/// the report explains it by a reverse dependency propagation reason from
/// that project.
pub proof fn law_transitive_projects_are_justified(
    s: crate::domain::RepoSnapshot,
    files: Seq<Seq<char>>,
    requested: Seq<Seq<char>>,
    r: crate::requests::AffectedReport,
    n: Seq<char>,
)
    requires
        crate::affected::is_affected_report(s, files, requested, r),
        crate::affected::name_views(r.transitively_affected@).contains(n),
    ensures
        !crate::affected::name_views(r.directly_affected@).contains(n),
        crate::affected::name_ok(n),
        exists|k: int, t: Seq<char>| 0 <= k < s.graph.edges@.len() && #[trigger] uses_edge(edge_views(s.graph.edges@)[k], n, t)
            && crate::affected::name_ok(t)
            && (crate::affected::name_views(r.directly_affected@).contains(t)
                || crate::affected::name_views(r.transitively_affected@).contains(t))
            && crate::affected::reason_views(r.reasons@).contains((t, n, "reverse dependency propagation"@)),
{
    let es = edge_views(s.graph.edges@);
    let direct = crate::affected::direct_projects(s, files);
    let p = crate::affected::propagation(s, files);
    lemma_propagate_links(es, direct, Seq::empty());
    lemma_sorted_distinct_holds(p.0);
    assert(p.0.contains(n));
    let ms = p.1.map_values(|l: (Seq<char>, Seq<char>)| l.1);
    assert(p.0 =~= ms);
    let j = choose|j: int| 0 <= j < p.0.len() && p.0[j] == n;
    let l = p.1[j];
    assert(l.1 == n);
    assert(link_ok(es, direct, p.0, l));
    let t = l.0;
    let i = choose|i: int| 0 <= i < es.len() && dependent_use((#[trigger] es[i]).kind)
        && crate::runner::node_project(es[i].from) == Some(l.1) && crate::runner::node_project(es[i].to) == Some(l.0);
    lemma_project_of_node(es[i].from, n);
    lemma_project_of_node(es[i].to, t);
    assert(uses_edge(es[i], n, t));
    let e = crate::affected::snapshot_effects(s, files);
    let rs = crate::affected::reason_views(r.reasons@);
    let lr = crate::affected::link_reasons(p.1);
    assert(rs == e.reasons + lr);
    assert(lr[j] == (t, n, "reverse dependency propagation"@));
    assert(rs[e.reasons.len() + j] == lr[j]);
    if direct.contains(t) {
    } else {
        assert(p.0.contains(t));
    }
}

// ---------------------------------------------------------------------------
// Dependency rules
// ---------------------------------------------------------------------------

/// The edge breaks the dependency rule: an app depending on another app
/// (`CrossApp`); a framework or foundation service depending on an app
/// (`ProjectKind`); an app using framework internals (`FrameworkFacade`);
/// an app using foundation internals (`FoundationClient`).
pub open spec fn breaks_rule(rule: crate::policy::EdgeRule, e: EdgeModel, ps: Seq<crate::domain::ProjectManifest>) -> bool {
    let src = crate::policy::project_at_node(ps, e.from);
    let dst = crate::policy::project_at_node(ps, e.to);
    match rule {
        crate::policy::EdgeRule::CrossApp => e.kind == crate::domain::EdgeKind::DependsOnProject
            && is_kind(src, crate::domain::ProjectKind::App) && is_kind(dst, crate::domain::ProjectKind::App),
        crate::policy::EdgeRule::ProjectKind => e.kind == crate::domain::EdgeKind::DependsOnProject
            && (is_kind(src, crate::domain::ProjectKind::Framework) || is_kind(src, crate::domain::ProjectKind::FoundationService))
            && is_kind(dst, crate::domain::ProjectKind::App),
        crate::policy::EdgeRule::FrameworkFacade => e.kind == crate::domain::EdgeKind::UsesFrameworkInternal
            && is_kind(src, crate::domain::ProjectKind::App),
        crate::policy::EdgeRule::FoundationClient => e.kind == crate::domain::EdgeKind::UsesFoundationInternal
            && is_kind(src, crate::domain::ProjectKind::App),
    }
}

/// The project is present and of the kind.
pub open spec fn is_kind(p: Option<crate::domain::ProjectManifest>, k: crate::domain::ProjectKind) -> bool {
    match p {
        Some(a) => a.kind == k,
        None => false,
    }
}

/// The code of a dependency rule's diagnostics.
pub open spec fn rule_code(rule: crate::policy::EdgeRule) -> Seq<char> {
    match rule {
        crate::policy::EdgeRule::CrossApp => "policy.cross_app_dependency"@,
        crate::policy::EdgeRule::ProjectKind => "policy.project_kind_dependency"@,
        crate::policy::EdgeRule::FrameworkFacade => "policy.framework_internal_dependency"@,
        crate::policy::EdgeRule::FoundationClient => "policy.foundation_internal_dependency"@,
    }
}

/// An error of the rule's code against the edge's source project.
pub open spec fn reports_edge(d: crate::diagnostic::DiagnosticModel, rule: crate::policy::EdgeRule, e: EdgeModel, ps: Seq<crate::domain::ProjectManifest>) -> bool {
    &&& d.code == rule_code(rule)
    &&& d.severity == crate::diagnostic::Severity::Error
    &&& d.project == Some(source_name(e, ps))
}

/// How many of the edges break the rule.
pub open spec fn breaking_count(rule: crate::policy::EdgeRule, es: Seq<EdgeModel>, ps: Seq<crate::domain::ProjectManifest>) -> nat
    decreases es.len(),
{
    if es.len() == 0 {
        0
    } else {
        breaking_count(rule, es.drop_last(), ps) + if breaks_rule(rule, es.last(), ps) { 1nat } else { 0nat }
    }
}

proof fn lemma_rule_diags(rule: crate::policy::EdgeRule, e: EdgeModel, ps: Seq<crate::domain::ProjectManifest>)
    ensures
        breaks_rule(rule, e, ps) ==> crate::policy::edge_rule_diags(rule, e, ps).len() == 1
            && reports_edge(crate::policy::edge_rule_diags(rule, e, ps)[0], rule, e, ps),
        !breaks_rule(rule, e, ps) ==> crate::policy::edge_rule_diags(rule, e, ps).len() == 0,
{
}

/// Some edge breaks the rule and the diagnostic reports it.
pub open spec fn some_breaking_edge(d: crate::diagnostic::DiagnosticModel, rule: crate::policy::EdgeRule, es: Seq<EdgeModel>, ps: Seq<crate::domain::ProjectManifest>) -> bool {
    exists|k: int| 0 <= k < es.len() && breaks_rule(rule, #[trigger] es[k], ps) && reports_edge(d, rule, es[k], ps)
}

/// Each dependency rule reports one error per edge that breaks it, against
/// the edge's source project, and nothing else: the report has as many
/// diagnostics as there are breaking edges, every breaking edge has an error
/// of the rule's code naming its source, and every diagnostic is such an
/// error for a breaking edge.
pub proof fn law_dependency_rules_report_breaking_edges(
    rule: crate::policy::EdgeRule,
    es: Seq<EdgeModel>,
    ps: Seq<crate::domain::ProjectManifest>,
)
    ensures
        crate::policy::edge_rule_report(rule, es, ps).len() == breaking_count(rule, es, ps),
        forall|k: int| 0 <= k < es.len() && breaks_rule(rule, #[trigger] es[k], ps) ==> exists|j: int|
            0 <= j < crate::policy::edge_rule_report(rule, es, ps).len()
            && reports_edge(#[trigger] crate::policy::edge_rule_report(rule, es, ps)[j], rule, es[k], ps),
        forall|j: int| 0 <= j < crate::policy::edge_rule_report(rule, es, ps).len()
            ==> some_breaking_edge(#[trigger] crate::policy::edge_rule_report(rule, es, ps)[j], rule, es, ps),
    decreases es.len(),
{
    let r = crate::policy::edge_rule_report(rule, es, ps);
    if es.len() > 0 {
        let init = es.drop_last();
        law_dependency_rules_report_breaking_edges(rule, init, ps);
        let pre = crate::policy::edge_rule_report(rule, init, ps);
        let last = crate::policy::edge_rule_diags(rule, es.last(), ps);
        lemma_rule_diags(rule, es.last(), ps);
        assert(r == pre + last);
        let n = es.len() - 1;
        assert(es[n] == es.last());
        assert forall|k: int| 0 <= k < es.len() && breaks_rule(rule, #[trigger] es[k], ps) implies exists|j: int|
            0 <= j < r.len() && reports_edge(#[trigger] r[j], rule, es[k], ps) by {
            if k < n {
                assert(init[k] == es[k]);
                let j = choose|j: int| 0 <= j < pre.len() && reports_edge(#[trigger] pre[j], rule, init[k], ps);
                assert(r[j] == pre[j]);
            } else {
                assert(r[pre.len() as int] == last[0]);
            }
        }
        assert forall|j: int| 0 <= j < r.len() implies some_breaking_edge(#[trigger] r[j], rule, es, ps) by {
            if j < pre.len() {
                assert(r[j] == pre[j]);
                assert(some_breaking_edge(pre[j], rule, init, ps));
                let k = choose|k: int| 0 <= k < init.len() && breaks_rule(rule, #[trigger] init[k], ps) && reports_edge(pre[j], rule, init[k], ps);
                assert(es[k] == init[k]);
            } else {
                assert(r[j] == last[0]);
            }
        }
    }
}

// ---------------------------------------------------------------------------
// Directly affected projects
// ---------------------------------------------------------------------------

/// The changed file touches the project: it lies inside the project, it is
/// a proto the project owns or consumes, or it changes the whole
/// repository.
pub open spec fn touches(p: crate::domain::ProjectManifest, f: Seq<char>, second_skills_root: Seq<char>) -> bool {
    crate::domain::path_below(f, p.path@) || crate::affected::proto_affects(p, f)
        || crate::affected::repo_wide_change(f, second_skills_root)
}

proof fn lemma_file_names(ps: Seq<crate::domain::ProjectManifest>, f: Seq<char>, second: Seq<char>)
    ensures
        forall|i: int| 0 <= i < ps.len() && touches(#[trigger] ps[i], f, second)
            ==> crate::affected::file_effects(ps, f, crate::affected::repo_wide_change(f, second)).names.contains(ps[i].name@),
        forall|n: Seq<char>| #[trigger] crate::affected::file_effects(ps, f, crate::affected::repo_wide_change(f, second)).names.contains(n)
            ==> exists|i: int| 0 <= i < ps.len() && ps[i].name@ == n && touches(#[trigger] ps[i], f, second),
    decreases ps.len(),
{
    let wide = crate::affected::repo_wide_change(f, second);
    if ps.len() > 0 {
        let init = ps.drop_last();
        lemma_file_names(init, f, second);
        let p = ps.last();
        let pre = crate::affected::file_effects(init, f, wide).names;
        let add = if wide { crate::affected::wide_effects(p, f).names } else { crate::affected::project_effects(p, f).names };
        let all = crate::affected::file_effects(ps, f, wide).names;
        assert(all == pre + add);
        assert forall|i: int| 0 <= i < ps.len() && touches(#[trigger] ps[i], f, second) implies all.contains(ps[i].name@) by {
            if i < init.len() {
                assert(init[i] == ps[i]);
                let k = choose|k: int| 0 <= k < pre.len() && pre[k] == ps[i].name@;
                assert(all[k] == pre[k]);
            } else {
                assert(ps[i] == p);
                if wide {
                    assert(all[pre.len() as int] == p.name@);
                } else if crate::domain::path_below(f, p.path@) {
                    assert(all[pre.len() as int] == p.name@);
                } else {
                    assert(add[0] == p.name@);
                    assert(all[pre.len() as int] == p.name@);
                }
            }
        }
        assert forall|n: Seq<char>| #[trigger] all.contains(n) implies exists|i: int| 0 <= i < ps.len() && ps[i].name@ == n
            && touches(#[trigger] ps[i], f, second) by {
            let k = choose|k: int| 0 <= k < all.len() && all[k] == n;
            if k < pre.len() {
                assert(pre[k] == n);
                assert(pre.contains(n));
                let i = choose|i: int| 0 <= i < init.len() && init[i].name@ == n && touches(#[trigger] init[i], f, second);
                assert(ps[i] == init[i]);
            } else {
                assert(add[k - pre.len()] == n);
                assert(ps[ps.len() - 1] == p);
            }
        }
    }
}

proof fn lemma_files_names(ps: Seq<crate::domain::ProjectManifest>, fs: Seq<Seq<char>>, second: Seq<char>)
    ensures
        forall|i: int, m: int| 0 <= i < ps.len() && 0 <= m < fs.len() && touches(#[trigger] ps[i], #[trigger] fs[m], second)
            ==> crate::affected::files_effects(ps, fs, second).names.contains(ps[i].name@),
        forall|n: Seq<char>| #[trigger] crate::affected::files_effects(ps, fs, second).names.contains(n)
            ==> exists|i: int, m: int| 0 <= i < ps.len() && 0 <= m < fs.len() && ps[i].name@ == n && touches(#[trigger] ps[i], #[trigger] fs[m], second),
    decreases fs.len(),
{
    if fs.len() > 0 {
        let init = fs.drop_last();
        let f = fs.last();
        lemma_files_names(ps, init, second);
        lemma_file_names(ps, f, second);
        let pre = crate::affected::files_effects(ps, init, second).names;
        let add = crate::affected::file_effects(ps, f, crate::affected::repo_wide_change(f, second)).names;
        let all = crate::affected::files_effects(ps, fs, second).names;
        assert(all == pre + add);
        assert forall|i: int, m: int| 0 <= i < ps.len() && 0 <= m < fs.len() && touches(#[trigger] ps[i], #[trigger] fs[m], second)
            implies all.contains(ps[i].name@) by {
            if m < init.len() {
                assert(init[m] == fs[m]);
                let k = choose|k: int| 0 <= k < pre.len() && pre[k] == ps[i].name@;
                assert(all[k] == pre[k]);
            } else {
                assert(fs[m] == f);
                let k = choose|k: int| 0 <= k < add.len() && add[k] == ps[i].name@;
                assert(all[pre.len() + k] == add[k]);
            }
        }
        assert forall|n: Seq<char>| #[trigger] all.contains(n) implies exists|i: int, m: int| 0 <= i < ps.len() && 0 <= m < fs.len()
            && ps[i].name@ == n && touches(#[trigger] ps[i], #[trigger] fs[m], second) by {
            let k = choose|k: int| 0 <= k < all.len() && all[k] == n;
            if k < pre.len() {
                assert(pre[k] == n);
                assert(pre.contains(n));
                let (i, m) = choose|i: int, m: int| 0 <= i < ps.len() && 0 <= m < init.len() && ps[i].name@ == n
                    && touches(#[trigger] ps[i], #[trigger] init[m], second);
                assert(fs[m] == init[m]);
            } else {
                assert(add[k - pre.len()] == n);
                assert(add.contains(n));
                let i = choose|i: int| 0 <= i < ps.len() && ps[i].name@ == n && touches(#[trigger] ps[i], f, second);
                assert(fs[fs.len() - 1] == f);
            }
        }
    }
}

/// The directly affected projects are exactly those a changed file touches:
/// every project that holds a changed file, owns or consumes a changed
/// proto, or is reached by a repository-wide change is directly affected,
/// and every directly affected project is one of these.
pub proof fn law_direct_projects_are_touched(
    s: crate::domain::RepoSnapshot,
    files: Seq<Seq<char>>,
    requested: Seq<Seq<char>>,
    r: crate::requests::AffectedReport,
)
    requires
        crate::affected::is_affected_report(s, files, requested, r),
    ensures
        forall|i: int, m: int| 0 <= i < s.projects@.len() && 0 <= m < files.len()
            && touches(#[trigger] s.projects@[i], #[trigger] files[m], s.repo_manifest.claude_skills_root@)
            ==> crate::affected::name_views(r.directly_affected@).contains(s.projects@[i].name@),
        forall|n: Seq<char>| #[trigger] crate::affected::name_views(r.directly_affected@).contains(n)
            ==> exists|i: int, m: int| 0 <= i < s.projects@.len() && 0 <= m < files.len() && s.projects@[i].name@ == n
                && touches(#[trigger] s.projects@[i], #[trigger] files[m], s.repo_manifest.claude_skills_root@),
{
    let second = s.repo_manifest.claude_skills_root@;
    lemma_files_names(s.projects@, files, second);
    let names = crate::affected::snapshot_effects(s, files).names;
    lemma_sorted_distinct_holds(names);
    assert forall|n: Seq<char>| #[trigger] crate::affected::name_views(r.directly_affected@).contains(n)
        implies exists|i: int, m: int| 0 <= i < s.projects@.len() && 0 <= m < files.len() && s.projects@[i].name@ == n
            && touches(#[trigger] s.projects@[i], #[trigger] files[m], second) by {
        assert(names.contains(n));
        assert(crate::affected::files_effects(s.projects@, files, second).names.contains(n));
    }
}

// ---------------------------------------------------------------------------
// Declared dependency edges
// ---------------------------------------------------------------------------

/// How a declared dependency between projects is classified: an app's
/// dependency on a framework uses its facade unless it names the framework's
/// internals; an app's dependency on a foundation service uses its public
/// client unless it names the service's internals; a dependency on core
/// infrastructure uses its public module unless it names an internal one;
/// anything else is a plain project dependency.
pub proof fn law_dependency_classification(
    source: crate::domain::ProjectKind,
    target: crate::domain::ProjectKind,
    surface: crate::domain::DependencySurface,
)
    ensures
        source == crate::domain::ProjectKind::App && target == crate::domain::ProjectKind::Framework
            ==> crate::graph::classify(source, target, surface) == if surface == crate::domain::DependencySurface::FrameworkInternal {
                crate::domain::EdgeKind::UsesFrameworkInternal
            } else {
                crate::domain::EdgeKind::UsesFrameworkFacade
            },
        source == crate::domain::ProjectKind::App && target == crate::domain::ProjectKind::FoundationService
            ==> crate::graph::classify(source, target, surface) == if surface == crate::domain::DependencySurface::FoundationPublicClient {
                crate::domain::EdgeKind::UsesFoundationClient
            } else {
                crate::domain::EdgeKind::UsesFoundationInternal
            },
        !(source == crate::domain::ProjectKind::App && (target == crate::domain::ProjectKind::Framework
            || target == crate::domain::ProjectKind::FoundationService))
            && (target == crate::domain::ProjectKind::CoreInfra || target == crate::domain::ProjectKind::CoreInfraComponent)
            ==> crate::graph::classify(source, target, surface) == if surface == crate::domain::DependencySurface::CoreInfraInternalModule {
                crate::domain::EdgeKind::UsesCoreInfraInternalModule
            } else {
                crate::domain::EdgeKind::UsesCoreInfraModule
            },
        !(source == crate::domain::ProjectKind::App && (target == crate::domain::ProjectKind::Framework
            || target == crate::domain::ProjectKind::FoundationService))
            && !(target == crate::domain::ProjectKind::CoreInfra || target == crate::domain::ProjectKind::CoreInfraComponent)
            ==> crate::graph::classify(source, target, surface) == crate::domain::EdgeKind::DependsOnProject,
{
}

/// The edge a declared dependency of `p` on the project `target` records.
pub open spec fn dependency_edge(p: crate::domain::ProjectManifest, d: crate::domain::ProjectDependency, target: crate::domain::ProjectManifest) -> EdgeModel {
    EdgeModel {
        from: crate::domain::project_node_id(p.name@),
        to: crate::domain::project_node_id(target.name@),
        kind: crate::graph::classify(p.kind, target.kind, d.surface),
        evidence: Some(d.id@),
    }
}

/// The declared dependency names a project of the list, the last of that
/// name.
pub open spec fn names_project(d: crate::domain::ProjectDependency, all: Seq<crate::domain::ProjectManifest>, target: crate::domain::ProjectManifest) -> bool {
    match d.target {
        crate::domain::DependencyTarget::Project(t) => crate::graph::last_named(all, t@) == Some(target),
        crate::domain::DependencyTarget::ProtoPackage(_) => false,
    }
}

proof fn lemma_dependencies_added(g: GraphModel, p: crate::domain::ProjectManifest, ds: Seq<crate::domain::ProjectDependency>, all: Seq<crate::domain::ProjectManifest>)
    ensures
        forall|j: int, t: crate::domain::ProjectManifest| 0 <= j < ds.len() && #[trigger] names_project(ds[j], all, t)
            ==> apply_ops(g, crate::graph::dependencies_ops(p, ds, all)).edges.contains(dependency_edge(p, ds[j], t)),
    decreases ds.len(),
{
    if ds.len() > 0 {
        let init = ds.drop_last();
        lemma_dependencies_added(g, p, init, all);
        let a = crate::graph::dependencies_ops(p, init, all);
        let b = crate::graph::dependency_ops(p, ds.last(), all);
        crate::graph::lemma_apply_concat(g, a, b);
        let mid = apply_ops(g, a);
        assert forall|j: int, t: crate::domain::ProjectManifest| 0 <= j < ds.len() && #[trigger] names_project(ds[j], all, t)
            implies apply_ops(g, crate::graph::dependencies_ops(p, ds, all)).edges.contains(dependency_edge(p, ds[j], t)) by {
            if j < init.len() {
                assert(init[j] == ds[j]);
                assert(names_project(init[j], all, t));
                lemma_growth_keeps_edge(mid, b, dependency_edge(p, ds[j], t));
            } else {
                let e = dependency_edge(p, ds[j], t);
                assert(ds[j] == ds.last());
                assert(b == seq![GraphOp::AddEdge(e)]);
                crate::graph::lemma_apply_one(mid, b[0]);
                if !mid.edges.contains(e) {
                    assert(apply_op(mid, b[0]).edges[mid.edges.len() as int] == e);
                }
            }
        }
    }
}

proof fn lemma_declared_added(g: GraphModel, ps: Seq<crate::domain::ProjectManifest>, all: Seq<crate::domain::ProjectManifest>)
    ensures
        forall|i: int, j: int, t: crate::domain::ProjectManifest| 0 <= i < ps.len() && 0 <= j < ps[i].depends_on@.len()
            && #[trigger] names_project(ps[i].depends_on@[j], all, t)
            ==> apply_ops(g, crate::graph::declared_ops(ps, all)).edges.contains(dependency_edge(ps[i], ps[i].depends_on@[j], t)),
    decreases ps.len(),
{
    if ps.len() > 0 {
        let init = ps.drop_last();
        lemma_declared_added(g, init, all);
        let a = crate::graph::declared_ops(init, all);
        let p = ps.last();
        let b = crate::graph::dependencies_ops(p, p.depends_on@, all);
        crate::graph::lemma_apply_concat(g, a, b);
        let mid = apply_ops(g, a);
        lemma_dependencies_added(mid, p, p.depends_on@, all);
        assert forall|i: int, j: int, t: crate::domain::ProjectManifest| 0 <= i < ps.len() && 0 <= j < ps[i].depends_on@.len()
            && #[trigger] names_project(ps[i].depends_on@[j], all, t)
            implies apply_ops(g, crate::graph::declared_ops(ps, all)).edges.contains(dependency_edge(ps[i], ps[i].depends_on@[j], t)) by {
            if i < init.len() {
                assert(init[i] == ps[i]);
                lemma_growth_keeps_edge(mid, b, dependency_edge(ps[i], ps[i].depends_on@[j], t));
            } else {
                assert(ps[i] == p);
            }
        }
    }
}

/// The built graph records every declared project dependency whose target
/// exists: an edge from the depending project's node to the target's node,
/// classified by the two kinds and the declared surface, with the
/// dependency's id as evidence.
pub proof fn law_built_graph_holds_declared_dependencies(
    g: crate::domain::RepoGraph,
    ps: Seq<crate::domain::ProjectManifest>,
    ds: Seq<crate::ports::DiscoveredEdge>,
)
    requires
        is_built_graph(g, ps, ds),
    ensures
        forall|i: int, j: int, t: crate::domain::ProjectManifest| 0 <= i < ps.len() && 0 <= j < ps[i].depends_on@.len()
            && #[trigger] names_project(ps[i].depends_on@[j], ps, t)
            ==> crate::graph::graph_model(g).edges.contains(dependency_edge(ps[i], ps[i].depends_on@[j], t)),
{
    let e = crate::graph::empty_graph();
    let st = crate::graph::structure_ops(ps);
    let dec = crate::graph::declared_ops(ps, ps);
    let dis = crate::graph::discovered_ops(ds);
    assert(crate::graph::build_ops(ps, ds) =~= st + dec + dis);
    crate::graph::lemma_apply_concat(e, st + dec, dis);
    crate::graph::lemma_apply_concat(e, st, dec);
    let g1 = apply_ops(e, st);
    lemma_declared_added(g1, ps, ps);
    let g2 = apply_ops(g1, dec);
    let u = crate::graph::unordered_graph(ps, ds);
    let gm = crate::graph::graph_model(g);
    assert forall|i: int, j: int, t: crate::domain::ProjectManifest| 0 <= i < ps.len() && 0 <= j < ps[i].depends_on@.len()
        && #[trigger] names_project(ps[i].depends_on@[j], ps, t)
        implies gm.edges.contains(dependency_edge(ps[i], ps[i].depends_on@[j], t)) by {
        let ed = dependency_edge(ps[i], ps[i].depends_on@[j], t);
        lemma_growth_keeps_edge(g2, dis, ed);
        assert(u.edges.contains(ed));
        vstd::seq_lib::to_multiset_contains(u.edges, ed);
        assert(gm.edges.to_multiset().count(ed) > 0);
    }
}

// ---------------------------------------------------------------------------
// Function and block limits
// ---------------------------------------------------------------------------

/// The rule kind a span is measured by: functions by the function rule,
/// blocks by the block rule.
pub open spec fn measured_by(s: crate::code_size::SyntaxSpan) -> Option<crate::code_size::CodeSizeRuleKind> {
    match s.kind {
        crate::code_size::SyntaxSpanKind::Function => Some(crate::code_size::CodeSizeRuleKind::Function),
        crate::code_size::SyntaxSpanKind::Block => Some(crate::code_size::CodeSizeRuleKind::Block),
        _ => None,
    }
}

/// The span lies within a test span.
pub open spec fn inside_test_span(s: crate::code_size::SyntaxSpan, spans: Seq<crate::code_size::SyntaxSpan>) -> bool {
    exists|m: int| 0 <= m < spans.len() && (#[trigger] spans[m]).kind == crate::code_size::SyntaxSpanKind::Test
        && spans[m].start_byte <= s.start_byte && s.end_byte <= spans[m].end_byte
}

/// The rule that limits spans of a kind.
pub open spec fn limit_rule(e: crate::code_size::RuleEvaluation, k: crate::code_size::CodeSizeRuleKind) -> crate::code_size::CodeSizeRule {
    if k == crate::code_size::CodeSizeRuleKind::Function { e.function_rule } else { e.block_rule }
}

/// The span is over its limit and must be reported: its rule is asked for
/// and enabled, it is not test code left out by the rule, and it covers
/// more lines (first to last, both counted) than the rule allows.
pub open spec fn span_over_limit(e: crate::code_size::RuleEvaluation, s: crate::code_size::SyntaxSpan, k: crate::code_size::CodeSizeRuleKind) -> bool {
    let r = limit_rule(e, k);
    &&& e.requested@.len() == 0 || e.requested@.contains(k)
    &&& r.enabled
    &&& r.include_tests || !(e.test_path || inside_test_span(s, e.spans@))
    &&& (if s.end_line >= s.start_line { s.end_line - s.start_line } else { 0int }) + 1 > r.max_lines
}

/// The span is measured by a rule and over that rule's limit.
pub open spec fn over_limit(e: crate::code_size::RuleEvaluation, s: crate::code_size::SyntaxSpan) -> bool {
    match measured_by(s) {
        Some(k) => span_over_limit(e, s, k),
        None => false,
    }
}

/// The finding reports the span under the rule.
pub open spec fn reports_span(f: crate::code_size::FindingModel, s: crate::code_size::SyntaxSpan, k: crate::code_size::CodeSizeRuleKind, e: crate::code_size::RuleEvaluation) -> bool {
    &&& f.rule == k
    &&& f.path == e.path@
    &&& f.start_line == s.start_line
    &&& f.end_line == s.end_line
    &&& f.limit == limit_rule(e, k).max_lines
}

/// Some span of the list is over its limit and the finding reports it.
pub open spec fn reports_some_span(f: crate::code_size::FindingModel, spans: Seq<crate::code_size::SyntaxSpan>, e: crate::code_size::RuleEvaluation) -> bool {
    exists|k: int| 0 <= k < spans.len() && measured_by(#[trigger] spans[k]) == Some(f.rule) && span_over_limit(e, spans[k], f.rule)
        && reports_span(f, spans[k], f.rule, e)
}

/// Some finding of the list reports the span.
pub open spec fn span_reported(fs: Seq<crate::code_size::FindingModel>, s: crate::code_size::SyntaxSpan, k: crate::code_size::CodeSizeRuleKind, e: crate::code_size::RuleEvaluation) -> bool {
    exists|j: int| 0 <= j < fs.len() && reports_span(#[trigger] fs[j], s, k, e)
}

proof fn lemma_span_finding(e: crate::code_size::RuleEvaluation, s: crate::code_size::SyntaxSpan)
    ensures
        ({
            let fs = crate::code_size::span_finding(e, s);
            &&& fs.len() <= 1
            &&& over_limit(e, s) ==> fs.len() == 1 && reports_span(fs[0], s, measured_by(s)->Some_0, e)
            &&& fs.len() == 1 ==> measured_by(s) == Some(fs[0].rule) && span_over_limit(e, s, fs[0].rule) && reports_span(fs[0], s, fs[0].rule, e)
        }),
{
    assert(inside_test_span(s, e.spans@) == crate::code_size::in_test_range(s, e.spans@));
}

proof fn lemma_span_findings(e: crate::code_size::RuleEvaluation, spans: Seq<crate::code_size::SyntaxSpan>)
    ensures
        forall|k: int| 0 <= k < spans.len() && over_limit(e, #[trigger] spans[k])
            ==> span_reported(crate::code_size::span_findings(e, spans), spans[k], measured_by(spans[k])->Some_0, e),
        forall|j: int| 0 <= j < crate::code_size::span_findings(e, spans).len()
            ==> reports_some_span(#[trigger] crate::code_size::span_findings(e, spans)[j], spans, e),
    decreases spans.len(),
{
    if spans.len() > 0 {
        let init = spans.drop_last();
        lemma_span_findings(e, init);
        let pre = crate::code_size::span_findings(e, init);
        let last = crate::code_size::span_finding(e, spans.last());
        lemma_span_finding(e, spans.last());
        let all = crate::code_size::span_findings(e, spans);
        assert(all == pre + last);
        let n = spans.len() - 1;
        assert(spans[n] == spans.last());
        assert forall|k: int| 0 <= k < spans.len() && over_limit(e, #[trigger] spans[k])
            implies span_reported(all, spans[k], measured_by(spans[k])->Some_0, e) by {
            if k < n {
                assert(init[k] == spans[k]);
                let j = choose|j: int| 0 <= j < pre.len() && reports_span(#[trigger] pre[j], init[k], measured_by(init[k])->Some_0, e);
                assert(all[j] == pre[j]);
            } else {
                assert(all[pre.len() as int] == last[0]);
            }
        }
        assert forall|j: int| 0 <= j < all.len() implies reports_some_span(#[trigger] all[j], spans, e) by {
            if j < pre.len() {
                assert(all[j] == pre[j]);
                assert(reports_some_span(pre[j], init, e));
                let k = choose|k: int| 0 <= k < init.len() && measured_by(#[trigger] init[k]) == Some(pre[j].rule)
                    && span_over_limit(e, init[k], pre[j].rule) && reports_span(pre[j], init[k], pre[j].rule, e);
                assert(spans[k] == init[k]);
            } else {
                assert(all[j] == last[0]);
            }
        }
    }
}

/// Function and block spans are held to their limits: when the parse met
/// no error, every span over its limit (its rule asked for and enabled, not
/// test code that the rule leaves out, more lines than allowed) is
/// reported, and every finding other than the whole-file one reports such a
/// span; so a function inside test code is never reported when its rule
/// leaves tests out.
pub proof fn law_spans_over_limit_are_reported(e: crate::code_size::RuleEvaluation)
    ensures
        !e.has_error ==> forall|k: int| 0 <= k < e.spans@.len()
            && over_limit(e, #[trigger] e.spans@[k])
            ==> span_reported(crate::code_size::code_size_findings(e), e.spans@[k], measured_by(e.spans@[k])->Some_0, e),
        forall|j: int| 0 <= j < crate::code_size::code_size_findings(e).len()
            && (#[trigger] crate::code_size::code_size_findings(e)[j]).rule != crate::code_size::CodeSizeRuleKind::File
            ==> !e.has_error && reports_some_span(crate::code_size::code_size_findings(e)[j], e.spans@, e),
{
    let ff = crate::code_size::file_findings(e);
    let all = crate::code_size::code_size_findings(e);
    lemma_span_findings(e, e.spans@);
    let sf = crate::code_size::span_findings(e, e.spans@);
    if e.has_error {
        assert(all =~= ff);
    } else {
        assert(all == ff + sf);
        assert forall|k: int| 0 <= k < e.spans@.len()
            && over_limit(e, #[trigger] e.spans@[k])
            implies span_reported(all, e.spans@[k], measured_by(e.spans@[k])->Some_0, e) by {
            let j = choose|j: int| 0 <= j < sf.len() && reports_span(#[trigger] sf[j], e.spans@[k], measured_by(e.spans@[k])->Some_0, e);
            assert(all[ff.len() + j] == sf[j]);
        }
    }
    assert forall|j: int| 0 <= j < all.len() && (#[trigger] all[j]).rule != crate::code_size::CodeSizeRuleKind::File
        implies !e.has_error && reports_some_span(all[j], e.spans@, e) by {
        if j < ff.len() {
            assert(all[j] == ff[j]);
        } else {
            assert(!e.has_error);
            assert(all[j] == sf[j - ff.len()]);
        }
    }
}

/// The whole-file limit: a file is reported exactly when the file rule is
/// asked for and enabled, the file is not a test file left out by the rule,
/// and its effective line count is over the limit; the finding then gives
/// that count and the limit.
pub proof fn law_file_limit(e: crate::code_size::RuleEvaluation)
    ensures
        crate::code_size::file_findings(e).len() <= 1,
        crate::code_size::file_findings(e).len() == 1 <==> (
            (e.requested@.len() == 0 || e.requested@.contains(crate::code_size::CodeSizeRuleKind::File))
            && e.file_rule.enabled
            && (e.file_rule.include_tests || !e.test_path)
            && crate::code_size::file_count(e) <= u32::MAX
            && crate::code_size::file_count(e) > e.file_rule.max_lines),
        crate::code_size::file_findings(e).len() == 1 ==> ({
            let f = crate::code_size::file_findings(e)[0];
            &&& f.rule == crate::code_size::CodeSizeRuleKind::File
            &&& f.path == e.path@
            &&& f.measured_lines == crate::code_size::file_count(e)
            &&& f.limit == e.file_rule.max_lines
        }),
{
}

// ---------------------------------------------------------------------------
// Generated code
// ---------------------------------------------------------------------------

/// The file is generated code: it lies under a `generated` directory, or it
/// lies inside a project and matches one of that project's do-not-edit
/// globs (taken from the repository root when it starts with `**/`, else
/// below the project's path).
pub open spec fn is_generated_code(ps: Seq<crate::domain::ProjectManifest>, f: Seq<char>) -> bool {
    ||| crate::domain::glob_matches("**/generated/**"@, f)
    ||| exists|i: int, k: int| 0 <= i < ps.len() && 0 <= k < ps[i].ai.do_not_edit@.len()
        && crate::domain::path_below(f, ps[i].path@)
        && #[trigger] hits_do_not_edit(ps[i].path@, ps[i].ai.do_not_edit@[k]@, f)
}

/// The do-not-edit glob, from the repository root when it starts with
/// `**/` and below the project's path otherwise, compiles and matches.
pub open spec fn hits_do_not_edit(root: Seq<char>, g: Seq<char>, f: Seq<char>) -> bool {
    glob_hits(if crate::text::has_prefix(g, "**/"@) { g } else { root + "/"@ + g }, f)
}

/// The glob compiles and matches the path.
pub open spec fn glob_hits(pattern: Seq<char>, f: Seq<char>) -> bool {
    crate::domain::glob_parse(pattern) is Ok && crate::domain::glob_matches(pattern, f)
}

/// An error that the generated file must not be edited, pointing at it.
pub open spec fn flags_generated(d: crate::diagnostic::DiagnosticModel, f: Seq<char>) -> bool {
    &&& d.code == "policy.generated_code_readonly"@
    &&& d.severity == crate::diagnostic::Severity::Error
    &&& d.source == Some(crate::diagnostic::SourceModel { path: f, span: None })
}

/// Some changed file is generated code and the diagnostic flags it.
pub open spec fn flags_some_file(d: crate::diagnostic::DiagnosticModel, fs: Seq<Seq<char>>, ps: Seq<crate::domain::ProjectManifest>) -> bool {
    exists|m: int| 0 <= m < fs.len() && is_generated_code(ps, #[trigger] fs[m]) && flags_generated(d, fs[m])
}

/// Some diagnostic of the list flags the file.
pub open spec fn file_flagged(ds: Seq<crate::diagnostic::DiagnosticModel>, f: Seq<char>) -> bool {
    exists|j: int| 0 <= j < ds.len() && flags_generated(#[trigger] ds[j], f)
}

proof fn lemma_generated_same(ps: Seq<crate::domain::ProjectManifest>, f: Seq<char>)
    ensures
        crate::policy::generated_file(ps, f) == is_generated_code(ps, f),
{
    if crate::policy::generated_file(ps, f) && !crate::domain::glob_matches("**/generated/**"@, f) {
        let i = choose|i: int| 0 <= i < ps.len() && crate::policy::project_generated(#[trigger] ps[i], f);
        let k = choose|k: int| 0 <= k < ps[i].ai.do_not_edit@.len()
            && crate::policy::pattern_hits(ps[i].path@, (#[trigger] ps[i].ai.do_not_edit@[k])@, f);
        assert(hits_do_not_edit(ps[i].path@, ps[i].ai.do_not_edit@[k]@, f));
    }
    if is_generated_code(ps, f) && !crate::domain::glob_matches("**/generated/**"@, f) {
        let (i, k) = choose|i: int, k: int| 0 <= i < ps.len() && 0 <= k < ps[i].ai.do_not_edit@.len()
            && crate::domain::path_below(f, ps[i].path@)
            && #[trigger] hits_do_not_edit(ps[i].path@, ps[i].ai.do_not_edit@[k]@, f);
        assert(crate::policy::pattern_hits(ps[i].path@, ps[i].ai.do_not_edit@[k]@, f));
        assert(crate::policy::project_generated(ps[i], f));
    }
}

/// The generated-code rule reports exactly the changed files that are
/// generated code: one error per such file, pointing at it, and nothing
/// else.
pub proof fn law_generated_files_are_flagged(fs: Seq<Seq<char>>, ps: Seq<crate::domain::ProjectManifest>)
    ensures
        forall|m: int| 0 <= m < fs.len() && is_generated_code(ps, #[trigger] fs[m])
            ==> file_flagged(crate::policy::generated_report(fs, ps), fs[m]),
        forall|j: int| 0 <= j < crate::policy::generated_report(fs, ps).len()
            ==> flags_some_file(#[trigger] crate::policy::generated_report(fs, ps)[j], fs, ps),
    decreases fs.len(),
{
    let r = crate::policy::generated_report(fs, ps);
    if fs.len() > 0 {
        let init = fs.drop_last();
        let f = fs.last();
        law_generated_files_are_flagged(init, ps);
        lemma_generated_same(ps, f);
        let pre = crate::policy::generated_report(init, ps);
        let n = fs.len() - 1;
        assert(fs[n] == f);
        assert forall|m: int| 0 <= m < fs.len() && is_generated_code(ps, #[trigger] fs[m]) implies file_flagged(r, fs[m]) by {
            if m < n {
                assert(init[m] == fs[m]);
                let j = choose|j: int| 0 <= j < pre.len() && flags_generated(#[trigger] pre[j], init[m]);
                assert(r[j] == pre[j]);
            } else {
                assert(r[pre.len() as int] == r.last());
            }
        }
        assert forall|j: int| 0 <= j < r.len() implies flags_some_file(#[trigger] r[j], fs, ps) by {
            if j < pre.len() {
                assert(r[j] == pre[j]);
                assert(flags_some_file(pre[j], init, ps));
                let m = choose|m: int| 0 <= m < init.len() && is_generated_code(ps, #[trigger] init[m]) && flags_generated(pre[j], init[m]);
                assert(fs[m] == init[m]);
            } else {
                assert(flags_generated(r[j], f));
            }
        }
    }
}

// ---------------------------------------------------------------------------
// Risk flags and high-risk changes
// ---------------------------------------------------------------------------

/// The changed file raises the risk flag: `core-infra` for a file under
/// `core-infra/`, `prod-iac` for a file under a production IaC stack; a
/// repository-wide change raises neither.
pub open spec fn raises_flag(f: Seq<char>, flag: Seq<char>, second_skills_root: Seq<char>) -> bool {
    &&& !crate::affected::repo_wide_change(f, second_skills_root)
    &&& (flag == "core-infra"@ && crate::text::has_prefix(f, "core-infra/"@)
        || flag == "prod-iac"@ && crate::text::has_infix(f, "/iac/stacks/prod"@))
}

proof fn lemma_flags_raised(fs: Seq<Seq<char>>, second: Seq<char>)
    ensures
        forall|x: Seq<char>| #[trigger] crate::affected::files_flags(fs, second).contains(x)
            <==> exists|m: int| 0 <= m < fs.len() && raises_flag(#[trigger] fs[m], x, second),
    decreases fs.len(),
{
    if fs.len() > 0 {
        let init = fs.drop_last();
        let f = fs.last();
        lemma_flags_raised(init, second);
        let pre = crate::affected::files_flags(init, second);
        let all = crate::affected::files_flags(fs, second);
        let n = fs.len() - 1;
        assert(fs[n] == f);
        let add = if crate::affected::repo_wide_change(f, second) { Seq::<Seq<char>>::empty() } else { crate::affected::file_flags(f) };
        assert(all =~= pre + add);
        assert forall|x: Seq<char>| add.contains(x) <==> raises_flag(f, x, second) by {
            if !crate::affected::repo_wide_change(f, second) {
                let c = if crate::text::has_prefix(f, "core-infra/"@) { seq!["core-infra"@] } else { Seq::<Seq<char>>::empty() };
                let d = if crate::text::has_infix(f, "/iac/stacks/prod"@) { seq!["prod-iac"@] } else { Seq::<Seq<char>>::empty() };
                assert(add == c + d);
                if add.contains(x) {
                    let k = choose|k: int| 0 <= k < add.len() && add[k] == x;
                    if k < c.len() {
                        assert(c[k] == x);
                    } else {
                        assert(d[k - c.len()] == x);
                    }
                }
                if raises_flag(f, x, second) {
                    if x == "core-infra"@ && crate::text::has_prefix(f, "core-infra/"@) {
                        assert(add[0] == x);
                    } else {
                        assert(add[c.len() as int] == x);
                    }
                }
            }
        }
        assert forall|x: Seq<char>| #[trigger] all.contains(x) implies exists|m: int| 0 <= m < fs.len() && raises_flag(#[trigger] fs[m], x, second) by {
            let k = choose|k: int| 0 <= k < all.len() && all[k] == x;
            if k < pre.len() {
                assert(pre[k] == x);
                assert(pre.contains(x));
                let m = choose|m: int| 0 <= m < init.len() && raises_flag(#[trigger] init[m], x, second);
                assert(fs[m] == init[m]);
            } else {
                assert(add[k - pre.len()] == x);
                assert(add.contains(x));
                assert(raises_flag(fs[n], x, second));
            }
        }
        assert forall|x: Seq<char>| (exists|m: int| 0 <= m < fs.len() && raises_flag(#[trigger] fs[m], x, second)) implies #[trigger] all.contains(x) by {
            let m = choose|m: int| 0 <= m < fs.len() && raises_flag(#[trigger] fs[m], x, second);
            if m < n {
                assert(init[m] == fs[m]);
                assert(raises_flag(init[m], x, second));
                assert(pre.contains(x));
                let k = choose|k: int| 0 <= k < pre.len() && pre[k] == x;
                assert(all[k] == x);
            } else {
                assert(add.contains(x));
                let k = choose|k: int| 0 <= k < add.len() && add[k] == x;
                assert(all[pre.len() + k] == x);
            }
        }
    }
}

/// The report's risk flags are exactly those the changed files raise:
/// `core-infra` when a file under `core-infra/` changed and `prod-iac`
/// when a file under a production IaC stack changed, repository-wide
/// changes aside.
pub proof fn law_risk_flags_follow_files(
    s: crate::domain::RepoSnapshot,
    files: Seq<Seq<char>>,
    requested: Seq<Seq<char>>,
    r: crate::requests::AffectedReport,
)
    requires
        crate::affected::is_affected_report(s, files, requested, r),
    ensures
        forall|x: Seq<char>| #[trigger] strs(r.risk_flags@).contains(x)
            <==> exists|m: int| 0 <= m < files.len() && raises_flag(#[trigger] files[m], x, s.repo_manifest.claude_skills_root@),
{
    let second = s.repo_manifest.claude_skills_root@;
    lemma_flags_raised(files, second);
    let fl = crate::affected::files_flags(files, second);
    lemma_sorted_distinct_holds(fl);
    assert forall|x: Seq<char>| #[trigger] strs(r.risk_flags@).contains(x)
        <==> exists|m: int| 0 <= m < files.len() && raises_flag(#[trigger] files[m], x, second) by {
        assert(strs(r.risk_flags@).contains(x) == fl.contains(x));
    }
}

/// The high-risk rule warns, for every changed file under core
/// infrastructure or a production IaC stack of an app or foundation, that
/// the change needs review, pointing at the file; and it warns about
/// nothing else.
pub proof fn law_high_risk_changes_are_warned(fs: Seq<Seq<char>>, snapshot: crate::domain::RepoSnapshot)
    ensures
        forall|m: int| 0 <= m < fs.len() && #[trigger] high_risk_path(fs[m])
            ==> warned(crate::policy::high_risk_report(fs, snapshot), fs[m]),
        forall|j: int| 0 <= j < crate::policy::high_risk_report(fs, snapshot).len()
            ==> warns_some_file(#[trigger] crate::policy::high_risk_report(fs, snapshot)[j], fs),
    decreases fs.len(),
{
    let r = crate::policy::high_risk_report(fs, snapshot);
    if fs.len() > 0 {
        let init = fs.drop_last();
        let f = fs.last();
        law_high_risk_changes_are_warned(init, snapshot);
        let pre = crate::policy::high_risk_report(init, snapshot);
        let n = fs.len() - 1;
        assert(fs[n] == f);
        assert(high_risk_path(f) == crate::policy::high_risk_file(f)) by {
            reveal_strlit("core-infra/**");
            if crate::policy::high_risk_file(f) {
                let k = choose|k: int| 0 <= k < 5 && crate::domain::glob_matches(#[trigger] crate::policy::high_risk_patterns()[k], f);
            }
            if high_risk_path(f) {
                if crate::domain::glob_matches("core-infra/**"@, f) {
                    assert(crate::domain::glob_matches(crate::policy::high_risk_patterns()[0], f));
                } else if crate::domain::glob_matches("apps/*/iac/stacks/prod/**"@, f) {
                    assert(crate::domain::glob_matches(crate::policy::high_risk_patterns()[1], f));
                } else if crate::domain::glob_matches("apps/*/iac/stacks/prod*"@, f) {
                    assert(crate::domain::glob_matches(crate::policy::high_risk_patterns()[2], f));
                } else if crate::domain::glob_matches("foundations/*/iac/stacks/prod/**"@, f) {
                    assert(crate::domain::glob_matches(crate::policy::high_risk_patterns()[3], f));
                } else {
                    assert(crate::domain::glob_matches(crate::policy::high_risk_patterns()[4], f));
                }
            }
        }
        assert forall|m: int| 0 <= m < fs.len() && #[trigger] high_risk_path(fs[m]) implies warned(r, fs[m]) by {
            if m < n {
                assert(init[m] == fs[m]);
                let j = choose|j: int| 0 <= j < pre.len() && warns_high_risk(#[trigger] pre[j], init[m]);
                assert(r[j] == pre[j]);
            } else {
                assert(r[pre.len() as int] == r.last());
            }
        }
        assert forall|j: int| 0 <= j < r.len() implies warns_some_file(#[trigger] r[j], fs) by {
            if j < pre.len() {
                assert(r[j] == pre[j]);
                assert(warns_some_file(pre[j], init));
                let m = choose|m: int| 0 <= m < init.len() && #[trigger] high_risk_path(init[m]) && warns_high_risk(pre[j], init[m]);
                assert(fs[m] == init[m]);
            } else {
                assert(warns_high_risk(r[j], f));
            }
        }
    }
}

/// The path is matched by one of the high-risk globs: core
/// infrastructure, or a production IaC stack of an app or a foundation.
pub open spec fn high_risk_path(f: Seq<char>) -> bool {
    ||| crate::domain::glob_matches("core-infra/**"@, f)
    ||| crate::domain::glob_matches("apps/*/iac/stacks/prod/**"@, f)
    ||| crate::domain::glob_matches("apps/*/iac/stacks/prod*"@, f)
    ||| crate::domain::glob_matches("foundations/*/iac/stacks/prod/**"@, f)
    ||| crate::domain::glob_matches("foundations/*/iac/stacks/prod*"@, f)
}

/// Some diagnostic of the list warns about the file.
pub open spec fn warned(ds: Seq<crate::diagnostic::DiagnosticModel>, f: Seq<char>) -> bool {
    exists|j: int| 0 <= j < ds.len() && warns_high_risk(#[trigger] ds[j], f)
}

/// Some changed file is high risk and the diagnostic warns about it.
pub open spec fn warns_some_file(d: crate::diagnostic::DiagnosticModel, fs: Seq<Seq<char>>) -> bool {
    exists|m: int| 0 <= m < fs.len() && #[trigger] high_risk_path(fs[m]) && warns_high_risk(d, fs[m])
}

/// A warning that the change to the file needs review, pointing at it.
pub open spec fn warns_high_risk(d: crate::diagnostic::DiagnosticModel, f: Seq<char>) -> bool {
    &&& d.code == "policy.high_risk_iac"@
    &&& d.severity == crate::diagnostic::Severity::Warning
    &&& d.message == "high-risk infrastructure change `"@ + f + "` requires review"@
    &&& d.source == Some(crate::diagnostic::SourceModel { path: f, span: None })
}

// ---------------------------------------------------------------------------
// Affected tasks
// ---------------------------------------------------------------------------

/// The command yields the task id `project:workspace:task` when its
/// workspace is among the reported ones (or none are reported).
pub open spec fn cmd_yields(p: Seq<char>, t: Seq<char>, c: crate::domain::TaskCommand, wset: Seq<Seq<char>>, x: Seq<char>) -> bool {
    &&& wset.len() == 0 || wset.contains(p + ":"@ + c.workspace@)
    &&& x == p + ":"@ + c.workspace@ + ":"@ + t
}

/// One of the task's commands yields the id, and the task is requested (or
/// none are).
pub open spec fn task_yields(
    p: Seq<char>,
    entry: (crate::domain::TaskName, Vec<crate::domain::TaskCommand>),
    req: Seq<Seq<char>>,
    wset: Seq<Seq<char>>,
    x: Seq<char>,
) -> bool {
    &&& req.len() == 0 || req.contains(entry.0@)
    &&& exists|ci: int| 0 <= ci < entry.1@.len() && cmd_yields(p, entry.0@, #[trigger] entry.1@[ci], wset, x)
}

/// One of the project's tasks yields the id.
pub open spec fn project_yields(p: crate::domain::ProjectManifest, req: Seq<Seq<char>>, wset: Seq<Seq<char>>, x: Seq<char>) -> bool {
    exists|ti: int| 0 <= ti < p.tasks@.len() && task_yields(p.name@, #[trigger] p.tasks@[ti], req, wset, x)
}

proof fn lemma_command_tasks(p: Seq<char>, t: Seq<char>, cs: Seq<crate::domain::TaskCommand>, wset: Seq<Seq<char>>)
    ensures
        forall|x: Seq<char>| #[trigger] crate::affected::command_tasks(p, t, cs, wset).contains(x)
            <==> exists|ci: int| 0 <= ci < cs.len() && cmd_yields(p, t, #[trigger] cs[ci], wset, x),
    decreases cs.len(),
{
    if cs.len() > 0 {
        let init = cs.drop_last();
        let c = cs.last();
        lemma_command_tasks(p, t, init, wset);
        let pre = crate::affected::command_tasks(p, t, init, wset);
        let all = crate::affected::command_tasks(p, t, cs, wset);
        let n = cs.len() - 1;
        assert(cs[n] == c);
        assert(crate::affected::workspace_id(p, c.workspace@) == p + ":"@ + c.workspace@);
        assert(crate::affected::task_id(p, c.workspace@, t) == p + ":"@ + c.workspace@ + ":"@ + t);
        assert forall|x: Seq<char>| #[trigger] all.contains(x) <==> exists|ci: int| 0 <= ci < cs.len() && cmd_yields(p, t, #[trigger] cs[ci], wset, x) by {
            if all.contains(x) {
                let k = choose|k: int| 0 <= k < all.len() && all[k] == x;
                if k < pre.len() {
                    assert(pre[k] == x);
                    assert(pre.contains(x));
                    let ci = choose|ci: int| 0 <= ci < init.len() && cmd_yields(p, t, #[trigger] init[ci], wset, x);
                    assert(cs[ci] == init[ci]);
                } else {
                    assert(cmd_yields(p, t, cs[n], wset, x));
                }
            }
            if exists|ci: int| 0 <= ci < cs.len() && cmd_yields(p, t, #[trigger] cs[ci], wset, x) {
                let ci = choose|ci: int| 0 <= ci < cs.len() && cmd_yields(p, t, #[trigger] cs[ci], wset, x);
                if ci < n {
                    assert(init[ci] == cs[ci]);
                    assert(cmd_yields(p, t, init[ci], wset, x));
                    assert(pre.contains(x));
                    let k = choose|k: int| 0 <= k < pre.len() && pre[k] == x;
                    assert(all[k] == x);
                } else {
                    assert(all[all.len() - 1] == x);
                }
            }
        }
    }
}

proof fn lemma_project_tasks(p: Seq<char>, ts: Seq<(crate::domain::TaskName, Vec<crate::domain::TaskCommand>)>, req: Seq<Seq<char>>, wset: Seq<Seq<char>>)
    ensures
        forall|x: Seq<char>| #[trigger] crate::affected::project_tasks(p, ts, req, wset).contains(x)
            <==> exists|ti: int| 0 <= ti < ts.len() && task_yields(p, #[trigger] ts[ti], req, wset, x),
    decreases ts.len(),
{
    if ts.len() > 0 {
        let init = ts.drop_last();
        let e = ts.last();
        lemma_project_tasks(p, init, req, wset);
        lemma_command_tasks(p, e.0@, e.1@, wset);
        let pre = crate::affected::project_tasks(p, init, req, wset);
        let add = if req.len() > 0 && !req.contains(e.0@) { Seq::<Seq<char>>::empty() } else { crate::affected::command_tasks(p, e.0@, e.1@, wset) };
        let all = crate::affected::project_tasks(p, ts, req, wset);
        assert(all == pre + add);
        let n = ts.len() - 1;
        assert(ts[n] == e);
        assert forall|x: Seq<char>| add.contains(x) <==> task_yields(p, e, req, wset, x) by {}
        assert forall|x: Seq<char>| #[trigger] all.contains(x) <==> exists|ti: int| 0 <= ti < ts.len() && task_yields(p, #[trigger] ts[ti], req, wset, x) by {
            if all.contains(x) {
                let k = choose|k: int| 0 <= k < all.len() && all[k] == x;
                if k < pre.len() {
                    assert(pre[k] == x);
                    assert(pre.contains(x));
                    let ti = choose|ti: int| 0 <= ti < init.len() && task_yields(p, #[trigger] init[ti], req, wset, x);
                    assert(ts[ti] == init[ti]);
                } else {
                    assert(add[k - pre.len()] == x);
                    assert(add.contains(x));
                    assert(task_yields(p, ts[n], req, wset, x));
                }
            }
            if exists|ti: int| 0 <= ti < ts.len() && task_yields(p, #[trigger] ts[ti], req, wset, x) {
                let ti = choose|ti: int| 0 <= ti < ts.len() && task_yields(p, #[trigger] ts[ti], req, wset, x);
                if ti < n {
                    assert(init[ti] == ts[ti]);
                    assert(task_yields(p, init[ti], req, wset, x));
                    assert(pre.contains(x));
                    let k = choose|k: int| 0 <= k < pre.len() && pre[k] == x;
                    assert(all[k] == x);
                } else {
                    assert(add.contains(x));
                    let k = choose|k: int| 0 <= k < add.len() && add[k] == x;
                    assert(all[pre.len() + k] == x);
                }
            }
        }
    }
}

proof fn lemma_affected_tasks(ps: Seq<crate::domain::ProjectManifest>, names: Seq<Seq<char>>, req: Seq<Seq<char>>, wset: Seq<Seq<char>>)
    ensures
        forall|x: Seq<char>| #[trigger] crate::affected::affected_tasks(ps, names, req, wset).contains(x)
            <==> exists|i: int| 0 <= i < ps.len() && names.contains(ps[i].name@) && project_yields(#[trigger] ps[i], req, wset, x),
    decreases ps.len(),
{
    if ps.len() > 0 {
        let init = ps.drop_last();
        let p = ps.last();
        lemma_affected_tasks(init, names, req, wset);
        lemma_project_tasks(p.name@, p.tasks@, req, wset);
        let pre = crate::affected::affected_tasks(init, names, req, wset);
        let add = if names.contains(p.name@) { crate::affected::project_tasks(p.name@, p.tasks@, req, wset) } else { Seq::<Seq<char>>::empty() };
        let all = crate::affected::affected_tasks(ps, names, req, wset);
        assert(all == pre + add);
        let n = ps.len() - 1;
        assert(ps[n] == p);
        assert forall|x: Seq<char>| add.contains(x) <==> (names.contains(p.name@) && project_yields(p, req, wset, x)) by {}
        assert forall|x: Seq<char>| #[trigger] all.contains(x) <==> exists|i: int| 0 <= i < ps.len() && names.contains(ps[i].name@)
            && project_yields(#[trigger] ps[i], req, wset, x) by {
            if all.contains(x) {
                let k = choose|k: int| 0 <= k < all.len() && all[k] == x;
                if k < pre.len() {
                    assert(pre[k] == x);
                    assert(pre.contains(x));
                    let i = choose|i: int| 0 <= i < init.len() && names.contains(init[i].name@) && project_yields(#[trigger] init[i], req, wset, x);
                    assert(ps[i] == init[i]);
                } else {
                    assert(add[k - pre.len()] == x);
                    assert(add.contains(x));
                    assert(project_yields(ps[n], req, wset, x));
                }
            }
            if exists|i: int| 0 <= i < ps.len() && names.contains(ps[i].name@) && project_yields(#[trigger] ps[i], req, wset, x) {
                let i = choose|i: int| 0 <= i < ps.len() && names.contains(ps[i].name@) && project_yields(#[trigger] ps[i], req, wset, x);
                if i < n {
                    assert(init[i] == ps[i]);
                    assert(project_yields(init[i], req, wset, x));
                    assert(pre.contains(x));
                    let k = choose|k: int| 0 <= k < pre.len() && pre[k] == x;
                    assert(all[k] == x);
                } else {
                    assert(add.contains(x));
                    let k = choose|k: int| 0 <= k < add.len() && add[k] == x;
                    assert(all[pre.len() + k] == x);
                }
            }
        }
    }
}

/// The reported tasks are exactly the requested tasks of the affected
/// projects in the reported workspaces: `project:workspace:task` is
/// reported when the project is affected (directly or transitively), the
/// task is requested (or none is), and the command's workspace is among
/// the reported workspaces (or none is reported); and only then.
pub proof fn law_affected_tasks_follow_projects(
    s: crate::domain::RepoSnapshot,
    files: Seq<Seq<char>>,
    requested: Seq<Seq<char>>,
    r: crate::requests::AffectedReport,
)
    requires
        crate::affected::is_affected_report(s, files, requested, r),
    ensures
        forall|x: Seq<char>| #[trigger] strs(r.tasks@).contains(x) <==> exists|i: int| 0 <= i < s.projects@.len()
            && (crate::affected::name_views(r.directly_affected@).contains(s.projects@[i].name@)
                || crate::affected::name_views(r.transitively_affected@).contains(s.projects@[i].name@))
            && project_yields(#[trigger] s.projects@[i], requested, strs(r.workspaces@), x),
{
    let d = crate::affected::direct_projects(s, files);
    let p = crate::affected::propagation(s, files);
    let names = d + p.0;
    let wset = crate::affected::report_workspaces(s, files);
    let ts = crate::affected::affected_tasks(s.projects@, names, requested, wset);
    lemma_affected_tasks(s.projects@, names, requested, wset);
    lemma_sorted_distinct_holds(ts);
    lemma_sorted_distinct_holds(p.0);
    assert forall|n: Seq<char>| names.contains(n) <==> (d.contains(n) || p.0.contains(n)) by {
        if d.contains(n) {
            let k = choose|k: int| 0 <= k < d.len() && d[k] == n;
            assert(names[k] == n);
        }
        if p.0.contains(n) {
            let k = choose|k: int| 0 <= k < p.0.len() && p.0[k] == n;
            assert(names[d.len() + k] == n);
        }
        if names.contains(n) {
            let k = choose|k: int| 0 <= k < names.len() && names[k] == n;
            if k < d.len() {
                assert(d[k] == n);
            } else {
                assert(p.0[k - d.len()] == n);
            }
        }
    }
    assert forall|x: Seq<char>| #[trigger] strs(r.tasks@).contains(x) <==> exists|i: int| 0 <= i < s.projects@.len()
        && (crate::affected::name_views(r.directly_affected@).contains(s.projects@[i].name@)
            || crate::affected::name_views(r.transitively_affected@).contains(s.projects@[i].name@))
        && project_yields(#[trigger] s.projects@[i], requested, strs(r.workspaces@), x) by {
        assert(strs(r.tasks@).contains(x) == ts.contains(x));
    }
}

// ---------------------------------------------------------------------------
// Affected workspaces
// ---------------------------------------------------------------------------

proof fn lemma_kept_workspaces(p: Seq<char>, ws: Seq<crate::domain::WorkspaceSpec>, dws: Seq<Seq<char>>)
    ensures
        forall|x: Seq<char>| #[trigger] crate::affected::kept_workspaces(p, ws, dws).contains(x)
            <==> exists|j: int| 0 <= j < ws.len() && x == p + ":"@ + (#[trigger] ws[j]).name@
                && crate::affected::keeps_workspace(dws, p, x),
    decreases ws.len(),
{
    if ws.len() > 0 {
        let init = ws.drop_last();
        lemma_kept_workspaces(p, init, dws);
        let pre = crate::affected::kept_workspaces(p, init, dws);
        let all = crate::affected::kept_workspaces(p, ws, dws);
        let n = ws.len() - 1;
        let id = crate::affected::workspace_id(p, ws[n].name@);
        assert(ws.last() == ws[n]);
        assert forall|x: Seq<char>| #[trigger] all.contains(x) <==> exists|j: int| 0 <= j < ws.len() && x == p + ":"@ + (#[trigger] ws[j]).name@
            && crate::affected::keeps_workspace(dws, p, x) by {
            if all.contains(x) {
                let k = choose|k: int| 0 <= k < all.len() && all[k] == x;
                if k < pre.len() {
                    assert(pre[k] == x);
                    assert(pre.contains(x));
                    let j = choose|j: int| 0 <= j < init.len() && x == p + ":"@ + (#[trigger] init[j]).name@ && crate::affected::keeps_workspace(dws, p, x);
                    assert(ws[j] == init[j]);
                } else {
                    assert(x == id);
                }
            }
            if exists|j: int| 0 <= j < ws.len() && x == p + ":"@ + (#[trigger] ws[j]).name@ && crate::affected::keeps_workspace(dws, p, x) {
                let j = choose|j: int| 0 <= j < ws.len() && x == p + ":"@ + (#[trigger] ws[j]).name@ && crate::affected::keeps_workspace(dws, p, x);
                if j < n {
                    assert(init[j] == ws[j]);
                    assert(pre.contains(x));
                    let k = choose|k: int| 0 <= k < pre.len() && pre[k] == x;
                    assert(all[k] == x);
                } else {
                    assert(all[all.len() - 1] == x);
                }
            }
        }
    }
}

proof fn lemma_affected_workspaces(ps: Seq<crate::domain::ProjectManifest>, names: Seq<Seq<char>>, dws: Seq<Seq<char>>)
    ensures
        forall|x: Seq<char>| #[trigger] crate::affected::affected_workspaces(ps, names, dws).contains(x)
            <==> exists|i: int| 0 <= i < ps.len() && names.contains(ps[i].name@)
                && crate::affected::kept_workspaces((#[trigger] ps[i]).name@, ps[i].workspaces@, dws).contains(x),
    decreases ps.len(),
{
    if ps.len() > 0 {
        let init = ps.drop_last();
        let p = ps.last();
        lemma_affected_workspaces(init, names, dws);
        let pre = crate::affected::affected_workspaces(init, names, dws);
        let add = if names.contains(p.name@) { crate::affected::kept_workspaces(p.name@, p.workspaces@, dws) } else { Seq::<Seq<char>>::empty() };
        let all = crate::affected::affected_workspaces(ps, names, dws);
        assert(all == pre + add);
        let n = ps.len() - 1;
        assert(ps[n] == p);
        assert forall|x: Seq<char>| #[trigger] all.contains(x) <==> exists|i: int| 0 <= i < ps.len() && names.contains(ps[i].name@)
            && crate::affected::kept_workspaces((#[trigger] ps[i]).name@, ps[i].workspaces@, dws).contains(x) by {
            if all.contains(x) {
                let k = choose|k: int| 0 <= k < all.len() && all[k] == x;
                if k < pre.len() {
                    assert(pre[k] == x);
                    assert(pre.contains(x));
                    let i = choose|i: int| 0 <= i < init.len() && names.contains(init[i].name@)
                        && crate::affected::kept_workspaces((#[trigger] init[i]).name@, init[i].workspaces@, dws).contains(x);
                    assert(ps[i] == init[i]);
                } else {
                    assert(add[k - pre.len()] == x);
                }
            }
            if exists|i: int| 0 <= i < ps.len() && names.contains(ps[i].name@)
                && crate::affected::kept_workspaces((#[trigger] ps[i]).name@, ps[i].workspaces@, dws).contains(x) {
                let i = choose|i: int| 0 <= i < ps.len() && names.contains(ps[i].name@)
                    && crate::affected::kept_workspaces((#[trigger] ps[i]).name@, ps[i].workspaces@, dws).contains(x);
                if i < n {
                    assert(init[i] == ps[i]);
                    assert(pre.contains(x));
                    let k = choose|k: int| 0 <= k < pre.len() && pre[k] == x;
                    assert(all[k] == x);
                } else {
                    let k = choose|k: int| 0 <= k < add.len() && add[k] == x;
                    assert(all[pre.len() + k] == x);
                }
            }
        }
    }
}

/// Every reported workspace is a workspace of an affected project: its id
/// is `project:workspace` for a project affected directly or transitively
/// and one of that project's workspaces.
pub proof fn law_reported_workspaces_belong_to_affected_projects(
    s: crate::domain::RepoSnapshot,
    files: Seq<Seq<char>>,
    requested: Seq<Seq<char>>,
    r: crate::requests::AffectedReport,
)
    requires
        crate::affected::is_affected_report(s, files, requested, r),
    ensures
        forall|x: Seq<char>| #[trigger] strs(r.workspaces@).contains(x) ==> exists|i: int, j: int| 0 <= i < s.projects@.len()
            && 0 <= j < s.projects@[i].workspaces@.len()
            && (crate::affected::name_views(r.directly_affected@).contains(s.projects@[i].name@)
                || crate::affected::name_views(r.transitively_affected@).contains(s.projects@[i].name@))
            && x == (#[trigger] s.projects@[i]).name@ + ":"@ + (#[trigger] s.projects@[i].workspaces@[j]).name@,
{
    let d = crate::affected::direct_projects(s, files);
    let p = crate::affected::propagation(s, files);
    let names = d + p.0;
    let dws = crate::policy::sorted_distinct(crate::affected::snapshot_effects(s, files).workspaces);
    lemma_affected_workspaces(s.projects@, names, dws);
    lemma_sorted_distinct_holds(p.0);
    assert forall|x: Seq<char>| #[trigger] strs(r.workspaces@).contains(x) implies exists|i: int, j: int| 0 <= i < s.projects@.len()
        && 0 <= j < s.projects@[i].workspaces@.len()
        && (crate::affected::name_views(r.directly_affected@).contains(s.projects@[i].name@)
            || crate::affected::name_views(r.transitively_affected@).contains(s.projects@[i].name@))
        && x == (#[trigger] s.projects@[i]).name@ + ":"@ + (#[trigger] s.projects@[i].workspaces@[j]).name@ by {
        assert(crate::affected::affected_workspaces(s.projects@, names, dws).contains(x));
        let i = choose|i: int| 0 <= i < s.projects@.len() && names.contains(s.projects@[i].name@)
            && crate::affected::kept_workspaces((#[trigger] s.projects@[i]).name@, s.projects@[i].workspaces@, dws).contains(x);
        let pi = s.projects@[i];
        lemma_kept_workspaces(pi.name@, pi.workspaces@, dws);
        let j = choose|j: int| 0 <= j < pi.workspaces@.len() && x == pi.name@ + ":"@ + (#[trigger] pi.workspaces@[j]).name@
            && crate::affected::keeps_workspace(dws, pi.name@, x);
        let n = pi.name@;
        let k = choose|k: int| 0 <= k < names.len() && names[k] == n;
        if k < d.len() {
            assert(d[k] == n);
        } else {
            assert(p.0[k - d.len()] == n);
            assert(p.0.contains(n));
        }
    }
}

proof fn lemma_matched_holds(p: crate::domain::ProjectManifest, ws: Seq<crate::domain::WorkspaceSpec>, f: Seq<char>, j: int)
    requires
        0 <= j < ws.len(),
        crate::affected::file_in_workspace(p, ws[j], f),
    ensures
        crate::affected::matched_workspaces(p, ws, f).contains(crate::affected::workspace_id(p.name@, ws[j].name@)),
    decreases ws.len(),
{
    let m = crate::affected::matched_workspaces(p, ws, f);
    let init = ws.drop_last();
    if j == ws.len() - 1 {
        assert(ws.last() == ws[j]);
        assert(m.last() == crate::affected::workspace_id(p.name@, ws[j].name@));
        assert(m[m.len() - 1] == m.last());
    } else {
        assert(init[j] == ws[j]);
        lemma_matched_holds(p, init, f, j);
        let pre = crate::affected::matched_workspaces(p, init, f);
        let k = choose|k: int| 0 <= k < pre.len() && pre[k] == crate::affected::workspace_id(p.name@, ws[j].name@);
        assert(m[k] == pre[k]);
    }
}

proof fn lemma_file_effects_workspace(ps: Seq<crate::domain::ProjectManifest>, f: Seq<char>, i: int, id: Seq<char>)
    requires
        0 <= i < ps.len(),
        crate::domain::path_below(f, ps[i].path@),
        crate::affected::file_workspaces(ps[i], f).contains(id),
    ensures
        crate::affected::file_effects(ps, f, false).workspaces.contains(id),
    decreases ps.len(),
{
    let init = ps.drop_last();
    let all = crate::affected::file_effects(ps, f, false).workspaces;
    let pre = crate::affected::file_effects(init, f, false).workspaces;
    let add = crate::affected::project_effects(ps.last(), f).workspaces;
    assert(all == pre + add);
    if i == ps.len() - 1 {
        assert(ps.last() == ps[i]);
        let k = choose|k: int| 0 <= k < add.len() && add[k] == id;
        assert(all[pre.len() + k] == id);
    } else {
        assert(init[i] == ps[i]);
        lemma_file_effects_workspace(init, f, i, id);
        let k = choose|k: int| 0 <= k < pre.len() && pre[k] == id;
        assert(all[k] == id);
    }
}

proof fn lemma_files_effects_workspace(ps: Seq<crate::domain::ProjectManifest>, fs: Seq<Seq<char>>, second: Seq<char>, m: int, id: Seq<char>)
    requires
        0 <= m < fs.len(),
        crate::affected::file_effects(ps, fs[m], crate::affected::repo_wide_change(fs[m], second)).workspaces.contains(id),
    ensures
        crate::affected::files_effects(ps, fs, second).workspaces.contains(id),
    decreases fs.len(),
{
    let init = fs.drop_last();
    let all = crate::affected::files_effects(ps, fs, second).workspaces;
    let pre = crate::affected::files_effects(ps, init, second).workspaces;
    let add = crate::affected::file_effects(ps, fs.last(), crate::affected::repo_wide_change(fs.last(), second)).workspaces;
    assert(all == pre + add);
    if m == fs.len() - 1 {
        assert(fs.last() == fs[m]);
        let k = choose|k: int| 0 <= k < add.len() && add[k] == id;
        assert(all[pre.len() + k] == id);
    } else {
        assert(init[m] == fs[m]);
        lemma_files_effects_workspace(ps, init, second, m, id);
        let k = choose|k: int| 0 <= k < pre.len() && pre[k] == id;
        assert(all[k] == id);
    }
}

/// The workspace that holds a changed file is reported: when a changed
/// file (not a repository-wide one) lies inside a project and below the
/// root of one of its workspaces, `project:workspace` is among the
/// reported workspaces.
pub proof fn law_workspace_of_changed_file_is_reported(
    s: crate::domain::RepoSnapshot,
    files: Seq<Seq<char>>,
    requested: Seq<Seq<char>>,
    r: crate::requests::AffectedReport,
    m: int,
    i: int,
    j: int,
)
    requires
        crate::affected::is_affected_report(s, files, requested, r),
        0 <= m < files.len(),
        0 <= i < s.projects@.len(),
        0 <= j < s.projects@[i].workspaces@.len(),
        !crate::affected::repo_wide_change(files[m], s.repo_manifest.claude_skills_root@),
        crate::domain::path_below(files[m], s.projects@[i].path@),
        crate::affected::file_in_workspace(s.projects@[i], s.projects@[i].workspaces@[j], files[m]),
    ensures
        strs(r.workspaces@).contains(s.projects@[i].name@ + ":"@ + s.projects@[i].workspaces@[j].name@),
{
    let ps = s.projects@;
    let p = ps[i];
    let f = files[m];
    let second = s.repo_manifest.claude_skills_root@;
    let id = crate::affected::workspace_id(p.name@, p.workspaces@[j].name@);
    lemma_matched_holds(p, p.workspaces@, f, j);
    assert(crate::affected::file_workspaces(p, f).contains(id));
    lemma_file_effects_workspace(ps, f, i, id);
    lemma_files_effects_workspace(ps, files, second, m, id);
    let e = crate::affected::snapshot_effects(s, files);
    lemma_sorted_distinct_holds(e.workspaces);
    let dws = crate::policy::sorted_distinct(e.workspaces);
    assert(dws.contains(id));
    lemma_files_names(ps, files, second);
    assert(touches(ps[i], files[m], second));
    lemma_sorted_distinct_holds(e.names);
    let d = crate::affected::direct_projects(s, files);
    assert(d.contains(p.name@));
    let pr = crate::affected::propagation(s, files);
    let names = d + pr.0;
    let k = choose|k: int| 0 <= k < d.len() && d[k] == p.name@;
    assert(names[k] == p.name@);
    lemma_kept_workspaces(p.name@, p.workspaces@, dws);
    assert(crate::affected::kept_workspaces(p.name@, p.workspaces@, dws).contains(id));
    lemma_affected_workspaces(ps, names, dws);
    assert(crate::affected::affected_workspaces(ps, names, dws).contains(id));
}

// ---------------------------------------------------------------------------
// Infrastructure targets of the built graph
// ---------------------------------------------------------------------------

/// The edge from a project to one of its infrastructure stacks, with the
/// IaC root as evidence.
pub open spec fn stack_edge(project: Seq<char>, stack: Seq<char>, root: Seq<char>) -> EdgeModel {
    EdgeModel {
        from: crate::domain::project_node_id(project),
        to: "iac:"@ + project + ":"@ + stack,
        kind: crate::domain::EdgeKind::OwnsIac,
        evidence: Some(root),
    }
}

/// The graph holds an edge to each declared stack of the project's
/// infrastructure, or to a `default` stack when none is declared.
pub open spec fn holds_stacks(g: GraphModel, p: crate::domain::ProjectManifest) -> bool {
    match p.iac {
        None => true,
        Some(i) => if i.stacks@.len() == 0 {
            g.edges.contains(stack_edge(p.name@, "default"@, i.root@))
        } else {
            forall|k: int| 0 <= k < i.stacks@.len() ==> g.edges.contains(#[trigger] stack_edge(p.name@, i.stacks@[k]@, i.root@))
        },
    }
}

proof fn lemma_growth_keeps_stacks(g: GraphModel, ops: Seq<GraphOp>, p: crate::domain::ProjectManifest)
    requires
        holds_stacks(g, p),
    ensures
        holds_stacks(apply_ops(g, ops), p),
{
    match p.iac {
        None => {},
        Some(i) => {
            if i.stacks@.len() == 0 {
                lemma_growth_keeps_edge(g, ops, stack_edge(p.name@, "default"@, i.root@));
            } else {
                assert forall|k: int| 0 <= k < i.stacks@.len() implies apply_ops(g, ops).edges.contains(#[trigger] stack_edge(p.name@, i.stacks@[k]@, i.root@)) by {
                    lemma_growth_keeps_edge(g, ops, stack_edge(p.name@, i.stacks@[k]@, i.root@));
                }
            }
        },
    }
}

proof fn lemma_target_added(g: GraphModel, p: Seq<char>, stack: Seq<char>, root: Seq<char>)
    ensures
        apply_ops(g, crate::graph::iac_target_ops(p, stack, root)).edges.contains(stack_edge(p, stack, root)),
{
    let b = crate::graph::iac_target_ops(p, stack, root);
    assert(b == seq![b[0], b[1]]);
    crate::graph::lemma_apply_two(g, b[0], b[1]);
    let mid = apply_op(g, b[0]);
    let e = stack_edge(p, stack, root);
    assert(b[1] == GraphOp::AddEdge(e));
    if !mid.edges.contains(e) {
        assert(apply_op(mid, b[1]).edges[mid.edges.len() as int] == e);
    }
}

proof fn lemma_stacks_added(g: GraphModel, p: Seq<char>, stacks: Seq<Seq<char>>, root: Seq<char>)
    ensures
        forall|k: int| 0 <= k < stacks.len() ==> apply_ops(g, crate::graph::stacks_ops(p, stacks, root)).edges.contains(
            #[trigger] stack_edge(p, stacks[k], root)),
    decreases stacks.len(),
{
    if stacks.len() > 0 {
        let init = stacks.drop_last();
        lemma_stacks_added(g, p, init, root);
        let a = crate::graph::stacks_ops(p, init, root);
        let b = crate::graph::iac_target_ops(p, stacks.last(), root);
        crate::graph::lemma_apply_concat(g, a, b);
        let mid = apply_ops(g, a);
        lemma_target_added(mid, p, stacks.last(), root);
        assert forall|k: int| 0 <= k < stacks.len() implies apply_ops(g, crate::graph::stacks_ops(p, stacks, root)).edges.contains(
            #[trigger] stack_edge(p, stacks[k], root)) by {
            if k < init.len() {
                assert(init[k] == stacks[k]);
                lemma_growth_keeps_edge(mid, b, stack_edge(p, init[k], root));
            }
        }
    }
}

proof fn lemma_project_stacks(g: GraphModel, p: crate::domain::ProjectManifest)
    ensures
        holds_stacks(apply_ops(g, crate::graph::project_ops(p)), p),
{
    let head = seq![GraphOp::AddNode(crate::graph::project_node(p.name@))]
        + crate::graph::workspaces_ops(p.name@, p.workspaces@)
        + crate::graph::protos_ops(p.name@, crate::graph::glob_views(p.protos.owns@), crate::domain::EdgeKind::OwnsProto)
        + crate::graph::protos_ops(p.name@, crate::graph::glob_views(p.protos.consumes@), crate::domain::EdgeKind::ConsumesProto);
    let tail = crate::graph::iac_ops(p);
    assert(crate::graph::project_ops(p) =~= head + tail);
    crate::graph::lemma_apply_concat(g, head, tail);
    let g1 = apply_ops(g, head);
    match p.iac {
        None => {},
        Some(i) => {
            if i.stacks@.len() == 0 {
                lemma_target_added(g1, p.name@, "default"@, i.root@);
            } else {
                let sts = crate::text::strs(i.stacks@);
                lemma_stacks_added(g1, p.name@, sts, i.root@);
                assert forall|k: int| 0 <= k < i.stacks@.len() implies apply_ops(g1, tail).edges.contains(#[trigger] stack_edge(p.name@, i.stacks@[k]@, i.root@)) by {
                    assert(sts[k] == i.stacks@[k]@);
                }
            }
        },
    }
}

proof fn lemma_structure_stacks(ps: Seq<crate::domain::ProjectManifest>)
    ensures
        forall|i: int| 0 <= i < ps.len() ==> holds_stacks(apply_ops(crate::graph::empty_graph(), crate::graph::structure_ops(ps)), #[trigger] ps[i]),
    decreases ps.len(),
{
    if ps.len() > 0 {
        let init = ps.drop_last();
        lemma_structure_stacks(init);
        let e = crate::graph::empty_graph();
        let a = crate::graph::structure_ops(init);
        let b = crate::graph::project_ops(ps.last());
        crate::graph::lemma_apply_concat(e, a, b);
        lemma_project_stacks(apply_ops(e, a), ps.last());
        assert forall|i: int| 0 <= i < ps.len() implies holds_stacks(apply_ops(e, crate::graph::structure_ops(ps)), #[trigger] ps[i]) by {
            if i < init.len() {
                assert(init[i] == ps[i]);
                lemma_growth_keeps_stacks(apply_ops(e, a), b, ps[i]);
            }
        }
    }
}

/// The built graph records each project's infrastructure targets: an
/// `OwnsIac` edge from the project's node to `iac:<project>:<stack>` for
/// every declared stack, or to a `default` stack when none is declared,
/// with the IaC root as evidence.
pub proof fn law_built_graph_holds_iac_targets(
    g: crate::domain::RepoGraph,
    ps: Seq<crate::domain::ProjectManifest>,
    ds: Seq<crate::ports::DiscoveredEdge>,
)
    requires
        is_built_graph(g, ps, ds),
    ensures
        forall|i: int| 0 <= i < ps.len() ==> holds_stacks(crate::graph::graph_model(g), #[trigger] ps[i]),
{
    let e = crate::graph::empty_graph();
    let st = crate::graph::structure_ops(ps);
    let more = crate::graph::declared_ops(ps, ps) + crate::graph::discovered_ops(ds);
    assert(crate::graph::build_ops(ps, ds) =~= st + more);
    crate::graph::lemma_apply_concat(e, st, more);
    lemma_structure_stacks(ps);
    let u = crate::graph::unordered_graph(ps, ds);
    let gm = crate::graph::graph_model(g);
    assert forall|x: EdgeModel| u.edges.contains(x) implies gm.edges.contains(x) by {
        vstd::seq_lib::to_multiset_contains(u.edges, x);
        assert(gm.edges.to_multiset().count(x) > 0);
    }
    assert forall|i: int| 0 <= i < ps.len() implies holds_stacks(gm, #[trigger] ps[i]) by {
        let p = ps[i];
        lemma_growth_keeps_stacks(apply_ops(e, st), more, p);
        match p.iac {
            None => {},
            Some(iac) => {
                if iac.stacks@.len() == 0 {
                    assert(u.edges.contains(stack_edge(p.name@, "default"@, iac.root@)));
                } else {
                    assert forall|k: int| 0 <= k < iac.stacks@.len() implies gm.edges.contains(#[trigger] stack_edge(p.name@, iac.stacks@[k]@, iac.root@)) by {
                        assert(u.edges.contains(stack_edge(p.name@, iac.stacks@[k]@, iac.root@)));
                    }
                }
            },
        }
    }
}

// ---------------------------------------------------------------------------
// Order of code-size findings
// ---------------------------------------------------------------------------

/// The rank of a rule in the findings order: file, function, block.
pub open spec fn kind_rank(k: crate::code_size::CodeSizeRuleKind) -> int {
    match k {
        crate::code_size::CodeSizeRuleKind::File => 0,
        crate::code_size::CodeSizeRuleKind::Function => 1,
        crate::code_size::CodeSizeRuleKind::Block => 2,
    }
}

/// Text of an optional text, empty when absent.
pub open spec fn text_or_empty(o: Option<Seq<char>>) -> Seq<char> {
    match o {
        Some(t) => t,
        None => Seq::empty(),
    }
}

/// Finding `a` comes before finding `b`: by path, then first line, then
/// rule (file, function, block), then symbol, then node kind.
pub open spec fn finding_precedes(a: crate::code_size::FindingModel, b: crate::code_size::FindingModel) -> bool {
    ||| seq_lt(a.path, b.path)
    ||| a.path == b.path && a.start_line < b.start_line
    ||| a.path == b.path && a.start_line == b.start_line && kind_rank(a.rule) < kind_rank(b.rule)
    ||| a.path == b.path && a.start_line == b.start_line && a.rule == b.rule
        && seq_lt(text_or_empty(a.symbol), text_or_empty(b.symbol))
    ||| a.path == b.path && a.start_line == b.start_line && a.rule == b.rule
        && text_or_empty(a.symbol) == text_or_empty(b.symbol)
        && seq_lt(text_or_empty(a.node_kind), text_or_empty(b.node_kind))
}

proof fn lemma_precedes_is_order(a: crate::code_size::FindingModel, b: crate::code_size::FindingModel, c: crate::code_size::FindingModel)
    ensures
        crate::code_size::finding_lt(a, b) == finding_precedes(a, b),
        !finding_precedes(a, a),
        finding_precedes(a, b) && finding_precedes(b, c) ==> finding_precedes(a, c),
{
    crate::text::lemma_lt_irreflexive(a.path);
    crate::text::lemma_lt_irreflexive(text_or_empty(a.symbol));
    crate::text::lemma_lt_irreflexive(text_or_empty(a.node_kind));
    if seq_lt(a.path, b.path) && a.path == b.path {
    }
    if a.rule != b.rule {
        assert(kind_rank(a.rule) != kind_rank(b.rule));
    }
    if seq_lt(a.path, b.path) && seq_lt(b.path, c.path) {
        crate::text::lemma_lt_transitive(a.path, b.path, c.path);
    }
    if seq_lt(text_or_empty(a.symbol), text_or_empty(b.symbol)) && seq_lt(text_or_empty(b.symbol), text_or_empty(c.symbol)) {
        crate::text::lemma_lt_transitive(text_or_empty(a.symbol), text_or_empty(b.symbol), text_or_empty(c.symbol));
    }
    if seq_lt(text_or_empty(a.node_kind), text_or_empty(b.node_kind)) && seq_lt(text_or_empty(b.node_kind), text_or_empty(c.node_kind)) {
        crate::text::lemma_lt_transitive(text_or_empty(a.node_kind), text_or_empty(b.node_kind), text_or_empty(c.node_kind));
    }
    if a.rule != c.rule {
        assert(kind_rank(a.rule) != kind_rank(c.rule));
    }
    if b.rule != c.rule {
        assert(kind_rank(b.rule) != kind_rank(c.rule));
    }
}

proof fn lemma_finding_slot_props(s: Seq<crate::code_size::FindingModel>, x: crate::code_size::FindingModel)
    ensures
        0 <= crate::code_size::finding_slot(s, x) <= s.len(),
        forall|k: int| 0 <= k < crate::code_size::finding_slot(s, x) ==> !crate::code_size::finding_lt(x, #[trigger] s[k]),
        crate::code_size::finding_slot(s, x) == s.len() || crate::code_size::finding_lt(x, s[crate::code_size::finding_slot(s, x)]),
    decreases s.len(),
{
    if s.len() > 0 && !crate::code_size::finding_lt(x, s[0]) {
        let t = s.drop_first();
        lemma_finding_slot_props(t, x);
        let p = crate::code_size::finding_slot(s, x);
        assert forall|k: int| 0 <= k < p implies !crate::code_size::finding_lt(x, #[trigger] s[k]) by {
            if k > 0 {
                assert(s[k] == t[k - 1]);
            }
        }
        if p < s.len() {
            assert(s[p] == t[p - 1]);
        }
    }
}

/// Code-size findings are listed in order: the sorted findings are a
/// permutation of the findings, and no finding precedes (by path, first
/// line, rule, symbol, node kind) one listed before it.
pub proof fn law_findings_are_ordered(xs: Seq<crate::code_size::FindingModel>)
    ensures
        forall|a: int, b: int| 0 <= a < b < crate::code_size::sorted_findings(xs).len()
            ==> !finding_precedes(#[trigger] crate::code_size::sorted_findings(xs)[b], #[trigger] crate::code_size::sorted_findings(xs)[a]),
        crate::code_size::sorted_findings(xs).to_multiset() == xs.to_multiset(),
    decreases xs.len(),
{
    if xs.len() > 0 {
        let init = xs.drop_last();
        let x = xs.last();
        law_findings_are_ordered(init);
        let os = crate::code_size::sorted_findings(init);
        let p = crate::code_size::finding_slot(os, x);
        lemma_finding_slot_props(os, x);
        let es = os.insert(p, x);
        assert(crate::code_size::sorted_findings(xs) == es);
        assert forall|a: int, b: int| 0 <= a < b < es.len() implies !finding_precedes(#[trigger] es[b], #[trigger] es[a]) by {
            if b < p {
                assert(es[a] == os[a] && es[b] == os[b]);
            } else if b == p {
                assert(es[b] == x && es[a] == os[a]);
                lemma_precedes_is_order(x, os[a], x);
            } else if a < p {
                assert(es[a] == os[a] && es[b] == os[b - 1]);
                lemma_precedes_is_order(os[b - 1], os[a], x);
                if finding_precedes(os[b - 1], os[a]) {
                    if b - 1 > p {
                        lemma_precedes_is_order(os[p as int], os[b - 1], os[a]);
                        lemma_precedes_is_order(x, os[p as int], os[a]);
                        lemma_precedes_is_order(x, os[p as int], os[b - 1]);
                    }
                    lemma_precedes_is_order(x, os[a], x);
                    lemma_precedes_is_order(x, os[p as int], x);
                }
            } else if a == p {
                assert(es[a] == x && es[b] == os[b - 1]);
                lemma_precedes_is_order(os[b - 1], x, os[p as int]);
                lemma_precedes_is_order(x, os[p as int], os[b - 1]);
                if b - 1 > p {
                    lemma_precedes_is_order(os[b - 1], os[p as int], x);
                } else {
                    lemma_precedes_is_order(os[p as int], x, x);
                }
            } else {
                assert(es[a] == os[a - 1] && es[b] == os[b - 1]);
            }
        }
        crate::graph::lemma_multiset_insert(os, p, x);
        assert(init.push(x) =~= xs);
        vstd::seq_lib::to_multiset_build(init, x);
    }
}

} // verus!
