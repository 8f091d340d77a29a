//! The Go call graph a helper reports, read into a bounded graph whose nodes
//! all lie inside the repo, with the nodes the change touched marked.
//!
//! The helper's JSON arrives as the plain records below (each field as the
//! report carries it, absent when missing or of another JSON type).
use vstd::prelude::*;
use crate::analysis::opt_str;
use crate::findings::contains_string;
use crate::gochecks::strings_view;
use crate::signatures::{bound, bound_spec};
use crate::text::{chars_of, string_of};
use std::collections::HashSet;

verus! {

broadcast use vstd::std_specs::hash::group_hash_axioms;

pub const MAX_NODES: usize = 10_000;
pub const MAX_EDGES: usize = 50_000;
/// Longest node or package name kept (chars; a cut one ends in `… [truncated]`).
pub const MAX_STR: usize = 200;

pub struct NodeRec {
    pub id: Option<u64>,
    pub package: Option<String>,
    pub name: Option<String>,
    pub exported: Option<bool>,
    pub file: Option<String>,
    pub line: Option<u64>,
}

pub struct EdgeRec {
    pub caller_id: Option<u64>,
    pub callee_id: Option<u64>,
}

pub struct PackageRec {
    pub package: Option<String>,
    pub files: Option<u64>,
    pub exported_fns: Option<u64>,
    pub types: Option<u64>,
}

/// The helper's report: `truncated`, and the `nodes`, `edges` and `packages`
/// arrays (absent when not arrays).
pub struct GraphRec {
    pub truncated: Option<bool>,
    pub nodes: Option<Vec<NodeRec>>,
    pub edges: Option<Vec<EdgeRec>>,
    pub packages: Option<Vec<PackageRec>>,
}

#[derive(Clone, Debug)]
pub struct CallGraphNode {
    pub id: u32,
    pub package: String,
    pub name: String,
    pub exported: bool,
    pub file: String,
    pub line: u32,
}

#[derive(PartialEq, Eq, Structural, Clone, Copy, Debug)]
pub struct CallEdge {
    pub caller_id: u32,
    pub callee_id: u32,
}

#[derive(Clone, Debug)]
pub struct PackageShape {
    pub package: String,
    pub files: u32,
    pub exported_fns: u32,
    pub types: u32,
}

#[derive(Clone, Debug)]
pub struct CallGraph {
    pub nodes: Vec<CallGraphNode>,
    pub edges: Vec<CallEdge>,
    pub changed_fns: Vec<u32>,
    pub packages: Vec<PackageShape>,
    pub truncated: bool,
}

pub struct NodeV {
    pub id: u32,
    pub package: Seq<char>,
    pub name: Seq<char>,
    pub exported: bool,
    pub file: Seq<char>,
    pub line: u32,
}

pub struct PackageV {
    pub package: Seq<char>,
    pub files: u32,
    pub exported_fns: u32,
    pub types: u32,
}

pub open spec fn node_view(n: CallGraphNode) -> NodeV {
    NodeV { id: n.id, package: n.package@, name: n.name@, exported: n.exported, file: n.file@, line: n.line }
}

pub open spec fn package_view(p: PackageShape) -> PackageV {
    PackageV { package: p.package@, files: p.files, exported_fns: p.exported_fns, types: p.types }
}

pub open spec fn str_or_empty(o: Option<String>) -> Seq<char> {
    match opt_str(o) {
        Some(t) => t,
        None => Seq::empty(),
    }
}

pub open spec fn u32_or_zero(o: Option<u64>) -> u32 {
    match o {
        Some(x) => x as u32,
        None => 0,
    }
}

/// The nodes the helper reported, up to `MAX_NODES`.
pub open spec fn node_recs(g: GraphRec) -> Seq<NodeRec> {
    match g.nodes {
        Some(v) => if v@.len() > MAX_NODES { v@.take(MAX_NODES as int) } else { v@ },
        None => Seq::empty(),
    }
}

pub open spec fn edge_recs(g: GraphRec) -> Seq<EdgeRec> {
    match g.edges {
        Some(v) => if v@.len() > MAX_EDGES { v@.take(MAX_EDGES as int) } else { v@ },
        None => Seq::empty(),
    }
}

pub open spec fn package_recs(g: GraphRec) -> Seq<PackageRec> {
    match g.packages {
        Some(v) => v@,
        None => Seq::empty(),
    }
}

/// A node survives when it names a file and that file stays in the repo.
pub open spec fn node_kept(n: NodeRec, confined: bool) -> bool {
    str_or_empty(n.file).len() > 0 && confined
}

pub open spec fn node_of(n: NodeRec) -> NodeV {
    NodeV {
        id: u32_or_zero(n.id),
        package: bound_spec(str_or_empty(n.package), MAX_STR as nat),
        name: bound_spec(str_or_empty(n.name), MAX_STR as nat),
        exported: match n.exported {
            Some(b) => b,
            None => false,
        },
        file: str_or_empty(n.file),
        line: u32_or_zero(n.line),
    }
}

/// The surviving nodes among the first `k`.
pub open spec fn kept_nodes(ns: Seq<NodeRec>, conf: Seq<bool>, k: int) -> Seq<NodeV>
    decreases k,
{
    if k <= 0 {
        Seq::empty()
    } else if node_kept(ns[k - 1], conf[k - 1]) {
        kept_nodes(ns, conf, k - 1).push(node_of(ns[k - 1]))
    } else {
        kept_nodes(ns, conf, k - 1)
    }
}

/// The ids of the surviving nodes among the first `k` that the change touched.
pub open spec fn changed_ids(ns: Seq<NodeRec>, conf: Seq<bool>, changed: Seq<Seq<char>>, k: int) -> Seq<u32>
    decreases k,
{
    if k <= 0 {
        Seq::empty()
    } else if node_kept(ns[k - 1], conf[k - 1]) && changed.contains(str_or_empty(ns[k - 1].file)) {
        changed_ids(ns, conf, changed, k - 1).push(u32_or_zero(ns[k - 1].id))
    } else {
        changed_ids(ns, conf, changed, k - 1)
    }
}

/// The ids of the surviving nodes among the first `k`.
pub open spec fn kept_ids(ns: Seq<NodeRec>, conf: Seq<bool>, k: int) -> Set<u32>
    decreases k,
{
    if k <= 0 {
        Set::empty()
    } else if node_kept(ns[k - 1], conf[k - 1]) {
        kept_ids(ns, conf, k - 1).insert(u32_or_zero(ns[k - 1].id))
    } else {
        kept_ids(ns, conf, k - 1)
    }
}

/// An edge's endpoints; a missing id reads as `u64::MAX`, truncated.
pub open spec fn edge_of(e: EdgeRec) -> CallEdge {
    CallEdge {
        caller_id: match e.caller_id {
            Some(x) => x as u32,
            None => u64::MAX as u32,
        },
        callee_id: match e.callee_id {
            Some(x) => x as u32,
            None => u64::MAX as u32,
        },
    }
}

/// The edges among the first `k` whose both ends survive.
pub open spec fn kept_edges(es: Seq<EdgeRec>, ids: Set<u32>, k: int) -> Seq<CallEdge>
    decreases k,
{
    if k <= 0 {
        Seq::empty()
    } else if ids.contains(edge_of(es[k - 1]).caller_id) && ids.contains(edge_of(es[k - 1]).callee_id) {
        kept_edges(es, ids, k - 1).push(edge_of(es[k - 1]))
    } else {
        kept_edges(es, ids, k - 1)
    }
}

pub open spec fn package_of(p: PackageRec) -> PackageV {
    PackageV {
        package: bound_spec(str_or_empty(p.package), MAX_STR as nat),
        files: u32_or_zero(p.files),
        exported_fns: u32_or_zero(p.exported_fns),
        types: u32_or_zero(p.types),
    }
}

/// Every considered node carries an id (else the report is rejected).
pub open spec fn ids_present(ns: Seq<NodeRec>) -> bool {
    forall|i: int| 0 <= i < ns.len() ==> (#[trigger] ns[i]).id is Some
}

fn text_or_empty(o: &Option<String>) -> (r: Vec<char>)
    ensures
        r@ == str_or_empty(*o),
{
    match o {
        Some(t) => chars_of(t.as_str()),
        None => Vec::new(),
    }
}

fn u32_of(o: Option<u64>) -> (r: u32)
    ensures
        r == u32_or_zero(o),
{
    match o {
        Some(x) => x as u32,
        None => 0,
    }
}

/// Read the helper's report into a graph: nodes with a file that stays in the
/// repo (`confined[i]` for the `i`-th considered node), names bounded; the
/// edges between surviving nodes; the changed nodes' ids; the package shapes.
/// `None` when a considered node has no id.
pub fn parse_graph(g: &GraphRec, confined: &[bool], changed: &[String]) -> (r: Option<CallGraph>)
    requires
        confined@.len() == node_recs(*g).len(),
    ensures
        match r {
            None => !ids_present(node_recs(*g)),
            Some(cg) => {
                let ns = node_recs(*g);
                let n = ns.len() as int;
                &&& ids_present(ns)
                &&& cg.nodes@.map_values(|x: CallGraphNode| node_view(x)) == kept_nodes(ns, confined@, n)
                &&& cg.changed_fns@ == changed_ids(ns, confined@, strings_view(changed@), n)
                &&& cg.edges@ == kept_edges(edge_recs(*g), kept_ids(ns, confined@, n), edge_recs(*g).len() as int)
                &&& cg.packages@.map_values(|p: PackageShape| package_view(p)) == package_recs(*g).map_values(
                    |p: PackageRec| package_of(p),
                )
                &&& cg.truncated == (g.truncated == Some(true))
            },
        },
{
    let ghost ns = node_recs(*g);
    let empty_nodes: Vec<NodeRec> = Vec::new();
    let all_nodes: &Vec<NodeRec> = match &g.nodes {
        Some(v) => v,
        None => &empty_nodes,
    };
    let n = if all_nodes.len() > MAX_NODES { MAX_NODES } else { all_nodes.len() };
    assert(ns =~= all_nodes@.take(n as int));
    let mut nodes: Vec<CallGraphNode> = Vec::new();
    let mut changed_fns: Vec<u32> = Vec::new();
    let mut ids: HashSet<u32> = HashSet::new();
    let mut i: usize = 0;
    while i < n
        invariant
            i <= n <= all_nodes@.len(),
            ns == node_recs(*g),
            n == ns.len(),
            ns =~= all_nodes@.take(n as int),
            confined@.len() == n,
            forall|j: int| 0 <= j < i ==> (#[trigger] ns[j]).id is Some,
            nodes@.map_values(|x: CallGraphNode| node_view(x)) == kept_nodes(ns, confined@, i as int),
            changed_fns@ == changed_ids(ns, confined@, strings_view(changed@), i as int),
            ids@ == kept_ids(ns, confined@, i as int),
        decreases n - i,
    {
        let nd = &all_nodes[i];
        assert(ns[i as int] == *nd);
        let id = match nd.id {
            Some(x) => x as u32,
            None => {
                assert(ns[i as int].id is None);
                assert(!ids_present(ns));
                return None;
            },
        };
        let file = text_or_empty(&nd.file);
        if file.len() > 0 && confined[i] {
            let fs = string_of(&file);
            if contains_string(changed, &fs) {
                changed_fns.push(id);
            }
            ids.insert(id);
            let node = CallGraphNode {
                id,
                package: string_of(&bound(&text_or_empty(&nd.package), MAX_STR)),
                name: string_of(&bound(&text_or_empty(&nd.name), MAX_STR)),
                exported: match nd.exported {
                    Some(b) => b,
                    None => false,
                },
                file: fs,
                line: u32_of(nd.line),
            };
            let ghost before = nodes@.map_values(|x: CallGraphNode| node_view(x));
            nodes.push(node);
            assert(nodes@.map_values(|x: CallGraphNode| node_view(x)) =~= before.push(node_view(node)));
        }
        i += 1;
    }
    let ghost idset = kept_ids(ns, confined@, n as int);
    let ghost es = edge_recs(*g);
    let empty_edges: Vec<EdgeRec> = Vec::new();
    let all_edges: &Vec<EdgeRec> = match &g.edges {
        Some(v) => v,
        None => &empty_edges,
    };
    let m = if all_edges.len() > MAX_EDGES { MAX_EDGES } else { all_edges.len() };
    assert(es =~= all_edges@.take(m as int));
    let mut edges: Vec<CallEdge> = Vec::new();
    let mut k: usize = 0;
    while k < m
        invariant
            k <= m <= all_edges@.len(),
            m == es.len(),
            es =~= all_edges@.take(m as int),
            ids@ == idset,
            edges@ == kept_edges(es, idset, k as int),
        decreases m - k,
    {
        let e = &all_edges[k];
        assert(es[k as int] == *e);
        let caller: u32 = match e.caller_id {
            Some(x) => x as u32,
            None => 0xffff_ffff_ffff_ffffu64 as u32,
        };
        let callee: u32 = match e.callee_id {
            Some(x) => x as u32,
            None => 0xffff_ffff_ffff_ffffu64 as u32,
        };
        if ids.contains(&caller) && ids.contains(&callee) {
            edges.push(CallEdge { caller_id: caller, callee_id: callee });
        }
        k += 1;
    }
    let empty_pkgs: Vec<PackageRec> = Vec::new();
    let all_pkgs: &Vec<PackageRec> = match &g.packages {
        Some(v) => v,
        None => &empty_pkgs,
    };
    let ghost ps = package_recs(*g);
    assert(ps =~= all_pkgs@);
    let mut packages: Vec<PackageShape> = Vec::new();
    let mut q: usize = 0;
    while q < all_pkgs.len()
        invariant
            q <= all_pkgs@.len(),
            ps =~= all_pkgs@,
            packages@.map_values(|p: PackageShape| package_view(p)) == ps.map_values(|p: PackageRec| package_of(p)).take(q as int),
        decreases all_pkgs.len() - q,
    {
        let p = &all_pkgs[q];
        let shape = PackageShape {
            package: string_of(&bound(&text_or_empty(&p.package), MAX_STR)),
            files: u32_of(p.files),
            exported_fns: u32_of(p.exported_fns),
            types: u32_of(p.types),
        };
        let ghost before = packages@.map_values(|p: PackageShape| package_view(p));
        packages.push(shape);
        assert(packages@.map_values(|p: PackageShape| package_view(p)) =~= before.push(package_view(shape)));
        assert(ps.map_values(|p: PackageRec| package_of(p)).take(q + 1) =~= ps.map_values(|p: PackageRec| package_of(p)).take(q as int).push(package_of(*p)));
        q += 1;
    }
    assert(ps.map_values(|p: PackageRec| package_of(p)).take(all_pkgs@.len() as int) =~= ps.map_values(|p: PackageRec| package_of(p)));
    let truncated = match g.truncated {
        Some(t) => t,
        None => false,
    };
    Some(CallGraph { nodes, edges, changed_fns, packages, truncated })
}

} // verus!
