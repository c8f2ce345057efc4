//! The `[link].includes` file graph: one node per discovered manifest file
//! (its path and text), an edge from a file to each file it includes,
//! weighted by the include's position in `includes = [...]`.

use petgraph::visit::EdgeRef;
use vstd::prelude::*;

verus! {

#[verifier::external_type_specification]
#[verifier::external_body]
#[verifier::reject_recursive_types(N)]
#[verifier::reject_recursive_types(E)]
#[verifier::reject_recursive_types(Ty)]
#[verifier::reject_recursive_types(Ix)]
pub struct ExPetGraph<N, E, Ty, Ix>(petgraph::graph::Graph<N, E, Ty, Ix>);

#[verifier::external_type_specification]
#[verifier::external_body]
pub struct ExPetDirected(petgraph::Directed);

/// One discovered file: its path and text. Empty text marks a file that
/// could not be read or parsed (the reason was reported when it was found).
#[derive(Debug)]
pub struct ManifestFile {
    pub path: String,
    pub content: String,
    pub workspace_root: String,
}

/// The files of a graph, in the order they were added, as path, text and
/// workspace root.
pub uninterp spec fn graph_nodes(g: petgraph::graph::Graph<ManifestFile, u32>) -> Seq<(Seq<char>, Seq<char>, Seq<char>)>;

/// The edges of a graph, in the order they were added, as source, target
/// and weight.
pub uninterp spec fn graph_edges(g: petgraph::graph::Graph<ManifestFile, u32>) -> Seq<(int, int, u32)>;

/// `Graph::new`: no nodes, no edges.
#[verifier::external_body]
fn pg_new() -> (r: petgraph::graph::Graph<ManifestFile, u32>)
    ensures
        graph_nodes(r) == Seq::<(Seq<char>, Seq<char>, Seq<char>)>::empty(),
        graph_edges(r) == Seq::<(int, int, u32)>::empty(),
{
    petgraph::graph::Graph::new()
}

/// `Graph::add_node`: the file becomes the last node, its index returned.
/// It panics once the `u32` index space is used up, hence the bound.
#[verifier::external_body]
fn pg_add_node(g: &mut petgraph::graph::Graph<ManifestFile, u32>, file: ManifestFile) -> (r: usize)
    requires
        graph_nodes(*old(g)).len() < 0xffff_ffff,
    ensures
        graph_nodes(*final(g)) == graph_nodes(*old(g)).push((file.path@, file.content@, file.workspace_root@)),
        graph_edges(*final(g)) == graph_edges(*old(g)),
        r == graph_nodes(*old(g)).len(),
{
    g.add_node(file).index()
}

/// `Graph::add_edge`: the edge becomes the last one. It panics on node
/// indices out of bounds and once the `u32` edge index space is used up.
#[verifier::external_body]
fn pg_add_edge(g: &mut petgraph::graph::Graph<ManifestFile, u32>, a: usize, b: usize, weight: u32)
    requires
        a < graph_nodes(*old(g)).len(),
        b < graph_nodes(*old(g)).len(),
        graph_edges(*old(g)).len() < 0xffff_ffff,
    ensures
        graph_nodes(*final(g)) == graph_nodes(*old(g)),
        graph_edges(*final(g)) == graph_edges(*old(g)).push((a as int, b as int, weight)),
{
    g.add_edge(petgraph::graph::NodeIndex::new(a), petgraph::graph::NodeIndex::new(b), weight);
}

/// The edges of `edges` leaving `a`, as weight and target, in order.
pub open spec fn out_edges(edges: Seq<(int, int, u32)>, a: int) -> Seq<(u32, int)>
    decreases edges.len(),
{
    if edges.len() == 0 {
        Seq::empty()
    } else {
        let rest = out_edges(edges.drop_last(), a);
        if edges.last().0 == a {
            rest.push((edges.last().2, edges.last().1))
        } else {
            rest
        }
    }
}

/// `Graph[a]`: the file at node `a`.
#[verifier::external_body]
fn pg_node<'a>(g: &'a petgraph::graph::Graph<ManifestFile, u32>, a: usize) -> (r: &'a ManifestFile)
    requires
        a < graph_nodes(*g).len(),
    ensures
        (r.path@, r.content@, r.workspace_root@) == graph_nodes(*g)[a as int],
{
    &g[petgraph::graph::NodeIndex::new(a)]
}

/// `Graph::node_count`.
#[verifier::external_body]
fn pg_node_count(g: &petgraph::graph::Graph<ManifestFile, u32>) -> (r: usize)
    ensures
        r == graph_nodes(*g).len(),
{
    g.node_count()
}

/// `Graph::raw_edges`: every edge in the order it was added, as source,
/// target and weight.
#[verifier::external_body]
fn pg_all_edges(g: &petgraph::graph::Graph<ManifestFile, u32>) -> (r: Vec<(usize, usize, u32)>)
    ensures
        r@.map_values(|e: (usize, usize, u32)| (e.0 as int, e.1 as int, e.2)) == graph_edges(*g),
{
    g.raw_edges().iter().map(|e| (e.source().index(), e.target().index(), e.weight)).collect()
}

/// Every edge goes from a node to a later one, so a walk from any node
/// ends.
pub open spec fn graph_wf(g: petgraph::graph::Graph<ManifestFile, u32>) -> bool {
    forall|i: int|
        0 <= i < graph_edges(g).len() ==> 0 <= (#[trigger] graph_edges(g)[i]).0 < graph_edges(g)[i].1
            < graph_nodes(g).len()
}

/// An empty file graph.
pub fn new_file_graph() -> (r: petgraph::graph::Graph<ManifestFile, u32>)
    ensures
        graph_nodes(r).len() == 0,
        graph_edges(r).len() == 0,
        graph_wf(r),
{
    pg_new()
}

/// Adds a file as the last node and gives its index; `None`, with the
/// graph unchanged, once petgraph's `u32` indices are used up.
pub fn add_file(g: &mut petgraph::graph::Graph<ManifestFile, u32>, file: ManifestFile) -> (r: Option<usize>)
    ensures
        graph_edges(*final(g)) == graph_edges(*old(g)),
        match r {
            Some(i) => i == graph_nodes(*old(g)).len() && graph_nodes(*final(g)) == graph_nodes(*old(g)).push(
                (file.path@, file.content@, file.workspace_root@),
            ),
            None => graph_nodes(*final(g)) == graph_nodes(*old(g)),
        },
        r is None <==> graph_nodes(*old(g)).len() >= 0xffff_ffff,
        graph_wf(*old(g)) ==> graph_wf(*final(g)),
{
    if pg_node_count(g) >= 0xffff_ffff {
        return None;
    }
    Some(pg_add_node(g, file))
}

/// Records that file `parent` includes file `child` as its `ordinal`-th
/// include. Only an edge to a later node is added (that is how discovery
/// adds them), and only while petgraph's `u32` indices last; whether it
/// was added is returned.
pub fn link_files(g: &mut petgraph::graph::Graph<ManifestFile, u32>, parent: usize, child: usize, ordinal: u32) -> (r: bool)
    ensures
        graph_nodes(*final(g)) == graph_nodes(*old(g)),
        r ==> graph_edges(*final(g)) == graph_edges(*old(g)).push((parent as int, child as int, ordinal)),
        !r ==> graph_edges(*final(g)) == graph_edges(*old(g)),
        r <==> (parent < child < graph_nodes(*old(g)).len() && graph_edges(*old(g)).len() < 0xffff_ffff),
        graph_wf(*old(g)) ==> graph_wf(*final(g)),
{
    let n = pg_node_count(g);
    if !(parent < child && child < n) {
        return false;
    }
    let edges = pg_all_edges(g);
    if edges.len() >= 0xffff_ffff {
        return false;
    }
    pg_add_edge(g, parent, child, ordinal);
    true
}

/// Whether every edge of `g` goes from a node to a later one.
pub fn check_graph(g: &petgraph::graph::Graph<ManifestFile, u32>) -> (r: bool)
    ensures
        r == graph_wf(*g),
{
    let n = pg_node_count(g);
    let edges = pg_all_edges(g);
    let mut i: usize = 0;
    while i < edges.len()
        invariant
            n == graph_nodes(*g).len(),
            edges@.map_values(|e: (usize, usize, u32)| (e.0 as int, e.1 as int, e.2)) == graph_edges(*g),
            i <= edges@.len(),
            forall|k: int| 0 <= k < i ==> 0 <= (#[trigger] graph_edges(*g)[k]).0 < graph_edges(*g)[k].1 < graph_nodes(*g).len(),
        decreases edges@.len() - i,
    {
        let (a, b, _) = edges[i];
        proof {
            assert(graph_edges(*g)[i as int] == (a as int, b as int, edges@[i as int].2));
        }
        if !(a < b && b < n) {
            return false;
        }
        i += 1;
    }
    true
}

/// The file at node `a`.
pub fn file_at<'a>(g: &'a petgraph::graph::Graph<ManifestFile, u32>, a: usize) -> (r: &'a ManifestFile)
    requires
        a < graph_nodes(*g).len(),
    ensures
        (r.path@, r.content@, r.workspace_root@) == graph_nodes(*g)[a as int],
{
    pg_node(g, a)
}

/// The number of files.
pub fn file_count(g: &petgraph::graph::Graph<ManifestFile, u32>) -> (r: usize)
    ensures
        r == graph_nodes(*g).len(),
{
    pg_node_count(g)
}

/// Whether `s` is sorted by weight.
pub open spec fn by_weight(s: Seq<(u32, int)>) -> bool {
    forall|i: int, j: int| 0 <= i < j < s.len() ==> #[trigger] s[i].0 <= #[trigger] s[j].0
}

pub open spec fn edge_view(v: Seq<(u32, usize)>) -> Seq<(u32, int)> {
    v.map_values(|e: (u32, usize)| (e.0, e.1 as int))
}

/// `e` placed after every element of `s` whose weight is at most its own.
pub open spec fn insert_by_weight(s: Seq<(u32, int)>, e: (u32, int)) -> Seq<(u32, int)>
    decreases s.len(),
{
    if s.len() == 0 {
        seq![e]
    } else if s.last().0 > e.0 {
        insert_by_weight(s.drop_last(), e).push(s.last())
    } else {
        s.push(e)
    }
}

/// `s` sorted by weight, equal weights kept in their order.
pub open spec fn sort_by_weight(s: Seq<(u32, int)>) -> Seq<(u32, int)>
    decreases s.len(),
{
    if s.len() == 0 {
        s
    } else {
        insert_by_weight(sort_by_weight(s.drop_last()), s.last())
    }
}

/// The files `a` includes, in the order of its `includes = [...]`.
pub open spec fn include_order(g: petgraph::graph::Graph<ManifestFile, u32>, a: int) -> Seq<(u32, int)> {
    sort_by_weight(out_edges(graph_edges(g), a))
}

proof fn lemma_insert_at(s: Seq<(u32, int)>, e: (u32, int), k: int)
    requires
        0 <= k <= s.len(),
        forall|j: int| k <= j < s.len() ==> #[trigger] s[j].0 > e.0,
        k == 0 || s[k - 1].0 <= e.0,
    ensures
        insert_by_weight(s, e) == s.insert(k, e),
    decreases s.len(),
{
    if s.len() == 0 {
        assert(s.insert(k, e) =~= seq![e]);
    } else if k == s.len() {
        assert(s.insert(k, e) =~= s.push(e));
    } else {
        assert(s.last().0 > e.0) by {
            assert(s[s.len() - 1].0 > e.0);
        }
        assert forall|j: int| k <= j < s.drop_last().len() implies #[trigger] s.drop_last()[j].0 > e.0 by {
            assert(s.drop_last()[j] == s[j]);
        }
        if k > 0 {
            assert(s.drop_last()[k - 1] == s[k - 1]);
        }
        lemma_insert_at(s.drop_last(), e, k);
        assert(s.insert(k, e) =~= s.drop_last().insert(k, e).push(s.last()));
    }
}

/// The edges leaving `a`, as weight and target, in the order they were
/// added.
fn out_edges_of(g: &petgraph::graph::Graph<ManifestFile, u32>, a: usize) -> (r: Vec<(u32, usize)>)
    ensures
        edge_view(r@) == out_edges(graph_edges(*g), a as int),
{
    let all = pg_all_edges(g);
    let ghost view = graph_edges(*g);
    let mut out: Vec<(u32, usize)> = Vec::new();
    let mut i: usize = 0;
    proof {
        assert(edge_view(out@) =~= out_edges(view.take(0), a as int));
    }
    while i < all.len()
        invariant
            all@.map_values(|e: (usize, usize, u32)| (e.0 as int, e.1 as int, e.2)) == view,
            view == graph_edges(*g),
            i <= all@.len(),
            edge_view(out@) == out_edges(view.take(i as int), a as int),
        decreases all@.len() - i,
    {
        let (s, d, w) = all[i];
        proof {
            assert(view[i as int] == (s as int, d as int, w));
            assert(view.take(i + 1).drop_last() =~= view.take(i as int));
            assert(view.take(i + 1).last() == view[i as int]);
        }
        if s == a {
            out.push((w, d));
            proof {
                assert(edge_view(out@) =~= out_edges(view.take(i as int), a as int).push((w, d as int)));
            }
        }
        i += 1;
    }
    proof {
        assert(view.take(all@.len() as int) =~= view);
    }
    out
}

/// The files `a` includes, in the order of its `includes = [...]`: its
/// out-edges sorted by weight (ties kept in the order they were added).
pub fn children_in_order(g: &petgraph::graph::Graph<ManifestFile, u32>, a: usize) -> (r: Vec<(u32, usize)>)
    requires
        a < graph_nodes(*g).len(),
    ensures
        edge_view(r@) == include_order(*g, a as int),
        edge_view(r@).to_multiset() == out_edges(graph_edges(*g), a as int).to_multiset(),
        by_weight(edge_view(r@)),
{
    let edges = out_edges_of(g, a);
    let mut sorted: Vec<(u32, usize)> = Vec::new();
    let mut i: usize = 0;
    proof {
        assert(edge_view(sorted@) =~= edge_view(edges@.take(0)));
    }
    while i < edges.len()
        invariant
            i <= edges@.len(),
            edge_view(sorted@).to_multiset() == edge_view(edges@.take(i as int)).to_multiset(),
            edge_view(sorted@) == sort_by_weight(edge_view(edges@.take(i as int))),
            by_weight(edge_view(sorted@)),
        decreases edges@.len() - i,
    {
        let e = edges[i];
        let mut k: usize = sorted.len();
        while k > 0 && sorted[k - 1].0 > e.0
            invariant
                k <= sorted@.len(),
                forall|j: int| k <= j < sorted@.len() ==> #[trigger] sorted@[j].0 > e.0,
            decreases k,
        {
            k -= 1;
        }
        let ghost before = sorted@;
        sorted.insert(k, e);
        proof {
            assert(sorted@ == before.insert(k as int, e));
            assert(edge_view(sorted@) =~= edge_view(before).insert(k as int, (e.0, e.1 as int)));
            assert(edge_view(edges@.take(i + 1)) =~= edge_view(edges@.take(i as int)).push((e.0, e.1 as int)));
            assert(edge_view(edges@.take(i + 1)).drop_last() =~= edge_view(edges@.take(i as int)));
            assert forall|j: int| k <= j < edge_view(before).len() implies #[trigger] edge_view(before)[j].0 > e.0 by {
                assert(before[j].0 > e.0);
            }
            lemma_insert_at(edge_view(before), (e.0, e.1 as int), k as int);
            vstd::seq_lib::to_multiset_insert(edge_view(before), k as int, (e.0, e.1 as int));
            vstd::seq_lib::to_multiset_build(edge_view(edges@.take(i as int)), (e.0, e.1 as int));
            assert forall|x: int, y: int| 0 <= x < y < sorted@.len() implies #[trigger] edge_view(sorted@)[x].0 <= #[trigger] edge_view(sorted@)[y].0 by {
                if x < k && y > k {
                    assert(edge_view(sorted@)[x] == edge_view(before)[x]);
                    assert(edge_view(sorted@)[y] == edge_view(before)[y - 1]);
                } else if x < k && y == k {
                    if k > 0 {
                        assert(edge_view(before)[k - 1].0 <= e.0);
                        assert(edge_view(before)[x].0 <= edge_view(before)[k - 1].0) by {
                            if x < k - 1 {
                                assert(by_weight(edge_view(before)));
                            }
                        }
                    }
                } else if x == k {
                    assert(edge_view(sorted@)[y] == edge_view(before)[y - 1]);
                } else if x < k {
                    assert(edge_view(sorted@)[x] == edge_view(before)[x]);
                    assert(edge_view(sorted@)[y] == edge_view(before)[y]);
                } else {
                    assert(edge_view(sorted@)[x] == edge_view(before)[x - 1]);
                    assert(edge_view(sorted@)[y] == edge_view(before)[y - 1]);
                }
            }
        }
        i += 1;
    }
    proof {
        assert(edges@.take(edges@.len() as int) =~= edges@);
    }
    sorted
}

} // verus!
