//! The bounded branch-forest projection of a session's entries.
//!
//! Nodes are the distinct entry ids in order of first occurrence (at most
//! `TREE_MAX_NODES`). Parent links form a functional graph; on every cycle
//! the link of its earliest node is cut, and a link is also cut where a node
//! would lie deeper than `TREE_MAX_DEPTH`. At most `TREE_MAX_OUTPUT_NODES`
//! nodes are returned, and a link to a node that is not returned is not shown.
use vstd::prelude::*;
use crate::report::{EntryView, IndexedEntry, entries_view, SessionTreeNode, TreeNodeView, tree_view, Diagnostic, DiagnosticView, diagnostics_view, strings_view};
use crate::text::{str_eq, opt_view};

verus! {

pub const TREE_MAX_NODES: usize = 10000;
pub const TREE_MAX_DEPTH: usize = 1024;
pub const TREE_MAX_OUTPUT_NODES: usize = 8000;

/// A node: an entry id with the parent id and position of its first entry.
pub struct NodeInfo {
    pub id: Seq<char>,
    pub parent: Option<Seq<char>>,
    pub order: usize,
}

/// Position of the node named `id`.
pub open spec fn id_pos(nodes: Seq<NodeInfo>, id: Seq<char>) -> Option<nat>
    decreases nodes.len(),
{
    if nodes.len() == 0 {
        None
    } else {
        match id_pos(nodes.drop_last(), id) {
            Some(k) => Some(k),
            None => if nodes.last().id == id {
                Some((nodes.len() - 1) as nat)
            } else {
                None
            },
        }
    }
}

/// The nodes of the entries, and whether some id was dropped at the bound.
pub open spec fn node_fold(es: Seq<EntryView>) -> (Seq<NodeInfo>, bool)
    decreases es.len(),
{
    if es.len() == 0 {
        (Seq::empty(), false)
    } else {
        let (nodes, hit) = node_fold(es.drop_last());
        let e = es.last();
        match e.entry_id {
            None => (nodes, hit),
            Some(id) => if id_pos(nodes, id) is Some {
                (nodes, hit)
            } else if nodes.len() >= TREE_MAX_NODES {
                (nodes, true)
            } else {
                (nodes.push(NodeInfo { id, parent: e.parent_id, order: e.order }), hit)
            },
        }
    }
}

/// Index of the parent node, when the parent id names a node.
pub open spec fn parent_links(nodes: Seq<NodeInfo>) -> Seq<Option<nat>> {
    Seq::new(
        nodes.len(),
        |k: int|
            match nodes[k].parent {
                Some(p) => id_pos(nodes, p),
                None => None,
            },
    )
}

/// The node reached from `k` after `j` parent steps.
pub open spec fn follow(p: Seq<Option<nat>>, k: nat, j: nat) -> Option<nat>
    decreases j,
{
    if j == 0 {
        Some(k)
    } else {
        match follow(p, k, (j - 1) as nat) {
            Some(m) => if m < p.len() {
                p[m as int]
            } else {
                None
            },
            None => None,
        }
    }
}

/// `k` lies on a cycle of parent links.
pub open spec fn on_cycle(p: Seq<Option<nat>>, k: nat) -> bool {
    exists|j: nat| 1 <= j <= p.len() && #[trigger] follow(p, k, j) == Some(k)
}

/// `k` is the earliest node of its cycle.
pub open spec fn cycle_breaker(p: Seq<Option<nat>>, k: nat) -> bool {
    &&& on_cycle(p, k)
    &&& forall|j: nat| 1 <= j <= p.len() ==> at_least(#[trigger] follow(p, k, j), k)
}

/// Links after each cycle is cut at its earliest node.
pub open spec fn acyclic_links(p: Seq<Option<nat>>) -> Seq<Option<nat>> {
    Seq::new(p.len(), |k: int| if cycle_breaker(p, k as nat) { None } else { p[k] })
}

/// Depth of `k` below its root, and whether its own link was cut because it
/// would have been deeper than the bound (a cut node restarts at depth 0).
pub open spec fn depth_cut(p: Seq<Option<nat>>, k: nat, fuel: nat) -> (nat, bool)
    decreases fuel,
{
    if fuel == 0 || k >= p.len() {
        (0, false)
    } else {
        match p[k as int] {
            None => (0, false),
            Some(parent) => {
                let (pd, _) = depth_cut(p, parent, (fuel - 1) as nat);
                if pd + 1 > TREE_MAX_DEPTH {
                    (0, true)
                } else {
                    (pd + 1, false)
                }
            },
        }
    }
}

/// Links after depth cuts.
pub open spec fn bounded_links(p: Seq<Option<nat>>) -> Seq<Option<nat>> {
    Seq::new(p.len(), |k: int| if depth_cut(p, k as nat, p.len()).1 { None } else { p[k] })
}

pub open spec fn count_cuts(p: Seq<Option<nat>>, upto: nat) -> nat
    decreases upto,
{
    if upto == 0 {
        0
    } else {
        count_cuts(p, (upto - 1) as nat) + if depth_cut(p, (upto - 1) as nat, p.len()).1 { 1nat } else { 0nat }
    }
}

/// Nodes before `upto` whose final link is `k`, in order.
pub open spec fn children_upto(links: Seq<Option<nat>>, k: nat, upto: nat) -> Seq<nat>
    decreases upto,
{
    if upto == 0 {
        Seq::empty()
    } else {
        let prior = children_upto(links, k, (upto - 1) as nat);
        if (upto - 1) < links.len() && links[upto - 1] == Some(k) {
            prior.push((upto - 1) as nat)
        } else {
            prior
        }
    }
}

pub open spec fn output_count(n: nat) -> nat {
    if n < TREE_MAX_OUTPUT_NODES {
        n
    } else {
        TREE_MAX_OUTPUT_NODES as nat
    }
}

pub open spec fn parent_visible(links: Seq<Option<nat>>, k: nat, c: nat) -> bool {
    links[k as int] matches Some(p) && p < c
}

pub open spec fn ids_of(nodes: Seq<NodeInfo>, ks: Seq<nat>) -> Seq<Seq<char>> {
    ks.map_values(|m: nat| nodes[m as int].id)
}

/// The returned node for position `k`.
pub open spec fn node_out(nodes: Seq<NodeInfo>, links: Seq<Option<nat>>, k: nat, c: nat) -> TreeNodeView {
    TreeNodeView {
        entry_id: nodes[k as int].id,
        parent_id: if parent_visible(links, k, c) {
            nodes[k as int].parent
        } else {
            None
        },
        children: ids_of(nodes, children_upto(links, k, c)),
    }
}

/// Which nodes a list of ids collects.
#[derive(PartialEq, Eq, Structural, Clone, Copy)]
pub enum NodeSelect {
    Root,
    Orphan,
    Cycle,
    Leaf,
}

pub open spec fn selected(
    nodes: Seq<NodeInfo>,
    p0: Seq<Option<nat>>,
    links: Seq<Option<nat>>,
    c: nat,
    k: nat,
    which: NodeSelect,
) -> bool {
    match which {
        NodeSelect::Root => !parent_visible(links, k, c),
        NodeSelect::Orphan => nodes[k as int].parent is Some && p0[k as int] is None,
        NodeSelect::Cycle => on_cycle(p0, k),
        NodeSelect::Leaf => children_upto(links, k, c).len() == 0,
    }
}

/// Ids of the nodes before `upto` that are selected, in order.
pub open spec fn ids_where(
    nodes: Seq<NodeInfo>,
    p0: Seq<Option<nat>>,
    links: Seq<Option<nat>>,
    c: nat,
    upto: nat,
    which: NodeSelect,
) -> Seq<Seq<char>>
    decreases upto,
{
    if upto == 0 {
        Seq::empty()
    } else {
        let prior = ids_where(nodes, p0, links, c, (upto - 1) as nat, which);
        if selected(nodes, p0, links, c, (upto - 1) as nat, which) {
            prior.push(nodes[upto - 1].id)
        } else {
            prior
        }
    }
}

/// Nodes before `upto` with more than one child.
pub open spec fn branch_count_upto(links: Seq<Option<nat>>, c: nat, upto: nat) -> nat
    decreases upto,
{
    if upto == 0 {
        0
    } else {
        branch_count_upto(links, c, (upto - 1) as nat) + if children_upto(links, (upto - 1) as nat, c).len() > 1 {
            1nat
        } else {
            0nat
        }
    }
}

pub struct TreeView {
    pub nodes: Seq<TreeNodeView>,
    pub roots: Seq<Seq<char>>,
    pub orphan_ids: Seq<Seq<char>>,
    pub cycle_ids: Seq<Seq<char>>,
    pub branch_count: nat,
    pub current_leaf_id: Option<Seq<char>>,
    pub diagnostics: Seq<DiagnosticView>,
}

pub open spec fn tree_diag(code: Seq<char>, detail: Seq<char>) -> DiagnosticView {
    DiagnosticView { code, line: 0, detail }
}

pub open spec fn last_of(s: Seq<Seq<char>>) -> Option<Seq<char>> {
    if s.len() == 0 {
        None
    } else {
        Some(s.last())
    }
}

/// The tree projection of the entries.
pub open spec fn project_tree_spec(es: Seq<EntryView>) -> TreeView {
    let (nodes, node_limit_hit) = node_fold(es);
    let n = nodes.len();
    let p0 = parent_links(nodes);
    let p1 = acyclic_links(p0);
    let links = bounded_links(p1);
    let c = output_count(n);
    let outs = Seq::new(c, |k: int| node_out(nodes, links, k as nat, c));
    let d1 = if node_limit_hit {
        seq![tree_diag("tree-node-limit"@, "projection truncated"@)]
    } else {
        Seq::empty()
    };
    let d2 = if count_cuts(p1, n) > 0 {
        d1.push(tree_diag("tree-depth-limit"@, "parent links cut"@))
    } else {
        d1
    };
    let d3 = if n > TREE_MAX_OUTPUT_NODES {
        d2.push(tree_diag("tree-output-limit"@, "projection truncated"@))
    } else {
        d2
    };
    TreeView {
        nodes: outs,
        roots: ids_where(nodes, p0, links, c, c, NodeSelect::Root),
        orphan_ids: ids_where(nodes, p0, links, c, c, NodeSelect::Orphan),
        cycle_ids: ids_where(nodes, p0, links, c, c, NodeSelect::Cycle),
        branch_count: branch_count_upto(links, c, c),
        current_leaf_id: last_of(ids_where(nodes, p0, links, c, c, NodeSelect::Leaf)),
        diagnostics: d3,
    }
}


/// However many entries a session has, its tree projection holds at most
/// `TREE_MAX_OUTPUT_NODES` nodes, and says so with a diagnostic when it
/// left any out.
pub proof fn lemma_tree_output_bounded(es: Seq<EntryView>)
    ensures
        project_tree_spec(es).nodes.len() <= TREE_MAX_OUTPUT_NODES,
        node_fold(es).0.len() > TREE_MAX_OUTPUT_NODES ==> project_tree_spec(es).diagnostics.len() > 0,
{
}

/// The number of nodes with more than one child: the branch points.
pub open spec fn branch_points(nodes: Seq<TreeNodeView>) -> nat
    decreases nodes.len(),
{
    if nodes.len() == 0 {
        0
    } else {
        branch_points(nodes.drop_last()) + if nodes.last().children.len() > 1 {
            1nat
        } else {
            0nat
        }
    }
}

pub proof fn lemma_branch_points_bounded(nodes: Seq<TreeNodeView>)
    ensures
        branch_points(nodes) <= nodes.len(),
    decreases nodes.len(),
{
    if nodes.len() > 0 {
        lemma_branch_points_bounded(nodes.drop_last());
    }
}

proof fn lemma_branch_points_upto(nodes: Seq<NodeInfo>, links: Seq<Option<nat>>, c: nat, upto: nat)
    requires
        upto <= c,
    ensures
        branch_count_upto(links, c, upto) == branch_points(
            Seq::new(c, |k: int| node_out(nodes, links, k as nat, c)).take(upto as int),
        ),
    decreases upto,
{
    let outs = Seq::new(c, |k: int| node_out(nodes, links, k as nat, c));
    if upto > 0 {
        lemma_branch_points_upto(nodes, links, c, (upto - 1) as nat);
        assert(outs.take(upto as int).drop_last() =~= outs.take(upto - 1));
        assert(outs.take(upto as int).last() == outs[upto - 1]);
        assert(outs[upto - 1].children.len() == children_upto(links, (upto - 1) as nat, c).len());
    }
}

/// The branch count is the number of returned nodes that have more than one
/// child: every fork in the tree, two children or more, is a branch point.
pub proof fn lemma_branch_count(es: Seq<EntryView>)
    ensures
        project_tree_spec(es).branch_count == branch_points(project_tree_spec(es).nodes),
{
    let (nodes, _) = node_fold(es);
    let p1 = acyclic_links(parent_links(nodes));
    let links = bounded_links(p1);
    let c = output_count(nodes.len());
    let outs = Seq::new(c, |k: int| node_out(nodes, links, k as nat, c));
    lemma_branch_points_upto(nodes, links, c, c);
    assert(outs.take(c as int) =~= outs);
}

/// Ids of the nodes without a shown parent, in order.
pub open spec fn parentless_ids(nodes: Seq<TreeNodeView>) -> Seq<Seq<char>>
    decreases nodes.len(),
{
    if nodes.len() == 0 {
        Seq::empty()
    } else if nodes.last().parent_id is None {
        parentless_ids(nodes.drop_last()).push(nodes.last().entry_id)
    } else {
        parentless_ids(nodes.drop_last())
    }
}

/// The id of the last node without children.
pub open spec fn last_childless(nodes: Seq<TreeNodeView>) -> Option<Seq<char>>
    decreases nodes.len(),
{
    if nodes.len() == 0 {
        None
    } else if nodes.last().children.len() == 0 {
        Some(nodes.last().entry_id)
    } else {
        last_childless(nodes.drop_last())
    }
}

proof fn lemma_visible_parent_named(nodes: Seq<NodeInfo>, links: Seq<Option<nat>>, k: nat, c: nat)
    requires
        links == bounded_links(acyclic_links(parent_links(nodes))),
        k < nodes.len(),
        parent_visible(links, k, c),
    ensures
        nodes[k as int].parent is Some,
{
}

proof fn lemma_roots_and_leaf_upto(nodes: Seq<NodeInfo>, links: Seq<Option<nat>>, c: nat, upto: nat)
    requires
        links == bounded_links(acyclic_links(parent_links(nodes))),
        c <= nodes.len(),
        upto <= c,
    ensures
        ({
            let outs = Seq::new(c, |k: int| node_out(nodes, links, k as nat, c));
            let p0 = parent_links(nodes);
            &&& ids_where(nodes, p0, links, c, upto, NodeSelect::Root) == parentless_ids(outs.take(upto as int))
            &&& last_of(ids_where(nodes, p0, links, c, upto, NodeSelect::Leaf)) == last_childless(
                outs.take(upto as int),
            )
        }),
    decreases upto,
{
    let outs = Seq::new(c, |k: int| node_out(nodes, links, k as nat, c));
    let p0 = parent_links(nodes);
    if upto > 0 {
        lemma_roots_and_leaf_upto(nodes, links, c, (upto - 1) as nat);
        let k = (upto - 1) as nat;
        assert(outs.take(upto as int).drop_last() =~= outs.take(upto - 1));
        assert(outs.take(upto as int).last() == outs[k as int]);
        if parent_visible(links, k, c) {
            lemma_visible_parent_named(nodes, links, k, c);
        }
        assert(outs[k as int].children.len() == children_upto(links, k, c).len());
    }
}

/// The roots are the returned nodes that show no parent, in order, and the
/// current leaf is the last returned node without children.
pub proof fn lemma_roots_and_current_leaf(es: Seq<EntryView>)
    ensures
        project_tree_spec(es).roots == parentless_ids(project_tree_spec(es).nodes),
        project_tree_spec(es).current_leaf_id == last_childless(project_tree_spec(es).nodes),
{
    let (nodes, _) = node_fold(es);
    let links = bounded_links(acyclic_links(parent_links(nodes)));
    let c = output_count(nodes.len());
    let outs = Seq::new(c, |k: int| node_out(nodes, links, k as nat, c));
    lemma_roots_and_leaf_upto(nodes, links, c, c);
    assert(outs.take(c as int) =~= outs);
}

// ---------------------------------------------------------------------------
// Executable projection

pub open spec fn link_below(o: Option<usize>, n: nat) -> bool {
    match o {
        Some(q) => q < n,
        None => true,
    }
}

pub open spec fn links_in_range(p: Seq<Option<usize>>) -> bool {
    forall|m: int| 0 <= m < p.len() ==> link_below(#[trigger] p[m], p.len())
}

pub open spec fn at_least(o: Option<nat>, k: nat) -> bool {
    match o {
        Some(m) => k <= m,
        None => true,
    }
}

pub open spec fn node_info_view(n: (String, Option<String>, usize)) -> NodeInfo {
    NodeInfo { id: n.0@, parent: opt_view(n.1), order: n.2 }
}

pub open spec fn nodes_view(v: Seq<(String, Option<String>, usize)>) -> Seq<NodeInfo> {
    v.map_values(|n: (String, Option<String>, usize)| node_info_view(n))
}

pub open spec fn links_view(v: Seq<Option<usize>>) -> Seq<Option<nat>> {
    v.map_values(|o: Option<usize>| match o {
        Some(x) => Some(x as nat),
        None => None,
    })
}

proof fn lemma_id_pos_prefix(s: Seq<NodeInfo>, m: int, id: Seq<char>)
    requires
        0 <= m <= s.len(),
        id_pos(s.take(m), id) is Some,
    ensures
        id_pos(s, id) == id_pos(s.take(m), id),
    decreases s.len() - m,
{
    if m < s.len() {
        assert(s.take(m + 1).drop_last() =~= s.take(m));
        lemma_id_pos_prefix(s, m + 1, id);
    } else {
        assert(s.take(m) =~= s);
    }
}

fn find_node(nodes: &Vec<(String, Option<String>, usize)>, id: &str) -> (r: Option<usize>)
    ensures
        match r {
            Some(k) => id_pos(nodes_view(nodes@), id@) == Some(k as nat) && k < nodes@.len(),
            None => id_pos(nodes_view(nodes@), id@) is None,
        },
{
    let ghost v = nodes_view(nodes@);
    let mut j: usize = 0;
    assert(v.take(0) =~= Seq::<NodeInfo>::empty());
    while j < nodes.len()
        invariant
            j <= nodes@.len(),
            v == nodes_view(nodes@),
            id_pos(v.take(j as int), id@) is None,
        decreases nodes.len() - j,
    {
        assert(v.take(j + 1).drop_last() =~= v.take(j as int));
        assert(v.take(j + 1).last() == node_info_view(nodes@[j as int]));
        if str_eq(nodes[j].0.as_str(), id) {
            proof {
                lemma_id_pos_prefix(v, j + 1, id@);
            }
            return Some(j);
        }
        j = j + 1;
    }
    assert(v.take(j as int) =~= v);
    None
}

fn clone_opt(o: &Option<String>) -> (r: Option<String>)
    ensures
        opt_view(r) == opt_view(*o),
{
    match o {
        Some(s) => Some(s.clone()),
        None => None,
    }
}

/// Distinct entry ids in order of first occurrence, up to the node bound.
fn build_nodes(entries: &Vec<IndexedEntry>) -> (r: (Vec<(String, Option<String>, usize)>, bool))
    ensures
        (nodes_view(r.0@), r.1) == node_fold(entries_view(entries@)),
        r.0@.len() <= TREE_MAX_NODES,
{
    let ghost es = entries_view(entries@);
    let mut nodes: Vec<(String, Option<String>, usize)> = Vec::new();
    let mut hit = false;
    let mut i: usize = 0;
    assert(nodes_view(nodes@) =~= Seq::<NodeInfo>::empty());
    while i < entries.len()
        invariant
            i <= entries@.len(),
            es == entries_view(entries@),
            (nodes_view(nodes@), hit) == node_fold(es.take(i as int)),
            nodes@.len() <= TREE_MAX_NODES,
        decreases entries.len() - i,
    {
        assert(es.take(i + 1).drop_last() =~= es.take(i as int));
        assert(es.take(i + 1).last() == entries@[i as int]@);
        match &entries[i].entry_id {
            Some(id) => {
                match find_node(&nodes, id.as_str()) {
                    Some(_) => {},
                    None => {
                        if nodes.len() >= TREE_MAX_NODES {
                            hit = true;
                        } else {
                            let ghost before = nodes@;
                            nodes.push((id.clone(), clone_opt(&entries[i].parent_id), entries[i].order));
                            assert(nodes_view(nodes@) =~= nodes_view(before).push(node_info_view(nodes@[before.len() as int])));
                        }
                    },
                }
            },
            None => {},
        }
        i = i + 1;
    }
    assert(es.take(entries@.len() as int) =~= es);
    (nodes, hit)
}

fn build_parent_links(nodes: &Vec<(String, Option<String>, usize)>) -> (r: Vec<Option<usize>>)
    ensures
        links_view(r@) == parent_links(nodes_view(nodes@)),
        links_in_range(r@),
{
    let ghost v = nodes_view(nodes@);
    let mut links: Vec<Option<usize>> = Vec::new();
    let mut k: usize = 0;
    while k < nodes.len()
        invariant
            k <= nodes@.len(),
            v == nodes_view(nodes@),
            links@.len() == k,
            forall|j: int| 0 <= j < k ==> links_view(links@)[j] == parent_links(v)[j],
            forall|j: int| 0 <= j < k ==> link_below(#[trigger] links@[j], nodes@.len()),
        decreases nodes.len() - k,
    {
        let link = match &nodes[k].1 {
            Some(parent) => find_node(nodes, parent.as_str()),
            None => None,
        };
        links.push(link);
        k = k + 1;
    }
    assert(links_view(links@) =~= parent_links(v));
    links
}

proof fn lemma_follow_none(p: Seq<Option<nat>>, k: nat, j: nat, j2: nat)
    requires
        j <= j2,
        follow(p, k, j) is None,
    ensures
        follow(p, k, j2) is None,
    decreases j2 - j,
{
    if j < j2 {
        lemma_follow_none(p, k, j, (j2 - 1) as nat);
    }
}

/// Whether node `k` lies on a cycle.
pub fn node_on_cycle(p: &Vec<Option<usize>>, k: usize) -> (r: bool)
    requires
        links_in_range(p@),
        k < p@.len(),
    ensures
        r == on_cycle(links_view(p@), k as nat),
{
    let ghost lv = links_view(p@);
    let n = p.len();
    let mut cur: usize = k;
    let mut j: usize = 0;
    while j < n
        invariant
            j <= n,
            n == p@.len(),
            lv == links_view(p@),
            k < n,
            cur < n,
            follow(lv, k as nat, j as nat) == Some(cur as nat),
            links_in_range(p@),
            forall|i: nat| 1 <= i <= j ==> #[trigger] follow(lv, k as nat, i) != Some(k as nat),
        decreases n - j,
    {
        assert(lv[cur as int] == match p@[cur as int] { Some(x) => Some(x as nat), None => None::<nat> });
        match p[cur] {
            Some(next) => {
                j = j + 1;
                cur = next;
                if cur == k {
                    assert(follow(lv, k as nat, j as nat) == Some(k as nat));
                    return true;
                }
            },
            None => {
                assert(follow(lv, k as nat, (j + 1) as nat) is None);
                assert forall|i: nat| 1 <= i <= lv.len() implies #[trigger] follow(lv, k as nat, i) != Some(k as nat) by {
                    if i > j {
                        lemma_follow_none(lv, k as nat, (j + 1) as nat, i);
                    }
                }
                return false;
            },
        }
    }
    false
}

/// Whether node `k` is the earliest node of its cycle.
fn node_is_breaker(p: &Vec<Option<usize>>, k: usize) -> (r: bool)
    requires
        links_in_range(p@),
        k < p@.len(),
    ensures
        r == cycle_breaker(links_view(p@), k as nat),
{
    if !node_on_cycle(p, k) {
        return false;
    }
    let ghost lv = links_view(p@);
    let n = p.len();
    let mut cur: usize = k;
    let mut j: usize = 0;
    while j < n
        invariant
            j <= n,
            n == p@.len(),
            lv == links_view(p@),
            k < n,
            cur < n,
            follow(lv, k as nat, j as nat) == Some(cur as nat),
            on_cycle(lv, k as nat),
            links_in_range(p@),
            forall|i: nat| 1 <= i <= j ==> at_least(#[trigger] follow(lv, k as nat, i), k as nat),
        decreases n - j,
    {
        assert(lv[cur as int] == match p@[cur as int] { Some(x) => Some(x as nat), None => None::<nat> });
        match p[cur] {
            Some(next) => {
                j = j + 1;
                cur = next;
                if cur < k {
                    assert(follow(lv, k as nat, j as nat) == Some(cur as nat));
                    return false;
                }
            },
            None => {
                assert(follow(lv, k as nat, (j + 1) as nat) is None);
                assert forall|i: nat| 1 <= i <= lv.len() implies at_least(#[trigger] follow(lv, k as nat, i), k as nat) by {
                    if i > j {
                        lemma_follow_none(lv, k as nat, (j + 1) as nat, i);
                    }
                }
                return true;
            },
        }
    }
    true
}

fn cut_cycles(p: &Vec<Option<usize>>) -> (r: Vec<Option<usize>>)
    requires
        links_in_range(p@),
    ensures
        links_view(r@) == acyclic_links(links_view(p@)),
        r@.len() == p@.len(),
        links_in_range(r@),
{
    let mut out: Vec<Option<usize>> = Vec::new();
    let mut k: usize = 0;
    while k < p.len()
        invariant
            k <= p@.len(),
            out@.len() == k,
            links_in_range(p@),
            forall|j: int| 0 <= j < k ==> links_view(out@)[j] == acyclic_links(links_view(p@))[j],
            forall|j: int| 0 <= j < k ==> link_below(#[trigger] out@[j], p@.len()),
        decreases p.len() - k,
    {
        let link = if node_is_breaker(p, k) {
            None
        } else {
            p[k]
        };
        let ghost before = out@;
        out.push(link);
        proof {
            assert(links_view(out@) =~= links_view(before).push(match link { Some(x) => Some(x as nat), None => None::<nat> }));
        }
        k = k + 1;
    }
    assert(links_view(out@) =~= acyclic_links(links_view(p@)));
    out
}

/// The nodes met from `k` upward, at most `fuel + 1` of them.
fn depth_of(p: &Vec<Option<usize>>, k: usize, fuel: usize) -> (r: (usize, bool))
    requires
        links_in_range(p@),
        k < p@.len(),
    ensures
        (r.0 as nat, r.1) == depth_cut(links_view(p@), k as nat, fuel as nat),
{
    let ghost lv = links_view(p@);
    let mut chain: Vec<usize> = Vec::new();
    let mut cur: usize = k;
    let mut f: usize = fuel;
    chain.push(k);
    loop
        invariant
            chain@.len() >= 1,
            chain@.last() == cur,
            cur < p@.len(),
            lv == links_view(p@),
            links_in_range(p@),
            f + chain@.len() == fuel + 1,
            chain@[0] == k,
            forall|i: int| 0 <= i < chain@.len() ==> (#[trigger] chain@[i]) < p@.len(),
            forall|i: int| 0 <= i < chain@.len() - 1 ==> p@[chain@[i] as int] == Some(#[trigger] chain@[i + 1]),
        ensures
            chain@.len() >= 1,
            chain@.last() == cur,
            f + chain@.len() == fuel + 1,
            chain@[0] == k,
            forall|i: int| 0 <= i < chain@.len() ==> (#[trigger] chain@[i]) < p@.len(),
            forall|i: int| 0 <= i < chain@.len() - 1 ==> p@[chain@[i] as int] == Some(#[trigger] chain@[i + 1]),
            depth_cut(lv, cur as nat, f as nat) == (0nat, false),
        decreases f,
    {
        if f == 0 {
            break;
        }
        match p[cur] {
            None => {
                break;
            },
            Some(next) => {
                cur = next;
                chain.push(next);
                f = f - 1;
            },
        }
    }
    let mut i = chain.len() - 1;
    let mut depth: usize = 0;
    let mut cut = false;
    while i > 0
        invariant
            i < chain@.len(),
            f + chain@.len() == fuel + 1,
            lv == links_view(p@),
            chain@[0] == k,
            forall|j: int| 0 <= j < chain@.len() ==> (#[trigger] chain@[j]) < p@.len(),
            forall|j: int| 0 <= j < chain@.len() - 1 ==> p@[chain@[j] as int] == Some(#[trigger] chain@[j + 1]),
            (depth as nat, cut) == depth_cut(lv, chain@[i as int] as nat, (fuel - i) as nat),
            depth <= TREE_MAX_DEPTH,
        decreases i,
    {
        i = i - 1;
        let node = chain[i];
        assert(lv[node as int] == Some(chain@[i + 1] as nat));
        assert(fuel - i >= 1);
        if depth + 1 > TREE_MAX_DEPTH {
            depth = 0;
            cut = true;
        } else {
            depth = depth + 1;
            cut = false;
        }
    }
    (depth, cut)
}


fn cut_deep_links(p: &Vec<Option<usize>>) -> (r: (Vec<Option<usize>>, usize))
    requires
        links_in_range(p@),
    ensures
        links_view(r.0@) == bounded_links(links_view(p@)),
        r.0@.len() == p@.len(),
        links_in_range(r.0@),
        r.1 == count_cuts(links_view(p@), p@.len() as nat),
{
    let ghost lv = links_view(p@);
    let n = p.len();
    let mut out: Vec<Option<usize>> = Vec::new();
    let mut cuts: usize = 0;
    let mut k: usize = 0;
    while k < n
        invariant
            k <= n,
            n == p@.len(),
            lv == links_view(p@),
            links_in_range(p@),
            out@.len() == k,
            cuts <= k,
            cuts == count_cuts(lv, k as nat),
            forall|j: int| 0 <= j < k ==> links_view(out@)[j] == bounded_links(lv)[j],
            forall|j: int| 0 <= j < k ==> link_below(#[trigger] out@[j], n as nat),
        decreases n - k,
    {
        let (_, cut) = depth_of(p, k, n);
        let link = if cut {
            None
        } else {
            p[k]
        };
        let ghost before = out@;
        out.push(link);
        proof {
            assert(links_view(out@) =~= links_view(before).push(match link { Some(x) => Some(x as nat), None => None::<nat> }));
            assert(lv.len() == n);
        }
        if cut {
            cuts = cuts + 1;
        }
        k = k + 1;
    }
    assert(links_view(out@) =~= bounded_links(lv));
    (out, cuts)
}

pub open spec fn idx_view(v: Seq<usize>) -> Seq<nat> {
    v.map_values(|x: usize| x as nat)
}

fn children_of(links: &Vec<Option<usize>>, k: usize, c: usize) -> (r: Vec<usize>)
    requires
        c <= links@.len(),
    ensures
        idx_view(r@) == children_upto(links_view(links@), k as nat, c as nat),
        forall|i: int| 0 <= i < r@.len() ==> (#[trigger] r@[i]) < c,
{
    let ghost lv = links_view(links@);
    let mut out: Vec<usize> = Vec::new();
    let mut m: usize = 0;
    while m < c
        invariant
            m <= c <= links@.len(),
            lv == links_view(links@),
            idx_view(out@) == children_upto(lv, k as nat, m as nat),
            forall|i: int| 0 <= i < out@.len() ==> (#[trigger] out@[i]) < c,
        decreases c - m,
    {
        let ghost before = out@;
        let hit = match links[m] {
            Some(q) => q == k,
            None => false,
        };
        assert(hit == (lv[m as int] == Some(k as nat)));
        if hit {
            out.push(m);
            assert(idx_view(out@) =~= idx_view(before).push(m as nat));
        }
        m = m + 1;
    }
    out
}

/// Builds the bounded forest projection.
pub struct TreeProjection {
    pub nodes: Vec<SessionTreeNode>,
    pub roots: Vec<String>,
    pub orphan_ids: Vec<String>,
    pub cycle_ids: Vec<String>,
    pub branch_count: usize,
    pub current_leaf_id: Option<String>,
    pub diagnostics: Vec<Diagnostic>,
}

impl TreeProjection {
    pub open spec fn view(&self) -> TreeView {
        TreeView {
            nodes: tree_view(self.nodes@),
            roots: strings_view(self.roots@),
            orphan_ids: strings_view(self.orphan_ids@),
            cycle_ids: strings_view(self.cycle_ids@),
            branch_count: self.branch_count as nat,
            current_leaf_id: opt_view(self.current_leaf_id),
            diagnostics: diagnostics_view(self.diagnostics@),
        }
    }
}

fn ids_for(nodes: &Vec<(String, Option<String>, usize)>, ks: &Vec<usize>) -> (r: Vec<String>)
    requires
        forall|i: int| 0 <= i < ks@.len() ==> (#[trigger] ks@[i]) < nodes@.len(),
    ensures
        strings_view(r@) == ids_of(nodes_view(nodes@), idx_view(ks@)),
{
    let mut out: Vec<String> = Vec::new();
    let mut i: usize = 0;
    while i < ks.len()
        invariant
            i <= ks@.len(),
            forall|j: int| 0 <= j < ks@.len() ==> (#[trigger] ks@[j]) < nodes@.len(),
            strings_view(out@) == ids_of(nodes_view(nodes@), idx_view(ks@.take(i as int))),
        decreases ks.len() - i,
    {
        let ghost before = out@;
        out.push(nodes[ks[i]].0.clone());
        assert(idx_view(ks@.take(i + 1)) =~= idx_view(ks@.take(i as int)).push(ks@[i as int] as nat));
        assert(strings_view(out@) =~= strings_view(before).push(nodes@[ks@[i as int] as int].0@));
        assert(ids_of(nodes_view(nodes@), idx_view(ks@.take(i + 1))) =~= ids_of(nodes_view(nodes@), idx_view(ks@.take(i as int))).push(nodes_view(nodes@)[ks@[i as int] as int].id));
        i = i + 1;
    }
    assert(ks@.take(ks@.len() as int) =~= ks@);
    out
}

fn diag(code: &str, detail: &str) -> (r: Diagnostic)
    ensures
        r@ == tree_diag(code@, detail@),
{
    Diagnostic { code: code.to_owned(), line: 0, detail: detail.to_owned() }
}

/// The bounded, linear-chain-safe forest projection of the entries.
pub fn project_tree(entries: &Vec<IndexedEntry>) -> (r: TreeProjection)
    ensures
        r.view() == project_tree_spec(entries_view(entries@)),
{
    let (nodes, node_limit_hit) = build_nodes(entries);
    let ghost nv = nodes_view(nodes@);
    let p0 = build_parent_links(&nodes);
    let p1 = cut_cycles(&p0);
    let (links, cuts) = cut_deep_links(&p1);
    let ghost lp0 = links_view(p0@);
    let ghost ll = links_view(links@);
    let n = nodes.len();
    let c = if n < TREE_MAX_OUTPUT_NODES {
        n
    } else {
        TREE_MAX_OUTPUT_NODES
    };
    let mut out_nodes: Vec<SessionTreeNode> = Vec::new();
    let mut roots: Vec<String> = Vec::new();
    let mut orphan_ids: Vec<String> = Vec::new();
    let mut cycle_ids: Vec<String> = Vec::new();
    let mut branch_count: usize = 0;
    let mut leaf: Option<String> = None;
    let mut k: usize = 0;
    while k < c
        invariant
            k <= c,
            c == output_count(n as nat),
            n == nodes@.len(),
            nv == nodes_view(nodes@),
            lp0 == links_view(p0@),
            ll == links_view(links@),
            lp0 == parent_links(nv),
            ll == bounded_links(acyclic_links(lp0)),
            p0@.len() == n,
            links@.len() == n,
            links_in_range(p0@),
            links_in_range(links@),
            branch_count <= k,
            tree_view(out_nodes@) == Seq::new(k as nat, |j: int| node_out(nv, ll, j as nat, c as nat)),
            strings_view(roots@) == ids_where(nv, lp0, ll, c as nat, k as nat, NodeSelect::Root),
            strings_view(orphan_ids@) == ids_where(nv, lp0, ll, c as nat, k as nat, NodeSelect::Orphan),
            strings_view(cycle_ids@) == ids_where(nv, lp0, ll, c as nat, k as nat, NodeSelect::Cycle),
            branch_count == branch_count_upto(ll, c as nat, k as nat),
            opt_view(leaf) == last_of(ids_where(nv, lp0, ll, c as nat, k as nat, NodeSelect::Leaf)),
        decreases c - k,
    {
        let children = children_of(&links, k, c);
        let child_ids = ids_for(&nodes, &children);
        let visible = match links[k] {
            Some(p) => p < c,
            None => false,
        };
        assert(visible == parent_visible(ll, k as nat, c as nat));
        let parent = if visible {
            clone_opt(&nodes[k].1)
        } else {
            None
        };
        let id = nodes[k].0.clone();
        let ghost before_nodes = out_nodes@;
        out_nodes.push(SessionTreeNode { entry_id: id, parent_id: parent, children: child_ids });
        proof {
            let expected = node_out(nv, ll, k as nat, c as nat);
            assert(tree_view(before_nodes).len() == k);
            assert(before_nodes.len() == k);
            assert(out_nodes@.len() == k + 1);
            assert(nv.len() == n);
            assert(nv[k as int] == node_info_view(nodes@[k as int]));
            assert(out_nodes@[k as int]@.entry_id == expected.entry_id);
            assert(out_nodes@[k as int]@.parent_id == expected.parent_id);
            assert(out_nodes@[k as int]@.children == expected.children);
            assert(out_nodes@[k as int]@ == expected);
            assert(tree_view(out_nodes@) =~= tree_view(before_nodes).push(expected));
            assert(tree_view(out_nodes@) =~= Seq::new((k + 1) as nat, |j: int| node_out(nv, ll, j as nat, c as nat)));
        }
        let ghost rb = roots@;
        if !visible {
            roots.push(nodes[k].0.clone());
            assert(strings_view(roots@) =~= strings_view(rb).push(nv[k as int].id));
        }
        let orphan = nodes[k].1.is_some() && p0[k].is_none();
        assert(orphan == (nv[k as int].parent is Some && lp0[k as int] is None));
        let ghost ob = orphan_ids@;
        if orphan {
            orphan_ids.push(nodes[k].0.clone());
            assert(strings_view(orphan_ids@) =~= strings_view(ob).push(nv[k as int].id));
        }
        let ghost cb = cycle_ids@;
        if node_on_cycle(&p0, k) {
            cycle_ids.push(nodes[k].0.clone());
            assert(strings_view(cycle_ids@) =~= strings_view(cb).push(nv[k as int].id));
        }
        if children.len() > 1 {
            branch_count = branch_count + 1;
        }
        if children.len() == 0 {
            leaf = Some(nodes[k].0.clone());
        }
        k = k + 1;
    }
    let mut diagnostics: Vec<Diagnostic> = Vec::new();
    if node_limit_hit {
        diagnostics.push(diag("tree-node-limit", "projection truncated"));
    }
    if cuts > 0 {
        diagnostics.push(diag("tree-depth-limit", "parent links cut"));
    }
    if n > TREE_MAX_OUTPUT_NODES {
        diagnostics.push(diag("tree-output-limit", "projection truncated"));
    }
    let r = TreeProjection {
        nodes: out_nodes,
        roots,
        orphan_ids,
        cycle_ids,
        branch_count,
        current_leaf_id: leaf,
        diagnostics,
    };
    proof {
        let d1 = if node_limit_hit {
            seq![tree_diag("tree-node-limit"@, "projection truncated"@)]
        } else {
            Seq::empty()
        };
        let d2 = if cuts > 0 {
            d1.push(tree_diag("tree-depth-limit"@, "parent links cut"@))
        } else {
            d1
        };
        let d3 = if n > TREE_MAX_OUTPUT_NODES {
            d2.push(tree_diag("tree-output-limit"@, "projection truncated"@))
        } else {
            d2
        };
        assert(diagnostics_view(r.diagnostics@) =~= d3);
        assert(tree_view(r.nodes@) =~= Seq::new(c as nat, |j: int| node_out(nv, ll, j as nat, c as nat)));
    }
    r
}

} // verus!
