use vstd::prelude::*;
use crate::goal::{heuristic_bound, GridPos, Goal};

verus! {

/// Supplies the moves out of a cell, already checked to be physically traversable.
pub trait MovementProvider {
    /// The cells reachable in one move from `pos`, each with its cost; `None` when
    /// the provider cannot answer for `pos`, which counts as no moves at all.
    fn neighbors(&self, pos: GridPos) -> Option<Vec<(GridPos, u32)>>;

    /// Whether the caller has asked the search to stop.
    fn cancelled(&self) -> bool;
}

/// Limits on one search.
#[derive(Clone, Copy, Debug, PartialEq, Eq, Structural)]
pub struct SearchBudget {
    /// How many cells may be expanded at most.
    pub max_nodes: u64,
}

/// How a search ended.
#[derive(Debug, PartialEq, Eq)]
pub enum PathResult {
    /// A path from the start to a cell that meets the goal.
    Succeeded(Vec<GridPos>),
    /// Every reachable cell was expanded and none meets the goal.
    Failed,
    /// The provider asked the search to stop.
    Cancelled,
    /// The node budget ran out; holds the path to the expanded cell with the
    /// lowest heuristic, if any cell was expanded.
    BudgetExceeded(Option<Vec<GridPos>>),
}

#[derive(Clone, Copy)]
struct Node {
    pos: GridPos,
    g: u64,
    h: i128,
    parent: usize,
    open: bool,
    closed: bool,
    order: Ghost<nat>,
}

spec fn heuristics_bounded(nodes: Seq<Node>) -> bool {
    forall|k: int| 0 <= k < nodes.len() ==> -heuristic_bound() <= (#[trigger] nodes[k]).h <= heuristic_bound()
}

/// Parent links of the search tree lead back to the start through cells closed
/// strictly earlier.
spec fn tree_wf(nodes: Seq<Node>, start: GridPos, closed_count: nat) -> bool {
    &&& nodes.len() >= 1
    &&& nodes[0].pos == start
    &&& nodes[0].closed ==> nodes[0].order@ == 0
    &&& forall|k: int| 0 <= k < nodes.len() ==> {
        &&& (#[trigger] nodes[k]).closed ==> nodes[k].order@ < closed_count
        &&& nodes[k].open ==> !nodes[k].closed
        &&& k != 0 ==> {
            &&& nodes[k].parent < nodes.len()
            &&& nodes[nodes[k].parent as int].closed
            &&& nodes[k].closed ==> nodes[nodes[k].parent as int].order@ < nodes[k].order@
        }
    }
}

/// The path from the start to closed node `idx`, following parent links.
fn trace_path(nodes: &Vec<Node>, idx: usize, Ghost(start): Ghost<GridPos>, Ghost(closed_count): Ghost<nat>) -> (r: Vec<GridPos>)
    requires
        tree_wf(nodes@, start, closed_count),
        idx < nodes@.len(),
        nodes@[idx as int].closed,
    ensures
        r@.len() >= 1,
        r@[0] == start,
        r@.last() == nodes@[idx as int].pos,
        idx == 0 ==> r@ == seq![start],
{
    let mut rev: Vec<GridPos> = Vec::new();
    let mut i = idx;
    while i != 0
        invariant
            tree_wf(nodes@, start, closed_count),
            i < nodes@.len(),
            nodes@[i as int].closed,
            rev@.len() == 0 ==> i == idx,
            idx == 0 ==> rev@.len() == 0,
            rev@.len() > 0 ==> rev@[0] == nodes@[idx as int].pos,
        decreases nodes@[i as int].order@,
    {
        rev.push(nodes[i].pos);
        i = nodes[i].parent;
    }
    rev.push(nodes[0].pos);
    let mut path: Vec<GridPos> = Vec::new();
    let mut j: usize = rev.len();
    while j > 0
        invariant
            j <= rev@.len(),
            rev@.len() >= 1,
            rev@.last() == start,
            rev@[0] == nodes@[idx as int].pos,
            idx == 0 ==> rev@.len() == 1,
            path@.len() == rev@.len() - j,
            path@.len() > 0 ==> path@[0] == start,
            forall|t: int| 0 <= t < path@.len() ==> path@[t] == rev@[rev@.len() - 1 - t],
        decreases j,
    {
        j = j - 1;
        path.push(rev[j]);
    }
    assert(idx == 0 ==> path@ =~= seq![start]);
    path
}

fn find_node(nodes: &Vec<Node>, pos: GridPos) -> (r: Option<usize>)
    ensures
        r matches Some(k) ==> k < nodes@.len() && nodes@[k as int].pos == pos,
{
    let mut k: usize = 0;
    while k < nodes.len()
        invariant
            k <= nodes@.len(),
        decreases nodes@.len() - k,
    {
        let p = nodes[k].pos;
        if p.x == pos.x && p.y == pos.y && p.z == pos.z {
            return Some(k);
        }
        k = k + 1;
    }
    None
}

/// Total priority `g + h` of a node.
spec fn total(n: Node) -> int {
    n.g + n.h
}

/// Node `a` comes before node `b`: lower total, ties going to the lower `h`.
spec fn before(a: Node, b: Node) -> bool {
    total(a) < total(b) || (total(a) == total(b) && a.h <= b.h)
}

/// The open node with the lowest total `g + h`, ties going to the lower `h`.
fn pick_open(nodes: &Vec<Node>) -> (r: Option<usize>)
    requires
        heuristics_bounded(nodes@),
    ensures
        r matches Some(k) ==> k < nodes@.len() && nodes@[k as int].open,
        r matches Some(k) ==> forall|j: int| 0 <= j < nodes@.len() && (#[trigger] nodes@[j]).open
            ==> before(nodes@[k as int], nodes@[j]),
        r is None ==> forall|k: int| 0 <= k < nodes@.len() ==> !(#[trigger] nodes@[k]).open,
{
    let mut best: Option<usize> = None;
    let mut k: usize = 0;
    while k < nodes.len()
        invariant
            k <= nodes@.len(),
            heuristics_bounded(nodes@),
            best matches Some(b) ==> b < nodes@.len() && nodes@[b as int].open,
            best is None ==> forall|t: int| 0 <= t < k ==> !(#[trigger] nodes@[t]).open,
            best matches Some(b) ==> forall|t: int| 0 <= t < k && (#[trigger] nodes@[t]).open
                ==> before(nodes@[b as int], nodes@[t]),
        decreases nodes@.len() - k,
    {
        if nodes[k].open {
            best = match best {
                None => Some(k),
                Some(b) => {
                    let fb = nodes[b].g as i128 + nodes[b].h;
                    let fk = nodes[k].g as i128 + nodes[k].h;
                    if fk < fb || (fk == fb && nodes[k].h < nodes[b].h) { Some(k) } else { Some(b) }
                },
            };
        }
        k = k + 1;
    }
    best
}

/// A* search from `start` towards `goal`, expanding at most `budget.max_nodes`
/// cells and asking `provider` for the moves out of each expanded cell.
pub fn search<P: MovementProvider>(start: GridPos, goal: &Goal, budget: SearchBudget, provider: &P) -> (r: PathResult)
    requires
        goal.wf(),
    ensures
        budget.max_nodes == 0 ==> r == PathResult::BudgetExceeded(None),
        r matches PathResult::Succeeded(p) ==> {
            &&& p@.len() >= 1
            &&& p@[0] == start
            &&& goal.spec_success(p@.last())
        },
        r matches PathResult::BudgetExceeded(Some(p)) ==> p@.len() >= 1 && p@[0] == start,
        r == PathResult::BudgetExceeded(None) ==> budget.max_nodes == 0,
        r is Failed ==> !goal.spec_success(start),
        budget.max_nodes > 0 && goal.spec_success(start) ==> r is Cancelled || (r matches PathResult::Succeeded(p) && p@ == seq![start]),
{
    let h0 = goal.heuristic(start);
    proof {
        goal.lemma_heuristic_bounded(start);
    }
    let mut nodes: Vec<Node> = Vec::new();
    nodes.push(Node { pos: start, g: 0, h: h0, parent: 0, open: true, closed: false, order: Ghost(0) });
    let mut expanded: u64 = 0;
    let mut best: Option<usize> = None;
    loop
        invariant
            goal.wf(),
            tree_wf(nodes@, start, expanded as nat),
            heuristics_bounded(nodes@),
            !nodes@[0].closed ==> expanded == 0 && nodes@[0].open,
            nodes@[0].closed ==> !goal.spec_success(start),
            expanded <= budget.max_nodes,
            expanded == 0 <==> best is None,
            best matches Some(b) ==> b < nodes@.len() && nodes@[b as int].closed,
        decreases budget.max_nodes - expanded,
    {
        if expanded >= budget.max_nodes {
            let partial = match best {
                None => None,
                Some(b) => Some(trace_path(&nodes, b, Ghost(start), Ghost(expanded as nat))),
            };
            return PathResult::BudgetExceeded(partial);
        }
        if provider.cancelled() {
            return PathResult::Cancelled;
        }
        let cur = match pick_open(&nodes) {
            None => {
                assert(!nodes@[0].open);
                return PathResult::Failed;
            },
            Some(c) => c,
        };
        assert(!nodes@[0].closed ==> cur == 0) by {
            if !nodes@[0].closed && cur != 0 {
                assert(nodes@.len() == 1);
            }
        }
        let ghost before = nodes@;
        let mut node = nodes[cur];
        node.open = false;
        node.closed = true;
        node.order = Ghost(expanded as nat);
        nodes.set(cur, node);
        expanded = expanded + 1;
        assert(tree_wf(nodes@, start, expanded as nat)) by {
            assert forall|k: int| 0 <= k < nodes@.len() && k != 0 && #[trigger] nodes@[k].closed
                implies nodes@[nodes@[k].parent as int].order@ < nodes@[k].order@ by {
                if k != cur {
                    assert(nodes@[k] == before[k]);
                }
            }
        }
        best = match best {
            Some(b) if nodes[b].h <= node.h => Some(b),
            _ => Some(cur),
        };
        if goal.success(node.pos) {
            let path = trace_path(&nodes, cur, Ghost(start), Ghost(expanded as nat));
            return PathResult::Succeeded(path);
        }
        let moves = match provider.neighbors(node.pos) {
            Some(v) => v,
            None => Vec::new(),
        };
        let mut e: usize = 0;
        while e < moves.len()
            invariant
                goal.wf(),
                tree_wf(nodes@, start, expanded as nat),
                heuristics_bounded(nodes@),
                nodes@[0].closed,
                !goal.spec_success(start),
                cur < nodes@.len(),
                nodes@[cur as int].closed,
                best matches Some(b) ==> b < nodes@.len() && nodes@[b as int].closed,
                e <= moves@.len(),
            decreases moves@.len() - e,
        {
            let (npos, cost) = moves[e];
            e = e + 1;
            let g2 = match node.g.checked_add(cost as u64) {
                Some(v) => v,
                None => {
                    continue;
                },
            };
            match find_node(&nodes, npos) {
                Some(k) => {
                    let mut other = nodes[k];
                    if !other.closed && g2 < other.g {
                        other.g = g2;
                        other.parent = cur;
                        other.open = true;
                        nodes.set(k, other);
                    }
                },
                None => {
                    let h = goal.heuristic(npos);
                    proof {
                        goal.lemma_heuristic_bounded(npos);
                    }
                    nodes.push(Node { pos: npos, g: g2, h, parent: cur, open: true, closed: false, order: Ghost(0) });
                },
            }
        }
    }
}

} // verus!
