use voxel_nav::goal::{BlockPosGoal, Goal, GridPos};
use voxel_nav::search::{search, MovementProvider, PathResult, SearchBudget};

struct OpenWorld;

impl MovementProvider for OpenWorld {
    fn neighbors(&self, pos: GridPos) -> Option<Vec<(GridPos, u32)>> {
        let mut v = Vec::new();
        for (dx, dy, dz) in [(1, 0, 0), (-1, 0, 0), (0, 1, 0), (0, -1, 0), (0, 0, 1), (0, 0, -1)] {
            v.push((GridPos { x: pos.x + dx, y: pos.y + dy, z: pos.z + dz }, 1));
        }
        Some(v)
    }
    fn cancelled(&self) -> bool {
        false
    }
}

struct Walled;

impl MovementProvider for Walled {
    fn neighbors(&self, _pos: GridPos) -> Option<Vec<(GridPos, u32)>> {
        Some(Vec::new())
    }
    fn cancelled(&self) -> bool {
        false
    }
}

struct Unknown;

impl MovementProvider for Unknown {
    fn neighbors(&self, _pos: GridPos) -> Option<Vec<(GridPos, u32)>> {
        None
    }
    fn cancelled(&self) -> bool {
        false
    }
}

struct Stopped;

impl MovementProvider for Stopped {
    fn neighbors(&self, pos: GridPos) -> Option<Vec<(GridPos, u32)>> {
        OpenWorld.neighbors(pos)
    }
    fn cancelled(&self) -> bool {
        true
    }
}

fn target() -> Goal {
    Goal::BlockPos(BlockPosGoal { pos: GridPos { x: 10, y: 64, z: 10 } })
}

fn start() -> GridPos {
    GridPos { x: 0, y: 64, z: 0 }
}

fn budget(n: u64) -> SearchBudget {
    SearchBudget { max_nodes: n }
}

#[test]
fn open_world_search_succeeds() {
    let goal = target();
    match search(start(), &goal, budget(100_000), &OpenWorld) {
        PathResult::Succeeded(path) => {
            assert_eq!(path[0], start());
            assert!(goal.success(*path.last().unwrap()));
            assert_eq!(path.len(), 21);
            for w in path.windows(2) {
                let d = (w[0].x - w[1].x).abs() + (w[0].y - w[1].y).abs() + (w[0].z - w[1].z).abs();
                assert_eq!(d, 1);
            }
        }
        other => panic!("unexpected {:?}", other),
    }
}

#[test]
fn no_neighbors_fails() {
    assert_eq!(search(start(), &target(), budget(100_000), &Walled), PathResult::Failed);
    assert_eq!(search(start(), &target(), budget(100_000), &Unknown), PathResult::Failed);
}

#[test]
fn zero_budget_expands_nothing() {
    assert_eq!(search(start(), &target(), budget(0), &OpenWorld), PathResult::BudgetExceeded(None));
    assert_eq!(search(start(), &target(), budget(0), &Stopped), PathResult::BudgetExceeded(None));
}

#[test]
fn small_budget_gives_partial_path() {
    match search(start(), &target(), budget(3), &OpenWorld) {
        PathResult::BudgetExceeded(Some(path)) => {
            assert_eq!(path[0], start());
            assert!(path.len() >= 2);
        }
        other => panic!("unexpected {:?}", other),
    }
}

#[test]
fn cancellation_is_reported() {
    assert_eq!(search(start(), &target(), budget(10), &Stopped), PathResult::Cancelled);
}

#[test]
fn start_meeting_goal_is_a_one_cell_path() {
    let goal = Goal::BlockPos(BlockPosGoal { pos: start() });
    assert_eq!(search(start(), &goal, budget(1), &Walled), PathResult::Succeeded(vec![start()]));
}

#[test]
fn identical_searches_give_identical_paths() {
    let a = search(start(), &target(), budget(100_000), &OpenWorld);
    let b = search(start(), &target(), budget(100_000), &OpenWorld);
    assert_eq!(a, b);
    assert!(matches!(a, PathResult::Succeeded(_)));
}
