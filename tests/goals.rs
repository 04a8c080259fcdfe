use voxel_nav::goal::{AndGoal, BlockPosGoal, Goal, GridPos, InverseGoal, OrGoal, Point, RadiusGoal};

fn p(x: i32, y: i32, z: i32) -> GridPos {
    GridPos { x, y, z }
}

fn at(x: i32, y: i32, z: i32) -> Goal {
    Goal::BlockPos(BlockPosGoal { pos: p(x, y, z) })
}

fn samples() -> Vec<GridPos> {
    vec![p(0, 0, 0), p(3, 0, 0), p(10, 64, 10), p(-5, 2, 7), p(0, 64, 0)]
}

#[test]
fn block_goal_heuristic_is_squared_distance() {
    let g = BlockPosGoal { pos: p(1, 2, 3) };
    assert_eq!(g.heuristic(p(1, 2, 3)), 0);
    assert_eq!(g.heuristic(p(4, 6, 3)), 25 * 1024 * 1024);
    assert!(g.success(p(1, 2, 3)));
    assert!(!g.success(p(1, 2, 4)));
}

#[test]
fn radius_goal_measures_from_cell_centre() {
    let g = RadiusGoal { pos: Point { x: 512, y: 512, z: 512 }, radius: 2048 };
    assert_eq!(g.heuristic(p(0, 0, 0)), 0);
    assert_eq!(g.heuristic(p(2, 0, 0)), 2048 * 2048);
    assert!(g.success(p(2, 0, 0)));
    assert!(!g.success(p(2, 1, 0)));
    let goal = Goal::Radius(g);
    assert!(goal.success(p(0, 1, 0)));
}

#[test]
fn or_goal_takes_min_and_either() {
    for n in samples() {
        let a = at(0, 0, 0);
        let b = at(10, 64, 10);
        let ha = a.heuristic(n);
        let hb = b.heuristic(n);
        let sa = a.success(n);
        let sb = b.success(n);
        let or = OrGoal(Box::new(a), Box::new(b));
        assert_eq!(or.heuristic(n), ha.min(hb));
        assert_eq!(or.success(n), sa || sb);
    }
}

#[test]
fn and_goal_takes_max_and_both() {
    for n in samples() {
        let a = at(0, 0, 0);
        let b = Goal::Radius(RadiusGoal { pos: Point { x: 0, y: 0, z: 0 }, radius: 10 * 1024 });
        let ha = a.heuristic(n);
        let hb = b.heuristic(n);
        let sa = a.success(n);
        let sb = b.success(n);
        let and = AndGoal(Box::new(a), Box::new(b));
        assert_eq!(and.heuristic(n), ha.max(hb));
        assert_eq!(and.success(n), sa && sb);
    }
}

#[test]
fn inverse_goal_negates() {
    for n in samples() {
        let a = at(3, 0, 0);
        let h = a.heuristic(n);
        let s = a.success(n);
        let inv = InverseGoal(Box::new(a));
        assert_eq!(inv.heuristic(n), -h);
        assert_eq!(inv.success(n), !s);
    }
    let nested = Goal::Inverse(InverseGoal(Box::new(at(3, 0, 0))));
    assert!(!nested.success(p(3, 0, 0)));
    assert!(nested.success(p(0, 0, 0)));
}

#[test]
fn block_goal_from_position() {
    let g = BlockPosGoal::from(p(4, 5, 6));
    assert_eq!(g.pos, p(4, 5, 6));
    assert!(g.success(p(4, 5, 6)));
}
