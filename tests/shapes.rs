use voxel_nav::collide::{Aabb, Shapes};
use voxel_nav::shape::DiscreteVoxelShape;
use voxel_nav::voxel::{block_shape, empty_shape, ArrayVoxelShape, Axis, CubeVoxelShape, VoxelShape, UNITS_PER_BLOCK};

fn bx(min_x: i64, min_y: i64, min_z: i64, max_x: i64, max_y: i64, max_z: i64) -> Aabb {
    Aabb { min_x, min_y, min_z, max_x, max_y, max_z }
}

/// A box one block wide, one block to the west of the origin block.
fn west_box() -> Aabb {
    bx(-2 * UNITS_PER_BLOCK, 0, 0, -UNITS_PER_BLOCK, UNITS_PER_BLOCK, UNITS_PER_BLOCK)
}

#[test]
fn coords_have_one_more_entry_than_cells() {
    let mut g = DiscreteVoxelShape::new(2, 3, 4);
    g.fill(1, 2, 3);
    let cube = VoxelShape::Cube(CubeVoxelShape::new(g));
    assert_eq!(cube.get_x_coords().len() as u32, cube.shape().x_size() + 1);
    assert_eq!(cube.get_y_coords().len() as u32, cube.shape().y_size() + 1);
    assert_eq!(cube.get_z_coords().len() as u32, cube.shape().z_size() + 1);
    assert_eq!(cube.get_x_coords(), vec![0, 512, 1024]);
    assert_eq!(cube.get_y_coords(), vec![0, 341, 682, 1024]);
    let e = empty_shape();
    assert_eq!(e.get_x_coords(), vec![0]);
    assert_eq!(e.shape().x_size(), 0);
}

#[test]
fn fill_marks_one_cell() {
    let mut g = DiscreteVoxelShape::new(2, 2, 2);
    assert!(g.is_empty());
    g.fill(1, 0, 1);
    assert!(!g.is_empty());
    assert!(g.is_full(1, 0, 1));
    assert!(!g.is_full(0, 0, 1));
    assert!(!g.is_full(5, 0, 1));
}

#[test]
fn block_shape_is_one_full_cell() {
    let b = block_shape();
    assert_eq!(b.shape().x_size(), 1);
    assert!(b.shape().is_full(0, 0, 0));
    assert_eq!(b.get_z_coords(), vec![0, UNITS_PER_BLOCK]);
}

#[test]
fn move_relative_of_empty_is_empty() {
    let e = empty_shape();
    let moved = e.move_relative(5000, -7, 123456);
    assert!(moved.shape().is_empty());
    assert_eq!(moved.get_x_coords(), vec![0]);
    assert_eq!(moved.get_y_coords(), vec![0]);
}

#[test]
fn move_relative_shifts_every_coordinate() {
    let moved = block_shape().move_relative(1024, -10, 3);
    assert!(matches!(moved, VoxelShape::Array(_)));
    assert_eq!(moved.get_x_coords(), vec![1024, 2048]);
    assert_eq!(moved.get_y_coords(), vec![-10, 1014]);
    assert_eq!(moved.get_z_coords(), vec![3, 1027]);
    assert!(moved.shape().is_full(0, 0, 0));
}

#[test]
fn array_shape_keeps_its_coordinates() {
    let g = DiscreteVoxelShape::new(1, 1, 1);
    let a = ArrayVoxelShape::new(g, vec![3, 9], vec![1, 2], vec![0, 5]);
    assert_eq!(a.xs, vec![3, 9]);
    let s = VoxelShape::Array(a);
    assert_eq!(s.get_coords(Axis::Z), vec![0, 5]);
}

#[test]
fn zero_movement_stays_zero() {
    let shapes = vec![block_shape(), block_shape().move_relative(0, 0, 1024)];
    assert_eq!(Shapes::collide_x(&west_box(), &shapes, 0), 0);
    assert_eq!(Shapes::collide_y(&west_box(), &shapes, 0), 0);
    assert_eq!(Shapes::collide_x(&west_box(), &vec![], 0), 0);
}

#[test]
fn no_shapes_leave_movement_unchanged() {
    assert_eq!(Shapes::collide_x(&west_box(), &vec![], 777), 777);
    assert_eq!(Shapes::collide_z(&west_box(), &vec![], -5), -5);
}

#[test]
fn block_ahead_stops_the_box_at_its_face() {
    let shapes = vec![block_shape()];
    assert_eq!(Shapes::collide_x(&west_box(), &shapes, 2000), 1024);
    assert_eq!(Shapes::collide_x(&west_box(), &shapes, 500), 500);
    assert_eq!(Shapes::collide_x(&west_box(), &shapes, -300), -300);
    let east = bx(2048, 0, 0, 3072, 1024, 1024);
    assert_eq!(Shapes::collide_x(&east, &shapes, -5000), -1024);
    assert_eq!(block_shape().collide(Axis::X, &west_box(), 4096), 1024);
}

#[test]
fn block_not_in_the_path_does_not_block() {
    let shapes = vec![block_shape()];
    let above = bx(-2048, 2048, 0, -1024, 3072, 1024);
    assert_eq!(Shapes::collide_x(&above, &shapes, 5000), 5000);
    let empties = vec![empty_shape(), empty_shape()];
    assert_eq!(Shapes::collide_x(&west_box(), &empties, 5000), 5000);
}

#[test]
fn shapes_cut_the_movement_in_turn() {
    let near = block_shape();
    let far = block_shape().move_relative(-1024, 0, 0);
    let bx_far = bx(-4096, 0, 0, -3072, 1024, 1024);
    let shapes = vec![near, far];
    assert_eq!(Shapes::collide_x(&bx_far, &shapes, 10000), 2048);
    let shapes_y = vec![block_shape().move_relative(0, 4096, 0)];
    let low = bx(0, 0, 0, 1024, 1024, 1024);
    assert_eq!(Shapes::collide_y(&low, &shapes_y, 9000), 3072);
    assert_eq!(Shapes::collide(Axis::Y, &low, &shapes_y, 100), 100);
}

#[test]
fn longer_request_never_gives_shorter_result() {
    let shapes = vec![block_shape(), block_shape().move_relative(0, 0, 2048)];
    let mut last = 0;
    for m in [0i64, 1, 10, 500, 1024, 1025, 4000, 100000] {
        let r = Shapes::collide_x(&west_box(), &shapes, m);
        assert!(r >= last);
        assert!(r <= m);
        last = r;
    }
    assert_eq!(last, 1024);
}

#[test]
fn sub_epsilon_movement_settles_at_zero() {
    let shapes = vec![block_shape()];
    let touching = bx(-1024, 0, 0, 0, 1024, 1024);
    assert_eq!(Shapes::collide_x(&touching, &shapes, 50), 0);
    assert_eq!(Shapes::collide_x(&touching, &vec![block_shape(), block_shape()], 50), 0);
}
