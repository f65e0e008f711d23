use spiral_memory::Cursor;
use spiral_memory::Grid;
use spiral_memory::Vec2;
use spiral_memory::find_ring;
use spiral_memory::manhattan_distance;
use spiral_memory::sum_cells;
use spiral_memory::sum_to_target;

#[test]
fn ring() {
    assert_eq!(find_ring(24), 2);
}

#[test]
fn manhattan_distance_works() {
    assert_eq!(manhattan_distance(24), 3);
}

#[test]
fn ring_boundaries() {
    assert_eq!(find_ring(1), 0);
    assert_eq!(find_ring(2), 1);
    assert_eq!(find_ring(9), 1);
    assert_eq!(find_ring(10), 2);
    assert_eq!(find_ring(25), 2);
    assert_eq!(find_ring(26), 3);
    assert_eq!(find_ring(49), 3);
}

#[test]
fn manhattan_distance_center() {
    assert_eq!(manhattan_distance(1), 0);
}

#[test]
fn manhattan_distance_ring_one_corner_adjacent() {
    assert_eq!(manhattan_distance(12), 3);
}

#[test]
fn manhattan_distance_small_values() {
    assert_eq!(manhattan_distance(2), 1);
    assert_eq!(manhattan_distance(3), 2);
    assert_eq!(manhattan_distance(4), 1);
    assert_eq!(manhattan_distance(9), 2);
    assert_eq!(manhattan_distance(10), 3);
    assert_eq!(manhattan_distance(23), 2);
    assert_eq!(manhattan_distance(25), 4);
    assert_eq!(manhattan_distance(1024), 31);
}

#[test]
fn manhattan_distance_matches_brute_force() {
    // Walk the numbering spiral with the library's own cursor, recording
    // each visited coordinate, and compare the closed-form distance with
    // |x| + |y| measured on the walked layout.
    let mut grid = Grid::new();
    grid.insert(Vec2::new(0, 0), 1);
    let mut cursor = Cursor::new();
    assert_eq!(manhattan_distance(1), 0);
    for n in 2..=400i64 {
        cursor.next(&grid);
        grid.insert(cursor.pos, n);
        let walked = cursor.pos.x.abs() + cursor.pos.y.abs();
        assert_eq!(manhattan_distance(n) as i128, walked, "cell {}", n);
    }
}

#[test]
fn cursor_walks_the_spiral_path() {
    let expected: [(i128, i128); 9] = [
        (1, 0),
        (1, 1),
        (0, 1),
        (-1, 1),
        (-1, 0),
        (-1, -1),
        (0, -1),
        (1, -1),
        (2, -1),
    ];
    let mut grid = Grid::new();
    grid.insert(Vec2::new(0, 0), 1);
    let mut cursor = Cursor::new();
    for (i, &(x, y)) in expected.iter().enumerate() {
        cursor.next(&grid);
        grid.insert(cursor.pos, i as i64 + 2);
        assert_eq!((cursor.pos.x, cursor.pos.y), (x, y), "cell {}", i + 2);
    }
}

#[test]
fn sum_to_target_first_value_greater() {
    assert_eq!(sum_to_target(1), 2);
    assert_eq!(sum_to_target(748), 806);
}

#[test]
fn sum_to_target_boundary_target_zero() {
    assert_eq!(sum_to_target(0), 1);
    assert_eq!(sum_to_target(-5), 1);
}

#[test]
fn sum_to_target_reproduces_canonical_sequence() {
    let canonical: [i64; 23] = [
        1, 1, 2, 4, 5, 10, 11, 23, 25, 26, 54, 57, 59, 122, 133, 142, 147, 304, 330, 351, 362,
        747, 806,
    ];
    for i in 0..canonical.len() - 1 {
        let target = canonical[i];
        let expected = canonical[i + 1..]
            .iter()
            .copied()
            .find(|&v| v > target)
            .unwrap();
        assert_eq!(sum_to_target(target), expected, "target {}", target);
    }
    // Between-value targets resolve to the next entry of the sequence.
    assert_eq!(sum_to_target(3), 4);
    assert_eq!(sum_to_target(100), 122);
    assert_eq!(sum_to_target(400), 747);
    assert_eq!(sum_to_target(746), 747);
    assert_eq!(sum_to_target(747), 806);
}

#[test]
fn repeated_calls_return_the_same_output() {
    assert_eq!(manhattan_distance(277), manhattan_distance(277));
    assert_eq!(find_ring(277), find_ring(277));
    assert_eq!(sum_to_target(277), sum_to_target(277));
}

#[test]
fn vec2_component_wise_operations() {
    let a = Vec2::new(3, -2);
    let b = Vec2::new(-1, 5);
    assert_eq!(a.add(b), Vec2::new(2, 3));
    assert_eq!(a.sub(b), Vec2::new(4, -7));
    assert_eq!(a.neg(), Vec2::new(-3, 2));
}

#[test]
fn vec2_rotations() {
    let v = Vec2::new(1, 0);
    assert_eq!(v.rota(), Vec2::new(0, 1));
    assert_eq!(v.rota().rota(), Vec2::new(-1, 0));
    assert_eq!(v.rota().rota().rota(), Vec2::new(0, -1));
    assert_eq!(v.rota().rota().rota().rota(), v);
    assert_eq!(v.rota_cw(), Vec2::new(0, -1));
    assert_eq!(v.rota_cw().rota(), v);
    assert_eq!(Vec2::new(3, 7).rota(), Vec2::new(-7, 3));
    assert_eq!(Vec2::new(3, 7).rota_cw(), Vec2::new(7, -3));
}

#[test]
fn grid_lookup_and_overwrite() {
    let mut g = Grid::new();
    assert_eq!(g.len(), 0);
    assert_eq!(g.lookup(Vec2::new(0, 0)), None);
    assert!(!g.contains(Vec2::new(0, 0)));
    g.insert(Vec2::new(0, 0), 1);
    g.insert(Vec2::new(2, -3), 7);
    assert_eq!(g.lookup(Vec2::new(0, 0)), Some(1));
    assert_eq!(g.lookup(Vec2::new(2, -3)), Some(7));
    assert_eq!(g.lookup(Vec2::new(-2, 3)), None);
    assert!(g.contains(Vec2::new(2, -3)));
    g.insert(Vec2::new(2, -3), 9);
    assert_eq!(g.lookup(Vec2::new(2, -3)), Some(9));
}

#[test]
fn sum_cells_reads_missing_cells_as_zero() {
    let mut g = Grid::new();
    g.insert(Vec2::new(0, 0), 1);
    g.insert(Vec2::new(1, 0), 4);
    g.insert(Vec2::new(1, 1), 6);
    let ps = [
        Vec2::new(0, 0),
        Vec2::new(1, 0),
        Vec2::new(1, 1),
        Vec2::new(5, 5),
    ];
    assert_eq!(sum_cells(&g, &ps), 11);
    assert_eq!(sum_cells(&g, &[]), 0);
    assert_eq!(sum_cells(&g, &[Vec2::new(9, 9)]), 0);
}
