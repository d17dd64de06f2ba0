use life_cubed::SimError;
use life_cubed::cell::{Cell, Color, Position};
use life_cubed::grid::Grid;

fn alive_cell(x: i32, y: i32, z: i32) -> Cell {
    Cell {
        position: Position { x, y, z },
        alive: true,
        color: Color { r: 0, g: 255, b: 0 },
    }
}

#[test]
fn new_rejects_nonpositive_dimensions() {
    assert_eq!(Grid::new(0, 3, 3).err(), Some(SimError::InvalidDimension));
    assert_eq!(Grid::new(3, 0, 3).err(), Some(SimError::InvalidDimension));
    assert_eq!(Grid::new(3, 3, 0).err(), Some(SimError::InvalidDimension));
    assert_eq!(Grid::new(-1, 3, 3).err(), Some(SimError::InvalidDimension));
    assert_eq!(Grid::new(3, -2, 3).err(), Some(SimError::InvalidDimension));
    assert_eq!(Grid::new(3, 3, -7).err(), Some(SimError::InvalidDimension));
    assert_eq!(Grid::new(0, 0, 0).err(), Some(SimError::InvalidDimension));
}

#[test]
fn new_produces_exactly_dead_cells() {
    let g = Grid::new(3, 4, 5).unwrap();
    let mut count = 0usize;
    for x in 0..3 {
        for y in 0..4 {
            for z in 0..5 {
                let cell = g.get(x, y, z).unwrap();
                assert!(!cell.alive);
                assert_eq!(cell.position, Position { x, y, z });
                count += 1;
            }
        }
    }
    assert_eq!(count, 60);
}

#[test]
fn get_fails_out_of_bounds() {
    let g = Grid::new(3, 3, 3).unwrap();
    assert_eq!(g.get(3, 0, 0).err(), Some(SimError::OutOfBounds));
    assert_eq!(g.get(0, 3, 0).err(), Some(SimError::OutOfBounds));
    assert_eq!(g.get(0, 0, 3).err(), Some(SimError::OutOfBounds));
    assert_eq!(g.get(-1, 0, 0).err(), Some(SimError::OutOfBounds));
    assert_eq!(g.get(0, -1, 0).err(), Some(SimError::OutOfBounds));
    assert_eq!(g.get(0, 0, -1).err(), Some(SimError::OutOfBounds));
    assert!(g.get(2, 2, 2).is_ok());
}

#[test]
fn set_fails_out_of_bounds() {
    let mut g = Grid::new(3, 3, 3).unwrap();
    let cell = alive_cell(0, 0, 0);
    assert_eq!(g.set(3, 0, 0, cell).err(), Some(SimError::OutOfBounds));
    assert_eq!(g.set(0, -1, 0, cell).err(), Some(SimError::OutOfBounds));
    assert_eq!(g.set(0, 0, 5, cell).err(), Some(SimError::OutOfBounds));
    for x in 0..3 {
        for y in 0..3 {
            for z in 0..3 {
                assert!(!g.get(x, y, z).unwrap().alive);
            }
        }
    }
}

#[test]
fn set_overwrites_only_its_target() {
    let mut g = Grid::new(2, 2, 2).unwrap();
    g.set(1, 0, 1, alive_cell(1, 0, 1)).unwrap();
    for x in 0..2 {
        for y in 0..2 {
            for z in 0..2 {
                let cell = g.get(x, y, z).unwrap();
                assert_eq!(cell.alive, (x, y, z) == (1, 0, 1));
            }
        }
    }
}

#[test]
fn neighbor_counts_on_all_alive_grid() {
    let mut g = Grid::new(3, 3, 3).unwrap();
    for x in 0..3 {
        for y in 0..3 {
            for z in 0..3 {
                g.set(x, y, z, alive_cell(x, y, z)).unwrap();
            }
        }
    }
    // A corner sees the 7 other cells of its 2x2x2 block; the center sees
    // every other cell of the 3x3x3 grid.
    assert_eq!(g.count_alive_neighbors(0, 0, 0).unwrap(), 7);
    assert_eq!(g.count_alive_neighbors(2, 2, 2).unwrap(), 7);
    assert_eq!(g.count_alive_neighbors(1, 1, 1).unwrap(), 26);
    // An edge midpoint sees a 2x2x3 block minus itself.
    assert_eq!(g.count_alive_neighbors(0, 0, 1).unwrap(), 11);
    // A face center sees a 2x3x3 block minus itself.
    assert_eq!(g.count_alive_neighbors(0, 1, 1).unwrap(), 17);
}

#[test]
fn neighbor_count_fails_out_of_bounds() {
    let g = Grid::new(3, 3, 3).unwrap();
    assert_eq!(g.count_alive_neighbors(3, 1, 1).err(), Some(SimError::OutOfBounds));
    assert_eq!(g.count_alive_neighbors(1, -1, 1).err(), Some(SimError::OutOfBounds));
}

#[test]
fn neighbor_count_excludes_the_center() {
    let mut g = Grid::new(3, 3, 3).unwrap();
    g.set(1, 1, 1, alive_cell(1, 1, 1)).unwrap();
    assert_eq!(g.count_alive_neighbors(1, 1, 1).unwrap(), 0);
    assert_eq!(g.count_alive_neighbors(0, 0, 0).unwrap(), 1);
    assert_eq!(g.count_alive_neighbors(2, 1, 0).unwrap(), 1);
}
